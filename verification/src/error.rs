//! The errors that the registry reports to its clients.

use crate::json::{json_string, push_json_string, push_text};
use vstd::utf8::encode_utf8;
use crate::response::{Response, ResponseView};
use vstd::prelude::*;
use vstd::string::*;

verus! {

/// An error of the taxonomy: its code and its message.
pub type ErrorSpec = (&'static str, &'static str);

/// A blob is not in the store.
pub const BLOB_UNKNOWN: ErrorSpec = ("BLOB_UNKNOWN", "blob unknown to registry");

/// A manifest is not in the store.
pub const MANIFEST_UNKNOWN: ErrorSpec = ("MANIFEST_UNKNOWN", "manifest unknown to registry");

/// Anything that was not foreseen; the cause is carried as the detail.
pub const UNKNOWN_ERROR: ErrorSpec = ("UNKNOWN_ERROR", "something is very wrong");

/// The declared digest is not the digest of the uploaded bytes.
pub const DIGEST_INVALID: ErrorSpec = (
    "DIGEST_INVALID",
    "provided digest did not match uploaded content",
);

/// A chunk does not continue the upload where it stands.
pub const BLOB_UPLOAD_INVALID: ErrorSpec = ("BLOB_UPLOAD_INVALID", "blob upload invalid");

/// The body of a manifest upload is not a manifest.
pub const MANIFEST_INVALID: ErrorSpec = ("MANIFEST_INVALID", "manifest invalid");

/// More about an error, for the client to act on.
#[derive(Debug, Clone)]
pub struct Detail {
    pub reason: String,
}

/// One error as the distribution protocol reports it.
#[derive(Debug, Clone)]
pub struct RegistryError {
    /// Identifies the kind of error: upper-case letters and underscores.
    pub code: String,
    /// For a human reader.
    pub message: String,
    /// What the client can use to resolve the issue.
    pub detail: Detail,
}

/// The mathematical content of a `RegistryError`.
pub struct RegistryErrorView {
    pub code: Seq<char>,
    pub message: Seq<char>,
    pub reason: Seq<char>,
}

impl View for RegistryError {
    type V = RegistryErrorView;

    open spec fn view(&self) -> RegistryErrorView {
        RegistryErrorView {
            code: self.code@,
            message: self.message@,
            reason: self.detail.reason@,
        }
    }
}

/// Whether `code` is made of upper-case letters and underscores.
pub open spec fn is_error_code(code: Seq<char>) -> bool {
    code.len() > 0 && forall|i: int|
        0 <= i < code.len() ==> ('A' <= #[trigger] code[i] <= 'Z' || code[i] == '_')
}

/// The error of kind `spec` with `reason` as its detail.
pub open spec fn error_of(spec: ErrorSpec, reason: Seq<char>) -> RegistryErrorView {
    RegistryErrorView { code: spec.0@, message: spec.1@, reason }
}

/// The JSON document that reports `e`: an object whose `errors` array holds
/// the one error.
pub open spec fn error_body(e: RegistryErrorView) -> Seq<u8> {
    encode_utf8("{\"errors\":[{\"code\":"@) + json_string(e.code) + encode_utf8(",\"message\":"@)
        + json_string(e.message) + encode_utf8(",\"detail\":{\"reason\":"@) + json_string(
        e.reason,
    ) + encode_utf8("}}]}"@)
}

/// The response that reports `e` with `status`.
pub open spec fn error_response(e: RegistryErrorView, status: u16) -> ResponseView {
    ResponseView {
        status,
        headers: seq![("Content-Type"@, "application/json"@)],
        body: error_body(e),
    }
}

impl RegistryError {
    /// An error of the taxonomy, without a detail.
    pub fn from(spec: ErrorSpec) -> (e: RegistryError)
        ensures
            e@ == error_of(spec, Seq::empty()),
    {
        RegistryError {
            code: String::from_str(spec.0),
            message: String::from_str(spec.1),
            detail: Detail { reason: String::new() },
        }
    }

    /// An error of the taxonomy whose detail is the text of its cause.
    pub fn from_err(spec: ErrorSpec, cause: &str) -> (e: RegistryError)
        ensures
            e@ == error_of(spec, cause@),
    {
        RegistryError {
            code: String::from_str(spec.0),
            message: String::from_str(spec.1),
            detail: Detail { reason: String::from_str(cause) },
        }
    }

    /// The code, a colon, a blank and the message.
    pub fn to_string(&self) -> (text: String)
        ensures
            text@ == self@.code + ": "@ + self@.message,
    {
        let mut text = self.code.clone();
        text.append(": ");
        text.append(self.message.as_str());
        text
    }

    /// The JSON document that reports this error.
    pub fn body(&self) -> (bytes: Vec<u8>)
        ensures
            bytes@ == error_body(self@),
    {
        let mut bytes: Vec<u8> = Vec::new();
        push_text(&mut bytes, "{\"errors\":[{\"code\":");
        push_json_string(&mut bytes, self.code.as_str());
        push_text(&mut bytes, ",\"message\":");
        push_json_string(&mut bytes, self.message.as_str());
        push_text(&mut bytes, ",\"detail\":{\"reason\":");
        push_json_string(&mut bytes, self.detail.reason.as_str());
        push_text(&mut bytes, "}}]}");
        assert(bytes@ =~= error_body(self@));
        bytes
    }

    /// The response that reports this error with `status`.
    pub fn respond_with(&self, status: u16) -> (r: Response)
        ensures
            r@ == error_response(self@, status),
    {
        let r = Response::new(status).with_header(
            "Content-Type",
            String::from_str("application/json"),
        ).with_body(self.body());
        assert(r@.headers =~= seq![("Content-Type"@, "application/json"@)]);
        r
    }

    /// The response that reports this error as something that was not
    /// found.
    pub fn respond(&self) -> (r: Response)
        ensures
            r@ == error_response(self@, 404),
    {
        self.respond_with(404)
    }
}

/// The codes of the taxonomy are upper-case letters and underscores.
pub proof fn lemma_taxonomy_codes()
    ensures
        is_error_code(BLOB_UNKNOWN.0@),
        is_error_code(MANIFEST_UNKNOWN.0@),
        is_error_code(UNKNOWN_ERROR.0@),
        is_error_code(DIGEST_INVALID.0@),
        is_error_code(BLOB_UPLOAD_INVALID.0@),
        is_error_code(MANIFEST_INVALID.0@),
{
    reveal_strlit("BLOB_UNKNOWN");
    reveal_strlit("MANIFEST_UNKNOWN");
    reveal_strlit("UNKNOWN_ERROR");
    reveal_strlit("DIGEST_INVALID");
    reveal_strlit("BLOB_UPLOAD_INVALID");
    reveal_strlit("MANIFEST_INVALID");
}

/// The codes of the taxonomy differ from each other, so a client can branch
/// on them.
pub proof fn lemma_taxonomy_distinct()
    ensures
        BLOB_UNKNOWN.0@ != MANIFEST_UNKNOWN.0@,
        BLOB_UNKNOWN.0@ != UNKNOWN_ERROR.0@,
        MANIFEST_UNKNOWN.0@ != UNKNOWN_ERROR.0@,
{
    reveal_strlit("BLOB_UNKNOWN");
    reveal_strlit("MANIFEST_UNKNOWN");
    reveal_strlit("UNKNOWN_ERROR");
    assert("BLOB_UNKNOWN"@.len() == 12);
    assert("MANIFEST_UNKNOWN"@.len() == 16);
    assert("UNKNOWN_ERROR"@.len() == 13);
}

} // verus!
