//! Uploading a blob: a session is started, fed chunk by chunk, and completed
//! under the digest of what was staged.

use crate::blob::{
    blob_path, is_present, lemma_staging_apart, opened, upload_path, BlobStream, Store,
};
use crate::error::{
    error_of, error_response, RegistryError, BLOB_UNKNOWN, BLOB_UPLOAD_INVALID, DIGEST_INVALID,
    UNKNOWN_ERROR,
};
use crate::response::{Response, ResponseView};
use crate::model::{
    apply, content, flat, lemma_content_of_file, lemma_content_of_nothing, Node, World,
};
use crate::path::{is_absolute, is_entry_name};
use crate::range::{declared_range, parse_range};
use crate::storage::{cause, cause_of, Action, ActionView, Outcome, OutcomeView};
use crate::text::{decimal, u64_to_string};
use crate::util::{digest_of, is_hex_digit, sha256_digest};
use vstd::prelude::*;
use vstd::string::*;

verus! {

/// The media type that blobs are served with.
pub const IMAGE_LAYER_MEDIA_TYPE: &'static str = "application/vnd.oci.image.layer.v1.tar";

/// The digest that the client declares when it completes an upload.
#[derive(Debug)]
pub struct PutDigest {
    pub digest: String,
}

/// Whether `id` has the shape of a session id: 32 hexadecimal digits in
/// groups of 8, 4, 4, 4 and 12, with a hyphen between the groups.
pub open spec fn is_session_id(id: Seq<char>) -> bool {
    &&& id.len() == 36
    &&& forall|i: int|
        0 <= i < 36 ==> if i == 8 || i == 13 || i == 18 || i == 23 {
            #[trigger] id[i] == '-'
        } else {
            is_hex_digit(id[i])
        }
}

/// Calls `uuid::Uuid::new_v4` and writes the result as text. Trusted: the
/// text has the shape of a session id. Which id it is depends on the random
/// numbers of the machine, so nothing more is said of it.
#[verifier::external_body]
fn new_session_id() -> (id: String)
    ensures
        is_session_id(id@),
{
    uuid::Uuid::new_v4().to_string()
}

/// A session id names an entry of a directory: it holds no separator, so
/// the staging file of the session lies in the staging directory.
pub proof fn lemma_session_id_is_entry_name(id: Seq<char>)
    requires
        is_session_id(id),
    ensures
        is_entry_name(id),
        !is_absolute(id),
{
    assert forall|i: int| 0 <= i < id.len() implies id[i] != '/' by {
        if i == 8 || i == 13 || i == 18 || i == 23 {
            assert(id[i] == '-');
        } else {
            assert(is_hex_digit(id[i]));
        }
    }
    assert(id[0] != '/');
}

/// Where the upload session `id` of `namespace` is addressed.
pub open spec fn upload_location(server_url: Seq<char>, namespace: Seq<char>, id: Seq<char>) -> Seq<
    char,
> {
    server_url + "/v2/"@ + namespace + "/blobs/upload/"@ + id
}

/// The range of bytes that a session holds: from zero to `offset`.
pub open spec fn range_text(offset: nat) -> Seq<char> {
    "0-"@ + decimal(offset)
}

/// The answer to a started upload: the session is addressed, and holds no
/// bytes yet.
pub open spec fn started_response(
    server_url: Seq<char>,
    namespace: Seq<char>,
    id: Seq<char>,
) -> ResponseView {
    ResponseView {
        status: 202,
        headers: seq![
            ("Location"@, upload_location(server_url, namespace, id)),
            ("Docker-Upload-UUID"@, id),
            ("Range"@, range_text(0)),
        ],
        body: Seq::empty(),
    }
}

/// The answer to an accepted chunk: the session holds `offset` bytes.
pub open spec fn accepted_response(
    server_url: Seq<char>,
    namespace: Seq<char>,
    id: Seq<char>,
    offset: nat,
) -> ResponseView {
    ResponseView {
        status: 202,
        headers: seq![
            ("Location"@, upload_location(server_url, namespace, id)),
            ("Docker-Upload-UUID"@, id),
            ("Content-Length"@, "0"@),
            ("Range"@, range_text(offset)),
        ],
        body: Seq::empty(),
    }
}

/// The answer to a completed upload: the blob is committed under `digest`.
pub open spec fn created_response(namespace: Seq<char>, digest: Seq<char>) -> ResponseView {
    ResponseView {
        status: 201,
        headers: seq![
            ("Location"@, "/v2/"@ + namespace + "/blobs/upload/"@ + digest),
            ("Content-Length"@, "0"@),
            ("Docker-Content-Digest"@, digest),
        ],
        body: Seq::empty(),
    }
}

/// The answer to the question whether a blob is committed.
pub open spec fn exists_response(digest: Seq<char>, found: bool) -> ResponseView {
    if found {
        ResponseView {
            status: 200,
            headers: seq![("Docker-Content-Digest"@, digest)],
            body: Seq::empty(),
        }
    } else {
        error_response(error_of(BLOB_UNKNOWN, Seq::empty()), 404)
    }
}

/// The head of the answer that serves a blob; its body is the stream of
/// the blob's chunks.
pub open spec fn blob_response(digest: Seq<char>, found: bool) -> ResponseView {
    if found {
        ResponseView {
            status: 200,
            headers: seq![
                ("Content-Type"@, IMAGE_LAYER_MEDIA_TYPE@),
                ("Docker-Content-Digest"@, digest),
            ],
            body: Seq::empty(),
        }
    } else {
        error_response(error_of(BLOB_UNKNOWN, Seq::empty()), 404)
    }
}

fn location_of(server_url: &str, namespace: &str, id: &str) -> (text: String)
    ensures
        text@ == upload_location(server_url@, namespace@, id@),
{
    let mut text = String::from_str(server_url);
    text.append("/v2/");
    text.append(namespace);
    text.append("/blobs/upload/");
    text.append(id);
    text
}

fn range_of(offset: u64) -> (text: String)
    ensures
        text@ == range_text(offset as nat),
{
    let mut text = String::from_str("0-");
    let digits = u64_to_string(offset);
    text.append(digits.as_str());
    text
}

/// Answers a started upload for the session `id`.
pub fn upload_started(server_url: &str, namespace: &str, id: &str) -> (r: Response)
    ensures
        r@ == started_response(server_url@, namespace@, id@),
{
    let r = Response::new(202).with_header(
        "Location",
        location_of(server_url, namespace, id),
    ).with_header("Docker-Upload-UUID", String::from_str(id)).with_header("Range", range_of(0));
    assert(r@.headers =~= started_response(server_url@, namespace@, id@).headers);
    r
}

/// Starts an upload: a fresh session id is drawn and answered with. No
/// file is made before the first chunk arrives.
pub fn start_blob_upload(server_url: &str, namespace: &str) -> (r: Response)
    ensures
        exists|id: Seq<char>|
            is_session_id(id) && r@ == #[trigger] started_response(server_url@, namespace@, id),
{
    let id = new_session_id();
    upload_started(server_url, namespace, id.as_str())
}

/// Answers whether the blob `digest` is committed, from the outcome of the
/// store's `blob_exists` call.
pub fn blob_exists(digest: &str, outcome: &Outcome) -> (r: Response)
    ensures
        r@ == exists_response(digest@, outcome@ == OutcomeView::Present(true)),
{
    if is_present(outcome) {
        let r = Response::new(200).with_header("Docker-Content-Digest", String::from_str(digest));
        assert(r@.headers =~= exists_response(digest@, true).headers);
        r
    } else {
        RegistryError::from(BLOB_UNKNOWN).respond()
    }
}

/// Serves the blob `digest`, from the outcome of the store's `get_blob`
/// call: the head of the answer, and the stream of the blob's chunks for
/// its body. A blob that could not be opened is reported as unknown, and
/// has no stream.
pub fn get_blob(store: &Store, digest: &str, outcome: &Outcome) -> (r: (
    Response,
    Option<BlobStream>,
))
    ensures
        r.0@ == blob_response(digest@, outcome@ is Done),
        r.1.is_some() == (outcome@ is Done),
        r.1 matches Some(stream) ==> {
            &&& stream.path@ == blob_path(store.dir@, digest@)
            &&& stream.buf_size == store.buf_size
            &&& stream.offset == 0
            &&& !stream.ended
        },
{
    match opened(outcome) {
        Ok(_) => {
            let r = Response::new(200).with_header(
                "Content-Type",
                String::from_str(IMAGE_LAYER_MEDIA_TYPE),
            ).with_header("Docker-Content-Digest", String::from_str(digest));
            assert(r@.headers =~= blob_response(digest@, true).headers);
            (r, Some(store.stream(digest)))
        },
        Err(e) => (e.respond(), None),
    }
}

/// Where an upload stands.
#[derive(Debug, Clone, Copy, PartialEq, Eq, Structural)]
pub enum Stage {
    /// Asking whether the staging file is there.
    Probe,
    /// Asking how many bytes the staging file holds.
    Measure,
    /// Creating the staging file.
    Create,
    /// Waiting for the next chunk of the body.
    Receive,
    /// Writing a chunk at the end of the staging file.
    Store,
    /// Reading the staged bytes to recompute their digest.
    Verify,
    /// Renaming the staging file to the committed file.
    Commit,
    /// Answered.
    Finished,
}

/// One request that feeds an upload session: it appends the chunks of the
/// request's body to the staging file and, where a digest is declared,
/// commits the file under that digest.
#[derive(Debug)]
pub struct Upload {
    pub server_url: String,
    pub namespace: String,
    pub id: String,
    /// The blob store that the session stages in and commits to.
    pub store: Store,
    /// The offset at which the client says its body starts.
    pub declared_start: Option<u64>,
    /// The digest that the client declares, where it completes the upload.
    pub digest: Option<String>,
    pub stage: Stage,
    /// How many bytes the staging file holds.
    pub offset: u64,
    /// The chunk that is being written.
    pub chunk: Vec<u8>,
    /// The answer, once there is one.
    pub response: Option<Response>,
}

/// The mathematical content of an `Upload`.
pub struct UploadView {
    pub server_url: Seq<char>,
    pub namespace: Seq<char>,
    pub id: Seq<char>,
    /// The staging file.
    pub path: Seq<char>,
    pub declared_start: Option<u64>,
    pub digest: Option<Seq<char>>,
    /// The committed file, where the upload is completed.
    pub blob_path: Seq<char>,
    pub stage: Stage,
    pub offset: u64,
    pub chunk: Seq<u8>,
    pub response: Option<ResponseView>,
}

impl View for Upload {
    type V = UploadView;

    open spec fn view(&self) -> UploadView {
        UploadView {
            server_url: self.server_url@,
            namespace: self.namespace@,
            id: self.id@,
            path: upload_path(self.store.dir@, self.id@),
            declared_start: self.declared_start,
            digest: match self.digest {
                Some(d) => Some(d@),
                None => None,
            },
            blob_path: match self.digest {
                Some(d) => blob_path(self.store.dir@, d@),
                None => Seq::empty(),
            },
            stage: self.stage,
            offset: self.offset,
            chunk: self.chunk@,
            response: match self.response {
                Some(r) => Some(r@),
                None => None,
            },
        }
    }
}

/// The upload answered with `response`.
pub open spec fn answered(s: UploadView, response: ResponseView) -> UploadView {
    UploadView { stage: Stage::Finished, chunk: Seq::empty(), response: Some(response), ..s }
}

/// The upload given up because a call did not go as it had to.
pub open spec fn broken(s: UploadView, o: OutcomeView) -> UploadView {
    answered(s, error_response(error_of(UNKNOWN_ERROR, cause_of(o)), 500))
}

/// The upload given up because the session would hold more bytes than an
/// offset can count.
pub open spec fn too_long(s: UploadView) -> UploadView {
    answered(s, error_response(error_of(UNKNOWN_ERROR, "the upload is too long"@), 500))
}

/// The upload refused because the body does not start where the session
/// stands.
pub open spec fn refused(s: UploadView) -> UploadView {
    answered(s, error_response(error_of(BLOB_UPLOAD_INVALID, Seq::empty()), 416))
}

/// Whether a body that is declared to start at `declared` continues a
/// session that holds `held` bytes. A body that declares nothing does.
pub open spec fn continues(declared: Option<u64>, held: u64) -> bool {
    match declared {
        Some(start) => start == held,
        None => true,
    }
}

/// The call that an upload waits for, if it is not answered yet.
pub open spec fn upload_call(s: UploadView) -> Option<ActionView> {
    match s.stage {
        Stage::Probe => Some(ActionView::Exists { path: s.path }),
        Stage::Measure => Some(ActionView::Size { path: s.path }),
        Stage::Create => Some(ActionView::Create { path: s.path }),
        Stage::Receive => Some(ActionView::NextChunk),
        Stage::Store => Some(ActionView::Append { path: s.path, bytes: s.chunk }),
        Stage::Verify => Some(ActionView::Read { path: s.path }),
        Stage::Commit => Some(ActionView::Rename { from: s.path, to: s.blob_path }),
        Stage::Finished => None,
    }
}

/// The upload after the digest of the staged bytes was computed: the
/// staging file is committed only if the digest is the declared one.
pub open spec fn upload_checked(s: UploadView, computed: Seq<char>) -> UploadView {
    if s.stage == Stage::Verify && s.digest == Some(computed) {
        UploadView { stage: Stage::Commit, ..s }
    } else if s.stage == Stage::Verify {
        answered(s, error_response(error_of(DIGEST_INVALID, Seq::empty()), 400))
    } else {
        s
    }
}

/// The upload after the outcome `o` of the call it waited for.
pub open spec fn upload_fed(s: UploadView, o: OutcomeView) -> UploadView {
    match s.stage {
        Stage::Probe => match o {
            OutcomeView::Present(true) => UploadView { stage: Stage::Measure, ..s },
            OutcomeView::Present(false) => if continues(s.declared_start, 0) {
                UploadView { stage: Stage::Create, ..s }
            } else {
                refused(s)
            },
            _ => broken(s, o),
        },
        Stage::Measure => match o {
            OutcomeView::Length(held) => if continues(s.declared_start, held) {
                UploadView { stage: Stage::Receive, offset: held, ..s }
            } else {
                refused(s)
            },
            _ => broken(s, o),
        },
        Stage::Create => match o {
            OutcomeView::Done => UploadView { stage: Stage::Receive, offset: 0, ..s },
            _ => broken(s, o),
        },
        Stage::Receive => match o {
            OutcomeView::Data(bytes) => if bytes.len() == 0 {
                s
            } else {
                UploadView { stage: Stage::Store, chunk: bytes, ..s }
            },
            OutcomeView::End => match s.digest {
                Some(_) => UploadView { stage: Stage::Verify, ..s },
                None => answered(
                    s,
                    accepted_response(s.server_url, s.namespace, s.id, s.offset as nat),
                ),
            },
            _ => broken(s, o),
        },
        Stage::Store => match o {
            OutcomeView::Done => if s.offset + s.chunk.len() <= u64::MAX {
                UploadView {
                    stage: Stage::Receive,
                    offset: (s.offset + s.chunk.len()) as u64,
                    chunk: Seq::empty(),
                    ..s
                }
            } else {
                too_long(s)
            },
            _ => broken(s, o),
        },
        Stage::Verify => match o {
            OutcomeView::Data(bytes) => upload_checked(s, digest_of(bytes)),
            _ => broken(s, o),
        },
        Stage::Commit => match o {
            OutcomeView::Done => answered(
                s,
                created_response(
                    s.namespace,
                    match s.digest {
                        Some(digest) => digest,
                        None => Seq::empty(),
                    },
                ),
            ),
            _ => broken(s, o),
        },
        Stage::Finished => s,
    }
}

/// The upload at its start.
pub open spec fn upload_begun(
    dir: Seq<char>,
    server_url: Seq<char>,
    namespace: Seq<char>,
    id: Seq<char>,
    declared_start: Option<u64>,
    digest: Option<Seq<char>>,
) -> UploadView {
    UploadView {
        server_url,
        namespace,
        id,
        path: upload_path(dir, id),
        declared_start,
        digest,
        blob_path: match digest {
            Some(d) => blob_path(dir, d),
            None => Seq::empty(),
        },
        stage: Stage::Probe,
        offset: 0,
        chunk: Seq::empty(),
        response: None,
    }
}

/// The request that appends a chunk, at its start. `range` is the range
/// that the chunk declares, as the client wrote it, if it declares one. A
/// range that cannot be read is refused at once, and asks for no call on
/// the store.
pub open spec fn patch_begun(
    dir: Seq<char>,
    server_url: Seq<char>,
    namespace: Seq<char>,
    id: Seq<char>,
    range: Option<Seq<char>>,
) -> UploadView {
    match range {
        None => upload_begun(dir, server_url, namespace, id, None, None),
        Some(text) => match declared_range(text) {
            Some((first, _)) => upload_begun(dir, server_url, namespace, id, Some(first), None),
            None => refused(upload_begun(dir, server_url, namespace, id, None, None)),
        },
    }
}

/// Takes a chunk for the session `id`: the body of the request is appended
/// to the staging file, which is created if it is not there. A chunk that
/// declares a range is refused unless the range can be read and starts
/// where the session stands.
pub fn patch_blob_data(
    store: &Store,
    server_url: &str,
    namespace: &str,
    id: &str,
    range: Option<&str>,
) -> (upload: Upload)
    ensures
        upload@ == patch_begun(
            store.dir@,
            server_url@,
            namespace@,
            id@,
            match range {
                Some(text) => Some(text@),
                None => None,
            },
        ),
{
    let mut upload = Upload {
        server_url: String::from_str(server_url),
        namespace: String::from_str(namespace),
        id: String::from_str(id),
        store: Store::new(store.dir.as_str(), store.buf_size),
        declared_start: None,
        digest: None,
        stage: Stage::Probe,
        offset: 0,
        chunk: Vec::new(),
        response: None,
    };
    match range {
        None => {},
        Some(text) => match parse_range(text) {
            Some((first, _)) => {
                upload.declared_start = Some(first);
            },
            None => {
                upload.refuse();
            },
        },
    }
    upload
}

/// Completes the session `id`: what is left of the body is appended, the
/// digest of the staged bytes is recomputed, and the staging file is
/// committed if that digest is the one declared in `info`.
pub fn put_blob_upload_complete(
    store: &Store,
    server_url: &str,
    namespace: &str,
    id: &str,
    info: &PutDigest,
) -> (upload: Upload)
    ensures
        upload@ == upload_begun(
            store.dir@,
            server_url@,
            namespace@,
            id@,
            None,
            Some(info.digest@),
        ),
{
    Upload {
        server_url: String::from_str(server_url),
        namespace: String::from_str(namespace),
        id: String::from_str(id),
        store: Store::new(store.dir.as_str(), store.buf_size),
        declared_start: None,
        digest: Some(info.digest.clone()),
        stage: Stage::Probe,
        offset: 0,
        chunk: Vec::new(),
        response: None,
    }
}

impl Upload {
    /// The call to make next, or `None` once the request is answered.
    pub fn next(&self) -> (call: Option<Action>)
        ensures
            call.is_some() == upload_call(self@).is_some(),
            call matches Some(a) ==> Some(a@) == upload_call(self@),
    {
        let id = self.id.as_str();
        match self.stage {
            Stage::Probe => Some(self.store.upload_exists(id)),
            Stage::Measure => Some(self.store.upload_size(id)),
            Stage::Create => self.store.get_upload_file(id, false),
            Stage::Receive => Some(Action::NextChunk),
            Stage::Store => {
                let bytes = self.chunk.clone();
                assert(bytes@ =~= self.chunk@);
                Some(self.store.append_chunk(id, bytes))
            },
            Stage::Verify => Some(self.store.read_upload(id)),
            Stage::Commit => match &self.digest {
                Some(digest) => Some(self.store.commit(id, digest.as_str())),
                None => Some(
                    Action::Rename { from: self.store.get_upload_path(id), to: String::new() },
                ),
            },
            Stage::Finished => None,
        }
    }

    fn answer(&mut self, response: Response)
        ensures
            final(self)@ == answered(old(self)@, response@),
    {
        self.stage = Stage::Finished;
        self.chunk = Vec::new();
        self.response = Some(response);
    }

    fn give_up(&mut self, outcome: Outcome)
        ensures
            final(self)@ == broken(old(self)@, outcome@),
    {
        let reason = cause(outcome);
        let response = RegistryError::from_err(UNKNOWN_ERROR, reason.as_str()).respond_with(500);
        self.answer(response);
    }

    fn refuse(&mut self)
        ensures
            final(self)@ == refused(old(self)@),
    {
        let response = RegistryError::from(BLOB_UPLOAD_INVALID).respond_with(416);
        self.answer(response);
    }

    /// Takes the digest that was computed from the staged bytes. The
    /// staging file is committed only if it is the declared digest;
    /// otherwise the upload is refused and nothing is renamed.
    pub fn checked(&mut self, computed: &str)
        ensures
            final(self)@ == upload_checked(old(self)@, computed@),
    {
        match self.stage {
            Stage::Verify => {
                let same = match &self.digest {
                    Some(declared) => *declared == String::from_str(computed),
                    None => false,
                };
                if same {
                    self.stage = Stage::Commit;
                } else {
                    let response = RegistryError::from(DIGEST_INVALID).respond_with(400);
                    self.answer(response);
                }
            },
            _ => {},
        }
    }

    /// Takes the outcome of the call that `next` named.
    pub fn feed(&mut self, outcome: Outcome)
        ensures
            final(self)@ == upload_fed(old(self)@, outcome@),
    {
        match self.stage {
            Stage::Probe => match outcome {
                Outcome::Present(true) => {
                    self.stage = Stage::Measure;
                },
                Outcome::Present(false) => {
                    if starts_at(self.declared_start, 0) {
                        self.stage = Stage::Create;
                    } else {
                        self.refuse();
                    }
                },
                other => self.give_up(other),
            },
            Stage::Measure => match outcome {
                Outcome::Length(held) => {
                    if starts_at(self.declared_start, held) {
                        self.stage = Stage::Receive;
                        self.offset = held;
                    } else {
                        self.refuse();
                    }
                },
                other => self.give_up(other),
            },
            Stage::Create => match outcome {
                Outcome::Done => {
                    self.stage = Stage::Receive;
                    self.offset = 0;
                },
                other => self.give_up(other),
            },
            Stage::Receive => match outcome {
                Outcome::Data(bytes) => {
                    if bytes.len() > 0 {
                        self.stage = Stage::Store;
                        self.chunk = bytes;
                    }
                },
                Outcome::End => {
                    if self.digest.is_some() {
                        self.stage = Stage::Verify;
                    } else {
                        let response = accepted(
                            self.server_url.as_str(),
                            self.namespace.as_str(),
                            self.id.as_str(),
                            self.offset,
                        );
                        self.answer(response);
                    }
                },
                other => self.give_up(other),
            },
            Stage::Store => match outcome {
                Outcome::Done => {
                    if self.chunk.len() as u64 <= u64::MAX - self.offset {
                        self.offset = self.offset + self.chunk.len() as u64;
                        self.stage = Stage::Receive;
                        self.chunk = Vec::new();
                    } else {
                        let response = RegistryError::from_err(
                            UNKNOWN_ERROR,
                            "the upload is too long",
                        ).respond_with(500);
                        self.answer(response);
                    }
                },
                other => self.give_up(other),
            },
            Stage::Verify => match outcome {
                Outcome::Data(bytes) => {
                    let computed = sha256_digest(bytes.as_slice());
                    self.checked(computed.as_str());
                },
                other => self.give_up(other),
            },
            Stage::Commit => match outcome {
                Outcome::Done => {
                    let response = match &self.digest {
                        Some(digest) => created(self.namespace.as_str(), digest.as_str()),
                        None => {
                            proof {
                                reveal_strlit("");
                            }
                            assert(""@ =~= Seq::<char>::empty());
                            created(self.namespace.as_str(), "")
                        },
                    };
                    self.answer(response);
                },
                other => self.give_up(other),
            },
            Stage::Finished => {},
        }
    }

    /// The answer, once there is one.
    pub fn into_response(self) -> (r: Option<Response>)
        ensures
            r.is_some() == self@.response.is_some(),
            r matches Some(response) ==> Some(response@) == self@.response,
    {
        self.response
    }
}

/// Whether a body that is declared to start at `declared` continues a
/// session that holds `held` bytes.
pub fn starts_at(declared: Option<u64>, held: u64) -> (b: bool)
    ensures
        b == continues(declared, held),
{
    match declared {
        Some(start) => start == held,
        None => true,
    }
}

/// Answers an accepted chunk.
pub fn accepted(server_url: &str, namespace: &str, id: &str, offset: u64) -> (r: Response)
    ensures
        r@ == accepted_response(server_url@, namespace@, id@, offset as nat),
{
    let r = Response::new(202).with_header(
        "Location",
        location_of(server_url, namespace, id),
    ).with_header("Docker-Upload-UUID", String::from_str(id)).with_header(
        "Content-Length",
        String::from_str("0"),
    ).with_header("Range", range_of(offset));
    assert(r@.headers =~= accepted_response(
        server_url@,
        namespace@,
        id@,
        offset as nat,
    ).headers);
    r
}

/// Answers a completed upload.
pub fn created(namespace: &str, digest: &str) -> (r: Response)
    ensures
        r@ == created_response(namespace@, digest@),
{
    let mut location = String::from_str("/v2/");
    location.append(namespace);
    location.append("/blobs/upload/");
    location.append(digest);
    let r = Response::new(201).with_header("Location", location).with_header(
        "Content-Length",
        String::from_str("0"),
    ).with_header("Docker-Content-Digest", String::from_str(digest));
    assert(r@.headers =~= created_response(namespace@, digest@).headers);
    r
}

/// How far a stage is from the answer.
pub open spec fn rank(stage: Stage) -> nat {
    match stage {
        Stage::Probe => 6,
        Stage::Measure => 5,
        Stage::Create => 5,
        Stage::Store => 4,
        Stage::Receive => 3,
        Stage::Verify => 2,
        Stage::Commit => 1,
        Stage::Finished => 0,
    }
}

/// The upload and the world once every call that the upload asks for was
/// made on the world, one after the other, until the request is answered.
pub open spec fn upload_run(s: UploadView, w: World) -> (UploadView, World)
    decreases 3 * w.body.len() + rank(s.stage),
{
    match upload_call(s) {
        None => (s, w),
        Some(a) => {
            let (w2, o) = apply(w, a);
            upload_run(upload_fed(s, o), w2)
        },
    }
}

/// The world once the staging file at `path` holds `bytes` and the body is
/// read to its end.
pub open spec fn staged(w: World, path: Seq<char>, bytes: Seq<u8>) -> World {
    World { nodes: w.nodes.insert(path, Node::File(bytes)), body: Seq::empty() }
}

/// What the staging file at `path` holds: the bytes of the file, or none if
/// there is no file.
pub open spec fn held(w: World, path: Seq<char>) -> Seq<u8> {
    if w.nodes.contains_key(path) {
        w.nodes[path]->File_0
    } else {
        Seq::empty()
    }
}

/// While chunks are received, each is written at the end of the staging
/// file and counted, in the order of the body, until the body ends.
pub proof fn lemma_receive_all(s: UploadView, w: World)
    requires
        s.stage == Stage::Receive,
        s.chunk == Seq::<u8>::empty(),
        w.nodes.contains_key(s.path),
        w.nodes[s.path] is File,
        s.offset == held(w, s.path).len(),
        s.offset + flat(w.body).len() <= u64::MAX,
    ensures
        upload_run(s, w) == upload_run(
            upload_fed(
                UploadView { offset: (s.offset + flat(w.body).len()) as u64, ..s },
                OutcomeView::End,
            ),
            staged(w, s.path, held(w, s.path) + flat(w.body)),
        ),
    decreases w.body.len(),
{
    let now = held(w, s.path);
    lemma_content_of_file(w.nodes, s.path);
    if w.body.len() == 0 {
        assert(now + flat(w.body) =~= now);
        assert(w.nodes.insert(s.path, Node::File(now)) =~= w.nodes);
        assert(w.body =~= Seq::<Seq<u8>>::empty());
        assert(staged(w, s.path, now + flat(w.body)) == w);
    } else {
        let chunk = w.body[0];
        let rest = w.body.drop_first();
        let w1 = World { body: rest, ..w };
        assert(apply(w, ActionView::NextChunk) == (w1, OutcomeView::Data(chunk)));
        if chunk.len() == 0 {
            assert(flat(w.body) =~= flat(rest));
            assert(upload_run(s, w) == upload_run(s, w1));
            lemma_receive_all(s, w1);
            assert(staged(w1, s.path, held(w1, s.path) + flat(rest)) == staged(
                w,
                s.path,
                now + flat(w.body),
            ));
        } else {
            let s1 = UploadView { stage: Stage::Store, chunk, ..s };
            assert(upload_fed(s, OutcomeView::Data(chunk)) == s1);
            assert(upload_run(s, w) == upload_run(s1, w1));
            let w2 = World { nodes: w.nodes.insert(s.path, Node::File(now + chunk)), body: rest };
            assert(apply(w1, ActionView::Append { path: s.path, bytes: chunk }) == (
                w2,
                OutcomeView::Done,
            ));
            let s2 = UploadView {
                stage: Stage::Receive,
                offset: (s.offset + chunk.len()) as u64,
                chunk: Seq::empty(),
                ..s1
            };
            assert(flat(w.body) =~= chunk + flat(rest));
            assert(upload_fed(s1, OutcomeView::Done) == s2);
            assert(upload_run(s1, w1) == upload_run(s2, w2));
            lemma_receive_all(s2, w2);
            assert((now + chunk) + flat(rest) =~= now + flat(w.body));
            assert(w2.nodes.insert(s.path, Node::File(held(w2, s.path) + flat(rest)))
                =~= w.nodes.insert(s.path, Node::File(now + flat(w.body))));
            assert(staged(w2, s2.path, held(w2, s2.path) + flat(rest)) == staged(
                w,
                s.path,
                now + flat(w.body),
            ));
            assert(UploadView { offset: (s2.offset + flat(rest).len()) as u64, ..s2 }
                == UploadView { offset: (s.offset + flat(w.body).len()) as u64, ..s });
        }
    }
}

/// A request reaches the point where it receives chunks: a staging file
/// that is not there is created empty, one that is there is kept, and the
/// session stands at the number of bytes that the file holds.
pub proof fn lemma_session_opens(s: UploadView, w: World)
    requires
        s.stage == Stage::Probe,
        s.chunk == Seq::<u8>::empty(),
        w.nodes.contains_key(s.path) ==> w.nodes[s.path] is File,
        held(w, s.path).len() <= u64::MAX,
        continues(s.declared_start, held(w, s.path).len() as u64),
    ensures
        upload_run(s, w) == upload_run(
            UploadView { stage: Stage::Receive, offset: held(w, s.path).len() as u64, ..s },
            World { nodes: w.nodes.insert(s.path, Node::File(held(w, s.path))), ..w },
        ),
{
    if w.nodes.contains_key(s.path) {
        lemma_content_of_file(w.nodes, s.path);
        let s1 = UploadView { stage: Stage::Measure, ..s };
        assert(apply(w, ActionView::Exists { path: s.path }) == (w, OutcomeView::Present(true)));
        assert(upload_run(s, w) == upload_run(s1, w));
        let n = held(w, s.path).len() as u64;
        assert(apply(w, ActionView::Size { path: s.path }) == (w, OutcomeView::Length(n)));
        let s2 = UploadView { stage: Stage::Receive, offset: n, ..s };
        assert(upload_fed(s1, OutcomeView::Length(n)) == s2);
        assert(upload_run(s1, w) == upload_run(s2, w));
        assert(w.nodes.insert(s.path, Node::File(held(w, s.path))) =~= w.nodes);
    } else {
        lemma_content_of_nothing(w.nodes, s.path);
        let s1 = UploadView { stage: Stage::Create, ..s };
        assert(apply(w, ActionView::Exists { path: s.path }) == (w, OutcomeView::Present(false)));
        assert(upload_fed(s, OutcomeView::Present(false)) == s1);
        assert(upload_run(s, w) == upload_run(s1, w));
        let w2 = World { nodes: w.nodes.insert(s.path, Node::File(Seq::empty())), ..w };
        assert(apply(w, ActionView::Create { path: s.path }) == (w2, OutcomeView::Done));
        let s2 = UploadView { stage: Stage::Receive, offset: 0, ..s };
        assert(upload_fed(s1, OutcomeView::Done) == s2);
        assert(upload_run(s1, w) == upload_run(s2, w2));
    }
}

/// A request whose body continues the session receives the whole body:
/// when the body ends, the staging file holds what it held and the body
/// behind it, and the session stands at the end of the file.
pub proof fn lemma_body_is_staged(s: UploadView, w: World)
    requires
        s.stage == Stage::Probe,
        s.chunk == Seq::<u8>::empty(),
        w.nodes.contains_key(s.path) ==> w.nodes[s.path] is File,
        held(w, s.path).len() + flat(w.body).len() <= u64::MAX,
        continues(s.declared_start, held(w, s.path).len() as u64),
    ensures
        upload_run(s, w) == upload_run(
            upload_fed(
                UploadView {
                    stage: Stage::Receive,
                    offset: (held(w, s.path) + flat(w.body)).len() as u64,
                    ..s
                },
                OutcomeView::End,
            ),
            staged(w, s.path, held(w, s.path) + flat(w.body)),
        ),
        content(staged(w, s.path, held(w, s.path) + flat(w.body)).nodes, s.path) == Some(
            held(w, s.path) + flat(w.body),
        ),
{
    let now = held(w, s.path);
    let all = now + flat(w.body);
    lemma_session_opens(s, w);
    let s1 = UploadView { stage: Stage::Receive, offset: now.len() as u64, ..s };
    let w1 = World { nodes: w.nodes.insert(s.path, Node::File(now)), ..w };
    lemma_receive_all(s1, w1);
    assert(staged(w1, s.path, all).nodes =~= staged(w, s.path, all).nodes);
    assert(UploadView { offset: (s1.offset + flat(w1.body).len()) as u64, ..s1 } == UploadView {
        stage: Stage::Receive,
        offset: all.len() as u64,
        ..s
    });
    lemma_content_of_file(staged(w, s.path, all).nodes, s.path);
}

/// Appending: the body of the request ends up behind what the session
/// held, byte for byte, and the answer reports how many bytes the session
/// holds now. No other path is touched.
pub proof fn lemma_patch_appends(
    w: World,
    dir: Seq<char>,
    server_url: Seq<char>,
    namespace: Seq<char>,
    id: Seq<char>,
    declared_start: Option<u64>,
)
    requires
        w.nodes.contains_key(upload_path(dir, id)) ==> w.nodes[upload_path(dir, id)] is File,
        held(w, upload_path(dir, id)).len() + flat(w.body).len() <= u64::MAX,
        continues(declared_start, held(w, upload_path(dir, id)).len() as u64),
    ensures
        ({
            let path = upload_path(dir, id);
            let all = held(w, path) + flat(w.body);
            let (s, after) = upload_run(
                upload_begun(dir, server_url, namespace, id, declared_start, None),
                w,
            );
            &&& after == staged(w, path, all)
            &&& content(after.nodes, path) == Some(all)
            &&& s.stage == Stage::Finished
            &&& s.response == Some(accepted_response(server_url, namespace, id, all.len()))
        }),
{
    let path = upload_path(dir, id);
    let s0 = upload_begun(dir, server_url, namespace, id, declared_start, None);
    let all = held(w, path) + flat(w.body);
    lemma_body_is_staged(s0, w);
    let s2 = UploadView { stage: Stage::Receive, offset: all.len() as u64, ..s0 };
    let s3 = upload_fed(s2, OutcomeView::End);
    assert(upload_run(s3, staged(w, path, all)) == (s3, staged(w, path, all)));
}

/// A body that does not start where the session stands is refused, and the
/// store is left as it was: nothing is created and nothing is written.
pub proof fn lemma_patch_refuses_gaps(
    w: World,
    dir: Seq<char>,
    server_url: Seq<char>,
    namespace: Seq<char>,
    id: Seq<char>,
    declared_start: Option<u64>,
)
    requires
        w.nodes.contains_key(upload_path(dir, id)) ==> w.nodes[upload_path(dir, id)] is File,
        held(w, upload_path(dir, id)).len() <= u64::MAX,
        !continues(declared_start, held(w, upload_path(dir, id)).len() as u64),
    ensures
        ({
            let (s, after) = upload_run(
                upload_begun(dir, server_url, namespace, id, declared_start, None),
                w,
            );
            &&& after == w
            &&& s.stage == Stage::Finished
            &&& s.response == Some(
                error_response(error_of(BLOB_UPLOAD_INVALID, Seq::empty()), 416),
            )
        }),
{
    let path = upload_path(dir, id);
    let s0 = upload_begun(dir, server_url, namespace, id, declared_start, None);
    if w.nodes.contains_key(path) {
        lemma_content_of_file(w.nodes, path);
        let s1 = UploadView { stage: Stage::Measure, ..s0 };
        assert(apply(w, ActionView::Exists { path }) == (w, OutcomeView::Present(true)));
        assert(upload_run(s0, w) == upload_run(s1, w));
        let n = held(w, path).len() as u64;
        assert(apply(w, ActionView::Size { path }) == (w, OutcomeView::Length(n)));
        assert(upload_fed(s1, OutcomeView::Length(n)) == refused(s1));
        assert(upload_run(s1, w) == upload_run(refused(s1), w));
        assert(upload_run(refused(s1), w) == (refused(s1), w));
    } else {
        lemma_content_of_nothing(w.nodes, path);
        assert(apply(w, ActionView::Exists { path }) == (w, OutcomeView::Present(false)));
        assert(upload_fed(s0, OutcomeView::Present(false)) == refused(s0));
        assert(upload_run(s0, w) == upload_run(refused(s0), w));
        assert(upload_run(refused(s0), w) == (refused(s0), w));
    }
}

/// Once the digest was checked, the staging file is renamed to the blob
/// and the request is answered.
pub proof fn lemma_commit_runs(s: UploadView, w: World, bytes: Seq<u8>)
    requires
        s.stage == Stage::Commit,
        s.digest is Some,
        s.path != s.blob_path,
        w.nodes.contains_key(s.path),
        w.nodes[s.path] == Node::File(bytes),
    ensures
        ({
            let (end, after) = upload_run(s, w);
            &&& after.nodes == w.nodes.remove(s.path).insert(s.blob_path, Node::File(bytes))
            &&& content(after.nodes, s.blob_path) == Some(bytes)
            &&& !after.nodes.contains_key(s.path)
            &&& end.stage == Stage::Finished
            &&& end.response == Some(created_response(s.namespace, s.digest.unwrap()))
        }),
{
    let after = World {
        nodes: w.nodes.remove(s.path).insert(s.blob_path, Node::File(bytes)),
        ..w
    };
    assert(apply(w, ActionView::Rename { from: s.path, to: s.blob_path }) == (
        after,
        OutcomeView::Done,
    ));
    let end = answered(s, created_response(s.namespace, s.digest.unwrap()));
    assert(upload_fed(s, OutcomeView::Done) == end);
    assert(upload_run(s, w) == upload_run(end, after));
    assert(upload_run(end, after) == (end, after));
    lemma_content_of_file(after.nodes, s.blob_path);
}

/// A chunk whose range cannot be read is refused, and the store is left as
/// it was: nothing of the chunk is staged.
pub proof fn lemma_patch_refuses_unreadable(
    w: World,
    dir: Seq<char>,
    server_url: Seq<char>,
    namespace: Seq<char>,
    id: Seq<char>,
    range: Seq<char>,
)
    requires
        declared_range(range) is None,
    ensures
        ({
            let (s, after) = upload_run(patch_begun(dir, server_url, namespace, id, Some(range)), w);
            &&& after == w
            &&& s.stage == Stage::Finished
            &&& s.response == Some(
                error_response(error_of(BLOB_UPLOAD_INVALID, Seq::empty()), 416),
            )
        }),
{
    let s0 = patch_begun(dir, server_url, namespace, id, Some(range));
    assert(upload_run(s0, w) == (s0, w));
}

/// Completing with the right digest: what is left of the body is appended,
/// and because the declared digest is the digest of the staged bytes the
/// staging file becomes the committed blob. Afterwards the blob holds
/// exactly the staged bytes and the session has no file.
pub proof fn lemma_complete_commits(
    w: World,
    dir: Seq<char>,
    server_url: Seq<char>,
    namespace: Seq<char>,
    id: Seq<char>,
    digest: Seq<char>,
)
    requires
        !is_absolute(id),
        w.nodes.contains_key(upload_path(dir, id)) ==> w.nodes[upload_path(dir, id)] is File,
        held(w, upload_path(dir, id)).len() + flat(w.body).len() <= u64::MAX,
        digest == digest_of(held(w, upload_path(dir, id)) + flat(w.body)),
    ensures
        ({
            let path = upload_path(dir, id);
            let all = held(w, path) + flat(w.body);
            let (s, after) = upload_run(
                upload_begun(dir, server_url, namespace, id, None, Some(digest)),
                w,
            );
            &&& after.nodes == w.nodes.remove(path).insert(blob_path(dir, digest), Node::File(all))
            &&& content(after.nodes, blob_path(dir, digest)) == Some(all)
            &&& !after.nodes.contains_key(path)
            &&& s.stage == Stage::Finished
            &&& s.response == Some(created_response(namespace, digest))
        }),
{
    let path = upload_path(dir, id);
    let to = blob_path(dir, digest);
    let s0 = upload_begun(dir, server_url, namespace, id, None, Some(digest));
    let all = held(w, path) + flat(w.body);
    assert(!is_absolute(digest)) by {
        assert(digest[0] == 's');
    }
    lemma_staging_apart(dir, id, digest);
    lemma_body_is_staged(s0, w);
    let w2 = staged(w, path, all);
    let s2 = UploadView { stage: Stage::Receive, offset: all.len() as u64, ..s0 };
    let s3 = UploadView { stage: Stage::Verify, ..s2 };
    assert(upload_fed(s2, OutcomeView::End) == s3);
    assert(apply(w2, ActionView::Read { path }) == (w2, OutcomeView::Data(all)));
    let s4 = UploadView { stage: Stage::Commit, ..s3 };
    assert(upload_fed(s3, OutcomeView::Data(all)) == s4);
    assert(upload_run(s3, w2) == upload_run(s4, w2));
    lemma_commit_runs(s4, w2, all);
    assert(w2.nodes.remove(path).insert(to, Node::File(all)) =~= w.nodes.remove(path).insert(
        to,
        Node::File(all),
    ));
}

/// Completing with a wrong digest: the upload is refused as invalid and
/// nothing is committed. The staged bytes stay in the staging file, and no
/// other path is touched.
pub proof fn lemma_complete_rejects_mismatch(
    w: World,
    dir: Seq<char>,
    server_url: Seq<char>,
    namespace: Seq<char>,
    id: Seq<char>,
    digest: Seq<char>,
)
    requires
        w.nodes.contains_key(upload_path(dir, id)) ==> w.nodes[upload_path(dir, id)] is File,
        held(w, upload_path(dir, id)).len() + flat(w.body).len() <= u64::MAX,
        digest != digest_of(held(w, upload_path(dir, id)) + flat(w.body)),
    ensures
        ({
            let path = upload_path(dir, id);
            let all = held(w, path) + flat(w.body);
            let (s, after) = upload_run(
                upload_begun(dir, server_url, namespace, id, None, Some(digest)),
                w,
            );
            &&& after == staged(w, path, all)
            &&& s.stage == Stage::Finished
            &&& s.response == Some(error_response(error_of(DIGEST_INVALID, Seq::empty()), 400))
        }),
{
    let path = upload_path(dir, id);
    let s0 = upload_begun(dir, server_url, namespace, id, None, Some(digest));
    let all = held(w, path) + flat(w.body);
    lemma_body_is_staged(s0, w);
    let w2 = staged(w, path, all);
    let s2 = UploadView { stage: Stage::Receive, offset: all.len() as u64, ..s0 };
    let s3 = UploadView { stage: Stage::Verify, ..s2 };
    assert(upload_fed(s2, OutcomeView::End) == s3);
    assert(apply(w2, ActionView::Read { path }) == (w2, OutcomeView::Data(all)));
    let s4 = answered(s3, error_response(error_of(DIGEST_INVALID, Seq::empty()), 400));
    assert(upload_fed(s3, OutcomeView::Data(all)) == s4);
    assert(upload_run(s3, w2) == upload_run(s4, w2));
    assert(upload_run(s4, w2) == (s4, w2));
}

/// The upload and the world after `n` calls, or after the last call if the
/// request is answered before.
pub open spec fn upload_steps(s: UploadView, w: World, n: nat) -> (UploadView, World)
    decreases n,
{
    if n == 0 {
        (s, w)
    } else {
        let (s1, w1) = upload_steps(s, w, (n - 1) as nat);
        match upload_call(s1) {
            None => (s1, w1),
            Some(a) => {
                let (w2, o) = apply(w1, a);
                (upload_fed(s1, o), w2)
            },
        }
    }
}

/// Whether the store is what it was before the request but for the
/// staging file, which may have been created or written.
pub open spec fn only_staged(now: World, before: World, path: Seq<char>) -> bool {
    now.nodes == before.nodes || exists|bytes: Seq<u8>|
        now.nodes == #[trigger] before.nodes.insert(path, Node::File(bytes))
}

/// Whether the store is what it was before the request but for the staging
/// file, which is gone, and the blob, which holds bytes of the declared
/// digest.
pub open spec fn committed(
    now: World,
    before: World,
    path: Seq<char>,
    to: Seq<char>,
    digest: Seq<char>,
) -> bool {
    exists|bytes: Seq<u8>|
        digest_of(bytes) == digest && now.nodes == #[trigger] before.nodes.remove(path).insert(
            to,
            Node::File(bytes),
        )
}

/// What holds between the calls of a request that completes an upload.
/// Until the staging file is renamed, nothing but the staging file has
/// changed, and once the digest was checked that file has the declared
/// digest. After the rename the request is answered, and the blob holds
/// bytes of the declared digest.
pub open spec fn completing(
    s: UploadView,
    now: World,
    before: World,
    path: Seq<char>,
    to: Seq<char>,
    digest: Seq<char>,
) -> bool {
    &&& s.path == path
    &&& s.blob_path == to
    &&& s.digest == Some(digest)
    &&& before.nodes.contains_key(path) ==> before.nodes[path] is File
    &&& {
        ||| {
            &&& only_staged(now, before, path)
            &&& s.stage == Stage::Commit ==> now.nodes.contains_key(path) && digest_of(
                now.nodes[path]->File_0,
            ) == digest
        }
        ||| s.stage == Stage::Finished && committed(now, before, path, to, digest)
    }
}

/// One call of a request that completes an upload keeps what holds between
/// its calls.
pub proof fn lemma_completing_step(
    s: UploadView,
    now: World,
    before: World,
    path: Seq<char>,
    to: Seq<char>,
    digest: Seq<char>,
)
    requires
        completing(s, now, before, path, to, digest),
        path != to,
        upload_call(s) is Some,
    ensures
        completing(
            upload_fed(s, apply(now, upload_call(s).unwrap()).1),
            apply(now, upload_call(s).unwrap()).0,
            before,
            path,
            to,
            digest,
        ),
{
    let a = upload_call(s).unwrap();
    let (next, o) = apply(now, a);
    assert(only_staged(now, before, path));
    assert(now.nodes.contains_key(path) ==> now.nodes[path] is File);
    if now.nodes.contains_key(path) {
        lemma_content_of_file(now.nodes, path);
    } else {
        lemma_content_of_nothing(now.nodes, path);
    }
    match s.stage {
        Stage::Create => {
            assert(next.nodes =~= before.nodes.insert(path, Node::File(Seq::empty())));
        },
        Stage::Store => {
            if now.nodes.contains_key(path) {
                let bytes = now.nodes[path]->File_0 + s.chunk;
                assert(next.nodes =~= before.nodes.insert(path, Node::File(bytes)));
            }
        },
        Stage::Commit => {
            let bytes = now.nodes[path]->File_0;
            assert(next.nodes =~= before.nodes.remove(path).insert(to, Node::File(bytes)));
            assert(committed(next, before, path, to, digest));
        },
        _ => {
            assert(next.nodes == now.nodes);
        },
    }
}

/// A reader sees a blob whole or not at all. At every point of a request
/// that completes an upload, what is to be read under the declared digest
/// is what was there before the request, or bytes that have that digest:
/// never a part of them, and never bytes of another digest.
pub proof fn lemma_blob_is_whole_or_absent(
    w: World,
    dir: Seq<char>,
    server_url: Seq<char>,
    namespace: Seq<char>,
    id: Seq<char>,
    digest: Seq<char>,
    n: nat,
)
    requires
        !is_absolute(id),
        !is_absolute(digest),
        w.nodes.contains_key(upload_path(dir, id)) ==> w.nodes[upload_path(dir, id)] is File,
        w.nodes.contains_key(blob_path(dir, digest)) ==> w.nodes[blob_path(dir, digest)] is File,
    ensures
        ({
            let (s, now) = upload_steps(
                upload_begun(dir, server_url, namespace, id, None, Some(digest)),
                w,
                n,
            );
            let seen = content(now.nodes, blob_path(dir, digest));
            &&& completing(s, now, w, upload_path(dir, id), blob_path(dir, digest), digest)
            &&& seen == content(w.nodes, blob_path(dir, digest)) || (seen matches Some(bytes)
                && digest_of(bytes) == digest)
        }),
    decreases n,
{
    let path = upload_path(dir, id);
    let to = blob_path(dir, digest);
    let s0 = upload_begun(dir, server_url, namespace, id, None, Some(digest));
    lemma_staging_apart(dir, id, digest);
    if n > 0 {
        lemma_blob_is_whole_or_absent(w, dir, server_url, namespace, id, digest, (n - 1) as nat);
        let (s1, w1) = upload_steps(s0, w, (n - 1) as nat);
        if upload_call(s1) is Some {
            lemma_completing_step(s1, w1, w, path, to, digest);
        }
    }
    let (s, now) = upload_steps(s0, w, n);
    if w.nodes.contains_key(to) {
        lemma_content_of_file(w.nodes, to);
    } else {
        lemma_content_of_nothing(w.nodes, to);
    }
    if now.nodes.contains_key(to) {
        lemma_content_of_file(now.nodes, to);
    } else {
        lemma_content_of_nothing(now.nodes, to);
    }
}

/// What holds between the calls of a request that appends a chunk:
/// nothing but the staging file has changed, and the request never gets to
/// rename it.
pub open spec fn appending(s: UploadView, now: World, before: World, path: Seq<char>) -> bool {
    &&& s.path == path
    &&& s.digest is None
    &&& s.stage != Stage::Verify
    &&& s.stage != Stage::Commit
    &&& before.nodes.contains_key(path) ==> before.nodes[path] is File
    &&& only_staged(now, before, path)
}

/// What is staged is not published. At every point of a request that
/// appends a chunk, every blob is what it was before the request: a blob
/// that was not committed does not become visible, whatever is staged.
pub proof fn lemma_appending_publishes_nothing(
    w: World,
    dir: Seq<char>,
    server_url: Seq<char>,
    namespace: Seq<char>,
    id: Seq<char>,
    declared_start: Option<u64>,
    digest: Seq<char>,
    n: nat,
)
    requires
        !is_absolute(id),
        !is_absolute(digest),
        w.nodes.contains_key(upload_path(dir, id)) ==> w.nodes[upload_path(dir, id)] is File,
        w.nodes.contains_key(blob_path(dir, digest)) ==> w.nodes[blob_path(dir, digest)] is File,
    ensures
        ({
            let (s, now) = upload_steps(
                upload_begun(dir, server_url, namespace, id, declared_start, None),
                w,
                n,
            );
            &&& appending(s, now, w, upload_path(dir, id))
            &&& content(now.nodes, blob_path(dir, digest)) == content(
                w.nodes,
                blob_path(dir, digest),
            )
        }),
    decreases n,
{
    let path = upload_path(dir, id);
    let to = blob_path(dir, digest);
    let s0 = upload_begun(dir, server_url, namespace, id, declared_start, None);
    lemma_staging_apart(dir, id, digest);
    if n > 0 {
        lemma_appending_publishes_nothing(
            w,
            dir,
            server_url,
            namespace,
            id,
            declared_start,
            digest,
            (n - 1) as nat,
        );
        let (s1, w1) = upload_steps(s0, w, (n - 1) as nat);
        if upload_call(s1) is Some {
            let a = upload_call(s1).unwrap();
            let (next, o) = apply(w1, a);
            if w1.nodes.contains_key(path) {
                lemma_content_of_file(w1.nodes, path);
            } else {
                lemma_content_of_nothing(w1.nodes, path);
            }
            match s1.stage {
                Stage::Create => {
                    assert(next.nodes =~= w.nodes.insert(path, Node::File(Seq::empty())));
                },
                Stage::Store => {
                    if w1.nodes.contains_key(path) {
                        let bytes = w1.nodes[path]->File_0 + s1.chunk;
                        assert(next.nodes =~= w.nodes.insert(path, Node::File(bytes)));
                    }
                },
                _ => {
                    assert(next.nodes == w1.nodes);
                },
            }
        }
    }
    let (s, now) = upload_steps(s0, w, n);
    if w.nodes.contains_key(to) {
        lemma_content_of_file(w.nodes, to);
    } else {
        lemma_content_of_nothing(w.nodes, to);
    }
    if now.nodes.contains_key(to) {
        lemma_content_of_file(now.nodes, to);
    } else {
        lemma_content_of_nothing(now.nodes, to);
    }
}

} // verus!
