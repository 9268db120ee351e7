use blobert::error::{
    RegistryError, BLOB_UNKNOWN, BLOB_UPLOAD_INVALID, DIGEST_INVALID, MANIFEST_INVALID,
    MANIFEST_UNKNOWN, UNKNOWN_ERROR,
};

#[test]
fn it_constructs_an_error() {
    let err = RegistryError::from(BLOB_UNKNOWN);
    assert_eq!(err.code, "BLOB_UNKNOWN");
}

#[test]
fn error_without_cause_has_empty_reason() {
    let err = RegistryError::from(MANIFEST_UNKNOWN);
    assert_eq!(err.code, "MANIFEST_UNKNOWN");
    assert_eq!(err.message, "manifest unknown to registry");
    assert_eq!(err.detail.reason, "");
}

#[test]
fn error_with_cause_carries_it() {
    let err = RegistryError::from_err(UNKNOWN_ERROR, "disk full");
    assert_eq!(err.code, "UNKNOWN_ERROR");
    assert_eq!(err.message, "something is very wrong");
    assert_eq!(err.detail.reason, "disk full");
}

#[test]
fn error_text_is_code_and_message() {
    let err = RegistryError::from(BLOB_UNKNOWN);
    assert_eq!(err.to_string(), "BLOB_UNKNOWN: blob unknown to registry");
}

#[test]
fn error_body_is_an_errors_array() {
    let err = RegistryError::from(BLOB_UNKNOWN);
    assert_eq!(
        String::from_utf8(err.body()).unwrap(),
        "{\"errors\":[{\"code\":\"BLOB_UNKNOWN\",\"message\":\"blob unknown to registry\",\"detail\":{\"reason\":\"\"}}]}"
    );
}

#[test]
fn error_body_escapes_the_reason() {
    let err = RegistryError::from_err(UNKNOWN_ERROR, "bad \"path\"\n\\tmp");
    let body = String::from_utf8(err.body()).unwrap();
    assert_eq!(
        body,
        "{\"errors\":[{\"code\":\"UNKNOWN_ERROR\",\"message\":\"something is very wrong\",\"detail\":{\"reason\":\"bad \\\"path\\\"\\n\\\\tmp\"}}]}"
    );
    let parsed: serde_json::Value = serde_json::from_str(&body).unwrap();
    assert_eq!(
        parsed["errors"][0]["detail"]["reason"].as_str(),
        Some("bad \"path\"\n\\tmp")
    );
    assert_eq!(parsed["errors"].as_array().map(|a| a.len()), Some(1));
}

fn reason_as_written(reason: &str) -> String {
    let body = String::from_utf8(RegistryError::from_err(UNKNOWN_ERROR, reason).body()).unwrap();
    let head = "{\"errors\":[{\"code\":\"UNKNOWN_ERROR\",\"message\":\"something is very wrong\",\"detail\":{\"reason\":";
    let tail = "}}]}";
    assert!(body.starts_with(head) && body.ends_with(tail));
    body[head.len()..body.len() - tail.len()].to_string()
}

#[test]
fn strings_are_written_as_serde_json_writes_them() {
    for code in 0u32..=0x80 {
        let text = char::from_u32(code).unwrap().to_string();
        assert_eq!(reason_as_written(&text), serde_json::to_string(&text).unwrap(), "{:?}", text);
    }
    for text in [
        "",
        "plain",
        "tab\there",
        "\u{1}\u{1f}\u{7f}",
        "caf\u{e9} \u{4e2d}\u{6587} \u{1f600}",
        "\u{2028}\u{2029}",
        "/slash/ and \\ and \"",
        "\r\n\u{8}\u{c}",
    ] {
        assert_eq!(reason_as_written(text), serde_json::to_string(text).unwrap(), "{:?}", text);
    }
}

#[test]
fn control_characters_are_written_by_number() {
    assert_eq!(reason_as_written("\u{0}"), "\"\\u0000\"");
    assert_eq!(reason_as_written("\u{1b}"), "\"\\u001b\"");
    assert_eq!(reason_as_written("\u{8}\u{9}\u{a}\u{c}\u{d}"), "\"\\b\\t\\n\\f\\r\"");
}

#[test]
fn error_response_is_not_found_json() {
    let r = RegistryError::from(MANIFEST_UNKNOWN).respond();
    assert_eq!(r.status, 404);
    assert_eq!(
        r.headers,
        vec![("Content-Type".to_string(), "application/json".to_string())]
    );
    assert_eq!(r.body, RegistryError::from(MANIFEST_UNKNOWN).body());
    assert!(!r.body.is_empty());
}

#[test]
fn error_response_with_status() {
    let r = RegistryError::from(DIGEST_INVALID).respond_with(400);
    assert_eq!(r.status, 400);
    assert_eq!(r.header("Content-Type"), Some("application/json".to_string()));
    assert_eq!(r.header("Location"), None);
}

#[test]
fn codes_are_upper_case_and_underscores() {
    for spec in [
        BLOB_UNKNOWN,
        MANIFEST_UNKNOWN,
        UNKNOWN_ERROR,
        DIGEST_INVALID,
        BLOB_UPLOAD_INVALID,
        MANIFEST_INVALID,
    ] {
        assert!(!spec.0.is_empty());
        assert!(spec.0.chars().all(|c| c.is_ascii_uppercase() || c == '_'));
    }
}
