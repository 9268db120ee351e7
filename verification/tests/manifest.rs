use blobert::manifests::{body_interrupted, manifest_oversized, Body, MAX_MANIFEST_SIZE};
use blobert::meta::annotations::Annotations;
use blobert::meta::manifest::{Descriptor, Manifest};
use blobert::util::sha256_digest;

#[test]
fn default_manifest_is_written_member_by_member() {
    assert_eq!(
        String::from_utf8(Manifest::default().to_vec()).unwrap(),
        "{\"schemaVersion\":2,\"mediaType\":null,\"config\":{\"mediaType\":\"application/vnd.oci.image.config.v1+json\",\"digest\":\"\",\"size\":0,\"urls\":null,\"annotations\":null},\"layers\":[],\"annotations\":null}"
    );
}

#[test]
fn manifest_digest_is_the_digest_of_its_bytes() {
    let m = Manifest::default();
    assert_eq!(m.digest(), sha256_digest(&m.to_vec()));
    assert_eq!(m.digest(), Manifest::default().digest());
}

#[test]
fn full_manifest_is_written_in_order() {
    let mut annotations = Annotations::new();
    annotations.insert("b".to_string(), "2".to_string());
    annotations.insert("a".to_string(), "say \"hi\"".to_string());
    let layer = Descriptor {
        media_type: "application/vnd.oci.image.layer.v1.tar".to_string(),
        digest: "sha256:aa".to_string(),
        size: Some(-12),
        urls: Some(vec!["https://a".to_string(), "https://b".to_string()]),
        annotations: Some(Annotations::new()),
    };
    let other = Descriptor { size: None, urls: Some(vec![]), annotations: None, ..layer.clone() };
    let m = Manifest {
        schema_version: 255,
        media_type: Some("application/vnd.oci.image.manifest.v1+json".to_string()),
        config: Descriptor::default(),
        layers: vec![layer, other],
        annotations: Some(annotations),
    };
    let text = String::from_utf8(m.to_vec()).unwrap();
    assert_eq!(
        text,
        "{\"schemaVersion\":255,\"mediaType\":\"application/vnd.oci.image.manifest.v1+json\",\"config\":{\"mediaType\":\"application/vnd.oci.image.config.v1+json\",\"digest\":\"\",\"size\":0,\"urls\":null,\"annotations\":null},\"layers\":[{\"mediaType\":\"application/vnd.oci.image.layer.v1.tar\",\"digest\":\"sha256:aa\",\"size\":-12,\"urls\":[\"https://a\",\"https://b\"],\"annotations\":{}},{\"mediaType\":\"application/vnd.oci.image.layer.v1.tar\",\"digest\":\"sha256:aa\",\"size\":null,\"urls\":[],\"annotations\":null}],\"annotations\":{\"a\":\"say \\\"hi\\\"\",\"b\":\"2\"}}"
    );
    let parsed: serde_json::Value = serde_json::from_str(&text).unwrap();
    assert_eq!(parsed["layers"].as_array().map(|l| l.len()), Some(2));
    assert_eq!(parsed["annotations"]["a"].as_str(), Some("say \"hi\""));
}

#[test]
fn annotations_are_a_map_in_key_order() {
    let mut a = Annotations::new();
    assert_eq!(a.len(), 0);
    a.insert("foo".to_string(), "bar".to_string());
    a.insert("abc".to_string(), "1".to_string());
    a.insert("zed".to_string(), "2".to_string());
    a.insert("foo".to_string(), "baz".to_string());
    assert_eq!(a.len(), 3);
    assert_eq!(a.key(0), "abc");
    assert_eq!(a.key(1), "foo");
    assert_eq!(a.value(1), "baz");
    assert_eq!(a.key(2), "zed");
    assert_eq!(a.get("foo"), Some(&"baz".to_string()));
    assert_eq!(a.get("nothing"), None);
}

#[test]
fn annotations_do_not_depend_on_the_order_of_inserts() {
    let mut a = Annotations::new();
    a.insert("x".to_string(), "1".to_string());
    a.insert("y".to_string(), "2".to_string());
    let mut b = Annotations::new();
    b.insert("y".to_string(), "2".to_string());
    b.insert("x".to_string(), "1".to_string());
    assert_eq!(a, b);
    assert_eq!(a.clone(), b);
    let with = |annotations: Annotations| Manifest {
        annotations: Some(annotations),
        ..Manifest::default()
    };
    assert_eq!(with(a).digest(), with(b).digest());
}

#[test]
fn different_manifests_have_different_digests() {
    let mut m = Manifest::default();
    m.schema_version = 1;
    assert_ne!(m.digest(), Manifest::default().digest());
}

#[test]
fn body_is_gathered_up_to_its_limit() {
    let mut body = Body::new(5);
    assert!(body.push(b"abc"));
    assert!(body.push(b""));
    assert!(!body.push(b"def"));
    assert_eq!(body.bytes, b"abc");
    assert!(body.push(b"de"));
    assert_eq!(body.bytes, b"abcde");
    assert!(!body.push(b"f"));
    assert_eq!(body.bytes, b"abcde");
}

#[test]
fn oversized_manifest_is_refused() {
    assert_eq!(MAX_MANIFEST_SIZE, 4 * 1024 * 1024);
    let r = manifest_oversized();
    assert_eq!(r.status, 413);
    let body: serde_json::Value = serde_json::from_slice(&r.body).unwrap();
    assert_eq!(body["errors"][0]["code"].as_str(), Some("MANIFEST_INVALID"));
    assert_eq!(
        body["errors"][0]["detail"]["reason"].as_str(),
        Some("manifest exceeds the size limit")
    );
}

#[test]
fn interrupted_body_is_reported_with_its_cause() {
    let r = body_interrupted("connection reset");
    assert_eq!(r.status, 400);
    assert_eq!(r.header("Content-Type"), Some("application/json".to_string()));
    let body: serde_json::Value = serde_json::from_slice(&r.body).unwrap();
    assert_eq!(body["errors"][0]["code"].as_str(), Some("MANIFEST_INVALID"));
    assert_eq!(body["errors"][0]["detail"]["reason"].as_str(), Some("connection reset"));
}
