use blobert::blob::{Item, Store};
use blobert::error::RegistryError;
use blobert::manifests::{get_manifest, manifest_read, put_manifest, ManifestPut};
use blobert::meta::annotations::Annotations;
use blobert::meta::fs::{Filesystem, Operation, Reply};
use blobert::meta::manifest::{Descriptor, Manifest};
use blobert::meta::Store as ManifestStore;
use blobert::response::Response;
use blobert::storage::{Action, Entry, Failure, Hold, Outcome};
use blobert::upload::{
    blob_exists, get_blob, patch_blob_data, put_blob_upload_complete, start_blob_upload, PutDigest,
    Upload,
};
use blobert::util::sha256_digest;
use std::collections::{HashMap, VecDeque};

#[derive(Clone, Debug, PartialEq)]
enum Node {
    File(Vec<u8>),
    Link(String),
}

/// Files and links in memory, and the body of the request being served.
struct World {
    nodes: HashMap<String, Node>,
    body: VecDeque<Vec<u8>>,
    calls: usize,
}

fn missing() -> Outcome {
    Outcome::Failed(Failure { not_found: true, reason: "No such file or directory".to_string() })
}

impl World {
    fn new() -> World {
        World { nodes: HashMap::new(), body: VecDeque::new(), calls: 0 }
    }

    fn with_body(&mut self, chunks: &[&[u8]]) {
        self.body = chunks.iter().map(|c| c.to_vec()).collect();
    }

    fn end_of(&self, path: &str) -> Option<String> {
        let mut at = path.to_string();
        for _ in 0..=40 {
            match self.nodes.get(&at) {
                Some(Node::Link(to)) => at = to.clone(),
                _ => return Some(at),
            }
        }
        None
    }

    fn content(&self, path: &str) -> Option<Vec<u8>> {
        match self.nodes.get(&self.end_of(path)?) {
            Some(Node::File(bytes)) => Some(bytes.clone()),
            _ => None,
        }
    }

    fn perform(&mut self, action: Action) -> Outcome {
        self.calls += 1;
        match action {
            Action::CreateDirAll { .. } => Outcome::Done,
            Action::Exists { path } => Outcome::Present(self.content(&path).is_some()),
            Action::Inspect { path } => Outcome::Held(match self.nodes.get(&path) {
                None => Hold::Nothing,
                Some(Node::File(_)) => Hold::File,
                Some(Node::Link(_)) => Hold::Link,
            }),
            Action::Write { path, bytes } => {
                let end = self.end_of(&path).unwrap();
                self.nodes.insert(end, Node::File(bytes));
                Outcome::Done
            }
            Action::Create { path } => {
                let end = self.end_of(&path).unwrap();
                self.nodes.insert(end, Node::File(Vec::new()));
                Outcome::Done
            }
            Action::Append { path, bytes } => {
                let end = self.end_of(&path).unwrap();
                match self.nodes.get_mut(&end) {
                    Some(Node::File(held)) => {
                        held.extend_from_slice(&bytes);
                        Outcome::Done
                    }
                    _ => missing(),
                }
            }
            Action::Size { path } => match self.content(&path) {
                Some(bytes) => Outcome::Length(bytes.len() as u64),
                None => missing(),
            },
            Action::Read { path } => match self.content(&path) {
                Some(bytes) => Outcome::Data(bytes),
                None => missing(),
            },
            Action::Open { path } => match self.content(&path) {
                Some(_) => Outcome::Done,
                None => missing(),
            },
            Action::ReadChunk { path, offset, len } => match self.content(&path) {
                Some(bytes) => {
                    let from = (offset as usize).min(bytes.len());
                    let to = from.saturating_add(len).min(bytes.len());
                    Outcome::Data(bytes[from..to].to_vec())
                }
                None => missing(),
            },
            Action::Remove { path } => match self.nodes.remove(&path) {
                Some(_) => Outcome::Done,
                None => missing(),
            },
            Action::Symlink { target, link } => {
                if self.nodes.contains_key(&link) {
                    Outcome::Failed(Failure { not_found: false, reason: "File exists".to_string() })
                } else {
                    self.nodes.insert(link, Node::Link(target));
                    Outcome::Done
                }
            }
            Action::Rename { from, to } => match self.nodes.remove(&from) {
                Some(node) => {
                    self.nodes.insert(to, node);
                    Outcome::Done
                }
                None => missing(),
            },
            Action::ReadDir { path } => {
                let prefix = format!("{}/", path);
                let mut entries = Vec::new();
                for (at, node) in self.nodes.iter() {
                    if let Some(name) = at.strip_prefix(&prefix) {
                        if !name.is_empty() && !name.contains('/') {
                            entries.push(Entry {
                                name: name.to_string(),
                                is_link: matches!(node, Node::Link(_)),
                            });
                        }
                    }
                }
                Outcome::Entries(entries)
            }
            Action::NextChunk => match self.body.pop_front() {
                Some(chunk) => Outcome::Data(chunk),
                None => Outcome::End,
            },
        }
    }
}

fn run(mut op: Operation, w: &mut World) -> Result<Reply, RegistryError> {
    while let Some(call) = op.next() {
        let outcome = w.perform(call);
        op.feed(outcome);
    }
    op.into_result().unwrap()
}

fn run_upload(mut up: Upload, w: &mut World) -> Response {
    while let Some(call) = up.next() {
        let outcome = w.perform(call);
        up.feed(outcome);
    }
    up.into_response().unwrap()
}

fn run_put(mut put: ManifestPut, w: &mut World) -> Response {
    while let Some(call) = put.next() {
        let outcome = w.perform(call);
        put.feed(outcome);
    }
    put.into_response().unwrap()
}

fn bytes_of(reply: Result<Reply, RegistryError>) -> Vec<u8> {
    match reply {
        Ok(Reply::Manifest(bytes)) => bytes,
        other => panic!("no manifest: {:?}", other),
    }
}

fn tags_of(reply: Result<Reply, RegistryError>) -> Vec<String> {
    match reply {
        Ok(Reply::Tags(tags)) => tags,
        other => panic!("no tags: {:?}", other),
    }
}

fn text_of(v: &serde_json::Value) -> Option<String> {
    v.as_str().map(|s| s.to_string())
}

fn annotations_of(v: &serde_json::Value) -> Option<Annotations> {
    v.as_object().map(|members| {
        let mut a = Annotations::new();
        for (key, value) in members.iter() {
            a.insert(key.clone(), value.as_str().unwrap().to_string());
        }
        a
    })
}

fn descriptor_of(v: &serde_json::Value) -> Descriptor {
    Descriptor {
        media_type: text_of(&v["mediaType"]).unwrap(),
        digest: text_of(&v["digest"]).unwrap(),
        size: v["size"].as_i64(),
        urls: v["urls"].as_array().map(|a| a.iter().map(|u| text_of(u).unwrap()).collect()),
        annotations: annotations_of(&v["annotations"]),
    }
}

/// Reads a manifest back from the bytes it was stored as.
fn decode(bytes: &[u8]) -> Manifest {
    let v: serde_json::Value = serde_json::from_slice(bytes).unwrap();
    Manifest {
        schema_version: v["schemaVersion"].as_u64().unwrap() as u8,
        media_type: text_of(&v["mediaType"]),
        config: descriptor_of(&v["config"]),
        layers: v["layers"].as_array().unwrap().iter().map(descriptor_of).collect(),
        annotations: annotations_of(&v["annotations"]),
    }
}

fn try_decode(bytes: &[u8]) -> Result<Manifest, String> {
    match serde_json::from_slice::<serde_json::Value>(bytes) {
        Ok(v) if v.is_object() => Ok(decode(bytes)),
        Ok(_) => Err("no object".to_string()),
        Err(e) => Err(e.to_string()),
    }
}

/// Answers a read as the program does: the bytes are decoded, then served.
fn serve(result: Result<Reply, RegistryError>) -> Response {
    let decoded = match &result {
        Ok(Reply::Manifest(bytes)) => Some(try_decode(bytes)),
        _ => None,
    };
    get_manifest(manifest_read(result, decoded))
}

fn get(s: &Filesystem, w: &mut World, namespace: &str, reference: &str) -> Manifest {
    decode(&bytes_of(run(s.get_manifest(namespace, reference), w)))
}

fn store_puts_and_gets(s: &Filesystem, w: &mut World) {
    let m = Manifest::default();
    run(s.put_manifest("namespace", "reference", &m), w).unwrap();
    let m2 = get(s, w, "namespace", "reference");
    assert_eq!(m, m2);
}

fn store_lists_tags(s: &Filesystem, w: &mut World) {
    let m = Manifest::default();
    run(s.put_manifest("tags", "one", &m), w).unwrap();
    run(s.put_manifest("tags", "two", &m), w).unwrap();
    run(s.put_manifest("tags", "three", &m), w).unwrap();
    assert_eq!(tags_of(run(s.list_tags("tags"), w)), vec!["one", "three", "two"])
}

fn stores_by_digest_and_tag(s: &Filesystem, w: &mut World) {
    let mut m = Manifest::default();
    let mut anno = Annotations::new();
    anno.insert(String::from("foo"), String::from("bar"));
    m.annotations = Some(anno);
    run(s.put_manifest("namespace", "tag", &m), w).unwrap();
    let m2 = get(s, w, "namespace", &m.digest());
    assert_eq!(m, m2);
}

fn allow_overwrite_tag(s: &Filesystem, w: &mut World) {
    let m = Manifest::default();
    run(s.put_manifest("replace", "latest", &m), w).unwrap();
    run(s.put_manifest("replace", "latest", &m), w).unwrap();
}

#[test]
fn fs_store_tests() {
    let test_path = format!("/tmp/blobert-test/{}", uuid::Uuid::new_v4());
    let fstore = Filesystem::new(&test_path);
    let mut w = World::new();
    store_puts_and_gets(&fstore, &mut w);
    store_lists_tags(&fstore, &mut w);
    stores_by_digest_and_tag(&fstore, &mut w);
    allow_overwrite_tag(&fstore, &mut w);
}

#[test]
fn put_writes_content_once_and_links_the_tag() {
    let s = Filesystem::new("/data");
    let mut w = World::new();
    let m = Manifest::default();
    let digest = m.digest();
    run(s.put_manifest("ns", "v1", &m), &mut w).unwrap();
    let content_path = format!("/data/manifests/ns/{}", digest);
    assert_eq!(w.nodes.get(&content_path), Some(&Node::File(m.to_vec())));
    assert_eq!(w.nodes.get("/data/manifests/ns/v1"), Some(&Node::Link(content_path.clone())));
    assert_eq!(w.nodes.len(), 2);
    run(s.put_manifest("ns", "v2", &m), &mut w).unwrap();
    assert_eq!(w.nodes.len(), 3);
    assert_eq!(w.nodes.get("/data/manifests/ns/v2"), Some(&Node::Link(content_path)));
}

#[test]
fn put_twice_leaves_one_tag() {
    let s = Filesystem::new("/data");
    let mut w = World::new();
    let m = Manifest::default();
    assert!(matches!(run(s.put_manifest("replace", "latest", &m), &mut w), Ok(Reply::Stored)));
    let once = w.nodes.clone();
    assert!(matches!(run(s.put_manifest("replace", "latest", &m), &mut w), Ok(Reply::Stored)));
    assert_eq!(w.nodes, once);
    assert_eq!(tags_of(run(s.list_tags("replace"), &mut w)), vec!["latest"]);
}

#[test]
fn tag_moves_to_the_last_manifest() {
    let s = Filesystem::new("/data");
    let mut w = World::new();
    let first = Manifest::default();
    let mut second = Manifest::default();
    second.media_type = Some("application/vnd.oci.image.manifest.v1+json".to_string());
    run(s.put_manifest("ns", "latest", &first), &mut w).unwrap();
    run(s.put_manifest("ns", "latest", &second), &mut w).unwrap();
    assert_eq!(get(&s, &mut w, "ns", "latest"), second);
    assert_eq!(get(&s, &mut w, "ns", &first.digest()), first);
    assert_eq!(tags_of(run(s.list_tags("ns"), &mut w)), vec!["latest"]);
}

#[test]
fn namespaces_are_apart() {
    let s = Filesystem::new("/data");
    let mut w = World::new();
    run(s.put_manifest("a", "latest", &Manifest::default()), &mut w).unwrap();
    assert_eq!(tags_of(run(s.list_tags("b"), &mut w)), Vec::<String>::new());
    let err = run(s.get_manifest("b", "latest"), &mut w).unwrap_err();
    assert_eq!(err.code, "MANIFEST_UNKNOWN");
}

#[test]
fn unknown_manifest_is_reported_as_such() {
    let s = Filesystem::new("/data");
    let mut w = World::new();
    let err = run(s.get_manifest("ns", "nothing"), &mut w).unwrap_err();
    assert_eq!(err.code, "MANIFEST_UNKNOWN");
    assert_eq!(err.message, "manifest unknown to registry");
    assert_eq!(err.detail.reason, "No such file or directory");
    let r = serve(run(s.get_manifest("ns", "nothing"), &mut w));
    assert_eq!(r.status, 404);
    let body: serde_json::Value = serde_json::from_slice(&r.body).unwrap();
    assert_eq!(body["errors"][0]["code"].as_str(), Some("MANIFEST_UNKNOWN"));
}

#[test]
fn other_read_failures_are_unknown_errors() {
    let s = Filesystem::new("/data");
    let mut op = s.get_manifest("ns", "tag");
    assert!(matches!(op.next(), Some(Action::CreateDirAll { .. })));
    op.feed(Outcome::Done);
    assert!(matches!(op.next(), Some(Action::Read { .. })));
    op.feed(Outcome::Failed(Failure { not_found: false, reason: "Permission denied".to_string() }));
    assert!(op.next().is_none());
    let err = op.into_result().unwrap().unwrap_err();
    assert_eq!(err.code, "UNKNOWN_ERROR");
    assert_eq!(err.detail.reason, "Permission denied");
}

#[test]
fn write_failure_stops_the_put() {
    let s = Filesystem::new("/data");
    let mut op = s.put_manifest("ns", "tag", &Manifest::default());
    op.feed(Outcome::Done);
    assert!(matches!(op.next(), Some(Action::Exists { .. })));
    op.feed(Outcome::Present(false));
    assert!(matches!(op.next(), Some(Action::Write { .. })));
    op.feed(Outcome::Failed(Failure { not_found: false, reason: "No space left".to_string() }));
    assert!(op.next().is_none());
    let err = op.into_result().unwrap().unwrap_err();
    assert_eq!(err.code, "UNKNOWN_ERROR");
    assert_eq!(err.detail.reason, "No space left");
}

#[test]
fn listing_leaves_out_the_manifests() {
    let s = Filesystem::new("/data");
    let mut op = s.list_tags("ns");
    op.feed(Outcome::Done);
    match op.next() {
        Some(Action::ReadDir { path }) => assert_eq!(path, "/data/manifests/ns"),
        other => panic!("unexpected call {:?}", other),
    }
    op.feed(Outcome::Entries(vec![
        Entry { name: "two".to_string(), is_link: true },
        Entry { name: sha256_digest(b"m"), is_link: false },
        Entry { name: "one".to_string(), is_link: true },
        Entry { name: "three".to_string(), is_link: true },
    ]));
    assert_eq!(tags_of(op.into_result().unwrap()), vec!["one", "three", "two"]);
}

#[test]
fn manifest_is_served_with_its_digest() {
    let s = Filesystem::new("/data");
    let mut w = World::new();
    let m = Manifest::default();
    run(s.put_manifest("ns", "latest", &m), &mut w).unwrap();
    let r = serve(run(s.get_manifest("ns", "latest"), &mut w));
    assert_eq!(r.status, 200);
    assert_eq!(
        r.header("Content-Type"),
        Some("application/vnd.docker.distribution.manifest.v2+json".to_string())
    );
    assert_eq!(r.header("Content-Length"), Some(m.to_vec().len().to_string()));
    assert_eq!(r.header("Docker-Content-Digest"), Some(m.digest()));
    assert_eq!(r.body, m.to_vec());
}

#[test]
fn manifest_upload_is_answered_with_the_tags() {
    let s = Filesystem::new("/data");
    let mut w = World::new();
    let m = Manifest::default();
    run(s.put_manifest("ns", "old", &m), &mut w).unwrap();
    let r = run_put(put_manifest(&s, "https://reg.example", "ns", "new", Some(m.clone())), &mut w);
    assert_eq!(r.status, 201);
    assert_eq!(r.header("Content-Type"), Some("application/json".to_string()));
    assert_eq!(r.header("Location"), Some("https://reg.example/v2/ns/manifests/new".to_string()));
    assert_eq!(r.header("Docker-Content-Digest"), Some(m.digest()));
    assert_eq!(String::from_utf8(r.body).unwrap(), "{\"name\":\"new\",\"tags\":[\"new\",\"old\"]}");
    assert_eq!(get(&s, &mut w, "ns", "new"), m);
}

#[test]
fn malformed_manifest_does_not_touch_the_store() {
    let s = Filesystem::new("/data");
    let mut w = World::new();
    let put = put_manifest(&s, "https://reg.example", "ns", "new", None);
    assert!(put.next().is_none());
    let r = run_put(put, &mut w);
    assert_eq!(r.status, 400);
    let body: serde_json::Value = serde_json::from_slice(&r.body).unwrap();
    assert_eq!(body["errors"][0]["code"].as_str(), Some("MANIFEST_INVALID"));
    assert_eq!(w.calls, 0);
    assert!(w.nodes.is_empty());
}

#[test]
fn manifest_upload_reports_store_failures() {
    let s = Filesystem::new("/data");
    let mut put = put_manifest(&s, "https://reg.example", "ns", "new", Some(Manifest::default()));
    put.feed(Outcome::Failed(Failure { not_found: false, reason: "Read-only file system".to_string() }));
    assert!(put.next().is_none());
    let r = put.into_response().unwrap();
    assert_eq!(r.status, 500);
    let body: serde_json::Value = serde_json::from_slice(&r.body).unwrap();
    assert_eq!(body["errors"][0]["code"].as_str(), Some("UNKNOWN_ERROR"));
    assert_eq!(body["errors"][0]["detail"]["reason"].as_str(), Some("Read-only file system"));
}

fn header(r: &Response, name: &str) -> String {
    r.header(name).unwrap_or_else(|| panic!("no header {}", name))
}

#[test]
fn upload_end_to_end() {
    let store = Store::new("/data", 4);
    let mut w = World::new();
    let url = "https://reg.example";

    let started = start_blob_upload(url, "lib");
    assert_eq!(started.status, 202);
    let id = header(&started, "Docker-Upload-UUID");
    assert_eq!(id.len(), 36);
    assert_eq!(header(&started, "Location"), format!("{}/v2/lib/blobs/upload/{}", url, id));
    assert_eq!(header(&started, "Range"), "0-0");
    assert!(w.nodes.is_empty());

    w.with_body(&[b"hello"]);
    let accepted = run_upload(patch_blob_data(&store, url, "lib", &id, None), &mut w);
    assert_eq!(accepted.status, 202);
    assert_eq!(header(&accepted, "Range"), "0-5");
    assert_eq!(header(&accepted, "Docker-Upload-UUID"), id);
    assert_eq!(header(&accepted, "Content-Length"), "0");
    assert_eq!(header(&accepted, "Location"), format!("{}/v2/lib/blobs/upload/{}", url, id));

    let digest = sha256_digest(b"hello");
    assert!(!blob_is_there(&store, &mut w, &digest));

    let info = PutDigest { digest: digest.clone() };
    let created = run_upload(put_blob_upload_complete(&store, url, "lib", &id, &info), &mut w);
    assert_eq!(created.status, 201);
    assert_eq!(header(&created, "Docker-Content-Digest"), digest);
    assert_eq!(header(&created, "Location"), format!("/v2/lib/blobs/upload/{}", digest));
    assert_eq!(header(&created, "Content-Length"), "0");

    assert!(blob_is_there(&store, &mut w, &digest));
    assert!(!w.nodes.contains_key(&store.get_upload_path(&id)));

    let outcome = w.perform(store.get_blob(&digest));
    let (head, stream) = get_blob(&store, &digest, &outcome);
    assert!(stream.is_some());
    assert_eq!(head.status, 200);
    assert_eq!(header(&head, "Docker-Content-Digest"), digest);
    assert_eq!(header(&head, "Content-Type"), "application/vnd.oci.image.layer.v1.tar");
    let chunks = stream_all(&store, &mut w, &digest);
    assert_eq!(chunks, vec![b"hell".to_vec(), b"o".to_vec()]);
    assert_eq!(chunks.concat(), b"hello");
}

fn blob_is_there(store: &Store, w: &mut World, digest: &str) -> bool {
    let outcome = w.perform(store.blob_exists(digest));
    blob_exists(digest, &outcome).status == 200
}

fn stream_all(store: &Store, w: &mut World, digest: &str) -> Vec<Vec<u8>> {
    let mut stream = store.stream(digest);
    let mut chunks = Vec::new();
    while let Some(call) = stream.poll_next() {
        match stream.received(w.perform(call)) {
            Item::Chunk(bytes) => chunks.push(bytes),
            Item::End => {}
            Item::Broken(reason) => panic!("broken stream: {}", reason),
        }
    }
    chunks
}

#[test]
fn session_ids_are_fresh() {
    let a = start_blob_upload("u", "lib").header("Docker-Upload-UUID").unwrap();
    let b = start_blob_upload("u", "lib").header("Docker-Upload-UUID").unwrap();
    assert_ne!(a, b);
    for (i, c) in a.chars().enumerate() {
        if i == 8 || i == 13 || i == 18 || i == 23 {
            assert_eq!(c, '-');
        } else {
            assert!(c.is_ascii_digit() || ('a'..='f').contains(&c));
        }
    }
}

#[test]
fn chunks_are_appended_across_requests() {
    let store = Store::new("/data", 1024);
    let mut w = World::new();
    w.with_body(&[b"hel", b"", b"lo"]);
    let first = run_upload(patch_blob_data(&store, "u", "lib", "session", None), &mut w);
    assert_eq!(header(&first, "Range"), "0-5");
    w.with_body(&[b" world"]);
    let second = run_upload(patch_blob_data(&store, "u", "lib", "session", Some("5-10")), &mut w);
    assert_eq!(second.status, 202);
    assert_eq!(header(&second, "Range"), "0-11");
    assert_eq!(w.content("/data/upload/session"), Some(b"hello world".to_vec()));
}

#[test]
fn chunk_that_leaves_a_gap_is_refused() {
    let store = Store::new("/data", 1024);
    let mut w = World::new();
    w.with_body(&[b"hello"]);
    run_upload(patch_blob_data(&store, "u", "lib", "session", Some("0-4")), &mut w);
    for start in [0u64, 4, 6] {
        w.with_body(&[b"more"]);
        let range = format!("{}-{}", start, start + 3);
        let r = run_upload(patch_blob_data(&store, "u", "lib", "session", Some(&range)), &mut w);
        assert_eq!(r.status, 416);
        let body: serde_json::Value = serde_json::from_slice(&r.body).unwrap();
        assert_eq!(body["errors"][0]["code"].as_str(), Some("BLOB_UPLOAD_INVALID"));
        assert_eq!(w.content("/data/upload/session"), Some(b"hello".to_vec()));
    }
    w.with_body(&[b"x"]);
    let r = run_upload(patch_blob_data(&store, "u", "lib", "fresh", Some("3-3")), &mut w);
    assert_eq!(r.status, 416);
    assert!(!w.nodes.contains_key("/data/upload/fresh"));
}

#[test]
fn wrong_digest_is_refused_before_commit() {
    let store = Store::new("/data", 1024);
    let mut w = World::new();
    w.with_body(&[b"hello"]);
    run_upload(patch_blob_data(&store, "u", "lib", "session", None), &mut w);
    let declared = sha256_digest(b"other");
    let info = PutDigest { digest: declared.clone() };
    let r = run_upload(put_blob_upload_complete(&store, "u", "lib", "session", &info), &mut w);
    assert_eq!(r.status, 400);
    let body: serde_json::Value = serde_json::from_slice(&r.body).unwrap();
    assert_eq!(body["errors"][0]["code"].as_str(), Some("DIGEST_INVALID"));
    assert!(!blob_is_there(&store, &mut w, &declared));
    assert!(!blob_is_there(&store, &mut w, &sha256_digest(b"hello")));
    assert_eq!(w.content("/data/upload/session"), Some(b"hello".to_vec()));
}

#[test]
fn completion_appends_the_trailing_body() {
    let store = Store::new("/data", 1024);
    let mut w = World::new();
    w.with_body(&[b"hel"]);
    run_upload(patch_blob_data(&store, "u", "lib", "session", None), &mut w);
    w.with_body(&[b"lo"]);
    let digest = sha256_digest(b"hello");
    let info = PutDigest { digest: digest.clone() };
    let r = run_upload(put_blob_upload_complete(&store, "u", "lib", "session", &info), &mut w);
    assert_eq!(r.status, 201);
    assert_eq!(w.content(&store.get_blob_path(&digest)), Some(b"hello".to_vec()));
}

#[test]
fn whole_blob_in_one_request() {
    let store = Store::new("/data", 1024);
    let mut w = World::new();
    w.with_body(&[b"hello"]);
    let digest = sha256_digest(b"hello");
    let info = PutDigest { digest: digest.clone() };
    let r = run_upload(put_blob_upload_complete(&store, "u", "lib", "one-shot", &info), &mut w);
    assert_eq!(r.status, 201);
    assert_eq!(stream_all(&store, &mut w, &digest).concat(), b"hello");
}

#[test]
fn unknown_blob_is_reported_as_such() {
    let store = Store::new("/data", 1024);
    let mut w = World::new();
    let digest = sha256_digest(b"nothing");
    let outcome = w.perform(store.blob_exists(&digest));
    let r = blob_exists(&digest, &outcome);
    assert_eq!(r.status, 404);
    let body: serde_json::Value = serde_json::from_slice(&r.body).unwrap();
    assert_eq!(body["errors"][0]["code"].as_str(), Some("BLOB_UNKNOWN"));
    let outcome = w.perform(store.get_blob(&digest));
    let (r, stream) = get_blob(&store, &digest, &outcome);
    assert!(stream.is_none());
    assert_eq!(r.status, 404);
    let body: serde_json::Value = serde_json::from_slice(&r.body).unwrap();
    assert_eq!(body["errors"][0]["code"].as_str(), Some("BLOB_UNKNOWN"));
}

#[test]
fn commit_without_staging_fails() {
    let store = Store::new("/data", 1024);
    let mut w = World::new();
    let digest = sha256_digest(b"hello");
    match w.perform(store.commit("nobody", &digest)) {
        Outcome::Failed(failure) => assert!(failure.not_found),
        other => panic!("unexpected outcome {:?}", other),
    }
    assert!(!blob_is_there(&store, &mut w, &digest));
}

#[test]
fn write_failure_is_reported_with_its_cause() {
    let store = Store::new("/data", 1024);
    let mut up = patch_blob_data(&store, "u", "lib", "session", None);
    up.feed(Outcome::Present(false));
    assert!(matches!(up.next(), Some(Action::Create { .. })));
    up.feed(Outcome::Done);
    assert!(matches!(up.next(), Some(Action::NextChunk)));
    up.feed(Outcome::Data(b"abc".to_vec()));
    match up.next() {
        Some(Action::Append { path, bytes }) => {
            assert_eq!(path, "/data/upload/session");
            assert_eq!(bytes, b"abc");
        }
        other => panic!("unexpected call {:?}", other),
    }
    up.feed(Outcome::Failed(Failure { not_found: false, reason: "No space left".to_string() }));
    assert!(up.next().is_none());
    let r = up.into_response().unwrap();
    assert_eq!(r.status, 500);
    let body: serde_json::Value = serde_json::from_slice(&r.body).unwrap();
    assert_eq!(body["errors"][0]["code"].as_str(), Some("UNKNOWN_ERROR"));
    assert_eq!(body["errors"][0]["detail"]["reason"].as_str(), Some("No space left"));
}

#[test]
fn stream_reads_in_chunks_of_the_buffer() {
    let store = Store::new("/data", 3);
    let mut w = World::new();
    let digest = sha256_digest(b"0123456789");
    w.nodes.insert(store.get_blob_path(&digest), Node::File(b"0123456789".to_vec()));
    let chunks = stream_all(&store, &mut w, &digest);
    assert_eq!(chunks, vec![b"012".to_vec(), b"345".to_vec(), b"678".to_vec(), b"9".to_vec()]);
}

#[test]
fn stream_hands_on_a_failed_read() {
    let store = Store::new("/data", 3);
    let mut stream = store.stream("sha256:x");
    assert!(stream.poll_next().is_some());
    match stream.received(Outcome::Data(b"abc".to_vec())) {
        Item::Chunk(bytes) => assert_eq!(bytes, b"abc"),
        other => panic!("unexpected item {:?}", other),
    }
    match stream.poll_next() {
        Some(Action::ReadChunk { offset, len, .. }) => {
            assert_eq!(offset, 3);
            assert_eq!(len, 3);
        }
        other => panic!("unexpected call {:?}", other),
    }
    let failure = Failure { not_found: false, reason: "Input/output error".to_string() };
    match stream.received(Outcome::Failed(failure)) {
        Item::Broken(reason) => assert_eq!(reason, "Input/output error"),
        other => panic!("unexpected item {:?}", other),
    }
    assert!(stream.poll_next().is_none());
}

#[test]
fn store_paths() {
    let store = Store::new("/var/local/register", 1024);
    assert_eq!(store.get_upload_path("abc"), "/var/local/register/upload/abc");
    assert_eq!(store.get_blob_path("sha256:00"), "/var/local/register/blobs/sha256:00");
    assert!(store.get_upload_file("abc", true).is_none());
    match store.get_upload_file("abc", false) {
        Some(Action::Create { path }) => assert_eq!(path, "/var/local/register/upload/abc"),
        other => panic!("unexpected call {:?}", other),
    }
    match store.append_chunk("abc", b"xy".to_vec()) {
        Action::Append { path, bytes } => {
            assert_eq!(path, "/var/local/register/upload/abc");
            assert_eq!(bytes, b"xy");
        }
        other => panic!("unexpected call {:?}", other),
    }
    match store.commit("abc", "sha256:00") {
        Action::Rename { from, to } => {
            assert_eq!(from, "/var/local/register/upload/abc");
            assert_eq!(to, "/var/local/register/blobs/sha256:00");
        }
        other => panic!("unexpected call {:?}", other),
    }
    assert!(matches!(
        store.upload_exists("abc"),
        Action::Exists { path } if path == "/var/local/register/upload/abc"
    ));
    assert!(matches!(
        store.upload_size("abc"),
        Action::Size { path } if path == "/var/local/register/upload/abc"
    ));
    assert!(matches!(
        store.read_upload("abc"),
        Action::Read { path } if path == "/var/local/register/upload/abc"
    ));
    assert!(matches!(
        store.blob_exists("sha256:00"),
        Action::Exists { path } if path == "/var/local/register/blobs/sha256:00"
    ));
    assert!(matches!(
        store.get_blob("sha256:00"),
        Action::Open { path } if path == "/var/local/register/blobs/sha256:00"
    ));
    let fs = Filesystem::new("/var/local/register");
    assert_eq!(fs.get_manifest_path("lib"), "/var/local/register/manifests/lib");
    assert!(matches!(
        fs.setup(),
        Action::CreateDirAll { path } if path == "/var/local/register"
    ));
}

#[test]
fn put_bytes_stores_what_it_is_given() {
    let s = Filesystem::new("/data");
    let mut w = World::new();
    let bytes = b"{}".to_vec();
    let digest = sha256_digest(&bytes);
    assert!(matches!(
        run(s.put_bytes("ns", "tag", &digest, bytes.clone()), &mut w),
        Ok(Reply::Stored)
    ));
    assert_eq!(bytes_of(run(s.get_manifest("ns", "tag"), &mut w)), bytes);
    assert_eq!(bytes_of(run(s.get_manifest("ns", &digest), &mut w)), bytes);
}

#[test]
fn dangling_tag_is_replaced() {
    let s = Filesystem::new("/data");
    let mut w = World::new();
    w.nodes.insert("/data/manifests/ns/tag".to_string(), Node::Link("/nowhere".to_string()));
    let m = Manifest::default();
    assert!(matches!(run(s.put_manifest("ns", "tag", &m), &mut w), Ok(Reply::Stored)));
    assert_eq!(get(&s, &mut w, "ns", "tag"), m);
}

#[test]
fn put_under_its_own_digest_keeps_the_manifest() {
    let s = Filesystem::new("/data");
    let mut w = World::new();
    let m = Manifest::default();
    let digest = m.digest();
    assert!(matches!(run(s.put_manifest("namespace", &digest, &m), &mut w), Ok(Reply::Stored)));
    assert_eq!(get(&s, &mut w, "namespace", &digest), m);
    assert_eq!(w.nodes.len(), 1);
    assert_eq!(
        w.nodes.get(&format!("/data/manifests/namespace/{}", digest)),
        Some(&Node::File(m.to_vec()))
    );
    let once = w.nodes.clone();
    assert!(matches!(run(s.put_manifest("namespace", &digest, &m), &mut w), Ok(Reply::Stored)));
    assert_eq!(w.nodes, once);
    assert_eq!(tags_of(run(s.list_tags("namespace"), &mut w)), Vec::<String>::new());
}

#[test]
fn reference_shaped_as_another_digest_is_refused() {
    let s = Filesystem::new("/data");
    let mut w = World::new();
    let first = Manifest::default();
    let mut second = Manifest::default();
    second.schema_version = 1;
    run(s.put_manifest("ns", "latest", &first), &mut w).unwrap();
    let before = w.nodes.clone();
    let calls = w.calls;
    let op = s.put_manifest("ns", &first.digest(), &second);
    assert!(op.next().is_none());
    let err = run(op, &mut w).unwrap_err();
    assert_eq!(err.code, "DIGEST_INVALID");
    assert_eq!(w.nodes, before);
    assert_eq!(w.calls, calls);
    assert_eq!(get(&s, &mut w, "ns", &first.digest()), first);

    let put = put_manifest(&s, "https://reg.example", "ns", &second.digest(), Some(first.clone()));
    assert!(put.next().is_none());
    let r = run_put(put, &mut w);
    assert_eq!(r.status, 400);
    let body: serde_json::Value = serde_json::from_slice(&r.body).unwrap();
    assert_eq!(body["errors"][0]["code"].as_str(), Some("DIGEST_INVALID"));
    assert_eq!(w.nodes, before);
}

#[test]
fn manifest_upload_under_its_digest() {
    let s = Filesystem::new("/data");
    let mut w = World::new();
    let m = Manifest::default();
    let digest = m.digest();
    let r = run_put(put_manifest(&s, "https://reg.example", "ns", &digest, Some(m.clone())), &mut w);
    assert_eq!(r.status, 201);
    assert_eq!(r.header("Docker-Content-Digest"), Some(digest.clone()));
    assert_eq!(
        String::from_utf8(r.body).unwrap(),
        format!("{{\"name\":\"{}\",\"tags\":[]}}", digest)
    );
    assert_eq!(get(&s, &mut w, "ns", &digest), m);
}

#[test]
fn file_at_the_tag_is_not_removed() {
    let s = Filesystem::new("/data");
    let mut w = World::new();
    w.nodes.insert("/data/manifests/ns/tag".to_string(), Node::File(b"kept".to_vec()));
    let err = run(s.put_manifest("ns", "tag", &Manifest::default()), &mut w).unwrap_err();
    assert_eq!(err.code, "UNKNOWN_ERROR");
    assert_eq!(err.detail.reason, "File exists");
    assert_eq!(w.nodes.get("/data/manifests/ns/tag"), Some(&Node::File(b"kept".to_vec())));
}

#[test]
fn stored_bytes_that_are_no_manifest_are_an_error() {
    let s = Filesystem::new("/data");
    let mut w = World::new();
    w.nodes.insert("/data/manifests/ns/broken".to_string(), Node::File(b"{".to_vec()));
    let result = run(s.get_manifest("ns", "broken"), &mut w);
    let decoded = Some(try_decode(b"{"));
    let err = manifest_read(result, decoded).unwrap_err();
    assert_eq!(err.code, "UNKNOWN_ERROR");
    assert!(!err.detail.reason.is_empty());
    let r = serve(run(s.get_manifest("ns", "broken"), &mut w));
    assert_eq!(r.status, 500);
    let body: serde_json::Value = serde_json::from_slice(&r.body).unwrap();
    assert_eq!(body["errors"][0]["code"].as_str(), Some("UNKNOWN_ERROR"));
}

#[test]
fn read_that_nobody_decoded_is_an_error() {
    let err = manifest_read(Ok(Reply::Manifest(b"{}".to_vec())), None).unwrap_err();
    assert_eq!(err.code, "UNKNOWN_ERROR");
    let err = manifest_read(Ok(Reply::Stored), None).unwrap_err();
    assert_eq!(err.code, "UNKNOWN_ERROR");
    let m = Manifest::default();
    assert_eq!(manifest_read(Ok(Reply::Manifest(m.to_vec())), Some(Ok(m.clone()))).unwrap(), m);
}

#[test]
fn chunk_with_unreadable_range_is_refused() {
    let store = Store::new("/data", 1024);
    let mut w = World::new();
    for range in ["", "bytes 0-4", "5", "-", "18446744073709551616-1"] {
        w.with_body(&[b"hello"]);
        let up = patch_blob_data(&store, "u", "lib", "session", Some(range));
        assert!(up.next().is_none());
        let r = run_upload(up, &mut w);
        assert_eq!(r.status, 416);
        let body: serde_json::Value = serde_json::from_slice(&r.body).unwrap();
        assert_eq!(body["errors"][0]["code"].as_str(), Some("BLOB_UPLOAD_INVALID"));
        assert!(w.nodes.is_empty());
        assert_eq!(w.calls, 0);
    }
}
