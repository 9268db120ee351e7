//! Serving and accepting manifests.

use crate::error::{
    error_of, error_response, RegistryError, RegistryErrorView, DIGEST_INVALID, MANIFEST_INVALID,
    MANIFEST_UNKNOWN, UNKNOWN_ERROR,
};
use crate::json::{json_string, json_string_array, push_json_string, push_string_array, push_text};
use crate::text::texts;
use crate::meta::fs::{
    fits, lemma_listing_shows_tags, lemma_put_stores, list_begun, namespace_dir, operation_call,
    operation_fed, operation_run, phase_rank, put_begun, put_nodes, put_result, tags_of,
    went_well, Filesystem, Operation, OperationView, Phase, Reply, ReplyView,
};
use crate::model::{apply, listing, lists, Node, World};
use crate::order::ordered;
use crate::path::{is_absolute, is_entry_name, lemma_pushed_injective, pushed};
use crate::meta::manifest::{manifest_bytes, Manifest, ManifestView, IMAGE_MANIFEST_MEDIA_TYPE};
use crate::meta::Store;
use crate::response::{Response, ResponseView};
use crate::storage::{Action, ActionView, Outcome, OutcomeView};
use crate::text::{decimal, usize_to_string};
use crate::util::{digest_of, sha256_digest};
use vstd::prelude::*;
use vstd::string::*;
use vstd::utf8::encode_utf8;

verus! {

/// The most bytes that the body of a manifest upload may have.
pub const MAX_MANIFEST_SIZE: usize = 4194304;

/// The body of a request, gathered chunk by chunk up to a limit.
#[derive(Debug)]
pub struct Body {
    pub bytes: Vec<u8>,
    pub limit: usize,
}

impl Body {
    /// An empty body that takes at most `limit` bytes.
    pub fn new(limit: usize) -> (body: Body)
        ensures
            body.bytes@ == Seq::<u8>::empty(),
            body.limit == limit,
    {
        Body { bytes: Vec::new(), limit }
    }

    /// Takes a chunk if the body stays within its limit with it, and says
    /// whether it did. A chunk that does not fit leaves the body as it was.
    pub fn push(&mut self, chunk: &[u8]) -> (taken: bool)
        ensures
            final(self).limit == old(self).limit,
            taken == (old(self).bytes@.len() + chunk@.len() <= old(self).limit),
            taken ==> final(self).bytes@ == old(self).bytes@ + chunk@,
            !taken ==> final(self).bytes@ == old(self).bytes@,
    {
        if self.bytes.len() > self.limit || chunk.len() > self.limit - self.bytes.len() {
            return false;
        }
        let ghost before = self.bytes@;
        self.bytes.extend_from_slice(chunk);
        assert(self.bytes@ =~= before + chunk@);
        true
    }
}

/// The answer that serves a manifest: its bytes, their length and their
/// digest.
pub open spec fn manifest_response(bytes: Seq<u8>, digest: Seq<char>) -> ResponseView {
    ResponseView {
        status: 200,
        headers: seq![
            ("Content-Type"@, IMAGE_MANIFEST_MEDIA_TYPE@),
            ("Content-Length"@, decimal(bytes.len())),
            ("Docker-Content-Digest"@, digest),
        ],
        body: bytes,
    }
}

/// What reading a manifest gives, from how the read ended and from what
/// decoding the bytes gave. Bytes that are no manifest are an error of the
/// store, with what the decoder said as its cause; so is a read whose bytes
/// nobody decoded.
pub open spec fn read_result(
    result: Result<ReplyView, RegistryErrorView>,
    decoded: Option<Result<ManifestView, Seq<char>>>,
) -> Result<ManifestView, RegistryErrorView> {
    match result {
        Err(e) => Err(e),
        Ok(ReplyView::Manifest(_)) => match decoded {
            Some(Ok(m)) => Ok(m),
            Some(Err(reason)) => Err(error_of(UNKNOWN_ERROR, reason)),
            None => Err(error_of(UNKNOWN_ERROR, "unexpected answer"@)),
        },
        Ok(_) => Err(error_of(UNKNOWN_ERROR, "unexpected answer"@)),
    }
}

/// The answer to a request for a manifest. A manifest is served as the
/// bytes it is stored as, with the digest of those bytes, computed anew. A
/// manifest that is not there is reported as not found, any other failure
/// as a failure of the registry.
pub open spec fn get_response(result: Result<ManifestView, RegistryErrorView>) -> ResponseView {
    match result {
        Ok(m) => manifest_response(manifest_bytes(m), digest_of(manifest_bytes(m))),
        Err(e) => if e.code == MANIFEST_UNKNOWN.0@ {
            error_response(e, 404)
        } else {
            error_response(e, 500)
        },
    }
}

/// Answers with a manifest whose bytes have the digest `digest`.
pub fn manifest_found(bytes: Vec<u8>, digest: String) -> (r: Response)
    ensures
        r@ == manifest_response(bytes@, digest@),
{
    let length = usize_to_string(bytes.len());
    let r = Response::new(200).with_header(
        "Content-Type",
        String::from_str(IMAGE_MANIFEST_MEDIA_TYPE),
    ).with_header("Content-Length", length).with_header("Docker-Content-Digest", digest).with_body(
        bytes,
    );
    assert(r@.headers =~= manifest_response(bytes@, digest@).headers);
    r
}

/// Takes what decoding the bytes of a read gave, and says what the read
/// gives: the manifest, or the error.
pub fn manifest_read(
    result: Result<Reply, RegistryError>,
    decoded: Option<Result<Manifest, String>>,
) -> (r: Result<Manifest, RegistryError>)
    ensures
        match r {
            Ok(m) => Ok::<ManifestView, RegistryErrorView>(m@),
            Err(e) => Err(e@),
        } == read_result(
            match result {
                Ok(reply) => Ok(reply@),
                Err(e) => Err(e@),
            },
            match decoded {
                Some(Ok(m)) => Some(Ok(m@)),
                Some(Err(reason)) => Some(Err(reason@)),
                None => None,
            },
        ),
{
    match result {
        Err(e) => Err(e),
        Ok(Reply::Manifest(_)) => match decoded {
            Some(Ok(m)) => Ok(m),
            Some(Err(reason)) => Err(RegistryError::from_err(UNKNOWN_ERROR, reason.as_str())),
            None => Err(RegistryError::from_err(UNKNOWN_ERROR, "unexpected answer")),
        },
        Ok(_) => Err(RegistryError::from_err(UNKNOWN_ERROR, "unexpected answer")),
    }
}

/// Answers a request for a manifest, from what reading it gave.
pub fn get_manifest(result: Result<Manifest, RegistryError>) -> (r: Response)
    ensures
        r@ == get_response(
            match result {
                Ok(m) => Ok(m@),
                Err(e) => Err(e@),
            },
        ),
{
    match result {
        Ok(m) => {
            let bytes = m.to_vec();
            let digest = sha256_digest(bytes.as_slice());
            manifest_found(bytes, digest)
        },
        Err(e) => {
            if e.code == String::from_str(MANIFEST_UNKNOWN.0) {
                e.respond()
            } else {
                e.respond_with(500)
            }
        },
    }
}

/// The answer to a body that could not be read to its end.
pub open spec fn interrupted_response(reason: Seq<char>) -> ResponseView {
    error_response(error_of(MANIFEST_INVALID, reason), 400)
}

/// Answers a body that could not be read to its end.
pub fn body_interrupted(reason: &str) -> (r: Response)
    ensures
        r@ == interrupted_response(reason@),
{
    RegistryError::from_err(MANIFEST_INVALID, reason).respond_with(400)
}

/// Where the manifest `reference` of `namespace` is addressed.
pub open spec fn manifest_location(
    server_url: Seq<char>,
    namespace: Seq<char>,
    reference: Seq<char>,
) -> Seq<char> {
    server_url + "/v2/"@ + namespace + "/manifests/"@ + reference
}

/// The JSON document that reports a stored manifest: the name it was
/// stored by and the tags of its namespace.
pub open spec fn stored_body(reference: Seq<char>, tags: Seq<Seq<char>>) -> Seq<u8> {
    encode_utf8("{\"name\":"@) + json_string(reference) + encode_utf8(",\"tags\":"@)
        + json_string_array(tags) + encode_utf8("}"@)
}

/// The answer to a stored manifest.
pub open spec fn stored_response(
    server_url: Seq<char>,
    namespace: Seq<char>,
    reference: Seq<char>,
    digest: Seq<char>,
    tags: Seq<Seq<char>>,
) -> ResponseView {
    ResponseView {
        status: 201,
        headers: seq![
            ("Content-Type"@, "application/json"@),
            ("Location"@, manifest_location(server_url, namespace, reference)),
            ("Docker-Content-Digest"@, digest),
        ],
        body: stored_body(reference, tags),
    }
}

/// Answers a stored manifest.
pub fn manifest_stored(
    server_url: &str,
    namespace: &str,
    reference: &str,
    digest: &str,
    tags: &Vec<String>,
) -> (r: Response)
    ensures
        r@ == stored_response(server_url@, namespace@, reference@, digest@, texts(tags@)),
{
    let mut location = String::from_str(server_url);
    location.append("/v2/");
    location.append(namespace);
    location.append("/manifests/");
    location.append(reference);
    let mut body: Vec<u8> = Vec::new();
    push_text(&mut body, "{\"name\":");
    push_json_string(&mut body, reference);
    push_text(&mut body, ",\"tags\":");
    push_string_array(&mut body, tags);
    push_text(&mut body, "}");
    assert(body@ =~= stored_body(reference@, texts(tags@)));
    let r = Response::new(201).with_header(
        "Content-Type",
        String::from_str("application/json"),
    ).with_header("Location", location).with_header(
        "Docker-Content-Digest",
        String::from_str(digest),
    ).with_body(body);
    assert(r@.headers =~= stored_response(
        server_url@,
        namespace@,
        reference@,
        digest@,
        texts(tags@),
    ).headers);
    r
}

/// The answer to a body that is no manifest.
pub open spec fn malformed_response() -> ResponseView {
    error_response(error_of(MANIFEST_INVALID, Seq::empty()), 400)
}

/// The answer to a body that is longer than a manifest may be.
pub open spec fn oversized_response() -> ResponseView {
    error_response(error_of(MANIFEST_INVALID, "manifest exceeds the size limit"@), 413)
}

/// Answers a body that is longer than a manifest may be.
pub fn manifest_oversized() -> (r: Response)
    ensures
        r@ == oversized_response(),
{
    RegistryError::from_err(MANIFEST_INVALID, "manifest exceeds the size limit").respond_with(413)
}

/// Where the upload of a manifest stands.
#[derive(Debug, Clone, Copy, PartialEq, Eq, Structural)]
pub enum PutStage {
    /// The manifest is being stored.
    Store,
    /// The tags of the namespace are being listed.
    List,
    /// Answered.
    Finished,
}

/// The upload of a manifest: it is stored under its digest and its tag,
/// and answered with the tags of its namespace.
#[derive(Debug)]
pub struct ManifestPut {
    pub stage: PutStage,
    /// The operation on the store that is under way.
    pub op: Operation,
    pub data_dir: String,
    pub server_url: String,
    pub namespace: String,
    pub reference: String,
    /// The digest of the manifest.
    pub digest: String,
    /// The answer, once there is one.
    pub response: Option<Response>,
}

/// The mathematical content of a `ManifestPut`.
pub struct ManifestPutView {
    pub stage: PutStage,
    pub op: OperationView,
    pub data_dir: Seq<char>,
    pub server_url: Seq<char>,
    pub namespace: Seq<char>,
    pub reference: Seq<char>,
    pub digest: Seq<char>,
    pub response: Option<ResponseView>,
}

impl View for ManifestPut {
    type V = ManifestPutView;

    open spec fn view(&self) -> ManifestPutView {
        ManifestPutView {
            stage: self.stage,
            op: self.op@,
            data_dir: self.data_dir@,
            server_url: self.server_url@,
            namespace: self.namespace@,
            reference: self.reference@,
            digest: self.digest@,
            response: match self.response {
                Some(r) => Some(r@),
                None => None,
            },
        }
    }
}

/// The answer to a manifest whose reference has the shape of a digest and
/// is not its own digest.
pub open spec fn mismatched_response() -> ResponseView {
    error_response(error_of(DIGEST_INVALID, Seq::empty()), 400)
}

/// The upload at its start. A body that was no manifest is answered at
/// once, and so is a manifest that the store refuses for its reference;
/// neither asks for a call on the store.
pub open spec fn manifest_put_begun(
    data_dir: Seq<char>,
    server_url: Seq<char>,
    namespace: Seq<char>,
    reference: Seq<char>,
    decoded: Option<ManifestView>,
) -> ManifestPutView {
    match decoded {
        Some(m) => {
            let digest = digest_of(manifest_bytes(m));
            let op = put_begun(data_dir, namespace, reference, digest, manifest_bytes(m));
            if op.phase == Phase::Finished {
                ManifestPutView {
                    stage: PutStage::Finished,
                    op,
                    data_dir,
                    server_url,
                    namespace,
                    reference,
                    digest,
                    response: Some(mismatched_response()),
                }
            } else {
                ManifestPutView {
                    stage: PutStage::Store,
                    op,
                    data_dir,
                    server_url,
                    namespace,
                    reference,
                    digest,
                    response: None,
                }
            }
        },
        None => ManifestPutView {
            stage: PutStage::Finished,
            op: list_begun(data_dir, namespace),
            data_dir,
            server_url,
            namespace,
            reference,
            digest: Seq::empty(),
            response: Some(malformed_response()),
        },
    }
}

/// The call that the upload waits for, if it is not answered yet.
pub open spec fn manifest_put_call(s: ManifestPutView) -> Option<ActionView> {
    match s.stage {
        PutStage::Finished => None,
        _ => operation_call(s.op),
    }
}

/// The upload answered with `response`.
pub open spec fn manifest_put_answered(
    s: ManifestPutView,
    op: OperationView,
    response: ResponseView,
) -> ManifestPutView {
    ManifestPutView { stage: PutStage::Finished, op, response: Some(response), ..s }
}

/// The upload after the outcome `o` of the call it waited for. A failure
/// of the store is answered with the error that the store gave.
pub open spec fn manifest_put_fed(s: ManifestPutView, o: OutcomeView) -> ManifestPutView {
    let fed = operation_fed(s.op, o);
    let op = OperationView { result: None, ..fed };
    match s.stage {
        PutStage::Finished => s,
        PutStage::Store => match fed.result {
            None => ManifestPutView { op, ..s },
            Some(Ok(_)) => ManifestPutView {
                stage: PutStage::List,
                op: list_begun(s.data_dir, s.namespace),
                ..s
            },
            Some(Err(e)) => manifest_put_answered(s, op, error_response(e, 500)),
        },
        PutStage::List => match fed.result {
            None => ManifestPutView { op, ..s },
            Some(Ok(ReplyView::Tags(tags))) => manifest_put_answered(
                s,
                op,
                stored_response(s.server_url, s.namespace, s.reference, s.digest, tags),
            ),
            Some(Ok(_)) => manifest_put_answered(
                s,
                op,
                error_response(error_of(UNKNOWN_ERROR, "unexpected answer"@), 500),
            ),
            Some(Err(e)) => manifest_put_answered(s, op, error_response(e, 500)),
        },
    }
}

/// Accepts a manifest for `reference` in `namespace`. `decoded` is the
/// manifest that the body of the request holds, or `None` where the body is
/// no manifest; such a body is refused before the store is touched.
pub fn put_manifest(
    store: &Filesystem,
    server_url: &str,
    namespace: &str,
    reference: &str,
    decoded: Option<Manifest>,
) -> (put: ManifestPut)
    ensures
        put@ == manifest_put_begun(
            store.data_dir@,
            server_url@,
            namespace@,
            reference@,
            match decoded {
                Some(m) => Some(m@),
                None => None,
            },
        ),
{
    match decoded {
        Some(m) => {
            let digest = m.digest();
            let op = store.put_manifest(namespace, reference, &m);
            let refused = match op.phase {
                Phase::Finished => true,
                _ => false,
            };
            ManifestPut {
                stage: if refused {
                    PutStage::Finished
                } else {
                    PutStage::Store
                },
                op,
                data_dir: store.data_dir.clone(),
                server_url: String::from_str(server_url),
                namespace: String::from_str(namespace),
                reference: String::from_str(reference),
                digest,
                response: if refused {
                    Some(RegistryError::from(DIGEST_INVALID).respond_with(400))
                } else {
                    None
                },
            }
        },
        None => ManifestPut {
            stage: PutStage::Finished,
            op: store.list_tags(namespace),
            data_dir: store.data_dir.clone(),
            server_url: String::from_str(server_url),
            namespace: String::from_str(namespace),
            reference: String::from_str(reference),
            digest: String::new(),
            response: Some(RegistryError::from(MANIFEST_INVALID).respond_with(400)),
        },
    }
}

impl ManifestPut {
    /// The call to make next, or `None` once the request is answered.
    pub fn next(&self) -> (call: Option<Action>)
        ensures
            call.is_some() == manifest_put_call(self@).is_some(),
            call matches Some(a) ==> Some(a@) == manifest_put_call(self@),
    {
        match self.stage {
            PutStage::Finished => None,
            _ => self.op.next(),
        }
    }

    /// Takes the outcome of the call that `next` named.
    pub fn feed(&mut self, outcome: Outcome)
        ensures
            final(self)@ == manifest_put_fed(old(self)@, outcome@),
    {
        match self.stage {
            PutStage::Finished => {},
            PutStage::Store => {
                self.op.feed(outcome);
                match self.op.result.take() {
                    None => {},
                    Some(Ok(_)) => {
                        let store = Filesystem { data_dir: self.data_dir.clone() };
                        self.op = store.list_tags(self.namespace.as_str());
                        self.stage = PutStage::List;
                    },
                    Some(Err(e)) => {
                        self.response = Some(e.respond_with(500));
                        self.stage = PutStage::Finished;
                    },
                }
            },
            PutStage::List => {
                self.op.feed(outcome);
                match self.op.result.take() {
                    None => {},
                    Some(Ok(Reply::Tags(tags))) => {
                        self.response = Some(
                            manifest_stored(
                                self.server_url.as_str(),
                                self.namespace.as_str(),
                                self.reference.as_str(),
                                self.digest.as_str(),
                                &tags,
                            ),
                        );
                        self.stage = PutStage::Finished;
                    },
                    Some(Ok(_)) => {
                        self.response = Some(
                            RegistryError::from_err(
                                UNKNOWN_ERROR,
                                "unexpected answer",
                            ).respond_with(500),
                        );
                        self.stage = PutStage::Finished;
                    },
                    Some(Err(e)) => {
                        self.response = Some(e.respond_with(500));
                        self.stage = PutStage::Finished;
                    },
                }
            },
        }
    }

    /// The answer, once there is one.
    pub fn into_response(self) -> (r: Option<Response>)
        ensures
            r.is_some() == self@.response.is_some(),
            r matches Some(response) ==> Some(response@) == self@.response,
    {
        self.response
    }
}

/// How far a stage is from the answer.
pub open spec fn put_rank(stage: PutStage) -> nat {
    match stage {
        PutStage::Store => 2,
        PutStage::List => 1,
        PutStage::Finished => 0,
    }
}

/// The upload and the world once every call that the upload asks for was
/// made on the world, one after the other, until the request is answered.
pub open spec fn manifest_put_run(s: ManifestPutView, w: World) -> (ManifestPutView, World)
    decreases put_rank(s.stage), phase_rank(s.op.phase),
{
    match manifest_put_call(s) {
        None => (s, w),
        Some(a) => {
            let (w2, o) = apply(w, a);
            manifest_put_run(manifest_put_fed(s, o), w2)
        },
    }
}

/// While the manifest is being stored, the upload makes the calls of the
/// store's operation, and goes on to list the tags when the operation went
/// well.
pub proof fn lemma_storing(s: ManifestPutView, w: World)
    requires
        s.stage == PutStage::Store,
        s.op.result is None,
        s.op.phase != Phase::Finished,
        operation_run(s.op, w).0.result matches Some(Ok(_)),
    ensures
        manifest_put_run(s, w) == manifest_put_run(
            ManifestPutView {
                stage: PutStage::List,
                op: list_begun(s.data_dir, s.namespace),
                ..s
            },
            operation_run(s.op, w).1,
        ),
    decreases phase_rank(s.op.phase),
{
    let a = operation_call(s.op).unwrap();
    let (w2, o) = apply(w, a);
    let fed = operation_fed(s.op, o);
    assert(operation_run(s.op, w) == operation_run(fed, w2));
    if fed.result is None {
        let next = ManifestPutView { op: fed, ..s };
        assert(manifest_put_fed(s, o) == next);
        assert(fed.phase != Phase::Finished) by {
            if fed.phase == Phase::Finished {
                assert(operation_run(fed, w2) == (fed, w2));
            }
        }
        lemma_storing(next, w2);
    } else {
        assert(fed.phase == Phase::Finished);
        assert(operation_run(fed, w2) == (fed, w2));
    }
}

/// While the tags are being listed, the upload makes the calls of the
/// store's operation, and answers with the tags when the operation went
/// well.
pub proof fn lemma_listing(s: ManifestPutView, w: World)
    requires
        s.stage == PutStage::List,
        s.op.result is None,
        s.op.phase != Phase::Finished,
        operation_run(s.op, w).0.result matches Some(Ok(ReplyView::Tags(_))),
    ensures
        ({
            let (s2, w2) = manifest_put_run(s, w);
            &&& w2 == operation_run(s.op, w).1
            &&& s2.stage == PutStage::Finished
            &&& s2.response == Some(
                stored_response(
                    s.server_url,
                    s.namespace,
                    s.reference,
                    s.digest,
                    operation_run(s.op, w).0.result->0->Ok_0->Tags_0,
                ),
            )
        }),
    decreases phase_rank(s.op.phase),
{
    let a = operation_call(s.op).unwrap();
    let (w2, o) = apply(w, a);
    let fed = operation_fed(s.op, o);
    assert(operation_run(s.op, w) == operation_run(fed, w2));
    if fed.result is None {
        let next = ManifestPutView { op: fed, ..s };
        assert(manifest_put_fed(s, o) == next);
        assert(fed.phase != Phase::Finished) by {
            if fed.phase == Phase::Finished {
                assert(operation_run(fed, w2) == (fed, w2));
            }
        }
        lemma_listing(next, w2);
    } else {
        assert(fed.phase == Phase::Finished);
        assert(operation_run(fed, w2) == (fed, w2));
        let end = manifest_put_fed(s, o);
        assert(manifest_put_run(end, w2) == (end, w2));
    }
}

/// Listing asks for the entries of the namespace's directory and gives the
/// tags among them, in order. The store is left as it was.
pub proof fn lemma_list_runs(w: World, data_dir: Seq<char>, namespace: Seq<char>)
    ensures
        operation_run(list_begun(data_dir, namespace), w).1 == w,
        operation_run(list_begun(data_dir, namespace), w).0.result == Some(
            Ok::<ReplyView, RegistryErrorView>(
                ReplyView::Tags(
                    tags_of(listing(w.nodes, namespace_dir(data_dir, namespace))),
                ),
            ),
        ),
{
    let l0 = list_begun(data_dir, namespace);
    let l1 = OperationView { phase: Phase::List, ..l0 };
    assert(operation_fed(l0, OutcomeView::Done) == l1);
    assert(operation_run(l0, w) == operation_run(l1, w));
    let entries = listing(w.nodes, namespace_dir(data_dir, namespace));
    let l2 = operation_fed(l1, OutcomeView::Entries(entries));
    assert(operation_run(l1, w) == operation_run(l2, w));
    assert(operation_run(l2, w) == (l2, w));
}

/// Uploading a manifest, whatever its reference. Where the store's put
/// ends well, the answer carries the digest of the manifest and the tags of
/// its namespace as they are then, in order, and the manifest is read by
/// that digest; the digest is never among the tags. Where the reference
/// has the shape of another digest the upload is refused and the store is
/// not touched. Where the put fails the store's error is the answer. What
/// the store holds under the digest of the manifest, if anything, is the
/// manifest.
#[verifier::rlimit(40)]
pub proof fn lemma_manifest_upload(
    w: World,
    data_dir: Seq<char>,
    server_url: Seq<char>,
    namespace: Seq<char>,
    reference: Seq<char>,
    m: ManifestView,
)
    requires
        fits(
            w.nodes,
            pushed(namespace_dir(data_dir, namespace), digest_of(manifest_bytes(m))),
            manifest_bytes(m),
        ),
    ensures
        ({
            let dir = namespace_dir(data_dir, namespace);
            let digest = digest_of(manifest_bytes(m));
            let (s, after) = manifest_put_run(
                manifest_put_begun(data_dir, server_url, namespace, reference, Some(m)),
                w,
            );
            let tags = tags_of(listing(after.nodes, dir));
            &&& after.nodes == put_nodes(
                w.nodes,
                pushed(dir, digest),
                pushed(dir, reference),
                reference,
                manifest_bytes(m),
            )
            &&& match put_result(w.nodes, pushed(dir, digest), pushed(dir, reference), reference) {
                Ok(_) => {
                    &&& s.response == Some(
                        stored_response(server_url, namespace, reference, digest, tags),
                    )
                    &&& after.nodes[pushed(dir, digest)] == Node::File(manifest_bytes(m))
                    &&& lists(after.nodes, dir, listing(after.nodes, dir)) ==> {
                        &&& ordered(tags)
                        &&& !tags.contains(digest)
                        &&& is_entry_name(reference) && reference != digest ==> tags.contains(
                            reference,
                        )
                    }
                },
                Err(e) => s.response == Some(
                    error_response(
                        e,
                        if e.code == DIGEST_INVALID.0@ {
                            400
                        } else {
                            500
                        },
                    ),
                ),
            }
        }),
{
    let dir = namespace_dir(data_dir, namespace);
    let digest = digest_of(manifest_bytes(m));
    let cp = pushed(dir, digest);
    let tp = pushed(dir, reference);
    let s0 = manifest_put_begun(data_dir, server_url, namespace, reference, Some(m));
    lemma_put_stores(w, data_dir, namespace, reference, digest, manifest_bytes(m));
    lemma_error_codes();
    if s0.stage == PutStage::Finished {
        assert(manifest_put_run(s0, w) == (s0, w));
        assert(operation_run(s0.op, w) == (s0.op, w));
    } else {
        let (end, after) = operation_run(s0.op, w);
        if went_well(end) {
            lemma_storing(s0, w);
            let s1 = ManifestPutView {
                stage: PutStage::List,
                op: list_begun(data_dir, namespace),
                ..s0
            };
            lemma_list_runs(after, data_dir, namespace);
            let entries = listing(after.nodes, dir);
            lemma_listing(s1, after);
            assert(digest[0] == 's');
            lemma_tags_after_put(w, after, data_dir, namespace, reference, digest, manifest_bytes(m));
        } else {
            lemma_store_fails(s0, w);
        }
    }
}

/// The tags that are listed once a put has ended well: they are in
/// order, the digest of the manifest is not among them, and the reference
/// is, where it is the name of an entry and not that digest.
pub proof fn lemma_tags_after_put(
    w: World,
    after: World,
    data_dir: Seq<char>,
    namespace: Seq<char>,
    reference: Seq<char>,
    digest: Seq<char>,
    bytes: Seq<u8>,
)
    requires
        !is_absolute(digest),
        put_result(
            w.nodes,
            pushed(namespace_dir(data_dir, namespace), digest),
            pushed(namespace_dir(data_dir, namespace), reference),
            reference,
        ) is Ok,
        after.nodes == put_nodes(
            w.nodes,
            pushed(namespace_dir(data_dir, namespace), digest),
            pushed(namespace_dir(data_dir, namespace), reference),
            reference,
            bytes,
        ),
    ensures
        ({
            let dir = namespace_dir(data_dir, namespace);
            let tags = tags_of(listing(after.nodes, dir));
            &&& after.nodes[pushed(dir, digest)] == Node::File(bytes)
            &&& lists(after.nodes, dir, listing(after.nodes, dir)) ==> {
                &&& ordered(tags)
                &&& !tags.contains(digest)
                &&& is_entry_name(reference) && reference != digest ==> tags.contains(reference)
            }
        }),
{
    let dir = namespace_dir(data_dir, namespace);
    let cp = pushed(dir, digest);
    let tp = pushed(dir, reference);
    let entries = listing(after.nodes, dir);
    if lists(after.nodes, dir, entries) {
        lemma_listing_shows_tags(after, data_dir, namespace, entries);
        let tags = tags_of(entries);
        if tags.contains(digest) {
            assert(after.nodes[pushed(dir, digest)] is Link);
        }
        if reference != digest && is_entry_name(reference) {
            if tp == cp {
                lemma_pushed_injective(dir, reference, digest);
            }
            assert(after.nodes[tp] is Link);
        }
    }
}

/// The code of a refused reference is not the code of a failure of the
/// store.
pub proof fn lemma_error_codes()
    ensures
        DIGEST_INVALID.0@ != UNKNOWN_ERROR.0@,
{
    reveal_strlit("DIGEST_INVALID");
    reveal_strlit("UNKNOWN_ERROR");
    assert("DIGEST_INVALID"@.len() == 14);
    assert("UNKNOWN_ERROR"@.len() == 13);
}

/// While the manifest is being stored, the upload makes the calls of the
/// store's operation, and answers with the store's error when the
/// operation fails.
pub proof fn lemma_store_fails(s: ManifestPutView, w: World)
    requires
        s.stage == PutStage::Store,
        s.op.result is None,
        s.op.phase != Phase::Finished,
        operation_run(s.op, w).0.result is Some,
        operation_run(s.op, w).0.result.unwrap() is Err,
    ensures
        ({
            let (s2, w2) = manifest_put_run(s, w);
            &&& w2 == operation_run(s.op, w).1
            &&& s2.stage == PutStage::Finished
            &&& s2.response == Some(
                error_response(operation_run(s.op, w).0.result.unwrap()->Err_0, 500),
            )
        }),
    decreases phase_rank(s.op.phase),
{
    let a = operation_call(s.op).unwrap();
    let (w2, o) = apply(w, a);
    let fed = operation_fed(s.op, o);
    assert(operation_run(s.op, w) == operation_run(fed, w2));
    if fed.result is None {
        let next = ManifestPutView { op: fed, ..s };
        assert(manifest_put_fed(s, o) == next);
        assert(fed.phase != Phase::Finished) by {
            if fed.phase == Phase::Finished {
                assert(operation_run(fed, w2) == (fed, w2));
            }
        }
        lemma_store_fails(next, w2);
    } else {
        assert(fed.phase == Phase::Finished);
        assert(operation_run(fed, w2) == (fed, w2));
        let end = manifest_put_fed(s, o);
        assert(manifest_put_run(end, w2) == (end, w2));
    }
}

} // verus!
