//! The manifest store on files: a manifest is a file named by its digest,
//! a tag is a link to such a file, and both live in the directory of their
//! namespace.

use crate::blob::manifest_dir;
use crate::error::{
    error_of, RegistryError, RegistryErrorView, DIGEST_INVALID, MANIFEST_UNKNOWN, UNKNOWN_ERROR,
};
use crate::text::texts;
use crate::meta::manifest::{manifest_bytes, Manifest, ManifestView};
use crate::meta::unique::lemma_manifest_is_read;
use crate::meta::Store;
use crate::model::{
    apply, content, held_at, lemma_content_of_file, lemma_content_of_link,
    lemma_content_of_nothing, lists, occupied, Node, World,
};
use crate::order::{in_order, lemma_in_order, ordered, sort_texts};
use crate::path::{is_absolute, is_entry_name, join, lemma_pushed_injective, pushed};
use crate::storage::{
    cause, cause_of, entry_views, Action, ActionView, Entry, EntryView, Hold, Outcome,
    OutcomeView,
};
use crate::util::{digest_of, is_digest, is_digest_text, lemma_digest_is_entry_name};
use vstd::prelude::*;
use vstd::string::*;

verus! {

/// A manifest store rooted at `data_dir`.
#[derive(Debug)]
pub struct Filesystem {
    pub data_dir: String,
}

/// The directory of the manifests and tags of `namespace`.
pub open spec fn namespace_dir(data_dir: Seq<char>, namespace: Seq<char>) -> Seq<char> {
    pushed(manifest_dir(data_dir), namespace)
}

/// What an operation on the store is for.
#[derive(Debug, Clone, Copy, PartialEq, Eq, Structural)]
pub enum Kind {
    /// Store a manifest and point a tag at it.
    Put,
    /// Read a manifest by tag or by digest.
    Get,
    /// List the tags of a namespace.
    List,
}

/// Where an operation stands.
#[derive(Debug, Clone, Copy, PartialEq, Eq, Structural)]
pub enum Phase {
    /// Making sure that the directory of the namespace is there.
    Prepare,
    /// Asking whether the manifest is stored already.
    ProbeContent,
    /// Writing the manifest under its digest.
    WriteContent,
    /// Asking what the path of the tag holds.
    ProbeTag,
    /// Removing the link that the tag was.
    RemoveTag,
    /// Pointing the tag at the manifest.
    Link,
    /// Reading a manifest.
    Read,
    /// Listing the directory of the namespace.
    List,
    /// Done.
    Finished,
}

/// What an operation that went well gives.
#[derive(Debug)]
pub enum Reply {
    /// The manifest is stored and the tag points at it.
    Stored,
    /// The bytes of a manifest.
    Manifest(Vec<u8>),
    /// The tags of a namespace, in order.
    Tags(Vec<String>),
}

/// The mathematical content of a `Reply`.
pub enum ReplyView {
    Stored,
    Manifest(Seq<u8>),
    Tags(Seq<Seq<char>>),
}

impl View for Reply {
    type V = ReplyView;

    open spec fn view(&self) -> ReplyView {
        match self {
            Reply::Stored => ReplyView::Stored,
            Reply::Manifest(bytes) => ReplyView::Manifest(bytes@),
            Reply::Tags(tags) => ReplyView::Tags(texts(tags@)),
        }
    }
}

/// One operation on the manifest store, carried out call by call.
#[derive(Debug)]
pub struct Operation {
    pub kind: Kind,
    pub phase: Phase,
    /// The directory of the namespace.
    pub dir: String,
    /// The file of the manifest, named by its digest.
    pub content_path: String,
    /// The path of the tag, or of whatever the manifest is asked for by.
    pub tag_path: String,
    /// The bytes of the manifest that is stored.
    pub bytes: Vec<u8>,
    /// How the operation ended, once it has.
    pub result: Option<Result<Reply, RegistryError>>,
}

/// The mathematical content of an `Operation`.
pub struct OperationView {
    pub kind: Kind,
    pub phase: Phase,
    pub dir: Seq<char>,
    pub content_path: Seq<char>,
    pub tag_path: Seq<char>,
    pub bytes: Seq<u8>,
    pub result: Option<Result<ReplyView, RegistryErrorView>>,
}

impl View for Operation {
    type V = OperationView;

    open spec fn view(&self) -> OperationView {
        OperationView {
            kind: self.kind,
            phase: self.phase,
            dir: self.dir@,
            content_path: self.content_path@,
            tag_path: self.tag_path@,
            bytes: self.bytes@,
            result: match self.result {
                Some(Ok(reply)) => Some(Ok(reply@)),
                Some(Err(e)) => Some(Err(e@)),
                None => None,
            },
        }
    }
}

/// The names of the entries that are links, in the order of the entries.
pub open spec fn link_names(entries: Seq<EntryView>) -> Seq<Seq<char>>
    decreases entries.len(),
{
    if entries.len() == 0 {
        Seq::empty()
    } else if entries.last().is_link {
        link_names(entries.drop_last()).push(entries.last().name)
    } else {
        link_names(entries.drop_last())
    }
}

/// The tags that a listing of a namespace's directory shows: the names of
/// the links, in order. The files, which hold the manifests, are left out.
pub open spec fn tags_of(entries: Seq<EntryView>) -> Seq<Seq<char>> {
    in_order(link_names(entries))
}

/// The operation ended with `result`.
pub open spec fn ended(s: OperationView, result: Result<ReplyView, RegistryErrorView>) -> OperationView {
    OperationView { phase: Phase::Finished, bytes: Seq::empty(), result: Some(result), ..s }
}

/// The operation ended because a call did not go as it had to.
pub open spec fn failed(s: OperationView, o: OutcomeView) -> OperationView {
    ended(s, Err(error_of(UNKNOWN_ERROR, cause_of(o))))
}

/// The call that an operation waits for, if it has not ended.
pub open spec fn operation_call(s: OperationView) -> Option<ActionView> {
    match s.phase {
        Phase::Prepare => Some(ActionView::CreateDirAll { path: s.dir }),
        Phase::ProbeContent => Some(ActionView::Exists { path: s.content_path }),
        Phase::WriteContent => Some(ActionView::Write { path: s.content_path, bytes: s.bytes }),
        Phase::ProbeTag => Some(ActionView::Inspect { path: s.tag_path }),
        Phase::RemoveTag => Some(ActionView::Remove { path: s.tag_path }),
        Phase::Link => Some(ActionView::Symlink { target: s.content_path, link: s.tag_path }),
        Phase::Read => Some(ActionView::Read { path: s.tag_path }),
        Phase::List => Some(ActionView::ReadDir { path: s.dir }),
        Phase::Finished => None,
    }
}

/// The operation once the manifest is under its digest. Where the
/// reference is that very entry there is no tag to set, and the operation
/// has ended; otherwise the tag comes next.
pub open spec fn content_kept(s: OperationView) -> OperationView {
    if s.tag_path == s.content_path {
        ended(s, Ok(ReplyView::Stored))
    } else {
        OperationView { phase: Phase::ProbeTag, ..s }
    }
}

/// The operation after the outcome `o` of the call it waited for. Of what
/// the tag's path holds only a link is removed: a file there is kept, and
/// the link that is then made in its place fails.
pub open spec fn operation_fed(s: OperationView, o: OutcomeView) -> OperationView {
    match s.phase {
        Phase::Prepare => match o {
            OutcomeView::Done => OperationView {
                phase: match s.kind {
                    Kind::Put => Phase::ProbeContent,
                    Kind::Get => Phase::Read,
                    Kind::List => Phase::List,
                },
                ..s
            },
            _ => failed(s, o),
        },
        Phase::ProbeContent => match o {
            OutcomeView::Present(true) => content_kept(s),
            OutcomeView::Present(false) => OperationView { phase: Phase::WriteContent, ..s },
            _ => failed(s, o),
        },
        Phase::WriteContent => match o {
            OutcomeView::Done => content_kept(s),
            _ => failed(s, o),
        },
        Phase::ProbeTag => match o {
            OutcomeView::Held(Hold::Link) => OperationView { phase: Phase::RemoveTag, ..s },
            OutcomeView::Held(_) => OperationView { phase: Phase::Link, ..s },
            _ => failed(s, o),
        },
        Phase::RemoveTag => match o {
            OutcomeView::Done => OperationView { phase: Phase::Link, ..s },
            _ => failed(s, o),
        },
        Phase::Link => match o {
            OutcomeView::Done => ended(s, Ok(ReplyView::Stored)),
            _ => failed(s, o),
        },
        Phase::Read => match o {
            OutcomeView::Data(bytes) => ended(s, Ok(ReplyView::Manifest(bytes))),
            OutcomeView::Failed(failure) => if failure.not_found {
                ended(s, Err(error_of(MANIFEST_UNKNOWN, failure.reason)))
            } else {
                failed(s, o)
            },
            _ => failed(s, o),
        },
        Phase::List => match o {
            OutcomeView::Entries(entries) => ended(s, Ok(ReplyView::Tags(tags_of(entries)))),
            _ => failed(s, o),
        },
        Phase::Finished => s,
    }
}

/// Whether a put is refused: the reference has the shape of a digest and
/// is not the entry of this manifest. A name of that shape is kept for the
/// manifest that has that digest.
pub open spec fn put_refused(content_path: Seq<char>, tag_path: Seq<char>, reference: Seq<char>) -> bool {
    tag_path != content_path && is_digest(reference)
}

/// The operation that stores `bytes` under `digest` in `namespace` and
/// points `reference` at them. It has ended before it began where the put
/// is refused.
pub open spec fn put_begun(
    data_dir: Seq<char>,
    namespace: Seq<char>,
    reference: Seq<char>,
    digest: Seq<char>,
    bytes: Seq<u8>,
) -> OperationView {
    let dir = namespace_dir(data_dir, namespace);
    if put_refused(pushed(dir, digest), pushed(dir, reference), reference) {
        OperationView {
            kind: Kind::Put,
            phase: Phase::Finished,
            dir,
            content_path: pushed(dir, digest),
            tag_path: pushed(dir, reference),
            bytes: Seq::empty(),
            result: Some(Err(error_of(DIGEST_INVALID, Seq::empty()))),
        }
    } else {
        OperationView {
            kind: Kind::Put,
            phase: Phase::Prepare,
            dir,
            content_path: pushed(dir, digest),
            tag_path: pushed(dir, reference),
            bytes,
            result: None,
        }
    }
}

/// The operation that reads what `reference` names in `namespace`.
pub open spec fn get_begun(
    data_dir: Seq<char>,
    namespace: Seq<char>,
    reference: Seq<char>,
) -> OperationView {
    OperationView {
        kind: Kind::Get,
        phase: Phase::Prepare,
        dir: namespace_dir(data_dir, namespace),
        content_path: Seq::empty(),
        tag_path: pushed(namespace_dir(data_dir, namespace), reference),
        bytes: Seq::empty(),
        result: None,
    }
}

/// The operation that lists the tags of `namespace`.
pub open spec fn list_begun(data_dir: Seq<char>, namespace: Seq<char>) -> OperationView {
    OperationView {
        kind: Kind::List,
        phase: Phase::Prepare,
        dir: namespace_dir(data_dir, namespace),
        content_path: Seq::empty(),
        tag_path: Seq::empty(),
        bytes: Seq::empty(),
        result: None,
    }
}

impl Filesystem {
    /// A store rooted at `dir`. The directory is made by the store's
    /// `setup` call and those of its operations.
    pub fn new(dir: &str) -> (store: Filesystem)
        ensures
            store.data_dir@ == dir@,
    {
        Filesystem { data_dir: String::from_str(dir) }
    }

    /// The call that prepares the store: its root directory is made.
    pub fn setup(&self) -> (call: Action)
        ensures
            call@ == (ActionView::CreateDirAll { path: self.data_dir@ }),
    {
        Action::CreateDirAll { path: self.data_dir.clone() }
    }

    /// The directory of the manifests and tags of `namespace`.
    pub fn get_manifest_path(&self, namespace: &str) -> (path: String)
        ensures
            path@ == namespace_dir(self.data_dir@, namespace@),
    {
        let dir = join(self.data_dir.as_str(), "manifests");
        join(dir.as_str(), namespace)
    }

    /// Stores the bytes of a manifest under their digest, which is
    /// `digest`, and points `reference` at them. A reference that is the
    /// manifest's own entry sets no tag; one that has the shape of a digest
    /// and is not that entry is refused.
    pub fn put_bytes(&self, namespace: &str, reference: &str, digest: &str, bytes: Vec<u8>) -> (op:
        Operation)
        ensures
            op@ == put_begun(self.data_dir@, namespace@, reference@, digest@, bytes@),
    {
        let dir = self.get_manifest_path(namespace);
        let content_path = join(dir.as_str(), digest);
        let tag_path = join(dir.as_str(), reference);
        if !(tag_path == content_path) && is_digest_text(reference) {
            Operation {
                kind: Kind::Put,
                phase: Phase::Finished,
                dir,
                content_path,
                tag_path,
                bytes: Vec::new(),
                result: Some(Err(RegistryError::from(DIGEST_INVALID))),
            }
        } else {
            Operation {
                kind: Kind::Put,
                phase: Phase::Prepare,
                dir,
                content_path,
                tag_path,
                bytes,
                result: None,
            }
        }
    }
}

impl Store for Filesystem {
    open spec fn root(&self) -> Seq<char> {
        self.data_dir@
    }

    /// Stores `m` under its digest and points `reference` at it. The bytes
    /// are written only if the digest is not stored yet; the link that
    /// `reference` was is replaced, so that it names this manifest and no
    /// other. A reference that is the digest of `m` sets no tag. One that
    /// has the shape of another digest is refused, and a file is never
    /// removed.
    fn put_manifest(&self, namespace: &str, reference: &str, m: &Manifest) -> (op: Operation) {
        let bytes = m.to_vec();
        let digest = crate::util::sha256_digest(bytes.as_slice());
        self.put_bytes(namespace, reference, digest.as_str(), bytes)
    }

    /// Reads the manifest that `reference`, a tag or a digest, names in
    /// `namespace`.
    fn get_manifest(&self, namespace: &str, reference: &str) -> (op: Operation) {
        let dir = self.get_manifest_path(namespace);
        let tag_path = join(dir.as_str(), reference);
        Operation {
            kind: Kind::Get,
            phase: Phase::Prepare,
            dir,
            content_path: String::new(),
            tag_path,
            bytes: Vec::new(),
            result: None,
        }
    }

    /// Lists the tags of `namespace`, in order.
    fn list_tags(&self, namespace: &str) -> (op: Operation) {
        Operation {
            kind: Kind::List,
            phase: Phase::Prepare,
            dir: self.get_manifest_path(namespace),
            content_path: String::new(),
            tag_path: String::new(),
            bytes: Vec::new(),
            result: None,
        }
    }
}

/// The tags that a listing shows: the names of the links, in order.
pub fn tags_from(entries: Vec<Entry>) -> (tags: Vec<String>)
    ensures
        texts(tags@) == tags_of(entry_views(entries@)),
{
    let mut names: Vec<String> = Vec::new();
    let mut entries = entries;
    let ghost all = entry_views(entries@);
    let mut i: usize = 0;
    assert(texts(names@) =~= link_names(all.take(0)));
    while i < entries.len()
        invariant
            i <= entries.len(),
            entry_views(entries@) == all,
            texts(names@) == link_names(all.take(i as int)),
        decreases entries.len() - i,
    {
        let ghost done = all.take(i as int);
        let ghost next = all.take(i as int + 1);
        assert(next.drop_last() =~= done);
        assert(next.last() == entries@[i as int]@);
        if entries[i].is_link {
            let ghost before = texts(names@);
            let name = entries[i].name.clone();
            names.push(name);
            assert(texts(names@) =~= before.push(name@));
        }
        i = i + 1;
    }
    assert(all.take(i as int) =~= all);
    sort_texts(names)
}

impl Operation {
    /// The call to make next, or `None` once the operation has ended.
    pub fn next(&self) -> (call: Option<Action>)
        ensures
            call.is_some() == operation_call(self@).is_some(),
            call matches Some(a) ==> Some(a@) == operation_call(self@),
    {
        match self.phase {
            Phase::Prepare => Some(Action::CreateDirAll { path: self.dir.clone() }),
            Phase::ProbeContent => Some(Action::Exists { path: self.content_path.clone() }),
            Phase::WriteContent => {
                let bytes = self.bytes.clone();
                assert(bytes@ =~= self.bytes@);
                Some(Action::Write { path: self.content_path.clone(), bytes })
            },
            Phase::ProbeTag => Some(Action::Inspect { path: self.tag_path.clone() }),
            Phase::RemoveTag => Some(Action::Remove { path: self.tag_path.clone() }),
            Phase::Link => Some(
                Action::Symlink { target: self.content_path.clone(), link: self.tag_path.clone() },
            ),
            Phase::Read => Some(Action::Read { path: self.tag_path.clone() }),
            Phase::List => Some(Action::ReadDir { path: self.dir.clone() }),
            Phase::Finished => None,
        }
    }

    fn end(&mut self, result: Result<Reply, RegistryError>)
        ensures
            final(self)@ == ended(
                old(self)@,
                match result {
                    Ok(reply) => Ok(reply@),
                    Err(e) => Err(e@),
                },
            ),
    {
        self.phase = Phase::Finished;
        self.bytes = Vec::new();
        self.result = Some(result);
    }

    fn fail(&mut self, outcome: Outcome)
        ensures
            final(self)@ == failed(old(self)@, outcome@),
    {
        let reason = cause(outcome);
        self.end(Err(RegistryError::from_err(UNKNOWN_ERROR, reason.as_str())));
    }

    fn keep_content(&mut self)
        ensures
            final(self)@ == content_kept(old(self)@),
    {
        if self.tag_path == self.content_path {
            self.end(Ok(Reply::Stored));
        } else {
            self.phase = Phase::ProbeTag;
        }
    }

    /// Takes the outcome of the call that `next` named.
    pub fn feed(&mut self, outcome: Outcome)
        ensures
            final(self)@ == operation_fed(old(self)@, outcome@),
    {
        match self.phase {
            Phase::Prepare => match outcome {
                Outcome::Done => {
                    self.phase = match self.kind {
                        Kind::Put => Phase::ProbeContent,
                        Kind::Get => Phase::Read,
                        Kind::List => Phase::List,
                    };
                },
                other => self.fail(other),
            },
            Phase::ProbeContent => match outcome {
                Outcome::Present(true) => self.keep_content(),
                Outcome::Present(false) => {
                    self.phase = Phase::WriteContent;
                },
                other => self.fail(other),
            },
            Phase::WriteContent => match outcome {
                Outcome::Done => self.keep_content(),
                other => self.fail(other),
            },
            Phase::ProbeTag => match outcome {
                Outcome::Held(Hold::Link) => {
                    self.phase = Phase::RemoveTag;
                },
                Outcome::Held(_) => {
                    self.phase = Phase::Link;
                },
                other => self.fail(other),
            },
            Phase::RemoveTag => match outcome {
                Outcome::Done => {
                    self.phase = Phase::Link;
                },
                other => self.fail(other),
            },
            Phase::Link => match outcome {
                Outcome::Done => self.end(Ok(Reply::Stored)),
                other => self.fail(other),
            },
            Phase::Read => match outcome {
                Outcome::Data(bytes) => self.end(Ok(Reply::Manifest(bytes))),
                Outcome::Failed(failure) => {
                    if failure.not_found {
                        self.end(
                            Err(
                                RegistryError::from_err(
                                    MANIFEST_UNKNOWN,
                                    failure.reason.as_str(),
                                ),
                            ),
                        );
                    } else {
                        self.fail(Outcome::Failed(failure));
                    }
                },
                other => self.fail(other),
            },
            Phase::List => match outcome {
                Outcome::Entries(entries) => {
                    let tags = tags_from(entries);
                    self.end(Ok(Reply::Tags(tags)));
                },
                other => self.fail(other),
            },
            Phase::Finished => {},
        }
    }

    /// How the operation ended, once it has.
    pub fn into_result(self) -> (r: Option<Result<Reply, RegistryError>>)
        ensures
            r.is_some() == self@.result.is_some(),
            r matches Some(Ok(reply)) ==> self@.result == Some(
                Ok::<ReplyView, RegistryErrorView>(reply@),
            ),
            r matches Some(Err(e)) ==> self@.result == Some(
                Err::<ReplyView, RegistryErrorView>(e@),
            ),
    {
        self.result
    }
}

/// How far a phase is from the end.
pub open spec fn phase_rank(phase: Phase) -> nat {
    match phase {
        Phase::Prepare => 6,
        Phase::ProbeContent => 5,
        Phase::WriteContent => 4,
        Phase::ProbeTag => 3,
        Phase::RemoveTag => 2,
        Phase::Link => 1,
        Phase::Read => 1,
        Phase::List => 1,
        Phase::Finished => 0,
    }
}

/// The operation and the world once every call that the operation asks for
/// was made on the world, one after the other, until the operation ended.
pub open spec fn operation_run(s: OperationView, w: World) -> (OperationView, World)
    decreases phase_rank(s.phase),
{
    match operation_call(s) {
        None => (s, w),
        Some(a) => {
            let (w2, o) = apply(w, a);
            operation_run(operation_fed(s, o), w2)
        },
    }
}

/// What storing a manifest makes of the store: the bytes are a file under
/// their digest, and the tag is a link to that file.
pub open spec fn stored(
    nodes: Map<Seq<char>, Node>,
    content_path: Seq<char>,
    tag_path: Seq<char>,
    bytes: Seq<u8>,
) -> Map<Seq<char>, Node> {
    nodes.insert(content_path, Node::File(bytes)).insert(tag_path, Node::Link(content_path))
}

/// Whether an operation has ended well.
pub open spec fn went_well(s: OperationView) -> bool {
    s.result is Some && s.result.unwrap() is Ok
}

/// Whether a manifest with these bytes can be stored under `content_path`:
/// what is stored under its digest, if anything, is these bytes.
pub open spec fn fits(nodes: Map<Seq<char>, Node>, content_path: Seq<char>, bytes: Seq<u8>) -> bool {
    nodes.contains_key(content_path) ==> nodes[content_path] == Node::File(bytes)
}

/// How a put ends. It stores the manifest and sets no tag where the
/// reference is the manifest's own entry. It is refused where the reference
/// has the shape of a digest and is not that entry. It fails where the path
/// of the tag holds a file, which is not removed. Otherwise it stores the
/// manifest and points the tag at it.
pub open spec fn put_result(
    nodes: Map<Seq<char>, Node>,
    content_path: Seq<char>,
    tag_path: Seq<char>,
    reference: Seq<char>,
) -> Result<ReplyView, RegistryErrorView> {
    if tag_path == content_path {
        Ok(ReplyView::Stored)
    } else if is_digest(reference) {
        Err(error_of(DIGEST_INVALID, Seq::empty()))
    } else if held_at(nodes, tag_path) == Hold::File {
        Err(error_of(UNKNOWN_ERROR, "File exists"@))
    } else {
        Ok(ReplyView::Stored)
    }
}

/// What a put makes of the store.
pub open spec fn put_nodes(
    nodes: Map<Seq<char>, Node>,
    content_path: Seq<char>,
    tag_path: Seq<char>,
    reference: Seq<char>,
    bytes: Seq<u8>,
) -> Map<Seq<char>, Node> {
    if tag_path == content_path {
        nodes.insert(content_path, Node::File(bytes))
    } else if is_digest(reference) {
        nodes
    } else if held_at(nodes, tag_path) == Hold::File {
        nodes.insert(content_path, Node::File(bytes))
    } else {
        stored(nodes, content_path, tag_path, bytes)
    }
}

/// A put, whatever its reference, ends as `put_result` says and leaves the
/// store as `put_nodes` says. It never removes or rewrites a file: the
/// bytes are written only if they were not there, and of what stood at the
/// tag's path only a link is replaced.
pub proof fn lemma_put_stores(
    w: World,
    data_dir: Seq<char>,
    namespace: Seq<char>,
    reference: Seq<char>,
    digest: Seq<char>,
    bytes: Seq<u8>,
)
    requires
        fits(w.nodes, pushed(namespace_dir(data_dir, namespace), digest), bytes),
    ensures
        ({
            let content_path = pushed(namespace_dir(data_dir, namespace), digest);
            let tag_path = pushed(namespace_dir(data_dir, namespace), reference);
            let (s, after) = operation_run(
                put_begun(data_dir, namespace, reference, digest, bytes),
                w,
            );
            &&& s.result == Some(put_result(w.nodes, content_path, tag_path, reference))
            &&& after.nodes == put_nodes(w.nodes, content_path, tag_path, reference, bytes)
            &&& after.body == w.body
            &&& fits(after.nodes, content_path, bytes)
            &&& forall|path: Seq<char>| #[trigger]
                w.nodes.contains_key(path) && w.nodes[path] is File ==> after.nodes.contains_key(
                    path,
                ) && after.nodes[path] == w.nodes[path]
        }),
{
    let dir = namespace_dir(data_dir, namespace);
    let cp = pushed(dir, digest);
    let tp = pushed(dir, reference);
    let s0 = put_begun(data_dir, namespace, reference, digest, bytes);
    if put_refused(cp, tp, reference) {
        assert(operation_run(s0, w) == (s0, w));
    } else {
        let s1 = OperationView { phase: Phase::ProbeContent, ..s0 };
        assert(operation_fed(s0, OutcomeView::Done) == s1);
        assert(operation_run(s0, w) == operation_run(s1, w));
        let nodes1 = w.nodes.insert(cp, Node::File(bytes));
        let w1 = World { nodes: nodes1, ..w };
        let s3 = content_kept(s0);
        if w.nodes.contains_key(cp) {
            lemma_content_of_file(w.nodes, cp);
            assert(apply(w, ActionView::Exists { path: cp }) == (w, OutcomeView::Present(true)));
            assert(operation_fed(s1, OutcomeView::Present(true)) == s3);
            assert(nodes1 =~= w.nodes);
            assert(w1 == w);
            assert(operation_run(s1, w) == operation_run(s3, w1));
        } else {
            lemma_content_of_nothing(w.nodes, cp);
            let s2 = OperationView { phase: Phase::WriteContent, ..s0 };
            assert(apply(w, ActionView::Exists { path: cp }) == (w, OutcomeView::Present(false)));
            assert(operation_fed(s1, OutcomeView::Present(false)) == s2);
            assert(operation_run(s1, w) == operation_run(s2, w));
            assert(apply(w, ActionView::Write { path: cp, bytes }) == (w1, OutcomeView::Done));
            assert(operation_fed(s2, OutcomeView::Done) == s3);
            assert(operation_run(s2, w) == operation_run(s3, w1));
        }
        if tp == cp {
            assert(operation_run(s3, w1) == (s3, w1));
        } else {
            lemma_tag_is_set(s3, w1);
            assert(held_at(nodes1, tp) == held_at(w.nodes, tp));
            if held_at(w.nodes, tp) != Hold::File {
                assert(nodes1.remove(tp).insert(tp, Node::Link(cp)) =~= stored(
                    w.nodes,
                    cp,
                    tp,
                    bytes,
                ));
                assert(nodes1.insert(tp, Node::Link(cp)) =~= stored(w.nodes, cp, tp, bytes));
            }
        }
    }
}

/// Setting the tag: a link at its path is removed and made anew, nothing
/// there is filled with the link, and a file there is kept, so that the
/// link fails.
pub proof fn lemma_tag_is_set(s: OperationView, w: World)
    requires
        s.phase == Phase::ProbeTag,
        s.kind == Kind::Put,
        s.result is None,
    ensures
        ({
            let (end, after) = operation_run(s, w);
            &&& after.body == w.body
            &&& match held_at(w.nodes, s.tag_path) {
                Hold::File => {
                    &&& after.nodes == w.nodes
                    &&& end.result == Some(
                        Err::<ReplyView, RegistryErrorView>(
                            error_of(UNKNOWN_ERROR, "File exists"@),
                        ),
                    )
                },
                Hold::Link => {
                    &&& after.nodes == w.nodes.remove(s.tag_path).insert(
                        s.tag_path,
                        Node::Link(s.content_path),
                    )
                    &&& end.result == Some(Ok::<ReplyView, RegistryErrorView>(ReplyView::Stored))
                },
                Hold::Nothing => {
                    &&& after.nodes == w.nodes.insert(s.tag_path, Node::Link(s.content_path))
                    &&& end.result == Some(Ok::<ReplyView, RegistryErrorView>(ReplyView::Stored))
                },
            }
        }),
{
    let tp = s.tag_path;
    let cp = s.content_path;
    let hold = held_at(w.nodes, tp);
    assert(apply(w, ActionView::Inspect { path: tp }) == (w, OutcomeView::Held(hold)));
    let link = OperationView { phase: Phase::Link, ..s };
    if hold == Hold::Link {
        let s1 = OperationView { phase: Phase::RemoveTag, ..s };
        assert(operation_fed(s, OutcomeView::Held(hold)) == s1);
        assert(operation_run(s, w) == operation_run(s1, w));
        let w1 = World { nodes: w.nodes.remove(tp), ..w };
        assert(apply(w, ActionView::Remove { path: tp }) == (w1, OutcomeView::Done));
        assert(operation_fed(s1, OutcomeView::Done) == link);
        assert(operation_run(s1, w) == operation_run(link, w1));
        let w2 = World { nodes: w1.nodes.insert(tp, Node::Link(cp)), ..w };
        assert(apply(w1, ActionView::Symlink { target: cp, link: tp }) == (w2, OutcomeView::Done));
        let end = ended(link, Ok(ReplyView::Stored));
        assert(operation_fed(link, OutcomeView::Done) == end);
        assert(operation_run(link, w1) == operation_run(end, w2));
        assert(operation_run(end, w2) == (end, w2));
    } else {
        assert(operation_fed(s, OutcomeView::Held(hold)) == link);
        assert(operation_run(s, w) == operation_run(link, w));
        if hold == Hold::File {
            assert(apply(w, ActionView::Symlink { target: cp, link: tp }) == (w, occupied()));
            let end = failed(link, occupied());
            assert(operation_fed(link, occupied()) == end);
            assert(operation_run(link, w) == operation_run(end, w));
            assert(operation_run(end, w) == (end, w));
        } else {
            let w2 = World { nodes: w.nodes.insert(tp, Node::Link(cp)), ..w };
            assert(apply(w, ActionView::Symlink { target: cp, link: tp }) == (
                w2,
                OutcomeView::Done,
            ));
            let end = ended(link, Ok(ReplyView::Stored));
            assert(operation_fed(link, OutcomeView::Done) == end);
            assert(operation_run(link, w) == operation_run(end, w2));
            assert(operation_run(end, w2) == (end, w2));
        }
    }
}

/// Reading gives the bytes that the reference leads to. A reference that
/// leads nowhere is reported as an unknown manifest, never as anything
/// else. The store is left as it was.
pub proof fn lemma_get_reads(
    w: World,
    data_dir: Seq<char>,
    namespace: Seq<char>,
    reference: Seq<char>,
)
    ensures
        ({
            let path = pushed(namespace_dir(data_dir, namespace), reference);
            let (s, after) = operation_run(get_begun(data_dir, namespace, reference), w);
            &&& after == w
            &&& s.phase == Phase::Finished
            &&& match content(w.nodes, path) {
                Some(bytes) => s.result == Some(
                    Ok::<ReplyView, RegistryErrorView>(ReplyView::Manifest(bytes)),
                ),
                None => s.result matches Some(Err(e)) && e.code == MANIFEST_UNKNOWN.0@ && e.message
                    == MANIFEST_UNKNOWN.1@,
            }
        }),
{
    let path = pushed(namespace_dir(data_dir, namespace), reference);
    let s0 = get_begun(data_dir, namespace, reference);
    let s1 = OperationView { phase: Phase::Read, ..s0 };
    assert(operation_fed(s0, OutcomeView::Done) == s1);
    assert(operation_run(s0, w) == operation_run(s1, w));
    let (w2, o) = apply(w, ActionView::Read { path });
    assert(w2 == w);
    let s2 = operation_fed(s1, o);
    assert(operation_run(s1, w) == operation_run(s2, w));
    assert(operation_run(s2, w) == (s2, w));
}

/// Round trip, for every reference: once a put has ended well, asking for
/// the manifest by its digest and asking for it by the reference both give
/// back the bytes that were stored.
pub proof fn lemma_round_trip(
    w: World,
    data_dir: Seq<char>,
    namespace: Seq<char>,
    reference: Seq<char>,
    digest: Seq<char>,
    bytes: Seq<u8>,
)
    requires
        fits(w.nodes, pushed(namespace_dir(data_dir, namespace), digest), bytes),
    ensures
        ({
            let (put, after) = operation_run(
                put_begun(data_dir, namespace, reference, digest, bytes),
                w,
            );
            let by_digest = operation_run(get_begun(data_dir, namespace, digest), after).0;
            let by_tag = operation_run(get_begun(data_dir, namespace, reference), after).0;
            went_well(put) ==> {
                &&& by_digest.result == Some(
                    Ok::<ReplyView, RegistryErrorView>(ReplyView::Manifest(bytes)),
                )
                &&& by_tag.result == Some(
                    Ok::<ReplyView, RegistryErrorView>(ReplyView::Manifest(bytes)),
                )
            }
        }),
{
    let dir = namespace_dir(data_dir, namespace);
    let cp = pushed(dir, digest);
    let tp = pushed(dir, reference);
    lemma_put_stores(w, data_dir, namespace, reference, digest, bytes);
    let (put, after) = operation_run(put_begun(data_dir, namespace, reference, digest, bytes), w);
    lemma_get_reads(after, data_dir, namespace, digest);
    lemma_get_reads(after, data_dir, namespace, reference);
    if went_well(put) {
        lemma_content_of_file(after.nodes, cp);
        if tp != cp {
            lemma_content_of_link(after.nodes, tp);
        }
    }
}

/// Round trip of a manifest, for every reference: where the put of `m`
/// ends well, the manifest is read back by its digest and by the reference
/// as the bytes of `m`, and those are the bytes of no other manifest: what
/// is read back is `m`, member for member. A put under the manifest's own
/// digest always ends well. What the store holds under the digest of `m`,
/// if anything, is `m`.
pub proof fn lemma_manifest_round_trip(
    w: World,
    data_dir: Seq<char>,
    namespace: Seq<char>,
    reference: Seq<char>,
    m: ManifestView,
)
    requires
        fits(
            w.nodes,
            pushed(namespace_dir(data_dir, namespace), digest_of(manifest_bytes(m))),
            manifest_bytes(m),
        ),
    ensures
        ({
            let digest = digest_of(manifest_bytes(m));
            let (put, after) = operation_run(
                put_begun(data_dir, namespace, reference, digest, manifest_bytes(m)),
                w,
            );
            let by_digest = operation_run(get_begun(data_dir, namespace, digest), after).0;
            let by_tag = operation_run(get_begun(data_dir, namespace, reference), after).0;
            &&& reference == digest ==> went_well(put)
            &&& went_well(put) ==> {
                &&& by_digest.result == Some(
                    Ok::<ReplyView, RegistryErrorView>(ReplyView::Manifest(manifest_bytes(m))),
                )
                &&& by_tag.result == Some(
                    Ok::<ReplyView, RegistryErrorView>(ReplyView::Manifest(manifest_bytes(m))),
                )
            }
            &&& forall|other: ManifestView| #[trigger]
                manifest_bytes(other) == manifest_bytes(m) ==> other == m
        }),
{
    let digest = digest_of(manifest_bytes(m));
    lemma_put_stores(w, data_dir, namespace, reference, digest, manifest_bytes(m));
    lemma_round_trip(w, data_dir, namespace, reference, digest, manifest_bytes(m));
    assert forall|other: ManifestView| #[trigger]
        manifest_bytes(other) == manifest_bytes(m) implies other == m by {
        lemma_manifest_is_read(other, m);
    }
}

/// Putting the same manifest under the same reference again ends as the
/// first time and changes nothing, whatever the reference is.
pub proof fn lemma_put_again(
    w: World,
    data_dir: Seq<char>,
    namespace: Seq<char>,
    reference: Seq<char>,
    digest: Seq<char>,
    bytes: Seq<u8>,
)
    requires
        fits(w.nodes, pushed(namespace_dir(data_dir, namespace), digest), bytes),
    ensures
        ({
            let put = put_begun(data_dir, namespace, reference, digest, bytes);
            let (first, once) = operation_run(put, w);
            let (second, twice) = operation_run(put, once);
            &&& second.result == first.result
            &&& twice == once
        }),
{
    let dir = namespace_dir(data_dir, namespace);
    let cp = pushed(dir, digest);
    let tp = pushed(dir, reference);
    let put = put_begun(data_dir, namespace, reference, digest, bytes);
    lemma_put_stores(w, data_dir, namespace, reference, digest, bytes);
    let once = operation_run(put, w).1;
    lemma_put_stores(once, data_dir, namespace, reference, digest, bytes);
    let twice = operation_run(put, once).1;
    assert(twice.nodes =~= once.nodes);
}

/// Last write wins, and nothing is lost. Where two manifests are put under
/// one tag, one after the other, and both puts end well, the tag leads to
/// the second, and the first is still read by its digest. The tag does not
/// start at the root, and the two digests have the shape of digests.
pub proof fn lemma_put_moves_tag(
    w: World,
    data_dir: Seq<char>,
    namespace: Seq<char>,
    reference: Seq<char>,
    first: (Seq<char>, Seq<u8>),
    second: (Seq<char>, Seq<u8>),
)
    requires
        !is_absolute(reference),
        is_digest(first.0),
        is_digest(second.0),
        first.0 != second.0,
        fits(w.nodes, pushed(namespace_dir(data_dir, namespace), first.0), first.1),
        fits(w.nodes, pushed(namespace_dir(data_dir, namespace), second.0), second.1),
    ensures
        ({
            let dir = namespace_dir(data_dir, namespace);
            let (one, once) = operation_run(
                put_begun(data_dir, namespace, reference, first.0, first.1),
                w,
            );
            let (two, twice) = operation_run(
                put_begun(data_dir, namespace, reference, second.0, second.1),
                once,
            );
            went_well(one) && went_well(two) ==> {
                &&& content(twice.nodes, pushed(dir, reference)) == Some(second.1)
                &&& content(twice.nodes, pushed(dir, first.0)) == Some(first.1)
                &&& content(twice.nodes, pushed(dir, second.0)) == Some(second.1)
                &&& twice.nodes[pushed(dir, reference)] == Node::Link(pushed(dir, second.0))
            }
        }),
{
    let dir = namespace_dir(data_dir, namespace);
    let cp1 = pushed(dir, first.0);
    let cp2 = pushed(dir, second.0);
    let tp = pushed(dir, reference);
    lemma_digest_is_entry_name(first.0);
    lemma_digest_is_entry_name(second.0);
    if cp1 == cp2 {
        lemma_pushed_injective(dir, first.0, second.0);
    }
    if tp == cp1 {
        lemma_pushed_injective(dir, reference, first.0);
    }
    if tp == cp2 {
        lemma_pushed_injective(dir, reference, second.0);
    }
    lemma_put_stores(w, data_dir, namespace, reference, first.0, first.1);
    let (one, once) = operation_run(put_begun(data_dir, namespace, reference, first.0, first.1), w);
    if went_well(one) {
        assert(fits(once.nodes, cp2, second.1));
        lemma_put_stores(once, data_dir, namespace, reference, second.0, second.1);
        let (two, twice) = operation_run(
            put_begun(data_dir, namespace, reference, second.0, second.1),
            once,
        );
        if went_well(two) {
            lemma_content_of_file(twice.nodes, cp1);
            lemma_content_of_file(twice.nodes, cp2);
            lemma_content_of_link(twice.nodes, tp);
        }
    }
}

/// A name is among the link names exactly when an entry with that name is
/// a link.
pub proof fn lemma_link_names(entries: Seq<EntryView>, name: Seq<char>)
    ensures
        link_names(entries).contains(name) <==> exists|i: int|
            0 <= i < entries.len() && (#[trigger] entries[i]).name == name && entries[i].is_link,
    decreases entries.len(),
{
    if entries.len() > 0 {
        let front = entries.drop_last();
        let last = entries.last();
        lemma_link_names(front, name);
        if link_names(entries).contains(name) {
            let k = choose|k: int|
                0 <= k < link_names(entries).len() && link_names(entries)[k] == name;
            if last.is_link && k == link_names(front).len() {
                assert(entries[entries.len() - 1].name == name);
            } else {
                assert(link_names(front)[k] == name);
                assert(link_names(front).contains(name));
                let i = choose|i: int|
                    0 <= i < front.len() && (#[trigger] front[i]).name == name && front[i].is_link;
                assert(entries[i] == front[i]);
            }
        }
        if exists|i: int|
            0 <= i < entries.len() && (#[trigger] entries[i]).name == name && entries[i].is_link {
            let i = choose|i: int|
                0 <= i < entries.len() && (#[trigger] entries[i]).name == name
                    && entries[i].is_link;
            if i == entries.len() - 1 {
                assert(link_names(entries).last() == name);
            } else {
                assert(front[i] == entries[i]);
                assert(link_names(front).contains(name));
                let k = choose|k: int|
                    0 <= k < link_names(front).len() && link_names(front)[k] == name;
                assert(link_names(entries)[k] == name);
            }
        }
    }
}

/// Listing shows the tags and nothing but the tags, in order: a name is
/// listed exactly when the directory of the namespace holds a link of that
/// name. The manifests themselves, which are files named by their digest,
/// are not listed.
pub proof fn lemma_listing_shows_tags(
    w: World,
    data_dir: Seq<char>,
    namespace: Seq<char>,
    entries: Seq<EntryView>,
)
    requires
        lists(w.nodes, namespace_dir(data_dir, namespace), entries),
    ensures
        ordered(tags_of(entries)),
        forall|name: Seq<char>| #[trigger]
            tags_of(entries).contains(name) <==> {
                &&& is_entry_name(name)
                &&& w.nodes.contains_key(pushed(namespace_dir(data_dir, namespace), name))
                &&& w.nodes[pushed(namespace_dir(data_dir, namespace), name)] is Link
            },
        forall|i: int, j: int|
            0 <= i < j < tags_of(entries).len() ==> tags_of(entries)[i] != tags_of(entries)[j],
{
    let dir = namespace_dir(data_dir, namespace);
    let names = link_names(entries);
    let tags = tags_of(entries);
    lemma_in_order(names);
    assert forall|name: Seq<char>| #[trigger]
        tags.contains(name) <==> {
            &&& is_entry_name(name)
            &&& w.nodes.contains_key(pushed(dir, name))
            &&& w.nodes[pushed(dir, name)] is Link
        } by {
        lemma_link_names(entries, name);
        if is_entry_name(name) && w.nodes.contains_key(pushed(dir, name)) && w.nodes[pushed(
            dir,
            name,
        )] is Link {
            let i = choose|i: int| 0 <= i < entries.len() && (#[trigger] entries[i]).name == name;
            assert(entries[i].is_link);
        }
    }
    lemma_link_names_distinct(entries);
    names.lemma_multiset_has_no_duplicates();
    tags.lemma_multiset_has_no_duplicates_conv();
}

/// Where no two entries share a name, no two link names are the same.
pub proof fn lemma_link_names_distinct(entries: Seq<EntryView>)
    requires
        forall|i: int, j: int|
            0 <= i < j < entries.len() ==> (#[trigger] entries[i]).name != (
            #[trigger] entries[j]).name,
    ensures
        link_names(entries).no_duplicates(),
    decreases entries.len(),
{
    if entries.len() > 0 {
        let front = entries.drop_last();
        assert forall|i: int, j: int| 0 <= i < j < front.len() implies (#[trigger] front[i]).name
            != (#[trigger] front[j]).name by {
            assert(front[i] == entries[i] && front[j] == entries[j]);
        }
        lemma_link_names_distinct(front);
        if entries.last().is_link {
            let name = entries.last().name;
            lemma_link_names(front, name);
            if link_names(front).contains(name) {
                let i = choose|i: int|
                    0 <= i < front.len() && (#[trigger] front[i]).name == name && front[i].is_link;
                assert(entries[i] == front[i]);
                assert(entries[entries.len() - 1].name == name);
            }
            assert forall|a: int, b: int| 0 <= a < b < link_names(entries).len() implies link_names(
                entries,
            )[a] != link_names(entries)[b] by {
                if b == link_names(front).len() {
                    assert(link_names(front)[a] == link_names(entries)[a]);
                    assert(link_names(front).contains(link_names(entries)[a]));
                }
            }
        }
    }
}

/// One put of a history: the reference, the digest and the bytes.
pub struct Put {
    pub reference: Seq<char>,
    pub digest: Seq<char>,
    pub bytes: Seq<u8>,
}

/// The world once the puts of a history were carried out in a namespace,
/// one after the other.
pub open spec fn after_puts(
    w: World,
    data_dir: Seq<char>,
    namespace: Seq<char>,
    puts: Seq<Put>,
) -> World
    decreases puts.len(),
{
    if puts.len() == 0 {
        w
    } else {
        let last = puts.last();
        operation_run(
            put_begun(data_dir, namespace, last.reference, last.digest, last.bytes),
            after_puts(w, data_dir, namespace, puts.drop_last()),
        ).1
    }
}

/// Whether a history can be carried out in a namespace that is empty: its
/// references are names of entries, its digests have the shape of digests,
/// and one digest always comes with the same bytes.
pub open spec fn is_history(nodes: Map<Seq<char>, Node>, dir: Seq<char>, puts: Seq<Put>) -> bool {
    &&& forall|name: Seq<char>|
        is_entry_name(name) ==> !nodes.contains_key(#[trigger] pushed(dir, name))
    &&& forall|i: int|
        0 <= i < puts.len() ==> is_entry_name((#[trigger] puts[i]).reference) && is_digest(
            puts[i].digest,
        )
    &&& forall|i: int, j: int|
        0 <= i < puts.len() && 0 <= j < puts.len() && (#[trigger] puts[i]).digest == (
        #[trigger] puts[j]).digest ==> puts[i].bytes == puts[j].bytes
}

/// Whether `name` was pushed as a tag in a history: some put has it as its
/// reference, and it has not the shape of a digest.
pub open spec fn pushed_as_tag(puts: Seq<Put>, name: Seq<char>) -> bool {
    !is_digest(name) && exists|i: int| 0 <= i < puts.len() && (#[trigger] puts[i]).reference == name
}

/// Whether `name` was stored as a digest in a history.
pub open spec fn stored_as_digest(puts: Seq<Put>, name: Seq<char>, bytes: Seq<u8>) -> bool {
    exists|i: int|
        0 <= i < puts.len() && {
            let p = #[trigger] puts[i];
            &&& p.digest == name
            &&& p.bytes == bytes
            &&& p.reference == name || !is_digest(p.reference)
        }
}

/// What a namespace holds after a history: a link for every tag that was
/// pushed, a file for every manifest that was stored, and nothing else.
pub open spec fn holds_history(nodes: Map<Seq<char>, Node>, dir: Seq<char>, puts: Seq<Put>) -> bool {
    forall|name: Seq<char>|
        is_entry_name(name) ==> {
            let path = #[trigger] pushed(dir, name);
            if is_digest(name) {
                nodes.contains_key(path) ==> exists|bytes: Seq<u8>|
                    nodes[path] == Node::File(bytes) && #[trigger] stored_as_digest(
                        puts,
                        name,
                        bytes,
                    )
            } else {
                &&& nodes.contains_key(path) <==> pushed_as_tag(puts, name)
                &&& nodes.contains_key(path) ==> nodes[path] is Link
            }
        }
}

/// After any history of puts into an empty namespace, the namespace holds
/// a link for every tag that was pushed and for nothing else, and what it
/// holds under a digest is a manifest that was stored under that digest.
pub proof fn lemma_history(w: World, data_dir: Seq<char>, namespace: Seq<char>, puts: Seq<Put>)
    requires
        is_history(w.nodes, namespace_dir(data_dir, namespace), puts),
    ensures
        holds_history(
            after_puts(w, data_dir, namespace, puts).nodes,
            namespace_dir(data_dir, namespace),
            puts,
        ),
    decreases puts.len(),
{
    let dir = namespace_dir(data_dir, namespace);
    if puts.len() == 0 {
    } else {
        let front = puts.drop_last();
        let last = puts.last();
        assert forall|i: int| 0 <= i < front.len() implies front[i] == puts[i] by {}
        assert(is_history(w.nodes, dir, front)) by {
            assert forall|i: int| 0 <= i < front.len() implies is_entry_name(
                (#[trigger] front[i]).reference,
            ) && is_digest(front[i].digest) by {
                assert(front[i] == puts[i]);
            }
            assert forall|i: int, j: int|
                0 <= i < front.len() && 0 <= j < front.len() && (#[trigger] front[i]).digest == (
                #[trigger] front[j]).digest implies front[i].bytes == front[j].bytes by {
                assert(front[i] == puts[i] && front[j] == puts[j]);
            }
        }
        lemma_history(w, data_dir, namespace, front);
        let before = after_puts(w, data_dir, namespace, front);
        let cp = pushed(dir, last.digest);
        let tp = pushed(dir, last.reference);
        assert(puts[puts.len() - 1] == last);
        lemma_digest_is_entry_name(last.digest);
        assert(fits(before.nodes, cp, last.bytes)) by {
            if before.nodes.contains_key(cp) {
                let bytes = choose|bytes: Seq<u8>|
                    before.nodes[cp] == Node::File(bytes) && #[trigger] stored_as_digest(
                        front,
                        last.digest,
                        bytes,
                    );
                let i = choose|i: int|
                    0 <= i < front.len() && (#[trigger] front[i]).digest == last.digest
                        && front[i].bytes == bytes;
                assert(front[i] == puts[i]);
            }
        }
        lemma_put_stores(before, data_dir, namespace, last.reference, last.digest, last.bytes);
        let after = after_puts(w, data_dir, namespace, puts);
        if tp == cp {
            lemma_pushed_injective(dir, last.reference, last.digest);
        }
        assert forall|name: Seq<char>| is_entry_name(name) implies ({
            let path = #[trigger] pushed(dir, name);
            if is_digest(name) {
                after.nodes.contains_key(path) ==> exists|bytes: Seq<u8>|
                    after.nodes[path] == Node::File(bytes) && #[trigger] stored_as_digest(
                        puts,
                        name,
                        bytes,
                    )
            } else {
                &&& after.nodes.contains_key(path) <==> pushed_as_tag(puts, name)
                &&& after.nodes.contains_key(path) ==> after.nodes[path] is Link
            }
        }) by {
            let path = pushed(dir, name);
            if path == cp {
                lemma_pushed_injective(dir, name, last.digest);
            }
            if path == tp {
                lemma_pushed_injective(dir, name, last.reference);
            }
            if is_digest(name) {
                if after.nodes.contains_key(path) {
                    if name == last.digest && (last.reference == last.digest || !is_digest(
                        last.reference,
                    )) {
                        assert(after.nodes[path] == Node::File(last.bytes));
                        assert(stored_as_digest(puts, name, last.bytes));
                    } else {
                        assert(before.nodes.contains_key(path));
                        let bytes = choose|bytes: Seq<u8>|
                            before.nodes[path] == Node::File(bytes) && #[trigger] stored_as_digest(
                                front,
                                name,
                                bytes,
                            );
                        let i = choose|i: int|
                            0 <= i < front.len() && {
                                let p = #[trigger] front[i];
                                &&& p.digest == name
                                &&& p.bytes == bytes
                                &&& p.reference == name || !is_digest(p.reference)
                            };
                        assert(front[i] == puts[i]);
                        assert(stored_as_digest(puts, name, bytes));
                        assert(after.nodes[path] == before.nodes[path]);
                    }
                }
            } else {
                if pushed_as_tag(front, name) {
                    let i = choose|i: int|
                        0 <= i < front.len() && (#[trigger] front[i]).reference == name;
                    assert(front[i] == puts[i]);
                    assert(pushed_as_tag(puts, name));
                }
                if pushed_as_tag(puts, name) && !pushed_as_tag(front, name) {
                    let i = choose|i: int|
                        0 <= i < puts.len() && (#[trigger] puts[i]).reference == name;
                    if i < front.len() {
                        assert(front[i] == puts[i]);
                    }
                    assert(last.reference == name);
                }
                if name == last.reference {
                    assert(pushed_as_tag(puts, name));
                    assert(held_at(before.nodes, tp) != Hold::File);
                }
            }
        }
    }
}

/// Listing after a history shows the tags that were pushed and nothing
/// else: a name is listed exactly when it was pushed as a tag. No digest of
/// a stored manifest is listed, and the tags stand in order, each once.
pub proof fn lemma_history_lists_tags(
    w: World,
    data_dir: Seq<char>,
    namespace: Seq<char>,
    puts: Seq<Put>,
    entries: Seq<EntryView>,
)
    requires
        is_history(w.nodes, namespace_dir(data_dir, namespace), puts),
        lists(
            after_puts(w, data_dir, namespace, puts).nodes,
            namespace_dir(data_dir, namespace),
            entries,
        ),
    ensures
        ordered(tags_of(entries)),
        forall|name: Seq<char>| #[trigger]
            tags_of(entries).contains(name) <==> is_entry_name(name) && pushed_as_tag(puts, name),
        forall|i: int, j: int|
            0 <= i < j < tags_of(entries).len() ==> tags_of(entries)[i] != tags_of(entries)[j],
{
    let dir = namespace_dir(data_dir, namespace);
    let after = after_puts(w, data_dir, namespace, puts);
    lemma_history(w, data_dir, namespace, puts);
    lemma_listing_shows_tags(after, data_dir, namespace, entries);
    assert forall|name: Seq<char>| #[trigger]
        tags_of(entries).contains(name) <==> is_entry_name(name) && pushed_as_tag(
            puts,
            name,
        ) by {
        if is_entry_name(name) {
            let path = pushed(dir, name);
            if is_digest(name) && after.nodes.contains_key(path) {
                let bytes = choose|bytes: Seq<u8>|
                    after.nodes[path] == Node::File(bytes) && #[trigger] stored_as_digest(
                        puts,
                        name,
                        bytes,
                    );
            }
        }
    }
}

} // verus!
