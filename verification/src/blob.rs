//! The blob store: staging files for uploads in progress, committed files
//! named by their digest.

use crate::error::{error_of, RegistryError, BLOB_UNKNOWN};
use crate::model::{apply, chunk_at, content, present, World};
use crate::path::{is_absolute, join, pushed};
use crate::storage::{Action, ActionView, Outcome, OutcomeView};
use vstd::prelude::*;
use vstd::string::*;

verus! {

/// Where the blobs are kept, and in what chunks they are read.
#[derive(Debug)]
pub struct Store {
    pub dir: String,
    pub buf_size: usize,
}

/// The directory of the staging files under `dir`.
pub open spec fn upload_dir(dir: Seq<char>) -> Seq<char> {
    pushed(dir, "upload"@)
}

/// The directory of the committed blobs under `dir`.
pub open spec fn blob_dir(dir: Seq<char>) -> Seq<char> {
    pushed(dir, "blobs"@)
}

/// The directory of the manifests under `dir`.
pub open spec fn manifest_dir(dir: Seq<char>) -> Seq<char> {
    pushed(dir, "manifests"@)
}

/// The staging file of the upload session `id`.
pub open spec fn upload_path(dir: Seq<char>, id: Seq<char>) -> Seq<char> {
    pushed(upload_dir(dir), id)
}

/// The committed file of the blob `digest`.
pub open spec fn blob_path(dir: Seq<char>, digest: Seq<char>) -> Seq<char> {
    pushed(blob_dir(dir), digest)
}

impl Store {
    /// A store rooted at `dir` that reads blobs in chunks of `buf_size`
    /// bytes. The directories that it needs are those of `setup`.
    pub fn new(dir: &str, buf_size: usize) -> (store: Store)
        ensures
            store.dir@ == dir@,
            store.buf_size == buf_size,
    {
        Store { dir: String::from_str(dir), buf_size }
    }

    /// The calls that prepare the store: its root, then the directories
    /// for staging files, committed blobs and manifests. A store whose
    /// directories cannot be made cannot be used.
    pub fn setup(&self) -> (calls: Vec<Action>)
        ensures
            calls@.len() == 4,
            calls@[0]@ == (ActionView::CreateDirAll { path: self.dir@ }),
            calls@[1]@ == (ActionView::CreateDirAll { path: upload_dir(self.dir@) }),
            calls@[2]@ == (ActionView::CreateDirAll { path: blob_dir(self.dir@) }),
            calls@[3]@ == (ActionView::CreateDirAll { path: manifest_dir(self.dir@) }),
    {
        let mut calls: Vec<Action> = Vec::new();
        calls.push(Action::CreateDirAll { path: self.dir.clone() });
        calls.push(Action::CreateDirAll { path: join(self.dir.as_str(), "upload") });
        calls.push(Action::CreateDirAll { path: join(self.dir.as_str(), "blobs") });
        calls.push(Action::CreateDirAll { path: join(self.dir.as_str(), "manifests") });
        calls
    }

    /// The path of the staging file of the upload session `id`.
    pub fn get_upload_path(&self, id: &str) -> (path: String)
        ensures
            path@ == upload_path(self.dir@, id@),
    {
        let dir = join(self.dir.as_str(), "upload");
        join(dir.as_str(), id)
    }

    /// The path of the committed file of the blob `digest`.
    pub fn get_blob_path(&self, digest: &str) -> (path: String)
        ensures
            path@ == blob_path(self.dir@, digest@),
    {
        let dir = join(self.dir.as_str(), "blobs");
        join(dir.as_str(), digest)
    }

    /// The call that asks whether the session `id` has a staging file. Its
    /// answer is read by `is_present`.
    pub fn upload_exists(&self, id: &str) -> (call: Action)
        ensures
            call@ == (ActionView::Exists { path: upload_path(self.dir@, id@) }),
    {
        Action::Exists { path: self.get_upload_path(id) }
    }

    /// The call that asks how many bytes the session `id` has staged.
    pub fn upload_size(&self, id: &str) -> (call: Action)
        ensures
            call@ == (ActionView::Size { path: upload_path(self.dir@, id@) }),
    {
        Action::Size { path: self.get_upload_path(id) }
    }

    /// The call that reads the bytes that the session `id` has staged.
    pub fn read_upload(&self, id: &str) -> (call: Action)
        ensures
            call@ == (ActionView::Read { path: upload_path(self.dir@, id@) }),
    {
        Action::Read { path: self.get_upload_path(id) }
    }

    /// The call that opens the staging file of session `id`, given whether
    /// it is there: a file that is there is kept as it is and written at
    /// its end; one that is not is created empty.
    pub fn get_upload_file(&self, id: &str, is_there: bool) -> (call: Option<Action>)
        ensures
            is_there ==> call.is_none(),
            !is_there ==> call.is_some() && call.unwrap()@ == (ActionView::Create {
                path: upload_path(self.dir@, id@),
            }),
    {
        if is_there {
            None
        } else {
            Some(Action::Create { path: self.get_upload_path(id) })
        }
    }

    /// The call that writes `bytes` at the end of the staging file of
    /// session `id`.
    pub fn append_chunk(&self, id: &str, bytes: Vec<u8>) -> (call: Action)
        ensures
            call@ == (ActionView::Append { path: upload_path(self.dir@, id@), bytes: bytes@ }),
    {
        Action::Append { path: self.get_upload_path(id), bytes }
    }

    /// The call that commits the upload session `id` as the blob `digest`:
    /// one rename from the staging file to the committed file, so that a
    /// reader sees the blob whole or not at all.
    pub fn commit(&self, id: &str, digest: &str) -> (call: Action)
        ensures
            call@ == (ActionView::Rename {
                from: upload_path(self.dir@, id@),
                to: blob_path(self.dir@, digest@),
            }),
    {
        Action::Rename { from: self.get_upload_path(id), to: self.get_blob_path(digest) }
    }

    /// The call that asks whether the blob `digest` is committed. Its
    /// answer is read by `is_present`.
    pub fn blob_exists(&self, digest: &str) -> (call: Action)
        ensures
            call@ == (ActionView::Exists { path: blob_path(self.dir@, digest@) }),
    {
        Action::Exists { path: self.get_blob_path(digest) }
    }

    /// The call that opens the blob `digest` for reading. Its outcome is
    /// read by `opened`.
    pub fn get_blob(&self, digest: &str) -> (call: Action)
        ensures
            call@ == (ActionView::Open { path: blob_path(self.dir@, digest@) }),
    {
        Action::Open { path: self.get_blob_path(digest) }
    }

    /// The stream over the blob `digest`, once it was opened.
    pub fn stream(&self, digest: &str) -> (stream: BlobStream)
        ensures
            stream.path@ == blob_path(self.dir@, digest@),
            stream.buf_size == self.buf_size,
            stream.offset == 0,
            !stream.ended,
    {
        BlobStream::from_file(self.get_blob_path(digest).as_str(), self.buf_size)
    }
}

/// Whether an `Exists` call found something. Any other outcome counts as
/// nothing found.
pub fn is_present(outcome: &Outcome) -> (b: bool)
    ensures
        b == (outcome@ == OutcomeView::Present(true)),
{
    match outcome {
        Outcome::Present(b) => *b,
        _ => false,
    }
}

/// Whether a blob was opened: a call that did not go through, for whatever
/// reason, reports the blob as unknown.
pub fn opened(outcome: &Outcome) -> (r: Result<(), RegistryError>)
    ensures
        outcome@ is Done ==> r.is_ok(),
        !(outcome@ is Done) ==> r.is_err() && r.unwrap_err()@ == error_of(
            BLOB_UNKNOWN,
            Seq::empty(),
        ),
{
    match outcome {
        Outcome::Done => Ok(()),
        _ => Err(RegistryError::from(BLOB_UNKNOWN)),
    }
}

/// A blob read front to back in chunks of at most `buf_size` bytes.
#[derive(Debug)]
pub struct BlobStream {
    pub path: String,
    pub buf_size: usize,
    /// How many bytes were handed out.
    pub offset: u64,
    /// The end of the file was reached, or a read failed.
    pub ended: bool,
}

/// The next item of a stream.
#[derive(Debug)]
pub enum Item {
    /// A chunk of the blob, never empty.
    Chunk(Vec<u8>),
    /// A read failed; the stream is over.
    Broken(String),
    /// The blob was read to its end.
    End,
}

impl BlobStream {
    /// A stream at the start of the file at `path`.
    pub fn from_file(path: &str, buf_size: usize) -> (stream: BlobStream)
        ensures
            stream.path@ == path@,
            stream.buf_size == buf_size,
            stream.offset == 0,
            !stream.ended,
    {
        BlobStream { path: String::from_str(path), buf_size, offset: 0, ended: false }
    }

    /// The call that reads the next chunk, or `None` when the stream is
    /// over.
    pub fn poll_next(&self) -> (call: Option<Action>)
        ensures
            self.ended ==> call.is_none(),
            !self.ended ==> call.is_some() && call.unwrap()@ == (ActionView::ReadChunk {
                path: self.path@,
                offset: self.offset,
                len: self.buf_size,
            }),
    {
        if self.ended {
            None
        } else {
            Some(
                Action::ReadChunk {
                    path: self.path.clone(),
                    offset: self.offset,
                    len: self.buf_size,
                },
            )
        }
    }

    /// Takes what the read gave. Bytes are handed on as a chunk and
    /// counted; no bytes mean the end of the blob; anything else is a
    /// failure, which is handed on and ends the stream.
    pub fn received(&mut self, outcome: Outcome) -> (item: Item)
        requires
            !old(self).ended,
        ensures
            final(self).path == old(self).path,
            final(self).buf_size == old(self).buf_size,
            match outcome@ {
                OutcomeView::Data(bytes) => if bytes.len() > 0 && old(self).offset + bytes.len()
                    <= u64::MAX {
                    &&& item matches Item::Chunk(chunk)
                    &&& chunk@ == bytes
                    &&& !final(self).ended
                    &&& final(self).offset == old(self).offset + bytes.len()
                } else {
                    &&& bytes.len() == 0 ==> item is End
                    &&& bytes.len() > 0 ==> (item matches Item::Broken(reason) && reason@
                        == "the blob is too long"@)
                    &&& final(self).ended
                    &&& final(self).offset == old(self).offset
                },
                OutcomeView::Failed(failure) => {
                    &&& item matches Item::Broken(reason)
                    &&& reason@ == failure.reason
                    &&& final(self).ended
                    &&& final(self).offset == old(self).offset
                },
                _ => {
                    &&& item matches Item::Broken(reason)
                    &&& reason@ == "unexpected answer"@
                    &&& final(self).ended
                    &&& final(self).offset == old(self).offset
                },
            },
    {
        match outcome {
            Outcome::Data(bytes) => {
                if bytes.len() == 0 {
                    self.ended = true;
                    Item::End
                } else if bytes.len() as u64 > u64::MAX - self.offset {
                    self.ended = true;
                    Item::Broken(String::from_str("the blob is too long"))
                } else {
                    self.offset = self.offset + bytes.len() as u64;
                    Item::Chunk(bytes)
                }
            },
            Outcome::Failed(failure) => {
                self.ended = true;
                Item::Broken(failure.reason)
            },
            _ => {
                self.ended = true;
                Item::Broken(String::from_str("unexpected answer"))
            },
        }
    }
}

/// The bytes that a stream over `bytes` hands out from `offset` on, chunk
/// after chunk, until a read gives nothing.
pub open spec fn streamed(bytes: Seq<u8>, offset: int, len: int) -> Seq<u8>
    decreases bytes.len() - offset,
{
    let chunk = chunk_at(bytes, offset, len);
    if chunk.len() == 0 {
        Seq::empty()
    } else {
        chunk + streamed(bytes, offset + chunk.len(), len)
    }
}

/// A chunk is never longer than asked for, and is shorter only at the end
/// of the blob.
pub proof fn lemma_chunk_size(bytes: Seq<u8>, offset: int, len: int)
    requires
        0 <= offset <= bytes.len(),
        0 < len,
    ensures
        chunk_at(bytes, offset, len).len() <= len,
        chunk_at(bytes, offset, len).len() < len ==> offset + chunk_at(bytes, offset, len).len()
            == bytes.len(),
        chunk_at(bytes, offset, len).len() == 0 <==> offset == bytes.len(),
{
}

/// A stream with a buffer that is not empty hands out the blob from its
/// offset to its end: nothing is lost, repeated or reordered.
pub proof fn lemma_stream_is_complete(bytes: Seq<u8>, offset: int, len: int)
    requires
        0 <= offset <= bytes.len(),
        0 < len,
    ensures
        streamed(bytes, offset, len) == bytes.skip(offset),
    decreases bytes.len() - offset,
{
    let chunk = chunk_at(bytes, offset, len);
    if chunk.len() == 0 {
        assert(bytes.skip(offset) =~= Seq::<u8>::empty());
    } else {
        lemma_stream_is_complete(bytes, offset + chunk.len(), len);
        assert(chunk + bytes.skip(offset + chunk.len()) =~= bytes.skip(offset));
    }
}

/// A staging file and a committed file never share a path, whatever the
/// session and the digest are called, as long as neither name starts at the
/// root.
pub proof fn lemma_staging_apart(dir: Seq<char>, id: Seq<char>, digest: Seq<char>)
    requires
        !is_absolute(id),
        !is_absolute(digest),
    ensures
        upload_path(dir, id) != blob_path(dir, digest),
{
    reveal_strlit("upload");
    reveal_strlit("blobs");
    let base = if dir.len() == 0 || dir.last() == '/' {
        dir
    } else {
        dir + seq!['/']
    };
    let up = upload_dir(dir);
    let bl = blob_dir(dir);
    assert(up =~= base + "upload"@);
    assert(bl =~= base + "blobs"@);
    assert(up.last() == 'd');
    assert(bl.last() == 's');
    assert(upload_path(dir, id) =~= up + seq!['/'] + id);
    assert(blob_path(dir, digest) =~= bl + seq!['/'] + digest);
    assert(upload_path(dir, id)[base.len() as int] == 'u');
    assert(blob_path(dir, digest)[base.len() as int] == 'b');
}

/// Committing publishes the staged bytes under the digest and consumes the
/// staging file: after the rename the blob is there, whole, and the session
/// has no file any more.
pub proof fn lemma_commit_publishes(w: World, dir: Seq<char>, id: Seq<char>, digest: Seq<char>)
    requires
        !is_absolute(id),
        !is_absolute(digest),
        w.nodes.contains_key(upload_path(dir, id)),
        w.nodes[upload_path(dir, id)] is File,
    ensures
        ({
            let call = ActionView::Rename {
                from: upload_path(dir, id),
                to: blob_path(dir, digest),
            };
            let (after, outcome) = apply(w, call);
            &&& outcome is Done
            &&& present(after.nodes, blob_path(dir, digest))
            &&& content(after.nodes, blob_path(dir, digest)) == Some(
                w.nodes[upload_path(dir, id)]->File_0,
            )
            &&& !after.nodes.contains_key(upload_path(dir, id))
            &&& !present(after.nodes, upload_path(dir, id))
        }),
{
    lemma_staging_apart(dir, id, digest);
}

/// Without a staging file there is nothing to commit: the rename fails and
/// changes nothing.
pub proof fn lemma_commit_needs_staging(
    w: World,
    dir: Seq<char>,
    id: Seq<char>,
    digest: Seq<char>,
)
    requires
        !w.nodes.contains_key(upload_path(dir, id)),
    ensures
        ({
            let call = ActionView::Rename {
                from: upload_path(dir, id),
                to: blob_path(dir, digest),
            };
            let (after, outcome) = apply(w, call);
            &&& outcome matches OutcomeView::Failed(failure)
            &&& failure.not_found
            &&& after == w
        }),
{
}

/// What is staged is not published: creating the staging file of a session
/// or writing at its end leaves every blob as it was, be it there or not.
/// The staging path holds a file or nothing, and the blob's path no link.
pub proof fn lemma_staging_is_private(
    w: World,
    dir: Seq<char>,
    id: Seq<char>,
    digest: Seq<char>,
    bytes: Seq<u8>,
)
    requires
        !is_absolute(id),
        !is_absolute(digest),
        w.nodes.contains_key(upload_path(dir, id)) ==> w.nodes[upload_path(dir, id)] is File,
        w.nodes.contains_key(blob_path(dir, digest)) ==> w.nodes[blob_path(dir, digest)] is File,
    ensures
        content(apply(w, ActionView::Create { path: upload_path(dir, id) }).0.nodes, blob_path(dir, digest))
            == content(w.nodes, blob_path(dir, digest)),
        content(
            apply(w, ActionView::Append { path: upload_path(dir, id), bytes }).0.nodes,
            blob_path(dir, digest),
        ) == content(w.nodes, blob_path(dir, digest)),
{
    lemma_staging_apart(dir, id, digest);
}

} // verus!
