//! A model of what the caller's calls act on: a tree of files and links, and
//! the body of the request that is being served.
//!
//! Paths are compared as text. A call that the model lets fail has a fixed
//! cause; a real call can fail for more reasons than the model knows.

use crate::path::{is_entry_name, pushed};
use crate::storage::{ActionView, EntryView, FailureView, Hold, OutcomeView};
use vstd::prelude::*;

verus! {

/// What a path holds.
pub enum Node {
    /// A file and its bytes.
    File(Seq<u8>),
    /// A symbolic link and the path it leads to.
    Link(Seq<char>),
}

/// The files and links by path, and the chunks of the body not yet read.
pub struct World {
    pub nodes: Map<Seq<char>, Node>,
    pub body: Seq<Seq<u8>>,
}

/// How many links a path may lead through.
pub open spec fn link_limit() -> nat {
    40
}

/// The path at which the links from `path` end: one that holds a file or
/// nothing. `None` if they do not end within `depth` links.
pub open spec fn end_of(nodes: Map<Seq<char>, Node>, path: Seq<char>, depth: nat) -> Option<
    Seq<char>,
>
    decreases depth,
{
    if nodes.contains_key(path) && nodes[path] is Link {
        if depth == 0 {
            None
        } else {
            end_of(nodes, nodes[path]->Link_0, (depth - 1) as nat)
        }
    } else {
        Some(path)
    }
}

/// The bytes that reading `path` gives, if it leads to a file.
pub open spec fn content(nodes: Map<Seq<char>, Node>, path: Seq<char>) -> Option<Seq<u8>> {
    match end_of(nodes, path, link_limit()) {
        Some(end) => if nodes.contains_key(end) {
            Some(nodes[end]->File_0)
        } else {
            None
        },
        None => None,
    }
}

/// Whether `path` leads to a file.
pub open spec fn present(nodes: Map<Seq<char>, Node>, path: Seq<char>) -> bool {
    content(nodes, path).is_some()
}

/// What `path` itself holds.
pub open spec fn held_at(nodes: Map<Seq<char>, Node>, path: Seq<char>) -> Hold {
    if !nodes.contains_key(path) {
        Hold::Nothing
    } else if nodes[path] is Link {
        Hold::Link
    } else {
        Hold::File
    }
}

/// Whether `entries` lists the directory `dir`: every entry is in it, with
/// its kind; none is listed twice; none is left out.
pub open spec fn lists(nodes: Map<Seq<char>, Node>, dir: Seq<char>, entries: Seq<EntryView>) -> bool {
    &&& forall|i: int|
        0 <= i < entries.len() ==> {
            let e = #[trigger] entries[i];
            &&& is_entry_name(e.name)
            &&& nodes.contains_key(pushed(dir, e.name))
            &&& e.is_link == (nodes[pushed(dir, e.name)] is Link)
        }
    &&& forall|i: int, j: int|
        0 <= i < j < entries.len() ==> (#[trigger] entries[i]).name != (#[trigger] entries[j]).name
    &&& forall|name: Seq<char>|
        is_entry_name(name) && #[trigger] nodes.contains_key(pushed(dir, name)) ==> exists|i: int|
            0 <= i < entries.len() && (#[trigger] entries[i]).name == name
}

/// What reading a chunk gives: the bytes from `offset` on, at most `len` of
/// them.
pub open spec fn chunk_at(bytes: Seq<u8>, offset: int, len: int) -> Seq<u8> {
    if 0 <= offset < bytes.len() && 0 < len {
        if offset + len <= bytes.len() {
            bytes.subrange(offset, offset + len)
        } else {
            bytes.subrange(offset, bytes.len() as int)
        }
    } else {
        Seq::empty()
    }
}

/// Some listing of the directory `dir`. A directory is listed in no
/// particular order; what is said of this listing is what holds of every
/// one.
pub open spec fn listing(nodes: Map<Seq<char>, Node>, dir: Seq<char>) -> Seq<EntryView> {
    choose|entries: Seq<EntryView>| lists(nodes, dir, entries)
}

/// The chunks of a body, one behind the other.
pub open spec fn flat(chunks: Seq<Seq<u8>>) -> Seq<u8>
    decreases chunks.len(),
{
    if chunks.len() == 0 {
        Seq::empty()
    } else {
        chunks[0] + flat(chunks.drop_first())
    }
}

/// The failure of a call on a path that holds nothing.
pub open spec fn missing() -> OutcomeView {
    OutcomeView::Failed(FailureView { not_found: true, reason: "No such file or directory"@ })
}

/// The failure of a call that would have to replace what a path holds.
pub open spec fn occupied() -> OutcomeView {
    OutcomeView::Failed(FailureView { not_found: false, reason: "File exists"@ })
}

/// The failure of a call on a file whose length is no offset.
pub open spec fn oversized() -> OutcomeView {
    OutcomeView::Failed(FailureView { not_found: false, reason: "File too large"@ })
}

/// The failure of a call on a path whose links do not end.
pub open spec fn looping() -> OutcomeView {
    OutcomeView::Failed(
        FailureView { not_found: false, reason: "Too many levels of symbolic links"@ },
    )
}

/// The world after a call, and what the call reports.
pub open spec fn apply(w: World, a: ActionView) -> (World, OutcomeView) {
    match a {
        ActionView::CreateDirAll { path } => (w, OutcomeView::Done),
        ActionView::Exists { path } => (w, OutcomeView::Present(present(w.nodes, path))),
        ActionView::Inspect { path } => (w, OutcomeView::Held(held_at(w.nodes, path))),
        ActionView::Write { path, bytes } => match end_of(w.nodes, path, link_limit()) {
            Some(end) => (
                World { nodes: w.nodes.insert(end, Node::File(bytes)), ..w },
                OutcomeView::Done,
            ),
            None => (w, looping()),
        },
        ActionView::Create { path } => match end_of(w.nodes, path, link_limit()) {
            Some(end) => (
                World { nodes: w.nodes.insert(end, Node::File(Seq::empty())), ..w },
                OutcomeView::Done,
            ),
            None => (w, looping()),
        },
        ActionView::Append { path, bytes } => match end_of(w.nodes, path, link_limit()) {
            Some(end) => if w.nodes.contains_key(end) {
                (
                    World {
                        nodes: w.nodes.insert(end, Node::File(w.nodes[end]->File_0 + bytes)),
                        ..w
                    },
                    OutcomeView::Done,
                )
            } else {
                (w, missing())
            },
            None => (w, looping()),
        },
        ActionView::Size { path } => match content(w.nodes, path) {
            Some(bytes) => if bytes.len() <= u64::MAX {
                (w, OutcomeView::Length(bytes.len() as u64))
            } else {
                (w, oversized())
            },
            None => (w, missing()),
        },
        ActionView::Read { path } => match content(w.nodes, path) {
            Some(bytes) => (w, OutcomeView::Data(bytes)),
            None => (w, missing()),
        },
        ActionView::Open { path } => if present(w.nodes, path) {
            (w, OutcomeView::Done)
        } else {
            (w, missing())
        },
        ActionView::ReadChunk { path, offset, len } => match content(w.nodes, path) {
            Some(bytes) => (w, OutcomeView::Data(chunk_at(bytes, offset as int, len as int))),
            None => (w, missing()),
        },
        ActionView::Remove { path } => if w.nodes.contains_key(path) {
            (World { nodes: w.nodes.remove(path), ..w }, OutcomeView::Done)
        } else {
            (w, missing())
        },
        ActionView::Symlink { target, link } => if w.nodes.contains_key(link) {
            (w, occupied())
        } else {
            (World { nodes: w.nodes.insert(link, Node::Link(target)), ..w }, OutcomeView::Done)
        },
        ActionView::Rename { from, to } => if w.nodes.contains_key(from) {
            (
                World { nodes: w.nodes.remove(from).insert(to, w.nodes[from]), ..w },
                OutcomeView::Done,
            )
        } else {
            (w, missing())
        },
        ActionView::ReadDir { path } => (w, OutcomeView::Entries(listing(w.nodes, path))),
        ActionView::NextChunk => if w.body.len() == 0 {
            (w, OutcomeView::End)
        } else {
            (World { body: w.body.drop_first(), ..w }, OutcomeView::Data(w.body[0]))
        },
    }
}

/// A path that holds a file leads to that file.
pub proof fn lemma_content_of_file(nodes: Map<Seq<char>, Node>, path: Seq<char>)
    requires
        nodes.contains_key(path),
        nodes[path] is File,
    ensures
        end_of(nodes, path, link_limit()) == Some(path),
        content(nodes, path) == Some(nodes[path]->File_0),
{
}

/// A path that holds nothing leads nowhere.
pub proof fn lemma_content_of_nothing(nodes: Map<Seq<char>, Node>, path: Seq<char>)
    requires
        !nodes.contains_key(path),
    ensures
        end_of(nodes, path, link_limit()) == Some(path),
        content(nodes, path).is_none(),
{
}

/// A link to a file leads to that file.
pub proof fn lemma_content_of_link(nodes: Map<Seq<char>, Node>, path: Seq<char>)
    requires
        nodes.contains_key(path),
        nodes[path] is Link,
        nodes.contains_key(nodes[path]->Link_0),
        nodes[nodes[path]->Link_0] is File,
    ensures
        end_of(nodes, path, link_limit()) == Some(nodes[path]->Link_0),
        content(nodes, path) == Some(nodes[nodes[path]->Link_0]->File_0),
{
    let to = nodes[path]->Link_0;
    assert(end_of(nodes, to, (link_limit() - 1) as nat) == Some(to));
}

} // verus!
