//! The calls that the registry asks its caller to make, and what comes back
//! from them.
//!
//! The library never touches a file or a socket. An operation that needs one
//! names the call as an `Action`; the caller makes it and hands back the
//! `Outcome`. What each call does to a tree of files and links is said by
//! the model, so that whole operations can be reasoned about.

use vstd::prelude::*;
use vstd::string::*;

verus! {

/// Why a call failed.
#[derive(Debug)]
pub struct Failure {
    /// The file or directory that the call names is not there.
    pub not_found: bool,
    /// The cause, as text.
    pub reason: String,
}

/// One entry of a directory.
#[derive(Debug)]
pub struct Entry {
    pub name: String,
    /// The entry is a symbolic link.
    pub is_link: bool,
}

/// What a path itself holds, a link not followed.
#[derive(Debug, Clone, Copy, PartialEq, Eq, Structural)]
pub enum Hold {
    Nothing,
    File,
    Link,
}

/// One call for the caller to make.
#[derive(Debug)]
pub enum Action {
    /// Create a directory and all its parents.
    CreateDirAll { path: String },
    /// Ask whether the path leads to something, following links.
    Exists { path: String },
    /// Ask what the path itself holds, without following a link.
    Inspect { path: String },
    /// Write a whole file, creating it or replacing what it held.
    Write { path: String, bytes: Vec<u8> },
    /// Create an empty file, or empty the one that is there.
    Create { path: String },
    /// Write all of `bytes` at the end of a file that is there.
    Append { path: String, bytes: Vec<u8> },
    /// Ask for the length of a file.
    Size { path: String },
    /// Read a whole file, following links.
    Read { path: String },
    /// Open a file for reading, following links.
    Open { path: String },
    /// Read at most `len` bytes of a file from `offset` on; no bytes at or
    /// behind its end.
    ReadChunk { path: String, offset: u64, len: usize },
    /// Remove a file or a link; a link itself, not what it leads to.
    Remove { path: String },
    /// Make `link` a symbolic link that leads to `target`.
    Symlink { target: String, link: String },
    /// Move `from` to `to` in one step, replacing what `to` held.
    Rename { from: String, to: String },
    /// List the entries of a directory.
    ReadDir { path: String },
    /// Read the next chunk of the request's body.
    NextChunk,
}

/// What came back from a call.
#[derive(Debug)]
pub enum Outcome {
    /// The call was made and has nothing to report.
    Done,
    /// The answer to `Exists`.
    Present(bool),
    /// The answer to `Inspect`.
    Held(Hold),
    /// The answer to `Size`.
    Length(u64),
    /// The bytes of a file, or one chunk of a body.
    Data(Vec<u8>),
    /// The body has no more chunks.
    End,
    /// The entries of a directory, in no particular order.
    Entries(Vec<Entry>),
    /// The call failed.
    Failed(Failure),
}

/// The mathematical content of a `Failure`.
pub struct FailureView {
    pub not_found: bool,
    pub reason: Seq<char>,
}

/// The mathematical content of an `Entry`.
pub struct EntryView {
    pub name: Seq<char>,
    pub is_link: bool,
}

/// The mathematical content of an `Action`.
pub enum ActionView {
    CreateDirAll { path: Seq<char> },
    Exists { path: Seq<char> },
    Inspect { path: Seq<char> },
    Write { path: Seq<char>, bytes: Seq<u8> },
    Create { path: Seq<char> },
    Append { path: Seq<char>, bytes: Seq<u8> },
    Size { path: Seq<char> },
    Read { path: Seq<char> },
    Open { path: Seq<char> },
    ReadChunk { path: Seq<char>, offset: u64, len: usize },
    Remove { path: Seq<char> },
    Symlink { target: Seq<char>, link: Seq<char> },
    Rename { from: Seq<char>, to: Seq<char> },
    ReadDir { path: Seq<char> },
    NextChunk,
}

/// The mathematical content of an `Outcome`.
pub enum OutcomeView {
    Done,
    Present(bool),
    Held(Hold),
    Length(u64),
    Data(Seq<u8>),
    End,
    Entries(Seq<EntryView>),
    Failed(FailureView),
}

impl View for Failure {
    type V = FailureView;

    open spec fn view(&self) -> FailureView {
        FailureView { not_found: self.not_found, reason: self.reason@ }
    }
}

impl View for Entry {
    type V = EntryView;

    open spec fn view(&self) -> EntryView {
        EntryView { name: self.name@, is_link: self.is_link }
    }
}

/// The entries of a vector, each by its content.
pub open spec fn entry_views(entries: Seq<Entry>) -> Seq<EntryView> {
    Seq::new(entries.len(), |i: int| entries[i]@)
}

impl View for Action {
    type V = ActionView;

    open spec fn view(&self) -> ActionView {
        match self {
            Action::CreateDirAll { path } => ActionView::CreateDirAll { path: path@ },
            Action::Exists { path } => ActionView::Exists { path: path@ },
            Action::Inspect { path } => ActionView::Inspect { path: path@ },
            Action::Write { path, bytes } => ActionView::Write { path: path@, bytes: bytes@ },
            Action::Create { path } => ActionView::Create { path: path@ },
            Action::Append { path, bytes } => ActionView::Append { path: path@, bytes: bytes@ },
            Action::Size { path } => ActionView::Size { path: path@ },
            Action::Read { path } => ActionView::Read { path: path@ },
            Action::Open { path } => ActionView::Open { path: path@ },
            Action::ReadChunk { path, offset, len } => ActionView::ReadChunk {
                path: path@,
                offset: *offset,
                len: *len,
            },
            Action::Remove { path } => ActionView::Remove { path: path@ },
            Action::Symlink { target, link } => ActionView::Symlink {
                target: target@,
                link: link@,
            },
            Action::Rename { from, to } => ActionView::Rename { from: from@, to: to@ },
            Action::ReadDir { path } => ActionView::ReadDir { path: path@ },
            Action::NextChunk => ActionView::NextChunk,
        }
    }
}

impl View for Outcome {
    type V = OutcomeView;

    open spec fn view(&self) -> OutcomeView {
        match self {
            Outcome::Done => OutcomeView::Done,
            Outcome::Present(b) => OutcomeView::Present(*b),
            Outcome::Held(hold) => OutcomeView::Held(*hold),
            Outcome::Length(n) => OutcomeView::Length(*n),
            Outcome::Data(bytes) => OutcomeView::Data(bytes@),
            Outcome::End => OutcomeView::End,
            Outcome::Entries(entries) => OutcomeView::Entries(entry_views(entries@)),
            Outcome::Failed(failure) => OutcomeView::Failed(failure@),
        }
    }
}

/// The cause that an outcome carries, if it is a failure.
pub open spec fn cause_of(o: OutcomeView) -> Seq<char> {
    match o {
        OutcomeView::Failed(failure) => failure.reason,
        _ => "unexpected answer"@,
    }
}

/// The cause that an outcome carries, if it is a failure.
pub fn cause(outcome: Outcome) -> (text: String)
    ensures
        text@ == cause_of(outcome@),
{
    match outcome {
        Outcome::Failed(failure) => failure.reason,
        _ => String::from_str("unexpected answer"),
    }
}

} // verus!
