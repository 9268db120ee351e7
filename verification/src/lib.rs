//! Storage and upload core of a content-addressable container registry.
//!
//! Blobs and manifests are identified by the digest of their bytes. The
//! library computes digests, lays out the on-disk store, and decides, step by
//! step, what an upload or a manifest write does to it. Every filesystem and
//! network call is left to the caller: the library names the call to make and
//! takes its outcome back.
//!
//! An operation is driven in a loop: ask it for its next call, make the
//! call, feed the outcome back, until it asks for nothing more and holds
//! its answer. What the calls do is modelled in `model`; the laws of the
//! stores and of the upload protocol are proved against that model.

use vstd::prelude::*;
use vstd::string::*;

pub mod blob;
pub mod error;
pub mod json;
pub mod manifests;
pub mod meta;
pub mod model;
pub mod options;
pub mod order;
pub mod path;
pub mod range;
pub mod response;
pub mod storage;
pub mod text;
pub mod upload;
pub mod util;

verus! {

/// Where the registry keeps its data unless it is told otherwise.
pub const DATA_DIR: &'static str = "/var/local/register";

/// The length of the buffer that blobs are read with unless the registry is
/// told otherwise.
pub const BUF_SIZE: usize = 10485760;

/// The registry: how it is addressed, and its two stores.
#[derive(Debug)]
pub struct Blobert {
    pub server_url: String,
    pub meta_store: meta::fs::Filesystem,
    pub blob_store: blob::Store,
}

impl Blobert {
    /// A registry that is addressed as `server_url` and keeps its data in
    /// the usual place.
    pub fn new(server_url: String) -> (registry: Blobert)
        ensures
            registry.server_url@ == server_url@,
            registry.meta_store.data_dir@ == DATA_DIR@,
            registry.blob_store.dir@ == DATA_DIR@,
            registry.blob_store.buf_size == BUF_SIZE,
    {
        Blobert {
            server_url,
            meta_store: meta::fs::Filesystem::new(DATA_DIR),
            blob_store: blob::Store::new(DATA_DIR, BUF_SIZE),
        }
    }

    /// A registry that keeps its data under `dir` and reads blobs in
    /// chunks of `buf_size` bytes.
    pub fn at(server_url: String, dir: &str, buf_size: usize) -> (registry: Blobert)
        ensures
            registry.server_url@ == server_url@,
            registry.meta_store.data_dir@ == dir@,
            registry.blob_store.dir@ == dir@,
            registry.blob_store.buf_size == buf_size,
    {
        Blobert {
            server_url,
            meta_store: meta::fs::Filesystem::new(dir),
            blob_store: blob::Store::new(dir, buf_size),
        }
    }

    /// The address that clients reach the registry at.
    pub fn get_server_url(&self) -> (url: String)
        ensures
            url@ == self.server_url@,
    {
        self.server_url.clone()
    }

    /// The calls that prepare the stores: the directories of the manifest
    /// store, then those of the blob store.
    pub fn setup(&self) -> (calls: Vec<storage::Action>)
        ensures
            calls@.len() == 5,
            calls@[0]@ == (storage::ActionView::CreateDirAll { path: self.meta_store.data_dir@ }),
            calls@[1]@ == (storage::ActionView::CreateDirAll { path: self.blob_store.dir@ }),
            calls@[2]@ == (storage::ActionView::CreateDirAll {
                path: blob::upload_dir(self.blob_store.dir@),
            }),
            calls@[3]@ == (storage::ActionView::CreateDirAll {
                path: blob::blob_dir(self.blob_store.dir@),
            }),
            calls@[4]@ == (storage::ActionView::CreateDirAll {
                path: blob::manifest_dir(self.blob_store.dir@),
            }),
    {
        let mut calls: Vec<storage::Action> = Vec::new();
        calls.push(self.meta_store.setup());
        let mut rest = self.blob_store.setup();
        calls.append(&mut rest);
        calls
    }

    /// The answer to a probe of the interface: it is there.
    pub fn v2() -> (r: response::Response)
        ensures
            r@ == (response::ResponseView {
                status: 200,
                headers: Seq::empty(),
                body: Seq::empty(),
            }),
    {
        response::Response::new(200)
    }
}

} // verus!
