//! Manifests, and the store that keeps them by digest and by tag.

use crate::meta::fs::{get_begun, list_begun, put_begun, Operation};
use crate::meta::manifest::{manifest_bytes, Manifest};
use crate::util::digest_of;
use vstd::prelude::*;

pub mod annotations;
pub mod fs;
pub mod manifest;
pub mod unique;

verus! {

/// A store of manifests. Each of its operations is carried out call by
/// call; what the calls do to the store is said where the operations are.
pub trait Store {
    /// Where the store keeps what it holds.
    spec fn root(&self) -> Seq<char>;

    /// Stores `m` under its digest and points `reference` at it. The bytes
    /// are written only if the digest is not stored yet; the link that
    /// `reference` was is replaced, so that it names this manifest and no
    /// other. A reference that is the digest of `m` sets no tag. One that
    /// has the shape of another digest is refused, and a file is never
    /// removed.
    fn put_manifest(&self, namespace: &str, reference: &str, m: &Manifest) -> (op: Operation)
        ensures
            op@ == put_begun(
                self.root(),
                namespace@,
                reference@,
                digest_of(manifest_bytes(m@)),
                manifest_bytes(m@),
            ),
    ;

    /// Reads the manifest that `reference`, a tag or a digest, names in
    /// `namespace`.
    fn get_manifest(&self, namespace: &str, reference: &str) -> (op: Operation)
        ensures
            op@ == get_begun(self.root(), namespace@, reference@),
    ;

    /// Lists the tags of `namespace`, in order.
    fn list_tags(&self, namespace: &str) -> (op: Operation)
        ensures
            op@ == list_begun(self.root(), namespace@),
    ;
}

} // verus!
