//! The SHA-1 digest, computed by the `sha1` crate.

use sha1::{Digest, Sha1};
use vstd::prelude::*;

verus! {

/// The SHA-1 digest of `data`, as the `sha1` crate computes it.
pub uninterp spec fn sha1_of(data: Seq<u8>) -> [u8; 20];

/// Hashes `data` with `sha1::Sha1` (`new`, `update`, `finalize`).
///
/// Trusted: the twenty bytes returned are taken to depend on `data` alone,
/// and `sha1_of` is the name of that dependence. Nothing else is claimed of
/// them.
#[verifier::external_body]
pub(crate) fn sha1_digest(data: &[u8]) -> (digest: [u8; 20])
    ensures
        digest == sha1_of(data@),
{
    let mut hasher = Sha1::new();
    hasher.update(data);
    hasher.finalize().into()
}

} // verus!
