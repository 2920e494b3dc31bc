//! The content hash used for frame dedup and keyfile change detection.

use vstd::prelude::*;

verus! {

/// The 64-bit SeaHash of a byte string. SeaHash is portable and
/// seedless here, so the value is a function of the bytes alone.
pub uninterp spec fn seahash_of(bytes: Seq<u8>) -> u64;

/// Relies on seahash::hash: a pure, portable hash of the bytes alone,
/// stable across processes and machines.
#[verifier::external_body]
pub(crate) fn content_hash(bytes: &[u8]) -> (h: u64)
    ensures
        h == seahash_of(bytes@),
{
    seahash::hash(bytes)
}

} // verus!
