//! The MD5 digest that seals a binary partition table.

use vstd::prelude::*;

verus! {

/// The MD5 digest of `data`, as the `md5` crate computes it.
pub uninterp spec fn md5_digest(data: Seq<u8>) -> [u8; 16];

/// Calls `md5::compute` and takes the sixteen bytes out of the `Digest` it
/// returns. The function reads nothing but `data`, so the result is named
/// as a function of those bytes; nothing else is claimed of it.
#[verifier::external_body]
pub(crate) fn md5(data: &[u8]) -> (digest: [u8; 16])
    ensures
        digest == md5_digest(data@),
{
    md5::compute(data).0
}

} // verus!
