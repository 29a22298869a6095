//! The SHA-1 digest, by which pieces and torrents are told apart.
use sha1::{Digest, Sha1};
use vstd::prelude::*;

verus! {

/// The SHA-1 digest of a byte string: what `Sha1::digest` of the `sha1`
/// crate computes from it.
pub uninterp spec fn sha1_digest(data: Seq<u8>) -> Seq<u8>;

/// Computes the SHA-1 digest of `data` with `Sha1::digest` of the `sha1`
/// crate. Trusted: the result is the digest of exactly these bytes, the same
/// for the same bytes, and has the 20 bytes that the crate fixes as the
/// hash's output size. The hash itself is not restated here.
#[verifier::external_body]
pub(crate) fn sha1_of(data: &[u8]) -> (digest: Vec<u8>)
    ensures
        digest@ == sha1_digest(data@),
        digest@.len() == 20,
{
    Sha1::digest(data).to_vec()
}

} // verus!
