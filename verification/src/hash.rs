//! The SHA-256 digest that ballots are hashed with.

use vstd::prelude::*;

verus! {

/// The SHA-256 digest of a byte string.
pub uninterp spec fn sha256_of(data: Seq<u8>) -> Seq<u8>;

/// Computes `sha2::Sha256::digest` of `data`. Trusted: the result is the SHA-256 digest of
/// `data`, named `sha256_of`, and is 32 bytes long (the output size of `Sha256` in sha2).
#[verifier::external_body]
pub(crate) fn sha256_digest(data: &[u8]) -> (r: Vec<u8>)
    ensures
        r@ == sha256_of(data@),
        r@.len() == 32,
{
    <sha2::Sha256 as sha2::Digest>::digest(data).to_vec()
}

} // verus!
