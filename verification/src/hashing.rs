//! SHA-256, as the `sha2` crate computes it.

use sha2::Digest;
use vstd::prelude::*;

verus! {

/// The SHA-256 digest (FIPS 180-4) of `data`.
pub uninterp spec fn sha256(data: Seq<u8>) -> Seq<u8>;

/// Calls `sha2::Sha256::digest` (through the `sha2::Digest` trait) on `data`.
/// Trusted: the 32 bytes returned are the SHA-256 digest of exactly the bytes
/// of `data`, which `sha256` names; the digest is not computed in Verus.
#[verifier::external_body]
pub(crate) fn sha256_digest(data: &[u8]) -> (digest: [u8; 32])
    ensures
        digest@ == sha256(data@),
{
    sha2::Sha256::digest(data).into()
}

} // verus!
