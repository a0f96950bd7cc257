//! The two cryptographic digests the identity scheme relies on. Nothing
//! here is computed by the library itself: each digest is named and taken
//! from its crate; everything derived from a digest is verified code.

use vstd::prelude::*;

use sha1::Digest;

verus! {

/// The SHA-256 digest of a byte sequence, as the sha2 crate computes it.
pub uninterp spec fn sha256_of(bytes: Seq<u8>) -> Seq<u8>;

/// The SHA-1 digest of a byte sequence, as the sha1 crate computes it.
pub uninterp spec fn sha1_of(bytes: Seq<u8>) -> Seq<u8>;

/// Relies on sha2::Sha256 (the digest crate's one-shot `Digest::digest`):
/// the digest is a pure function of the input bytes alone and is 32 bytes
/// long.
#[verifier::external_body]
pub(crate) fn sha256_digest(bytes: &Vec<u8>) -> (r: Vec<u8>)
    ensures
        r@ == sha256_of(bytes@),
        r@.len() == 32,
{
    sha2::Sha256::digest(bytes.as_slice()).to_vec()
}

/// Relies on sha1::Sha1 (the digest crate's one-shot `Digest::digest`):
/// the digest is a pure function of the input bytes alone and is 20 bytes
/// long.
#[verifier::external_body]
pub(crate) fn sha1_digest(bytes: &Vec<u8>) -> (r: Vec<u8>)
    ensures
        r@ == sha1_of(bytes@),
        r@.len() == 20,
{
    sha1::Sha1::digest(bytes.as_slice()).to_vec()
}

} // verus!
