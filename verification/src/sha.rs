//! Trusted boundary to the two SHA-256 implementations the library scores
//! candidates with: `ring` for raw 32-byte digests and the `sha256` crate for
//! lowercase hex digests.

use vstd::prelude::*;

verus! {

/// The 32-byte SHA-256 digest of a byte sequence, as `ring` computes it.
pub uninterp spec fn sha256_of(data: Seq<u8>) -> Seq<u8>;

/// The 64-character lowercase hex SHA-256 digest of a byte sequence, as the
/// `sha256` crate computes it.
pub uninterp spec fn sha256_hex_of(data: Seq<u8>) -> Seq<u8>;

/// Relies on `ring::digest::digest` with `ring::digest::SHA256`: the digest
/// is a function of the input bytes alone, and `SHA256.output_len()` is 32.
/// The length bound keeps the input below the point where `ring` reports the
/// input as too long.
#[verifier::external_body]
pub(crate) fn sha256(data: &Vec<u8>) -> (r: Vec<u8>)
    requires
        data@.len() < 0x2000000000000000,
    ensures
        r@ == sha256_of(data@),
        r@.len() == 32,
{
    ring::digest::digest(&ring::digest::SHA256, data.as_slice()).as_ref().to_vec()
}

/// Relies on `sha256::digest`: the result is the lowercase hex encoding of
/// the SHA-256 digest of the input bytes, 64 ASCII characters, a function of
/// the input bytes alone.
#[verifier::external_body]
pub(crate) fn sha256_hex(data: &Vec<u8>) -> (r: Vec<u8>)
    ensures
        r@ == sha256_hex_of(data@),
        r@.len() == 64,
{
    sha256::digest(data).into_bytes()
}

} // verus!
