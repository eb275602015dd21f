//! SHA-256 fingerprints, computed by the `sha2` crate.
use vstd::prelude::*;
use sha2::{Digest, Sha256};
use crate::text::{hex_bytes, hex_string, string_of};

verus! {

/// The SHA-256 digest of a byte sequence.
pub uninterp spec fn sha256(data: Seq<u8>) -> Seq<u8>;

/// Calls `sha2::Sha256::digest`. The contract names the digest of exactly
/// the given bytes and states its length, 32 bytes (the hash's output
/// size); nothing else about its value is stated.
#[verifier::external_body]
pub(crate) fn sha256_digest(data: &[u8]) -> (r: Vec<u8>)
    ensures
        r@ == sha256(data@),
        r@.len() == 32,
{
    Sha256::digest(data).to_vec()
}

/// Lowercase hexadecimal SHA-256 digest: 64 characters.
pub fn sha256_hex(contents: &[u8]) -> (r: String)
    ensures
        r@ == hex_bytes(sha256(contents@)),
        r@.len() == 64,
{
    let d = sha256_digest(contents);
    string_of(&hex_string(&d))
}

}
