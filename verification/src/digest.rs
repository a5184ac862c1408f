//! File fingerprints: the SHA-256 digest of a file's bytes in lowercase
//! hexadecimal.
use vstd::prelude::*;
use sha2::Digest;
use crate::text::{hex_lower, hex_lower_string};

verus! {

/// The SHA-256 digest (FIPS 180-4) of a byte string, as the `sha2` crate
/// computes it.
pub uninterp spec fn sha256(data: Seq<u8>) -> Seq<u8>;

/// Calls `sha2::Sha256::digest`. Trusted: the result is the SHA-256
/// digest of `data` and has 32 bytes (the hash's fixed output size).
#[verifier::external_body]
fn sha256_digest(data: &[u8]) -> (r: Vec<u8>)
    ensures
        r@ == sha256(data@),
        r@.len() == 32,
{
    sha2::Sha256::digest(data).to_vec()
}

/// The fingerprint of a file with the given contents.
pub open spec fn file_hash(contents: Seq<u8>) -> Seq<char> {
    hex_lower(sha256(contents))
}

proof fn lemma_hex_lower_len(b: Seq<u8>)
    ensures
        hex_lower(b).len() == 2 * b.len(),
    decreases b.len(),
{
    if b.len() > 0 {
        lemma_hex_lower_len(b.drop_last());
    }
}

/// Fingerprints file contents: the SHA-256 digest in lowercase
/// hexadecimal, 64 characters long.
pub fn hash_file(contents: &[u8]) -> (r: String)
    ensures
        r@ == file_hash(contents@),
        r@.len() == 64,
{
    let digest = sha256_digest(contents);
    proof {
        lemma_hex_lower_len(digest@);
    }
    hex_lower_string(digest.as_slice())
}

} // verus!
