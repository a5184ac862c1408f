//! Authenticated encryption of messages with AES-SIV (RFC 5297), 64-byte
//! keys and no associated data.
use vstd::prelude::*;
use aes_siv::KeyInit;

verus! {

#[verifier::external_type_specification]
#[verifier::external_body]
pub struct ExSivError(aes_siv::Error);

/// The AES-256-SIV ciphertext (synthetic IV followed by the encrypted
/// bytes) of `plaintext` under `key`, with no associated data.
pub uninterp spec fn siv_seal(key: Seq<u8>, plaintext: Seq<u8>) -> Seq<u8>;

/// The plaintext that AES-256-SIV authenticates and decrypts from
/// `ciphertext` under `key`, or `None` when authentication fails.
pub uninterp spec fn siv_open(key: Seq<u8>, ciphertext: Seq<u8>) -> Option<Seq<u8>>;

/// Calls `aes_siv::siv::Aes256Siv::encrypt` with no headers. Trusted:
/// encryption with no headers always succeeds; the result is `siv_seal`
/// of the key and plaintext and is 16 bytes (the IV) longer than the
/// plaintext.
#[verifier::external_body]
fn siv_encrypt(key: &[u8; 64], plaintext: &[u8]) -> (r: Result<Vec<u8>, aes_siv::Error>)
    ensures
        r.is_ok(),
        r.is_ok() ==> r.unwrap()@ == siv_seal(key@, plaintext@),
        r.is_ok() ==> r.unwrap()@.len() == plaintext@.len() + 16,
{
    let mut cipher = aes_siv::siv::Aes256Siv::new(aes_siv::Key::<aes_siv::siv::Aes256Siv>::from_slice(key));
    let no_headers: [&[u8]; 0] = [];
    cipher.encrypt(no_headers, plaintext)
}

/// Calls `aes_siv::siv::Aes256Siv::decrypt` with no headers. Trusted: it
/// succeeds exactly when `siv_open` gives a plaintext, and returns it;
/// a ciphertext that `siv_seal` produced under the same key opens to its
/// plaintext; a ciphertext that opens is the sealing of what it opens to
/// (its IV is the one that plaintext synthesizes, and the rest is the
/// plaintext under that IV's keystream); a ciphertext shorter than the
/// 16-byte IV never opens.
#[verifier::external_body]
fn siv_decrypt(key: &[u8; 64], ciphertext: &[u8]) -> (r: Result<Vec<u8>, aes_siv::Error>)
    ensures
        r.is_ok() == siv_open(key@, ciphertext@).is_some(),
        r.is_ok() ==> siv_open(key@, ciphertext@) == Some(r.unwrap()@),
        r.is_ok() ==> ciphertext@ == siv_seal(key@, r.unwrap()@),
        forall|p: Seq<u8>| ciphertext@ == siv_seal(key@, p) ==> r.is_ok() && r.unwrap()@ == p,
        ciphertext@.len() < 16 ==> r.is_err(),
{
    let mut cipher = aes_siv::siv::Aes256Siv::new(aes_siv::Key::<aes_siv::siv::Aes256Siv>::from_slice(key));
    let no_headers: [&[u8]; 0] = [];
    cipher.decrypt(no_headers, ciphertext)
}

/// Encrypts `plaintext` under `key`.
pub fn encrypt(key: &[u8; 64], plaintext: &[u8]) -> (r: Vec<u8>)
    ensures
        r@ == siv_seal(key@, plaintext@),
        r@.len() == plaintext@.len() + 16,
{
    match siv_encrypt(key, plaintext) {
        Ok(c) => c,
        Err(_) => {
            assert(false);
            Vec::new()
        },
    }
}

/// Decrypts a ciphertext that authenticates under `key`; a ciphertext
/// that `encrypt` made under the same key gives its plaintext back, and
/// encrypting the result gives the ciphertext again.
pub fn decrypt(key: &[u8; 64], ciphertext: &[u8]) -> (r: Vec<u8>)
    requires
        siv_open(key@, ciphertext@) is Some,
    ensures
        siv_open(key@, ciphertext@) == Some(r@),
        ciphertext@ == siv_seal(key@, r@),
        forall|p: Seq<u8>| ciphertext@ == siv_seal(key@, p) ==> r@ == p,
{
    match siv_decrypt(key, ciphertext) {
        Ok(p) => p,
        Err(_) => {
            assert(false);
            Vec::new()
        },
    }
}

/// Decrypts `ciphertext` if it authenticates under `key`; what it opens
/// to encrypts back to `ciphertext`.
pub fn try_decrypt(key: &[u8; 64], ciphertext: &[u8]) -> (r: Option<Vec<u8>>)
    ensures
        match r {
            Some(p) => siv_open(key@, ciphertext@) == Some(p@) && ciphertext@ == siv_seal(key@, p@),
            None => siv_open(key@, ciphertext@) is None,
        },
        forall|p: Seq<u8>| ciphertext@ == siv_seal(key@, p) ==> (r matches Some(q) && q@ == p),
{
    if siv_decrypt(key, ciphertext).is_ok() {
        Some(decrypt(key, ciphertext))
    } else {
        None
    }
}

} // verus!
