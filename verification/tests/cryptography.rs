use spd::client::cryptography::{decrypt, encrypt, try_decrypt};

fn key(b: u8) -> [u8; 64] {
    let mut k = [0u8; 64];
    for (i, x) in k.iter_mut().enumerate() {
        *x = b.wrapping_add(i as u8);
    }
    k
}

#[test]
fn encryption_adds_a_16_byte_iv_and_hides_the_text() {
    let c = encrypt(&key(1), b"attack at dawn");
    assert_eq!(c.len(), 14 + 16);
    assert_ne!(&c[16..], b"attack at dawn");
    assert_eq!(encrypt(&key(1), b"").len(), 16);
}

#[test]
fn encryption_is_deterministic() {
    assert_eq!(encrypt(&key(3), b"same"), encrypt(&key(3), b"same"));
    assert_ne!(encrypt(&key(3), b"same"), encrypt(&key(4), b"same"));
}

#[test]
fn decryption_gives_back_the_plaintext() {
    let c = encrypt(&key(2), b"payload");
    assert_eq!(decrypt(&key(2), &c), b"payload".to_vec());
    assert_eq!(try_decrypt(&key(2), &c), Some(b"payload".to_vec()));
}

#[test]
fn wrong_keys_and_short_or_forged_ciphertexts_do_not_open() {
    let c = encrypt(&key(2), b"payload");
    assert_eq!(try_decrypt(&key(9), &c), None);
    assert_eq!(try_decrypt(&key(2), &c[..10]), None);
    let mut forged = c.clone();
    let last = forged.len() - 1;
    forged[last] ^= 0x80;
    assert_eq!(try_decrypt(&key(2), &forged), None);
}
