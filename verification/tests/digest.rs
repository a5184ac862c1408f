use spd::digest::hash_file;

#[test]
fn empty_file_fingerprint() {
    assert_eq!(
        hash_file(b""),
        "e3b0c44298fc1c149afbf4c8996fb92427ae41e4649b934ca495991b7852b855"
    );
}

#[test]
fn abc_fingerprint() {
    assert_eq!(
        hash_file(b"abc"),
        "ba7816bf8f01cfea414140de5dae2223b00361a396177a9cb410ff61f20015ad"
    );
}

#[test]
fn fingerprints_have_64_characters_and_differ() {
    let a = hash_file(b"hello");
    let b = hash_file(b"hello!");
    assert_eq!(a.len(), 64);
    assert_ne!(a, b);
}
