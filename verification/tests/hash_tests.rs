use fontsync::hashing::sha256_hex;

#[test]
fn hash_known_vectors() {
    // Fails if the digest or hex wrappers handed their input back unchanged.
    assert_eq!(
        sha256_hex(b"abc"),
        "ba7816bf8f01cfea414140de5dae2223b00361a396177a9cb410ff61f20015ad"
    );
    assert_eq!(
        sha256_hex(b""),
        "e3b0c44298fc1c149afbf4c8996fb92427ae41e4649b934ca495991b7852b855"
    );
}

#[test]
fn hash_is_deterministic() {
    let bytes = b"the same bytes hashed twice";
    assert_eq!(sha256_hex(bytes), sha256_hex(bytes));
}

#[test]
fn hash_is_sensitive_to_one_byte() {
    let a = b"font-bytes-0";
    let b = b"font-bytes-1";
    assert_ne!(sha256_hex(a), sha256_hex(b));
}

#[test]
fn hash_is_lowercase_hex_of_fixed_length() {
    let h = sha256_hex(b"anything at all");
    assert_eq!(h.len(), 64);
    assert!(h.chars().all(|c| c.is_ascii_hexdigit() && !c.is_ascii_uppercase()));
}
