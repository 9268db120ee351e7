use blobert::util::{render_digest, sha256_digest};

#[test]
fn test_sha256_digest() {
    assert_eq!(
        sha256_digest("thisisatest\n".as_bytes()),
        "sha256:f4bb45533d30329f994c4462bb9d3662881836931ffdf4a418a4339e5a4d57ac"
    )
}

#[test]
fn digest_of_nothing() {
    assert_eq!(
        sha256_digest(&[]),
        "sha256:e3b0c44298fc1c149afbf4c8996fb92427ae41e4649b934ca495991b7852b855"
    );
}

#[test]
fn digest_of_hello() {
    assert_eq!(
        sha256_digest(b"hello"),
        "sha256:2cf24dba5fb0a30e26e83b2ac5b9e29e1b161e5c1fa7425e73043362938b9824"
    );
}

#[test]
fn equal_bytes_have_equal_digests() {
    let a = vec![1u8, 2, 3, 250];
    let b = vec![1u8, 2, 3, 250];
    assert_eq!(sha256_digest(&a), sha256_digest(&b));
    assert_ne!(sha256_digest(&a), sha256_digest(&[1u8, 2, 3]));
}

#[test]
fn render_digest_writes_two_digits_per_byte() {
    assert_eq!(render_digest(&[0x00, 0x0f, 0xa5, 0xff]), "sha256:000fa5ff");
    assert_eq!(render_digest(&[]), "sha256:");
}

#[test]
fn digest_has_the_prefix_and_64_digits() {
    for data in [&b""[..], b"x", b"hello", &[0u8; 1000]] {
        let digest = sha256_digest(data);
        assert_eq!(digest.len(), 71);
        assert!(digest.starts_with("sha256:"));
        assert!(digest[7..].chars().all(|c| c.is_ascii_digit() || ('a'..='f').contains(&c)));
    }
}
