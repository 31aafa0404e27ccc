use wjsm_runtime::crypto::{
    compute_digest, hash_names, parse_algorithm, random_bytes, random_int, random_int_sample,
    random_uuid, timing_safe_equal, CryptoAlgorithm, CryptoDigestState, CryptoError,
};

fn hex(bytes: &[u8]) -> String {
    bytes.iter().map(|b| format!("{:02x}", b)).collect()
}

#[test]
fn algorithm_labels_ignore_ascii_case() {
    assert_eq!(parse_algorithm("sha256"), Some(CryptoAlgorithm::Sha256));
    assert_eq!(parse_algorithm("SHA-256"), Some(CryptoAlgorithm::Sha256));
    assert_eq!(parse_algorithm("Md5"), Some(CryptoAlgorithm::Md5));
    assert_eq!(parse_algorithm("sha-1"), Some(CryptoAlgorithm::Sha1));
    assert_eq!(parse_algorithm("SHA512"), Some(CryptoAlgorithm::Sha512));
    assert_eq!(parse_algorithm("sha3-256"), None);
    assert_eq!(parse_algorithm(""), None);
}

#[test]
fn every_listed_hash_name_parses() {
    let names = hash_names();
    assert_eq!(names, vec!["md5", "sha1", "sha256", "sha512"]);
    for name in names {
        assert!(parse_algorithm(name).is_some());
    }
}

#[test]
fn digests_match_known_vectors() {
    assert_eq!(
        hex(&compute_digest(CryptoAlgorithm::Md5, None, b"abc")),
        "900150983cd24fb0d6963f7d28e17f72"
    );
    assert_eq!(
        hex(&compute_digest(CryptoAlgorithm::Sha1, None, b"abc")),
        "a9993e364706816aba3e25717850c26c9cd0d89d"
    );
    assert_eq!(
        hex(&compute_digest(CryptoAlgorithm::Sha256, None, b"abc")),
        "ba7816bf8f01cfea414140de5dae2223b00361a396177a9cb410ff61f20015ad"
    );
    assert_eq!(compute_digest(CryptoAlgorithm::Sha512, None, b"abc").len(), 64);
}

#[test]
fn hmac_matches_known_vector() {
    let tag = compute_digest(
        CryptoAlgorithm::Sha256,
        Some(b"key"),
        b"The quick brown fox jumps over the lazy dog",
    );
    assert_eq!(
        hex(&tag),
        "f7bc83f430538424b13298e6aa6fb143ef4d59a14946175997479dbc2d1a3cd8"
    );
}

#[test]
fn streaming_updates_equal_one_shot_digest() {
    let mut state = CryptoDigestState::new(CryptoAlgorithm::Sha1, None);
    assert_eq!(state.update(b"ab"), Ok(()));
    assert_eq!(state.update(b"c"), Ok(()));
    let out = state.digest().unwrap();
    assert_eq!(out, compute_digest(CryptoAlgorithm::Sha1, None, b"abc"));
}

#[test]
fn digest_can_be_called_once() {
    let mut state = CryptoDigestState::new(CryptoAlgorithm::Md5, Some(b"k".to_vec()));
    assert!(state.digest().is_ok());
    assert!(state.is_digested());
    assert_eq!(state.update(b"x"), Err(CryptoError::DigestAlreadyCalled));
    assert_eq!(state.digest(), Err(CryptoError::DigestAlreadyCalled));
    assert_eq!(CryptoError::DigestAlreadyCalled.message(), "Digest already called");
}

#[test]
fn timing_safe_equal_compares_whole_buffers() {
    assert_eq!(timing_safe_equal(b"abc", b"abc"), Ok(true));
    assert_eq!(timing_safe_equal(b"abc", b"abd"), Ok(false));
    assert_eq!(timing_safe_equal(b"", b""), Ok(true));
    assert_eq!(
        timing_safe_equal(b"abc", b"ab"),
        Err(CryptoError::LengthMismatch)
    );
}

#[test]
fn random_int_stays_in_range() {
    for _ in 0..100 {
        let v = random_int(-3, 4).unwrap();
        assert!((-3..4).contains(&v));
    }
    assert_eq!(random_int(5, 5), Err(CryptoError::InvalidRandomIntRange));
    assert_eq!(
        random_int(0, (1i64 << 48) + 1),
        Err(CryptoError::InvalidRandomIntRange)
    );
    assert!(random_int(0, 1i64 << 48).is_ok());
}

#[test]
fn random_int_sample_maps_and_rejects() {
    assert_eq!(random_int_sample(10, 13, 7), Some(11));
    assert_eq!(random_int_sample(10, 13, u64::MAX), None);
    assert_eq!(random_int_sample(-5, 0, 12), Some(-3));
}

#[test]
fn random_bytes_have_the_requested_length() {
    assert_eq!(random_bytes(0).len(), 0);
    assert_eq!(random_bytes(33).len(), 33);
}

#[test]
fn uuid_is_version_four_text() {
    let s = random_uuid();
    let b = s.as_bytes();
    assert_eq!(b.len(), 36);
    assert_eq!(b[8], b'-');
    assert_eq!(b[13], b'-');
    assert_eq!(b[14], b'4');
    assert!(matches!(b[19], b'8' | b'9' | b'a' | b'b'));
}
