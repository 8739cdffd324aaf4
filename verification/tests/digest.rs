use soar_cli::digest::{calculate_checksum, validate_checksum, verify_checksum, ChecksumVerdict, Digest, CHUNK_SIZE};

const EMPTY: &str = "af1349b9f5f9a1a6a0404dea36dcc9499bcb25c9adc112b7cc9a93cae41f3262";

#[test]
fn checksum_of_nothing() {
    assert_eq!(calculate_checksum(&[]), EMPTY);
    assert_eq!(Digest::new().finish(), EMPTY);
}

#[test]
fn checksum_is_the_blake3_digest_in_lower_case_hex() {
    for data in [&b"hello"[..], &b"The quick brown fox"[..], &[0u8; 100][..]] {
        let sum = calculate_checksum(data);
        assert_eq!(sum, blake3::hash(data).to_hex().to_string());
        assert_eq!(sum.len(), 64);
        assert!(sum.chars().all(|c| c.is_ascii_digit() || ('a'..='f').contains(&c)));
    }
}

#[test]
fn data_hashed_in_pieces_has_the_checksum_of_the_whole() {
    for len in [1, CHUNK_SIZE - 1, CHUNK_SIZE, CHUNK_SIZE + 1, 3 * CHUNK_SIZE, 3 * CHUNK_SIZE + 17] {
        let data: Vec<u8> = (0..len).map(|i| (i * 7 % 256) as u8).collect();
        let expected = blake3::hash(&data).to_hex().to_string();
        assert_eq!(calculate_checksum(&data), expected);
        let mut digest = Digest::new();
        for piece in data.chunks(1000) {
            digest.update(piece);
        }
        assert_eq!(digest.finish(), expected);
        assert_eq!(digest.finish(), expected);
    }
}

#[test]
fn a_different_byte_changes_the_checksum() {
    assert_ne!(calculate_checksum(b"hello"), calculate_checksum(b"hellp"));
    assert_ne!(calculate_checksum(b"hello"), "hello");
}

#[test]
fn validation_compares_checksums() {
    assert!(validate_checksum(EMPTY, &[]));
    assert!(!validate_checksum(EMPTY, &[0]));
    assert!(!validate_checksum("null", &[]));
    assert!(!validate_checksum(&EMPTY.to_uppercase(), &[]));
    let sum = blake3::hash(b"abc").to_hex().to_string();
    assert!(validate_checksum(&sum, b"abc"));
}

#[test]
fn verdicts() {
    assert_eq!(verify_checksum("null", EMPTY), ChecksumVerdict::Missing);
    assert_eq!(verify_checksum("null", "null"), ChecksumVerdict::Missing);
    assert_eq!(verify_checksum(EMPTY, EMPTY), ChecksumVerdict::Match);
    assert_eq!(verify_checksum(EMPTY, "abc"), ChecksumVerdict::Mismatch);
    assert_eq!(verify_checksum("", EMPTY), ChecksumVerdict::Mismatch);
}
