use intelligent_file_deduplicator::hashing::{hash_file, to_hex, FileHasher, CHUNK_SIZE};
use sha2::{Digest, Sha256};

fn sample(len: usize) -> Vec<u8> {
    (0..len).map(|i| ((i * 31 + 7) % 251) as u8).collect()
}

#[test]
fn test_hash_consistency() {
    let content = b"HashLaser\n";

    let hash1 = hash_file(content);
    let hash2 = hash_file(content);

    assert_eq!(hash1, hash2);
}

#[test]
fn hash_of_empty_content_is_the_known_digest() {
    assert_eq!(
        hash_file(b""),
        "e3b0c44298fc1c149afbf4c8996fb92427ae41e4649b934ca495991b7852b855"
    );
}

#[test]
fn hash_of_abc_is_the_known_digest() {
    assert_eq!(
        hash_file(b"abc"),
        "ba7816bf8f01cfea414140de5dae2223b00361a396177a9cb410ff61f20015ad"
    );
}

#[test]
fn hash_is_not_the_content_itself() {
    let content = b"0123456789abcdef0123456789abcdef";
    let hash = hash_file(content);
    assert_ne!(hash.as_bytes(), &content[..]);
    assert_ne!(hash, to_hex(content));
}

#[test]
fn hash_agrees_with_a_single_digest_call_around_chunk_boundaries() {
    for len in [0, 1, CHUNK_SIZE - 1, CHUNK_SIZE, CHUNK_SIZE + 1, 2 * CHUNK_SIZE, 5000] {
        let content = sample(len);
        let expected = format!("{:x}", Sha256::digest(&content));
        assert_eq!(hash_file(&content), expected, "length {len}");
    }
}

#[test]
fn fingerprint_is_64_lowercase_hex_digits() {
    let hash = hash_file(&sample(3000));
    assert_eq!(hash.len(), 64);
    assert!(hash.chars().all(|c| c.is_ascii_digit() || ('a'..='f').contains(&c)));
}

#[test]
fn streaming_in_uneven_pieces_gives_the_fingerprint_of_the_whole() {
    let content = sample(4000);
    let mut hasher = FileHasher::new();
    let mut offset = 0;
    for piece in [1usize, 1023, 7, 1500, 0, 1469] {
        hasher.update(&content[offset..offset + piece]);
        offset += piece;
    }
    assert_eq!(offset, content.len());
    assert_eq!(hasher.finalize(), hash_file(&content));
}

#[test]
fn absorb_read_takes_only_the_bytes_read_and_stops_at_an_empty_read() {
    let content = sample(1500);
    let mut buffer = [0u8; CHUNK_SIZE];
    let mut hasher = FileHasher::new();

    buffer.copy_from_slice(&content[..CHUNK_SIZE]);
    assert!(hasher.absorb_read(&buffer, CHUNK_SIZE));

    let rest = content.len() - CHUNK_SIZE;
    buffer[..rest].copy_from_slice(&content[CHUNK_SIZE..]);
    assert!(hasher.absorb_read(&buffer, rest));

    assert!(!hasher.absorb_read(&buffer, 0));
    assert_eq!(hasher.finalize(), hash_file(&content));
}

#[test]
fn a_hasher_that_saw_nothing_gives_the_fingerprint_of_the_empty_file() {
    assert_eq!(FileHasher::new().finalize(), hash_file(b""));
}

#[test]
fn to_hex_writes_two_lowercase_digits_per_byte() {
    assert_eq!(to_hex(&[]), "");
    assert_eq!(to_hex(&[0x00, 0x0f, 0xa5, 0xff, 0x10, 0x9c]), "000fa5ff109c");
}

#[test]
fn to_hex_agrees_with_std_formatting_for_every_byte() {
    for byte in 0..=255u8 {
        assert_eq!(to_hex(&[byte]), format!("{:02x}", byte));
    }
}

#[test]
fn different_content_gives_different_fingerprints() {
    assert_ne!(hash_file(b"HashLaser\n"), hash_file(b"Different content\n"));
}
