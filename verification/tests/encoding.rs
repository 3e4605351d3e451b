use cargo_schnee::nix_encoding::{compress_hash, extract_hash_part, hex_lower, nix_base32_encode};
use sha2::{Digest, Sha256};

const ALPHABET: &str = "0123456789abcdfghijklmnpqrsvwxyz";

#[test]
fn nix_base32_encode_empty() {
    assert_eq!(nix_base32_encode(&[]), "");
}

#[test]
fn nix_base32_encode_known_digest() {
    // SHA-256 of the empty string
    let digest = Sha256::digest(b"");
    let encoded = nix_base32_encode(&digest);
    // 256 bits → ceil(256/5) = 52 chars
    assert_eq!(encoded.len(), 52);
    // All chars must be from the nix base32 alphabet
    assert!(encoded.chars().all(|c| ALPHABET.contains(c)));
    assert_eq!(
        encoded,
        "0mdqa9w1p6cmli6976v4wi0sw9r4p5prkj7lzfd1877wk11c9c73"
    );
}

#[test]
fn nix_base32_encode_deterministic() {
    let input = b"hello world";
    assert_eq!(nix_base32_encode(input), nix_base32_encode(input));
}

#[test]
fn compress_hash_xor_fold() {
    // When hash length == target, result is identity
    let hash = vec![0xAB, 0xCD, 0xEF];
    assert_eq!(compress_hash(&hash, 3), hash);

    // When hash is exactly 2x target, result is XOR of halves
    let hash = vec![0xFF, 0x00, 0xAA, 0x55];
    let compressed = compress_hash(&hash, 2);
    assert_eq!(compressed, vec![0xFF ^ 0xAA, 0x55]);
}

#[test]
fn compress_hash_empty() {
    assert_eq!(compress_hash(&[], 4), vec![0, 0, 0, 0]);
}

#[test]
fn hex_lower_basic() {
    assert_eq!(hex_lower(&[0x00, 0xFF, 0xAB]), "00ffab");
    assert_eq!(hex_lower(&[]), "");
}

#[test]
fn extract_hash_part_valid() {
    let path = "/nix/store/abcdefghijklmnopqrstuvwxyz012345-foo";
    assert_eq!(
        extract_hash_part(path).unwrap(),
        "abcdefghijklmnopqrstuvwxyz012345"
    );
}

#[test]
fn extract_hash_part_no_prefix() {
    let path = "abcdefghijklmnopqrstuvwxyz012345-foo";
    assert_eq!(
        extract_hash_part(path).unwrap(),
        "abcdefghijklmnopqrstuvwxyz012345"
    );
}

#[test]
fn extract_hash_part_too_short() {
    assert!(extract_hash_part("/nix/store/abc").is_err());
    assert_eq!(
        extract_hash_part("/nix/store/abc").unwrap_err(),
        "store path hash too short (3 chars, need 32): /nix/store/abc"
    );
}

#[test]
fn extract_hash_part_empty() {
    assert!(extract_hash_part("").is_err());
}

#[test]
fn extract_hash_part_exactly_32() {
    let path = "/nix/store/abcdefghijklmnopqrstuvwxyz012345";
    assert_eq!(
        extract_hash_part(path).unwrap(),
        "abcdefghijklmnopqrstuvwxyz012345"
    );
}

#[test]
fn base32_length_and_alphabet() {
    for n in 0..64usize {
        let input: Vec<u8> = (0..n).map(|i| (i * 37 + 11) as u8).collect();
        let encoded = nix_base32_encode(&input);
        assert_eq!(encoded.len(), (n * 8 + 4) / 5);
        assert!(encoded.chars().all(|c| ALPHABET.contains(c)));
    }
}

#[test]
fn base32_is_little_endian_from_the_back() {
    // 0x1f fills the last digit, which is written last.
    assert_eq!(nix_base32_encode(&[0x1f]), "0z");
    assert_eq!(nix_base32_encode(&[0x20]), "10");
}

#[test]
fn compressing_keeps_the_length() {
    let hash: Vec<u8> = (0..32).collect();
    assert_eq!(compress_hash(&hash, 20).len(), 20);
    assert_eq!(compress_hash(&hash, 20)[0], 0 ^ 20);
    assert_eq!(compress_hash(&hash, 20)[19], 19);
}
