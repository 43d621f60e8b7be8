//! Tests of the SHA3-224 hasher and the hexadecimal text helpers.

use cipher_lab::sha3::{bytes_to_hex, hex_to_bytes, sha3_224, Sha3_224};

#[test]
fn test_empty_input() {
    let hash = sha3_224(b"");
    let hash_hex = bytes_to_hex(&hash);

    println!("SHA3-224 of empty string: {}", hash_hex);
    assert_eq!(hash.len(), 28);
    // NIST vector for the empty message.
    assert_eq!(
        hash_hex,
        "6b4e03423667dbb73b6e15454f0eb1abd4597f9a1b078e3f5b5a6bc7"
    );
}

#[test]
fn test_abc_input() {
    let hash = sha3_224(b"abc");
    let hash_hex = bytes_to_hex(&hash);

    println!("SHA3-224 of 'abc': {}", hash_hex);
    assert_eq!(hash.len(), 28);

    assert_eq!(
        hash_hex,
        "e642824c3f8cf24ad09234ee7d3c766fc9a3a5168d0c94ad73b46fdf"
    );
}

#[test]
fn test_longer_input() {
    let input = "abcdbcdecdefdefgefghfghighijhijkijkljklmklmnlmnomnopnopq";
    let hash = sha3_224(input.as_bytes());
    let hash_hex = bytes_to_hex(&hash);

    println!("SHA3-224 of long string: {}", hash_hex);
    assert_eq!(hash.len(), 28);
    // NIST vector for the 448-bit message.
    assert_eq!(
        hash_hex,
        "8a24108b154ada21c9fd5574494479ba5c7e7ab76ef264ead0fcce33"
    );
}

#[test]
fn test_multi_block_input() {
    // More than one 144-byte rate block, exercising the absorb loop.
    let input = vec![b'x'; 400];
    let hash = sha3_224(&input);
    assert_eq!(hash.len(), 28);

    // Feeding the same bytes in pieces gives the same digest.
    let mut hasher = Sha3_224::new();
    hasher.update(&input[..150]);
    hasher.update(&input[150..]);
    assert_eq!(hasher.finalize(), hash);
}

#[test]
fn test_hex_conversion() {
    let bytes = hex_to_bytes("48656c6c6f").unwrap();
    assert_eq!(bytes, b"Hello");

    let hex = bytes_to_hex(b"Hello");
    assert_eq!(hex, "48656c6c6f");
}

#[test]
fn test_odd_hex_length() {
    let bytes = hex_to_bytes("abc").unwrap();
    assert_eq!(bytes, vec![0x0a, 0xbc]);
}

#[test]
fn test_hex_whitespace_and_case() {
    let bytes = hex_to_bytes("2B 7e\n15 16").unwrap();
    assert_eq!(bytes, vec![0x2b, 0x7e, 0x15, 0x16]);
    assert!(hex_to_bytes("12g4").is_err());
}
