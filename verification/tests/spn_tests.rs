//! Tests of the toy substitution-permutation cipher and the linear
//! analysis helpers.

use cipher_lab::spn::{linear_approximation, parse_key, reconstruct_u4_from_ciphertext, SpnCipher};

#[test]
fn test_sbox() {
    let cipher = SpnCipher::new(0x0000);

    assert_eq!(cipher.apply_sbox(0x0000), 0xEEEE);
    assert_eq!(cipher.apply_sbox(0x1111), 0x4444);
    assert_eq!(cipher.apply_sbox(0xF000), 0x7EEE);
}

#[test]
fn test_inverse_sbox_round_trip() {
    let cipher = SpnCipher::new(0x0000);
    for w in [0x0000u16, 0x1234, 0xABCD, 0xFFFF, 0x8001] {
        assert_eq!(cipher.apply_inverse_sbox(cipher.apply_sbox(w)), w);
    }
}

#[test]
fn main_test_key_parsing() {
    assert_eq!(parse_key("1234").unwrap(), 0x1234);
    assert_eq!(parse_key("ABCD").unwrap(), 0xABCD);
    assert_eq!(parse_key("abcd").unwrap(), 0xABCD);
    assert_eq!(parse_key("2D55").unwrap(), 0x2D55);

    assert!(parse_key("123").is_err());
    assert!(parse_key("12345").is_err());
    assert!(parse_key("12GH").is_err());
}

#[test]
fn test_block_encryption() {
    let cipher = SpnCipher::new(0x2D55);

    let plaintext = 0x1234;
    let ciphertext = cipher.encrypt_block(plaintext);

    assert_eq!(cipher.encrypt_block(plaintext), ciphertext);
}

#[test]
fn test_full_encryption() {
    let cipher = SpnCipher::new(0x2D55);

    let result = cipher.encrypt("1234ABCD").unwrap();
    assert_eq!(result.len(), 8);

    let result_padded = cipher.encrypt("123").unwrap();
    assert_eq!(result_padded.len(), 4);
}

#[test]
fn test_encrypt_rejects_bad_digits() {
    let cipher = SpnCipher::new(0x2D55);
    assert!(cipher.encrypt("12GH").is_err());
}

#[test]
fn test_linear_approximation() {
    let plaintext = 0x1234;
    let u4 = 0x5678;

    let result1 = linear_approximation(plaintext, u4);
    let result2 = linear_approximation(plaintext, u4);
    assert_eq!(result1, result2);

    assert!(result1 == 0 || result1 == 1);
}

#[test]
fn test_reconstruct_u4_matches_compute_u4() {
    // With the correct subkey nibbles, the reconstruction undoes the
    // cipher's last substitution on the guessed nibbles.
    let key = 0x2D55u16;
    let cipher = SpnCipher::new(key);
    let l1 = ((key >> 4) & 0xF) as u8;
    let l2 = ((key >> 12) & 0xF) as u8;

    let plaintext = 0x4B1Du16;
    let u4 = cipher.compute_u4(plaintext);
    let ciphertext = cipher.encrypt_block(plaintext);
    let reconstructed = reconstruct_u4_from_ciphertext(ciphertext, l1, l2, &cipher);

    // Nibbles 2 and 4 (the guessed ones) must agree with the real u4.
    assert_eq!(reconstructed & 0x00F0, u4 & 0x00F0);
    assert_eq!(reconstructed & 0xF000, u4 & 0xF000);
    assert_eq!(cipher.get_round_key(), key);
}
