//! Tests of the AES-128 core and its modes of operation, including the
//! FIPS-197 and SP 800-38A reference vectors.

use cipher_lab::aes::Aes;
use cipher_lab::aes_modes::{
    add_padding, remove_padding, cbc_encrypt, cfb_encrypt, ctr_encrypt_decrypt, ecb_encrypt,
    mode_decrypt, mode_encrypt, AesError, Mode,
};
use cipher_lab::sha3::hex_to_bytes;

fn hex16(s: &str) -> [u8; 16] {
    let v = hex_to_bytes(s).unwrap();
    let mut a = [0u8; 16];
    a.copy_from_slice(&v);
    a
}

#[test]
fn test_aes_encrypt_decrypt() {
    // FIPS-197 appendix B vector.
    let key = [
        0x2b, 0x7e, 0x15, 0x16, 0x28, 0xae, 0xd2, 0xa6, 0xab, 0xf7, 0x15, 0x88, 0x09, 0xcf, 0x4f,
        0x3c,
    ];
    let plaintext = [
        0x32, 0x43, 0xf6, 0xa8, 0x88, 0x5a, 0x30, 0x8d, 0x31, 0x31, 0x98, 0xa2, 0xe0, 0x37, 0x07,
        0x34,
    ];
    let expected_ciphertext = [
        0x39, 0x25, 0x84, 0x1d, 0x02, 0xdc, 0x09, 0xfb, 0xdc, 0x11, 0x85, 0x97, 0x19, 0x6a, 0x0b,
        0x32,
    ];

    let aes = Aes::new(&key);
    let mut block = plaintext;

    aes.encrypt_block(&mut block);
    assert_eq!(block, expected_ciphertext);

    aes.decrypt_block(&mut block);
    assert_eq!(block, plaintext);
}

#[test]
fn test_s_box() {
    assert_eq!(cipher_lab::sbox::sub_byte(0x00), 0x63);
    assert_eq!(cipher_lab::sbox::sub_byte(0x01), 0x7c);
    assert_eq!(cipher_lab::sbox::sub_byte(0xff), 0x16);

    for i in 0..256 {
        let s_val = cipher_lab::sbox::sub_byte(i as u8);
        assert_eq!(cipher_lab::sbox::inv_sub_byte(s_val), i as u8);
    }
}

#[test]
fn test_gf_multiplication() {
    assert_eq!(Aes::gf_mul(0x02, 0x01), 0x02);
    assert_eq!(Aes::gf_mul(0x02, 0x02), 0x04);
    assert_eq!(Aes::gf_mul(0x02, 0x80), 0x1b);
    assert_eq!(Aes::gf_mul(0x03, 0x01), 0x03);
}

#[test]
fn test_padding() {
    let mut data = vec![1, 2, 3, 4, 5];
    add_padding(&mut data, 8);
    assert_eq!(data, vec![1, 2, 3, 4, 5, 3, 3, 3]);

    remove_padding(&mut data).unwrap();
    assert_eq!(data, vec![1, 2, 3, 4, 5]);
}

#[test]
fn test_padding_full_block_when_aligned() {
    let mut data = vec![7u8; 16];
    add_padding(&mut data, 16);
    assert_eq!(data.len(), 32);
    assert_eq!(&data[16..], &[16u8; 16]);
    remove_padding(&mut data).unwrap();
    assert_eq!(data, vec![7u8; 16]);
}

#[test]
fn test_remove_padding_rejections() {
    // Empty buffer.
    let mut empty: Vec<u8> = Vec::new();
    assert_eq!(remove_padding(&mut empty), Err(AesError::InvalidPadding));

    // Last byte zero.
    let mut zero_tail = vec![1u8, 2, 3, 0];
    assert_eq!(remove_padding(&mut zero_tail), Err(AesError::InvalidPadding));
    assert_eq!(zero_tail, vec![1u8, 2, 3, 0]);

    // Last byte exceeds the block size of 16.
    let mut too_big = vec![17u8; 32];
    assert_eq!(remove_padding(&mut too_big), Err(AesError::InvalidPadding));

    // Last byte exceeds the buffer length.
    let mut too_long = vec![5u8, 6];
    too_long[1] = 7;
    assert_eq!(remove_padding(&mut too_long), Err(AesError::InvalidPadding));

    // A trailing byte differs from the padding value.
    let mut mixed = vec![1u8, 2, 3, 9, 3, 3];
    assert_eq!(remove_padding(&mut mixed), Err(AesError::InvalidPadding));
}

#[test]
fn test_ecb_known_vector() {
    // SP 800-38A F.1.1, first block.
    let aes = Aes::new(&hex16("2b7e151628aed2a6abf7158809cf4f3c"));
    let mut data = hex_to_bytes("6bc1bee22e409f96e93d7e117393172a").unwrap();
    ecb_encrypt(&aes, &mut data);
    assert_eq!(data, hex_to_bytes("3ad77bb40d7a3660a89ecaf32466ef97").unwrap());
}

#[test]
fn test_cbc_known_vector() {
    // SP 800-38A F.2.1, first block.
    let aes = Aes::new(&hex16("2b7e151628aed2a6abf7158809cf4f3c"));
    let iv = hex16("000102030405060708090a0b0c0d0e0f");
    let mut data = hex_to_bytes("6bc1bee22e409f96e93d7e117393172a").unwrap();
    cbc_encrypt(&aes, &mut data, &iv);
    assert_eq!(data, hex_to_bytes("7649abac8119b246cee98e9b12e9197d").unwrap());
}

#[test]
fn test_cfb_known_vector() {
    // SP 800-38A F.3.13, first block.
    let aes = Aes::new(&hex16("2b7e151628aed2a6abf7158809cf4f3c"));
    let iv = hex16("000102030405060708090a0b0c0d0e0f");
    let mut data = hex_to_bytes("6bc1bee22e409f96e93d7e117393172a").unwrap();
    cfb_encrypt(&aes, &mut data, &iv);
    assert_eq!(data, hex_to_bytes("3b3fd92eb72dad20333449f8e83cfb4a").unwrap());
}

#[test]
fn test_ctr_known_vector() {
    // SP 800-38A F.5.1, first block.
    let aes = Aes::new(&hex16("2b7e151628aed2a6abf7158809cf4f3c"));
    let nonce = hex16("f0f1f2f3f4f5f6f7f8f9fafbfcfdfeff");
    let mut data = hex_to_bytes("6bc1bee22e409f96e93d7e117393172a").unwrap();
    ctr_encrypt_decrypt(&aes, &mut data, &nonce);
    assert_eq!(data, hex_to_bytes("874d6191b620e3261bef6864990db6ce").unwrap());
}

#[test]
fn test_mode_round_trips() {
    let aes = Aes::new(&hex16("2b7e151628aed2a6abf7158809cf4f3c"));
    let iv = hex16("000102030405060708090a0b0c0d0e0f");
    let message = b"A message that is not block aligned.";

    for mode in [Mode::Ecb, Mode::Cbc, Mode::Cfb, Mode::Ctr] {
        let encrypted = mode_encrypt(&aes, mode, message, Some(&iv)).unwrap();
        let decrypted = mode_decrypt(&aes, mode, &encrypted, Some(&iv)).unwrap();
        assert_eq!(decrypted, message.to_vec());
        if mode == Mode::Cfb || mode == Mode::Ctr {
            assert_eq!(encrypted.len(), message.len());
        } else {
            assert_eq!(encrypted.len() % 16, 0);
            assert!(encrypted.len() > message.len());
        }
    }
}

#[test]
fn test_mode_errors() {
    let aes = Aes::new(&hex16("2b7e151628aed2a6abf7158809cf4f3c"));
    let iv = hex16("000102030405060708090a0b0c0d0e0f");

    assert_eq!(
        mode_encrypt(&aes, Mode::Cbc, b"abc", None),
        Err(AesError::MissingIv)
    );
    assert_eq!(
        mode_decrypt(&aes, Mode::Ctr, b"abc", None),
        Err(AesError::MissingIv)
    );
    assert_eq!(
        mode_decrypt(&aes, Mode::Ecb, b"not sixteen", None),
        Err(AesError::InvalidBlockSize)
    );
    assert_eq!(
        mode_decrypt(&aes, Mode::Cbc, &[0u8; 15], Some(&iv)),
        Err(AesError::InvalidBlockSize)
    );
    // A random block almost never decrypts to valid padding.
    assert_eq!(
        mode_decrypt(&aes, Mode::Ecb, &[0u8; 16], None),
        Err(AesError::InvalidPadding)
    );

    // ECB ignores the IV entirely.
    let with_iv = mode_encrypt(&aes, Mode::Ecb, b"same text", Some(&iv)).unwrap();
    let without_iv = mode_encrypt(&aes, Mode::Ecb, b"same text", None).unwrap();
    assert_eq!(with_iv, without_iv);
}

#[test]
fn test_ecb_repeats_identical_blocks() {
    let aes = Aes::new(&hex16("2b7e151628aed2a6abf7158809cf4f3c"));
    let mut data = Vec::new();
    data.extend_from_slice(&[0xabu8; 16]);
    data.extend_from_slice(&[0xabu8; 16]);
    ecb_encrypt(&aes, &mut data);
    assert_eq!(&data[..16], &data[16..32]);
}

#[test]
fn test_ctr_counter_wraparound() {
    // A counter at the all-ones value wraps to zero without failing and
    // still round-trips.
    let aes = Aes::new(&hex16("2b7e151628aed2a6abf7158809cf4f3c"));
    let nonce = [0xffu8; 16];
    let mut data = b"three blocks of data to push the counter across the wrap".to_vec();
    let original = data.clone();
    ctr_encrypt_decrypt(&aes, &mut data, &nonce);
    assert_ne!(data, original);
    ctr_encrypt_decrypt(&aes, &mut data, &nonce);
    assert_eq!(data, original);
}

#[test]
fn test_new_context_key_size() {
    assert!(cipher_lab::aes_modes::new_context(&[0u8; 16]).is_ok());
    assert_eq!(
        cipher_lab::aes_modes::new_context(&[0u8; 15]).err(),
        Some(AesError::InvalidKeySize)
    );
    assert_eq!(
        cipher_lab::aes_modes::new_context(b"much too long for an AES-128 key").err(),
        Some(AesError::InvalidKeySize)
    );
}
