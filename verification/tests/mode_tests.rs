//! Tests of the generic cipher-mode drivers over the XOR dummy cipher.

use cipher_lab::block_modes::{BlockCipher, CipherModeError, CipherModes, DummyCipher};

#[test]
fn test_dummy_cipher_basic() {
    let cipher = DummyCipher::new(8);
    let key: &[u8] = b"testkey1";
    let plaintext: &[u8] = b"hello123";

    let encrypted = cipher.encrypt(key, plaintext).unwrap();
    let decrypted = cipher.decrypt(key, &encrypted).unwrap();

    assert_eq!(plaintext, &decrypted[..]);
    assert_eq!(cipher.block_size(), 8);
}

#[test]
fn test_dummy_cipher_empty_key() {
    let cipher = DummyCipher::new(8);
    let key: &[u8] = b"";
    let plaintext: &[u8] = b"hello123";

    let result = cipher.encrypt(key, plaintext);
    assert!(matches!(result, Err(CipherModeError::EncryptionError(_))));
}

#[test]
fn test_dummy_cipher_empty_block() {
    let cipher = DummyCipher::new(8);
    let key: &[u8] = b"testkey1";
    let plaintext: &[u8] = b"";

    let encrypted = cipher.encrypt(key, plaintext).unwrap();
    assert_eq!(encrypted.len(), 0);
}

#[test]
fn test_all_modes_integration() {
    let cipher = DummyCipher::new(16);
    let key: &[u8] = b"test-key-16-byte";
    let plaintext: &[u8] = b"Integration test message for all modes!";
    let iv: &[u8] = b"initialization16";
    let counter = 1000u64;

    let ecb_encrypted = CipherModes::ecb_encrypt(&cipher, key, plaintext, 16).unwrap();
    let ecb_decrypted = CipherModes::ecb_decrypt(&cipher, key, &ecb_encrypted, 16).unwrap();
    assert_eq!(plaintext, &ecb_decrypted[..plaintext.len()]);

    let cbc_encrypted = CipherModes::cbc_encrypt(&cipher, key, plaintext, iv, 16).unwrap();
    let cbc_decrypted = CipherModes::cbc_decrypt(&cipher, key, &cbc_encrypted, iv, 16).unwrap();
    assert_eq!(plaintext, &cbc_decrypted[..plaintext.len()]);

    let ofb_encrypted = CipherModes::ofb_encrypt(&cipher, key, plaintext, iv, 16).unwrap();
    let ofb_decrypted = CipherModes::ofb_decrypt(&cipher, key, &ofb_encrypted, iv, 16).unwrap();
    assert_eq!(plaintext, &ofb_decrypted[..]);

    let ctr_encrypted = CipherModes::ctr_encrypt(&cipher, key, plaintext, counter, 16).unwrap();
    let ctr_decrypted = CipherModes::ctr_decrypt(&cipher, key, &ctr_encrypted, counter, 16).unwrap();
    assert_eq!(plaintext, &ctr_decrypted[..]);
}

#[test]
fn test_cipher_modes_metadata() {
    assert_eq!(CipherModes::supported_modes(), vec!["ECB", "CBC", "OFB", "CTR"]);
    assert!(!CipherModes::version().is_empty());
}

#[test]
fn test_validation_functions() {
    assert!(CipherModes::validate_block_size(16).is_ok());

    assert!(matches!(
        CipherModes::validate_block_size(0),
        Err(CipherModeError::InvalidBlockSize)
    ));

    let iv = vec![0u8; 16];
    assert!(CipherModes::validate_iv_length(&iv, 16).is_ok());

    let iv = vec![0u8; 8];
    assert!(matches!(
        CipherModes::validate_iv_length(&iv, 16),
        Err(CipherModeError::InvalidIvLength)
    ));
}

#[test]
fn test_different_key_lengths() {
    let cipher = DummyCipher::new(16);
    let plaintext: &[u8] = b"Test with various key lengths";

    let short_key: &[u8] = b"short";
    let encrypted = CipherModes::ecb_encrypt(&cipher, short_key, plaintext, 16).unwrap();
    let decrypted = CipherModes::ecb_decrypt(&cipher, short_key, &encrypted, 16).unwrap();
    assert_eq!(plaintext, &decrypted[..plaintext.len()]);

    let long_key: &[u8] = b"this-is-a-very-long-key-that-exceeds-block-size";
    let encrypted = CipherModes::ecb_encrypt(&cipher, long_key, plaintext, 16).unwrap();
    let decrypted = CipherModes::ecb_decrypt(&cipher, long_key, &encrypted, 16).unwrap();
    assert_eq!(plaintext, &decrypted[..plaintext.len()]);
}

#[test]
fn dummy() {
    // The documentation examples boil down to a CBC round trip.
    let cipher = DummyCipher::new(16);
    let key: &[u8] = b"my-secret-key-16";
    let plaintext: &[u8] = b"Hello, World!";
    let iv: &[u8] = b"initialization16";
    let encrypted = CipherModes::cbc_encrypt(&cipher, key, plaintext, iv, 16).unwrap();
    let decrypted = CipherModes::cbc_decrypt(&cipher, key, &encrypted, iv, 16).unwrap();
    assert_eq!(plaintext, &decrypted[..plaintext.len()]);
}

#[test]
fn test_ctr_encrypt_decrypt() {
    let cipher = DummyCipher::new(8);
    let key: &[u8] = b"testkey1";
    let plaintext: &[u8] = b"Hello World! This is a test message.";
    let counter = 1000u64;

    let ciphertext = CipherModes::ctr_encrypt(&cipher, key, plaintext, counter, 8).unwrap();
    let decrypted = CipherModes::ctr_decrypt(&cipher, key, &ciphertext, counter, 8).unwrap();

    assert_eq!(plaintext, &decrypted[..]);
}

#[test]
fn test_ctr_with_nonce() {
    let cipher = DummyCipher::new(16);
    let key: &[u8] = b"test-key-16-byte";
    let plaintext: &[u8] = b"Hello, CTR with nonce!";
    let nonce: &[u8] = b"unique-nonce";
    let counter = 1u32;

    let ciphertext =
        CipherModes::ctr_encrypt_with_nonce(&cipher, key, plaintext, nonce, counter, 16).unwrap();
    let decrypted =
        CipherModes::ctr_decrypt_with_nonce(&cipher, key, &ciphertext, nonce, counter, 16).unwrap();

    assert_eq!(plaintext, &decrypted[..]);
}

#[test]
fn test_counter_to_bytes() {
    let counter = 0x123456789ABCDEFu64;
    let bytes = CipherModes::counter_to_bytes(counter, 16);

    assert_eq!(bytes.len(), 16);
    assert_eq!(&bytes[8..], &counter.to_be_bytes());
    assert_eq!(&bytes[..8], &[0u8; 8]);
}

#[test]
fn test_ctr_partial_block() {
    let cipher = DummyCipher::new(8);
    let key: &[u8] = b"testkey1";
    let plaintext: &[u8] = b"Hi";
    let counter = 42u64;

    let ciphertext = CipherModes::ctr_encrypt(&cipher, key, plaintext, counter, 8).unwrap();
    let decrypted = CipherModes::ctr_decrypt(&cipher, key, &ciphertext, counter, 8).unwrap();

    assert_eq!(plaintext, &decrypted[..]);
    assert_eq!(ciphertext.len(), plaintext.len());
}

#[test]
fn test_ctr_counter_overflow() {
    let cipher = DummyCipher::new(8);
    let key: &[u8] = b"testkey1";
    let plaintext: &[u8] = b"Test overflow";
    let counter = u64::MAX;

    let ciphertext = CipherModes::ctr_encrypt(&cipher, key, plaintext, counter, 8).unwrap();
    let decrypted = CipherModes::ctr_decrypt(&cipher, key, &ciphertext, counter, 8).unwrap();

    assert_eq!(plaintext, &decrypted[..]);
}

#[test]
fn test_ofb_encrypt_decrypt() {
    let cipher = DummyCipher::new(8);
    let key: &[u8] = b"testkey1";
    let plaintext: &[u8] = b"Hello World! This is a test message.";
    let iv: &[u8] = b"initialv";

    let ciphertext = CipherModes::ofb_encrypt(&cipher, key, plaintext, iv, 8).unwrap();
    let decrypted = CipherModes::ofb_decrypt(&cipher, key, &ciphertext, iv, 8).unwrap();

    assert_eq!(plaintext, &decrypted[..]);
}

#[test]
fn test_ofb_invalid_iv_length() {
    let cipher = DummyCipher::new(8);
    let key: &[u8] = b"testkey1";
    let plaintext: &[u8] = b"Hello";
    let iv: &[u8] = b"short";

    let result = CipherModes::ofb_encrypt(&cipher, key, plaintext, iv, 8);
    assert!(matches!(result, Err(CipherModeError::InvalidIvLength)));
}

#[test]
fn test_ofb_partial_block() {
    let cipher = DummyCipher::new(8);
    let key: &[u8] = b"testkey1";
    let plaintext: &[u8] = b"Hi";
    let iv: &[u8] = b"initialv";

    let ciphertext = CipherModes::ofb_encrypt(&cipher, key, plaintext, iv, 8).unwrap();
    let decrypted = CipherModes::ofb_decrypt(&cipher, key, &ciphertext, iv, 8).unwrap();

    assert_eq!(plaintext, &decrypted[..]);
    assert_eq!(ciphertext.len(), plaintext.len());
}

#[test]
fn test_get_block_size() {
    let cipher = DummyCipher::new(24);
    assert_eq!(cipher.get_block_size(), 24);
}

#[test]
fn test_null_padding_utils() {
    let padded = cipher_lab::block_modes::add_padding(b"12345", 4);
    assert_eq!(padded, vec![b'1', b'2', b'3', b'4', b'5', 0, 0, 0]);
    let stripped = cipher_lab::block_modes::remove_padding(&padded);
    assert_eq!(stripped, b"12345".to_vec());

    // Aligned data stays as it is.
    let aligned = cipher_lab::block_modes::add_padding(b"12345678", 4);
    assert_eq!(aligned, b"12345678".to_vec());

    let xored = cipher_lab::block_modes::xor_blocks(&[1, 2, 3], &[1, 2, 3]).unwrap();
    assert_eq!(xored, vec![0, 0, 0]);
    assert!(matches!(
        cipher_lab::block_modes::xor_blocks(&[1], &[1, 2]),
        Err(CipherModeError::EncryptionError(_))
    ));
}
