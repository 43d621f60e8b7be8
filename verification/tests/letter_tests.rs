//! Tests of the letter ciphers and the frequency-analysis helpers.

use cipher_lab::freq::{count_frequencies, find_best_key};
use cipher_lab::vigenere::{clean_text, split_text_by_key_length, vigenere_decrypt};

#[test]
fn test_split_text() {
    let text = "ABCDEFGH";
    let subtexts = split_text_by_key_length(text, 3);
    assert_eq!(subtexts[0], b"ADG");
    assert_eq!(subtexts[1], b"BEH");
    assert_eq!(subtexts[2], b"CF");
}

#[test]
fn test_decrypt() {
    let ciphertext = "RIJVS";
    let key = "KEY";
    let decrypted = vigenere_decrypt(ciphertext, key);
    assert_eq!(decrypted, b"HELLO");
}

#[test]
fn test_vigenere_round_trip() {
    let message = "Attack at dawn, keep the umlauts out of it!";
    let key = "LEMON";
    let encrypted = cipher_lab::vigenere::encrypt(message, key);
    let encrypted_text = String::from_utf8(encrypted).unwrap();
    let decrypted = cipher_lab::vigenere::decrypt(&encrypted_text, key);
    assert_eq!(decrypted, message.as_bytes().to_vec());
}

#[test]
fn test_vigenere_known_value() {
    // The classic example: ATTACKATDAWN under LEMON.
    let encrypted = cipher_lab::vigenere::encrypt("ATTACKATDAWN", "LEMON");
    assert_eq!(encrypted, b"LXFOPVEFRNHR");
}

#[test]
fn test_clean_text() {
    let cleaned = clean_text("Hello, World! 123");
    assert_eq!(cleaned, b"HELLOWORLD");
}

#[test]
fn test_additive_cipher() {
    let encrypted = cipher_lab::additive::encrypt("Hello, World!", 3);
    assert_eq!(encrypted, b"Khoor, Zruog!");
    let decrypted = cipher_lab::additive::decrypt("Khoor, Zruog!", 3);
    assert_eq!(decrypted, b"Hello, World!");

    // A key beyond 26 acts modulo 26.
    let wrapped = cipher_lab::additive::encrypt("abc", 29);
    assert_eq!(wrapped, b"def");
}

#[test]
fn test_count_frequencies() {
    let f = count_frequencies("Abba! abc");
    assert_eq!(f[0], 3); // a
    assert_eq!(f[1], 3); // b
    assert_eq!(f[2], 1); // c
    assert_eq!(f[25], 0); // z
}

#[test]
fn test_find_best_key() {
    // When `h` is the most frequent letter, the key maps `e` to `h`.
    let f = count_frequencies("hhhh ha weiter");
    assert_eq!(find_best_key(&f), 3);

    // Ties go to the later letter.
    let tie = count_frequencies("ab");
    assert_eq!(find_best_key(&tie), (1 + 26 - 4) % 26);
}

#[test]
fn test_freq_decrypt_recovers_text() {
    // A Caesar-shifted German-looking text whose most frequent letter
    // decrypts to `e`.
    let plaintext = "eeeee sehr geehrte leser";
    let encrypted = cipher_lab::additive::encrypt(plaintext, 7);
    let encrypted_text = String::from_utf8(encrypted).unwrap();
    let f = count_frequencies(&encrypted_text);
    let key = find_best_key(&f);
    assert_eq!(key, 7);
    let decrypted = cipher_lab::freq::decrypt(&encrypted_text, key);
    assert_eq!(decrypted, plaintext.as_bytes().to_vec());
}
