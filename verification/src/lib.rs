//! Verified building blocks for a collection of classic cryptography
//! exercises: an AES-128 block cipher with four modes of operation,
//! generic block-cipher modes over a cipher trait, a SHA3-224 hasher,
//! a toy substitution-permutation network, and letter ciphers.

pub mod gf;
pub mod sbox;
pub mod aes;
pub mod aes_modes;
pub mod block_modes;
pub mod sha3;
pub mod spn;
pub mod letters;
pub mod additive;
pub mod vigenere;
pub mod freq;
