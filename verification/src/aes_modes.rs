//! Modes of operation for the AES-128 block cipher — ECB, CBC, CFB and
//! CTR — together with the PKCS#7-style padding codec used by the two
//! block-aligned modes.
//!
//! ECB and CBC process only whole blocks and pad with `N` bytes of value
//! `N` (a full block when the input is already aligned). CFB and CTR are
//! stream modes: any input length is accepted and the final partial
//! block consumes only as many keystream bytes as it needs.

use vstd::prelude::*;
use vstd::seq_lib::*;
use crate::aes::{Aes, encrypt_block_spec, decrypt_block_spec, expand_key_spec, lemma_block_round_trip};

verus! {

/// Errors of the cipher engine, returned as values, never panics.
#[derive(Debug, PartialEq, Eq, Structural)]
pub enum AesError {
    /// The key is not exactly 16 bytes.
    InvalidKeySize,
    /// A block-aligned mode was given input whose length is not a
    /// multiple of 16 bytes.
    InvalidBlockSize,
    /// The padding found on decryption is corrupt.
    InvalidPadding,
    /// A chaining or stream mode was invoked without an IV or nonce.
    MissingIv,
}

// ---------------------------------------------------------------------
// Common spec helpers.
// ---------------------------------------------------------------------

/// Byte block `b` (16 bytes) of a block-aligned stream.
pub open spec fn block_at(data: Seq<u8>, b: int) -> Seq<u8> {
    data.subrange(16 * b, 16 * b + 16)
}

/// Byte-wise XOR of two 16-byte blocks.
pub open spec fn xor16(a: Seq<u8>, b: Seq<u8>) -> Seq<u8> {
    Seq::new(16, |i: int| a[i] ^ b[i])
}

proof fn lemma_block_index(i: int, b: int)
    by (nonlinear_arith)
    requires
        16 * b <= i < 16 * b + 16,
    ensures
        i / 16 == b,
        i % 16 == i - 16 * b,
{
}

// ---------------------------------------------------------------------
// Padding codec.
// ---------------------------------------------------------------------

/// Number of padding bytes appended to a stream of length `len`:
/// enough to reach the next multiple of `bs`, a full block if `len`
/// is already aligned.
pub open spec fn pad_len_spec(len: int, bs: int) -> int {
    bs - (len % bs)
}

/// The stream with padding appended: `N` bytes, each of value `N`.
pub open spec fn add_padding_spec(data: Seq<u8>, bs: int) -> Seq<u8> {
    data + Seq::new(pad_len_spec(data.len() as int, bs) as nat, |i: int| pad_len_spec(data.len() as int, bs) as u8)
}

/// Whether the stream ends in well-formed padding for 16-byte blocks:
/// nonempty, last byte `L` in 1..=16, at most the whole stream, and the
/// trailing `L` bytes all equal to `L`.
pub open spec fn padding_ok(data: Seq<u8>) -> bool {
    &&& data.len() > 0
    &&& data.last() != 0
    &&& data.last() <= 16
    &&& data.last() <= data.len()
    &&& forall|i: int| data.len() - data.last() <= i < data.len() ==> data[i] == data.last()
}

/// The stream with its padding removed, when the padding is well formed.
pub open spec fn remove_padding_spec(data: Seq<u8>) -> Seq<u8> {
    data.take(data.len() - data.last())
}

/// Append PKCS#7-style padding: `N` bytes of value `N`, where `N` is the
/// distance to the next block boundary, a full block when already there.
pub fn add_padding(data: &mut Vec<u8>, block_size: usize)
    requires
        0 < block_size < 256,
        old(data).len() + block_size <= usize::MAX,
    ensures
        final(data)@ == add_padding_spec(old(data)@, block_size as int),
{
    let padding_len: usize = block_size - (data.len() % block_size);
    let padding_byte: u8 = padding_len as u8;
    let mut k: usize = 0;
    while k < padding_len
        invariant
            k <= padding_len,
            padding_len == pad_len_spec(old(data)@.len() as int, block_size as int),
            padding_byte == padding_len as u8,
            data@ == old(data)@ + Seq::new(k as nat, |i: int| padding_byte),
        decreases padding_len - k,
    {
        data.push(padding_byte);
        proof {
            assert(data@ =~= old(data)@ + Seq::new((k + 1) as nat, |i: int| padding_byte));
        }
        k += 1;
    }
    proof {
        assert(data@ =~= add_padding_spec(old(data)@, block_size as int));
    }
}

/// Strip PKCS#7-style padding for 16-byte blocks. Fails with
/// `InvalidPadding` — leaving the data unchanged — exactly when the
/// stream is empty, its last byte `L` is 0 or exceeds 16 or the stream
/// length, or one of the trailing `L` bytes differs from `L`.
pub fn remove_padding(data: &mut Vec<u8>) -> (r: Result<(), AesError>)
    ensures
        r matches Ok(()) <==> padding_ok(old(data)@),
        padding_ok(old(data)@) ==> final(data)@ == remove_padding_spec(old(data)@),
        !padding_ok(old(data)@) ==> r == Err::<(), AesError>(AesError::InvalidPadding) && final(data)@ == old(data)@,
{
    if data.len() == 0 {
        return Err(AesError::InvalidPadding);
    }
    let padding_len_byte: u8 = data[data.len() - 1];
    let padding_len: usize = padding_len_byte as usize;
    if padding_len == 0 || padding_len > 16 || padding_len > data.len() {
        return Err(AesError::InvalidPadding);
    }
    let data_len: usize = data.len();
    let mut k: usize = data_len - padding_len;
    while k < data_len
        invariant
            data_len - padding_len <= k <= data_len,
            data@ == old(data)@,
            data_len == data@.len(),
            0 < padding_len <= data_len,
            padding_len == padding_len_byte as usize,
            padding_len_byte == data@.last(),
            forall|i: int| data_len - padding_len <= i < k ==> data@[i] == data@.last(),
        decreases data_len - k,
    {
        if data[k] != padding_len_byte {
            proof {
                assert(data@[k as int] != data@.last());
                assert(!padding_ok(data@));
            }
            return Err(AesError::InvalidPadding);
        }
        k += 1;
    }
    data.truncate(data_len - padding_len);
    Ok(())
}

/// Removing the padding that `add_padding` appended returns the original
/// stream, whatever its length — including block-aligned ones, which
/// carry a full block of padding.
pub proof fn lemma_padding_round_trip(d: Seq<u8>)
    ensures
        padding_ok(add_padding_spec(d, 16)),
        remove_padding_spec(add_padding_spec(d, 16)) == d,
{
    let n: int = pad_len_spec(d.len() as int, 16);
    let p: Seq<u8> = add_padding_spec(d, 16);
    assert(0 < n <= 16);
    assert(p.len() == d.len() + n);
    assert(p.last() == n as u8);
    assert(forall|i: int| d.len() <= i < p.len() ==> p[i] == n as u8);
    assert(remove_padding_spec(p) =~= d);
}

// ---------------------------------------------------------------------
// ECB.
// ---------------------------------------------------------------------

/// ECB encryption: every 16-byte block encrypted independently.
pub open spec fn ecb_encrypt_spec(ks: Seq<u8>, data: Seq<u8>) -> Seq<u8> {
    Seq::new(data.len(), |i: int| encrypt_block_spec(ks, block_at(data, i / 16))[i % 16])
}

/// ECB decryption: every 16-byte block decrypted independently.
pub open spec fn ecb_decrypt_spec(ks: Seq<u8>, data: Seq<u8>) -> Seq<u8> {
    Seq::new(data.len(), |i: int| decrypt_block_spec(ks, block_at(data, i / 16))[i % 16])
}

/// Copy block `b` out of the stream.
fn get_block(data: &Vec<u8>, b: usize) -> (blk: [u8; 16])
    requires
        16 * b + 16 <= data.len(),
    ensures
        blk@ == block_at(data@, b as int),
{
    let base: usize = 16 * b;
    let blk: [u8; 16] = [
        data[base], data[base + 1], data[base + 2], data[base + 3],
        data[base + 4], data[base + 5], data[base + 6], data[base + 7],
        data[base + 8], data[base + 9], data[base + 10], data[base + 11],
        data[base + 12], data[base + 13], data[base + 14], data[base + 15],
    ];
    proof {
        assert(blk@ =~= block_at(data@, b as int));
    }
    blk
}

/// Write block `b` of the stream, leaving every other byte unchanged.
fn put_block(data: &mut Vec<u8>, b: usize, blk: &[u8; 16])
    requires
        16 * b + 16 <= old(data).len(),
    ensures
        final(data)@.len() == old(data)@.len(),
        forall|i: int| 0 <= i < old(data)@.len() && !(16 * b <= i < 16 * b + 16) ==> final(data)@[i] == old(data)@[i],
        forall|i: int| 16 * b <= i < 16 * b + 16 ==> final(data)@[i] == blk@[i - 16 * b],
{
    let base: usize = 16 * b;
    let mut j: usize = 0;
    while j < 16
        invariant
            j <= 16,
            base == 16 * b,
            base + 16 <= data@.len(),
            data@.len() == old(data)@.len(),
            forall|i: int| 0 <= i < data@.len() && !(base <= i < base + j) ==> data@[i] == old(data)@[i],
            forall|i: int| base <= i < base + j ==> data@[i] == blk@[i - base],
        decreases 16 - j,
    {
        data[base + j] = blk[j];
        j += 1;
    }
}

/// Encrypt a block-aligned stream in place, block by block, each block
/// independently (identical plaintext blocks give identical ciphertext
/// blocks — the documented ECB weakness).
pub fn ecb_encrypt(aes: &Aes, data: &mut Vec<u8>)
    requires
        old(data).len() % 16 == 0,
    ensures
        final(data)@ == ecb_encrypt_spec(aes.key_schedule(), old(data)@),
{
    let n_blocks: usize = data.len() / 16;
    let mut b: usize = 0;
    while b < n_blocks
        invariant
            b <= n_blocks,
            data@.len() == old(data)@.len(),
            old(data)@.len() == 16 * n_blocks,
            forall|i: int| 16 * b <= i < data@.len() ==> data@[i] == old(data)@[i],
            forall|i: int| 0 <= i < 16 * b ==> data@[i] == ecb_encrypt_spec(aes.key_schedule(), old(data)@)[i],
        decreases n_blocks - b,
    {
        let mut blk = get_block(data, b);
        proof {
            assert(blk@ =~= block_at(old(data)@, b as int));
        }
        aes.encrypt_block(&mut blk);
        put_block(data, b, &blk);
        proof {
            assert forall|i: int| 16 * b <= i < 16 * b + 16 implies data@[i] == ecb_encrypt_spec(
                aes.key_schedule(),
                old(data)@,
            )[i] by {
                lemma_block_index(i, b as int);
            }
        }
        b += 1;
    }
    proof {
        assert(data@ =~= ecb_encrypt_spec(aes.key_schedule(), old(data)@));
    }
}

/// Decrypt a block-aligned stream in place, block by block.
pub fn ecb_decrypt(aes: &Aes, data: &mut Vec<u8>)
    requires
        old(data).len() % 16 == 0,
    ensures
        final(data)@ == ecb_decrypt_spec(aes.key_schedule(), old(data)@),
{
    let n_blocks: usize = data.len() / 16;
    let mut b: usize = 0;
    while b < n_blocks
        invariant
            b <= n_blocks,
            data@.len() == old(data)@.len(),
            old(data)@.len() == 16 * n_blocks,
            forall|i: int| 16 * b <= i < data@.len() ==> data@[i] == old(data)@[i],
            forall|i: int| 0 <= i < 16 * b ==> data@[i] == ecb_decrypt_spec(aes.key_schedule(), old(data)@)[i],
        decreases n_blocks - b,
    {
        let mut blk = get_block(data, b);
        proof {
            assert(blk@ =~= block_at(old(data)@, b as int));
        }
        aes.decrypt_block(&mut blk);
        put_block(data, b, &blk);
        proof {
            assert forall|i: int| 16 * b <= i < 16 * b + 16 implies data@[i] == ecb_decrypt_spec(
                aes.key_schedule(),
                old(data)@,
            )[i] by {
                lemma_block_index(i, b as int);
            }
        }
        b += 1;
    }
    proof {
        assert(data@ =~= ecb_decrypt_spec(aes.key_schedule(), old(data)@));
    }
}

proof fn lemma_ecb_block_of_stream(ks: Seq<u8>, m: Seq<u8>, b: int)
    requires
        0 <= b,
        16 * b + 16 <= m.len(),
    ensures
        block_at(ecb_encrypt_spec(ks, m), b) == encrypt_block_spec(ks, block_at(m, b)),
{
    let c: Seq<u8> = ecb_encrypt_spec(ks, m);
    assert forall|j: int| 0 <= j < 16 implies block_at(c, b)[j] == encrypt_block_spec(ks, block_at(m, b))[j] by {
        lemma_block_index(16 * b + j, b);
    }
    assert(block_at(c, b) =~= encrypt_block_spec(ks, block_at(m, b)));
}

#[verifier::rlimit(100)]
#[verifier::spinoff_prover]
proof fn lemma_ecb_byte_round_trip(ks: Seq<u8>, m: Seq<u8>, i: int)
    requires
        m.len() % 16 == 0,
        0 <= i < m.len(),
    ensures
        ecb_decrypt_spec(ks, ecb_encrypt_spec(ks, m))[i] == m[i],
{
    let c: Seq<u8> = ecb_encrypt_spec(ks, m);
    let d: Seq<u8> = ecb_decrypt_spec(ks, c);
    let b: int = i / 16;
    lemma_block_index(i, b);
    assert(16 * b + 16 <= m.len()) by (nonlinear_arith)
        requires
            m.len() % 16 == 0 && 0 <= i < m.len() && b == i / 16,
    ;
    lemma_ecb_block_of_stream(ks, m, b);
    lemma_block_round_trip(ks, block_at(m, b));
    assert(d[i] == decrypt_block_spec(ks, block_at(c, b))[i % 16]);
    assert(block_at(m, b)[i % 16] == m[i]);
}

/// ECB decryption undoes ECB encryption on every block-aligned stream.
pub proof fn lemma_ecb_round_trip(ks: Seq<u8>, m: Seq<u8>)
    requires
        m.len() % 16 == 0,
    ensures
        ecb_decrypt_spec(ks, ecb_encrypt_spec(ks, m)) == m,
{
    let d: Seq<u8> = ecb_decrypt_spec(ks, ecb_encrypt_spec(ks, m));
    assert forall|i: int| 0 <= i < m.len() implies d[i] == m[i] by {
        lemma_ecb_byte_round_trip(ks, m, i);
    }
    assert(d =~= m);
}

/// Equal plaintext blocks give equal ciphertext blocks under ECB: the
/// mode hides no repetition.
pub proof fn lemma_ecb_equal_blocks(ks: Seq<u8>, m: Seq<u8>, a: int, b: int)
    requires
        m.len() % 16 == 0,
        0 <= 16 * a,
        16 * a + 16 <= m.len(),
        0 <= 16 * b,
        16 * b + 16 <= m.len(),
        block_at(m, a) == block_at(m, b),
    ensures
        block_at(ecb_encrypt_spec(ks, m), a) == block_at(ecb_encrypt_spec(ks, m), b),
{
    let c: Seq<u8> = ecb_encrypt_spec(ks, m);
    assert forall|j: int| 0 <= j < 16 implies block_at(c, a)[j] == block_at(c, b)[j] by {
        lemma_block_index(16 * a + j, a);
        lemma_block_index(16 * b + j, b);
    }
    assert(block_at(c, a) =~= block_at(c, b));
}

// ---------------------------------------------------------------------
// CBC.
// ---------------------------------------------------------------------

/// Ciphertext block `b` of CBC encryption: the plaintext block XORed
/// with the previous ciphertext block (the IV for block 0), encrypted.
pub open spec fn cbc_ct_block(ks: Seq<u8>, data: Seq<u8>, iv: Seq<u8>, b: int) -> Seq<u8>
    decreases b,
{
    encrypt_block_spec(
        ks,
        xor16(block_at(data, b), if b <= 0 { iv } else { cbc_ct_block(ks, data, iv, b - 1) }),
    )
}

/// CBC encryption of a block-aligned stream.
pub open spec fn cbc_encrypt_spec(ks: Seq<u8>, data: Seq<u8>, iv: Seq<u8>) -> Seq<u8> {
    Seq::new(data.len(), |i: int| cbc_ct_block(ks, data, iv, i / 16)[i % 16])
}

/// CBC decryption of a block-aligned stream: every ciphertext block is
/// decrypted and XORed with the previous ciphertext block (the IV for
/// block 0).
pub open spec fn cbc_decrypt_spec(ks: Seq<u8>, data: Seq<u8>, iv: Seq<u8>) -> Seq<u8> {
    Seq::new(
        data.len(),
        |i: int|
            xor16(
                decrypt_block_spec(ks, block_at(data, i / 16)),
                if i / 16 <= 0 { iv } else { block_at(data, i / 16 - 1) },
            )[i % 16],
    )
}

/// Encrypt a block-aligned stream in place in CBC mode: each block is
/// XORed with the previous ciphertext block (the IV first) before the
/// block cipher is applied.
pub fn cbc_encrypt(aes: &Aes, data: &mut Vec<u8>, iv: &[u8; 16])
    requires
        old(data).len() % 16 == 0,
    ensures
        final(data)@ == cbc_encrypt_spec(aes.key_schedule(), old(data)@, iv@),
{
    let ghost ks: Seq<u8> = aes.key_schedule();
    let n_blocks: usize = data.len() / 16;
    let mut prev: [u8; 16] = *iv;
    let mut b: usize = 0;
    while b < n_blocks
        invariant
            b <= n_blocks,
            data@.len() == old(data)@.len(),
            old(data)@.len() == 16 * n_blocks,
            ks == aes.key_schedule(),
            prev@ == if b == 0 { iv@ } else { cbc_ct_block(ks, old(data)@, iv@, b - 1) },
            forall|i: int| 16 * b <= i < data@.len() ==> data@[i] == old(data)@[i],
            forall|i: int| 0 <= i < 16 * b ==> data@[i] == cbc_encrypt_spec(ks, old(data)@, iv@)[i],
        decreases n_blocks - b,
    {
        let chunk = get_block(data, b);
        proof {
            assert(chunk@ =~= block_at(old(data)@, b as int));
        }
        let mut blk = xor_block(&chunk, &prev);
        aes.encrypt_block(&mut blk);
        proof {
            assert(blk@ == cbc_ct_block(ks, old(data)@, iv@, b as int));
        }
        put_block(data, b, &blk);
        prev = blk;
        proof {
            assert forall|i: int| 16 * b <= i < 16 * b + 16 implies data@[i] == cbc_encrypt_spec(
                ks,
                old(data)@,
                iv@,
            )[i] by {
                lemma_block_index(i, b as int);
            }
        }
        b += 1;
    }
    proof {
        assert(data@ =~= cbc_encrypt_spec(ks, old(data)@, iv@));
    }
}

/// Decrypt a block-aligned stream in place in CBC mode: each block is
/// decrypted, then XORed with the previous ciphertext block (the IV
/// first).
pub fn cbc_decrypt(aes: &Aes, data: &mut Vec<u8>, iv: &[u8; 16])
    requires
        old(data).len() % 16 == 0,
    ensures
        final(data)@ == cbc_decrypt_spec(aes.key_schedule(), old(data)@, iv@),
{
    let ghost ks: Seq<u8> = aes.key_schedule();
    let n_blocks: usize = data.len() / 16;
    let mut prev: [u8; 16] = *iv;
    let mut b: usize = 0;
    while b < n_blocks
        invariant
            b <= n_blocks,
            data@.len() == old(data)@.len(),
            old(data)@.len() == 16 * n_blocks,
            ks == aes.key_schedule(),
            prev@ == if b == 0 { iv@ } else { block_at(old(data)@, b - 1) },
            forall|i: int| 16 * b <= i < data@.len() ==> data@[i] == old(data)@[i],
            forall|i: int| 0 <= i < 16 * b ==> data@[i] == cbc_decrypt_spec(ks, old(data)@, iv@)[i],
        decreases n_blocks - b,
    {
        let current_cipher = get_block(data, b);
        proof {
            assert(current_cipher@ =~= block_at(old(data)@, b as int));
        }
        let mut blk = current_cipher;
        aes.decrypt_block(&mut blk);
        let out = xor_block(&blk, &prev);
        put_block(data, b, &out);
        prev = current_cipher;
        proof {
            assert forall|i: int| 16 * b <= i < 16 * b + 16 implies data@[i] == cbc_decrypt_spec(
                ks,
                old(data)@,
                iv@,
            )[i] by {
                lemma_block_index(i, b as int);
            }
        }
        b += 1;
    }
    proof {
        assert(data@ =~= cbc_decrypt_spec(ks, old(data)@, iv@));
    }
}

/// XOR two 16-byte blocks.
fn xor_block(a: &[u8; 16], b: &[u8; 16]) -> (r: [u8; 16])
    ensures
        r@ == xor16(a@, b@),
{
    let r: [u8; 16] = [
        a[0] ^ b[0], a[1] ^ b[1], a[2] ^ b[2], a[3] ^ b[3],
        a[4] ^ b[4], a[5] ^ b[5], a[6] ^ b[6], a[7] ^ b[7],
        a[8] ^ b[8], a[9] ^ b[9], a[10] ^ b[10], a[11] ^ b[11],
        a[12] ^ b[12], a[13] ^ b[13], a[14] ^ b[14], a[15] ^ b[15],
    ];
    proof {
        assert(r@ =~= xor16(a@, b@));
    }
    r
}

proof fn lemma_xor16_cancel(a: Seq<u8>, b: Seq<u8>)
    requires
        a.len() == 16,
    ensures
        xor16(xor16(a, b), b) == a,
{
    let t: Seq<u8> = xor16(xor16(a, b), b);
    assert forall|i: int| 0 <= i < 16 implies t[i] == a[i] by {
        let x: u8 = a[i];
        let y: u8 = b[i];
        assert((x ^ y) ^ y == x) by (bit_vector);
    }
    assert(t =~= a);
}

proof fn lemma_cbc_block_of_stream(ks: Seq<u8>, m: Seq<u8>, iv: Seq<u8>, b: int)
    requires
        0 <= b,
        16 * b + 16 <= m.len(),
    ensures
        block_at(cbc_encrypt_spec(ks, m, iv), b) == cbc_ct_block(ks, m, iv, b),
{
    let c: Seq<u8> = cbc_encrypt_spec(ks, m, iv);
    assert forall|j: int| 0 <= j < 16 implies block_at(c, b)[j] == cbc_ct_block(ks, m, iv, b)[j] by {
        lemma_block_index(16 * b + j, b);
    }
    assert(block_at(c, b) =~= cbc_ct_block(ks, m, iv, b));
}

#[verifier::rlimit(100)]
#[verifier::spinoff_prover]
proof fn lemma_cbc_byte_round_trip(ks: Seq<u8>, m: Seq<u8>, iv: Seq<u8>, i: int)
    requires
        m.len() % 16 == 0,
        0 <= i < m.len(),
    ensures
        cbc_decrypt_spec(ks, cbc_encrypt_spec(ks, m, iv), iv)[i] == m[i],
{
    let c: Seq<u8> = cbc_encrypt_spec(ks, m, iv);
    let d: Seq<u8> = cbc_decrypt_spec(ks, c, iv);
    let b: int = i / 16;
    lemma_block_index(i, b);
    assert(16 * b + 16 <= m.len()) by (nonlinear_arith)
        requires
            m.len() % 16 == 0 && 0 <= i < m.len() && b == i / 16,
    ;
    let prev: Seq<u8> = if b <= 0 { iv } else { cbc_ct_block(ks, m, iv, b - 1) };
    let mixed: Seq<u8> = xor16(block_at(m, b), prev);
    lemma_cbc_block_of_stream(ks, m, iv, b);
    lemma_block_round_trip(ks, mixed);
    if b > 0 {
        lemma_cbc_block_of_stream(ks, m, iv, b - 1);
    }
    lemma_xor16_cancel(block_at(m, b), prev);
    assert(d[i] == xor16(
        decrypt_block_spec(ks, block_at(c, b)),
        if b <= 0 { iv } else { block_at(c, b - 1) },
    )[i % 16]);
    assert(xor16(mixed, prev)[i % 16] == block_at(m, b)[i % 16]);
    assert(block_at(m, b)[i % 16] == m[i]);
}

/// CBC decryption undoes CBC encryption on every block-aligned stream,
/// under the same key schedule and IV.
pub proof fn lemma_cbc_round_trip(ks: Seq<u8>, m: Seq<u8>, iv: Seq<u8>)
    requires
        m.len() % 16 == 0,
    ensures
        cbc_decrypt_spec(ks, cbc_encrypt_spec(ks, m, iv), iv) == m,
{
    let d: Seq<u8> = cbc_decrypt_spec(ks, cbc_encrypt_spec(ks, m, iv), iv);
    assert forall|i: int| 0 <= i < m.len() implies d[i] == m[i] by {
        lemma_cbc_byte_round_trip(ks, m, iv, i);
    }
    assert(d =~= m);
}

// ---------------------------------------------------------------------
// CFB.
// ---------------------------------------------------------------------

/// The shift register fed to the block cipher for block `b` of CFB:
/// the IV for block 0, afterwards the previous ciphertext block.
pub open spec fn cfb_register(ks: Seq<u8>, data: Seq<u8>, iv: Seq<u8>, b: int) -> Seq<u8>
    decreases b,
{
    if b <= 0 {
        iv
    } else {
        xor16(
            block_at(data, b - 1),
            encrypt_block_spec(ks, cfb_register(ks, data, iv, b - 1)),
        )
    }
}

/// CFB encryption: byte `i` of the plaintext XORed with byte `i % 16`
/// of the encrypted shift register for its block. A final partial block
/// consumes only the keystream bytes it needs.
pub open spec fn cfb_encrypt_spec(ks: Seq<u8>, data: Seq<u8>, iv: Seq<u8>) -> Seq<u8> {
    Seq::new(
        data.len(),
        |i: int| data[i] ^ encrypt_block_spec(ks, cfb_register(ks, data, iv, i / 16))[i % 16],
    )
}

/// CFB decryption: the keystream is rebuilt by encrypting the previous
/// ciphertext block (the IV for block 0) — always the forward cipher.
pub open spec fn cfb_decrypt_spec(ks: Seq<u8>, data: Seq<u8>, iv: Seq<u8>) -> Seq<u8> {
    Seq::new(
        data.len(),
        |i: int|
            data[i] ^ encrypt_block_spec(
                ks,
                if i / 16 <= 0 { iv } else { block_at(data, i / 16 - 1) },
            )[i % 16],
    )
}

/// Encrypt a stream of any length in place in CFB mode: encrypt the
/// shift register, XOR it into the data, and feed the ciphertext block
/// back into the register.
pub fn cfb_encrypt(aes: &Aes, data: &mut Vec<u8>, iv: &[u8; 16])
    ensures
        final(data)@ == cfb_encrypt_spec(aes.key_schedule(), old(data)@, iv@),
{
    let ghost ks: Seq<u8> = aes.key_schedule();
    let n_blocks: usize = data.len() / 16;
    let rem: usize = data.len() % 16;
    let mut register: [u8; 16] = *iv;
    let mut b: usize = 0;
    while b < n_blocks
        invariant
            b <= n_blocks,
            data@.len() == old(data)@.len(),
            n_blocks == old(data)@.len() / 16,
            ks == aes.key_schedule(),
            register@ == cfb_register(ks, old(data)@, iv@, b as int),
            forall|i: int| 16 * b <= i < data@.len() ==> data@[i] == old(data)@[i],
            forall|i: int| 0 <= i < 16 * b ==> data@[i] == cfb_encrypt_spec(ks, old(data)@, iv@)[i],
        decreases n_blocks - b,
    {
        proof {
            assert(16 * b + 16 <= data@.len()) by (nonlinear_arith)
                requires
                    b < n_blocks && n_blocks == data@.len() / 16,
            ;
        }
        let mut keystream = register;
        aes.encrypt_block(&mut keystream);
        let chunk = get_block(data, b);
        proof {
            assert(chunk@ =~= block_at(old(data)@, b as int));
        }
        let out = xor_block(&chunk, &keystream);
        put_block(data, b, &out);
        register = out;
        proof {
            assert(register@ == cfb_register(ks, old(data)@, iv@, b as int + 1));
            assert forall|i: int| 16 * b <= i < 16 * b + 16 implies data@[i] == cfb_encrypt_spec(
                ks,
                old(data)@,
                iv@,
            )[i] by {
                lemma_block_index(i, b as int);
            }
        }
        b += 1;
    }
    if rem > 0 {
        let mut keystream = register;
        aes.encrypt_block(&mut keystream);
        let base: usize = 16 * n_blocks;
        proof {
            assert(base + rem == data@.len()) by (nonlinear_arith)
                requires
                    base == 16 * n_blocks && rem == data@.len() % 16 && n_blocks == data@.len() / 16,
            ;
        }
        let mut j: usize = 0;
        while j < rem
            invariant
                j <= rem,
                0 < rem < 16,
                data@.len() == old(data)@.len(),
                base == 16 * n_blocks,
                base + rem == data@.len(),
                ks == aes.key_schedule(),
                keystream@ == encrypt_block_spec(ks, cfb_register(ks, old(data)@, iv@, n_blocks as int)),
                forall|i: int| base + j <= i < data@.len() ==> data@[i] == old(data)@[i],
                forall|i: int| 0 <= i < base + j ==> data@[i] == cfb_encrypt_spec(ks, old(data)@, iv@)[i],
            decreases rem - j,
        {
            let idx: usize = base + j;
            data[idx] = data[idx] ^ keystream[j];
            proof {
                lemma_block_index(idx as int, n_blocks as int);
            }
            j += 1;
        }
    }
    proof {
        assert(data@ =~= cfb_encrypt_spec(ks, old(data)@, iv@));
    }
}

/// Decrypt a stream of any length in place in CFB mode: the register is
/// refilled from the incoming ciphertext, so each block depends only on
/// the previous ciphertext block.
pub fn cfb_decrypt(aes: &Aes, data: &mut Vec<u8>, iv: &[u8; 16])
    ensures
        final(data)@ == cfb_decrypt_spec(aes.key_schedule(), old(data)@, iv@),
{
    let ghost ks: Seq<u8> = aes.key_schedule();
    let n_blocks: usize = data.len() / 16;
    let rem: usize = data.len() % 16;
    let mut register: [u8; 16] = *iv;
    let mut b: usize = 0;
    while b < n_blocks
        invariant
            b <= n_blocks,
            data@.len() == old(data)@.len(),
            n_blocks == old(data)@.len() / 16,
            ks == aes.key_schedule(),
            register@ == if b == 0 { iv@ } else { block_at(old(data)@, b as int - 1) },
            forall|i: int| 16 * b <= i < data@.len() ==> data@[i] == old(data)@[i],
            forall|i: int| 0 <= i < 16 * b ==> data@[i] == cfb_decrypt_spec(ks, old(data)@, iv@)[i],
        decreases n_blocks - b,
    {
        proof {
            assert(16 * b + 16 <= data@.len()) by (nonlinear_arith)
                requires
                    b < n_blocks && n_blocks == data@.len() / 16,
            ;
        }
        let mut keystream = register;
        aes.encrypt_block(&mut keystream);
        let current_cipher = get_block(data, b);
        proof {
            assert(current_cipher@ =~= block_at(old(data)@, b as int));
        }
        let out = xor_block(&current_cipher, &keystream);
        put_block(data, b, &out);
        register = current_cipher;
        proof {
            assert forall|i: int| 16 * b <= i < 16 * b + 16 implies data@[i] == cfb_decrypt_spec(
                ks,
                old(data)@,
                iv@,
            )[i] by {
                lemma_block_index(i, b as int);
            }
        }
        b += 1;
    }
    if rem > 0 {
        let mut keystream = register;
        aes.encrypt_block(&mut keystream);
        let base: usize = 16 * n_blocks;
        proof {
            assert(base + rem == data@.len()) by (nonlinear_arith)
                requires
                    base == 16 * n_blocks && rem == data@.len() % 16 && n_blocks == data@.len() / 16,
            ;
        }
        let mut j: usize = 0;
        while j < rem
            invariant
                j <= rem,
                0 < rem < 16,
                data@.len() == old(data)@.len(),
                base == 16 * n_blocks,
                base + rem == data@.len(),
                ks == aes.key_schedule(),
                keystream@ == encrypt_block_spec(
                    ks,
                    if n_blocks == 0 { iv@ } else { block_at(old(data)@, n_blocks as int - 1) },
                ),
                forall|i: int| base + j <= i < data@.len() ==> data@[i] == old(data)@[i],
                forall|i: int| 0 <= i < base + j ==> data@[i] == cfb_decrypt_spec(ks, old(data)@, iv@)[i],
            decreases rem - j,
        {
            let idx: usize = base + j;
            data[idx] = data[idx] ^ keystream[j];
            proof {
                lemma_block_index(idx as int, n_blocks as int);
            }
            j += 1;
        }
    }
    proof {
        assert(data@ =~= cfb_decrypt_spec(ks, old(data)@, iv@));
    }
}

proof fn lemma_cfb_block_of_stream(ks: Seq<u8>, m: Seq<u8>, iv: Seq<u8>, b: int)
    requires
        0 <= b,
        16 * b + 16 <= m.len(),
    ensures
        block_at(cfb_encrypt_spec(ks, m, iv), b) == xor16(
            block_at(m, b),
            encrypt_block_spec(ks, cfb_register(ks, m, iv, b)),
        ),
{
    let c: Seq<u8> = cfb_encrypt_spec(ks, m, iv);
    let want: Seq<u8> = xor16(block_at(m, b), encrypt_block_spec(ks, cfb_register(ks, m, iv, b)));
    assert forall|j: int| 0 <= j < 16 implies block_at(c, b)[j] == want[j] by {
        lemma_block_index(16 * b + j, b);
    }
    assert(block_at(c, b) =~= want);
}

#[verifier::rlimit(100)]
#[verifier::spinoff_prover]
proof fn lemma_cfb_byte_round_trip(ks: Seq<u8>, m: Seq<u8>, iv: Seq<u8>, i: int)
    requires
        0 <= i < m.len(),
    ensures
        cfb_decrypt_spec(ks, cfb_encrypt_spec(ks, m, iv), iv)[i] == m[i],
{
    let c: Seq<u8> = cfb_encrypt_spec(ks, m, iv);
    let d: Seq<u8> = cfb_decrypt_spec(ks, c, iv);
    let b: int = i / 16;
    lemma_block_index(i, b);
    let reg: Seq<u8> = cfb_register(ks, m, iv, b);
    if b > 0 {
        assert(16 * (b - 1) + 16 <= m.len()) by (nonlinear_arith)
            requires
                0 <= i < m.len() && b == i / 16 && b > 0,
        ;
        lemma_cfb_block_of_stream(ks, m, iv, b - 1);
        assert(block_at(c, b - 1) == cfb_register(ks, m, iv, b));
    }
    let x: u8 = m[i];
    let y: u8 = encrypt_block_spec(ks, reg)[i % 16];
    assert(d[i] == (x ^ y) ^ y);
    assert((x ^ y) ^ y == x) by (bit_vector);
}

/// CFB decryption undoes CFB encryption on a stream of any length,
/// under the same key schedule and IV; the length is preserved exactly.
pub proof fn lemma_cfb_round_trip(ks: Seq<u8>, m: Seq<u8>, iv: Seq<u8>)
    ensures
        cfb_decrypt_spec(ks, cfb_encrypt_spec(ks, m, iv), iv) == m,
{
    let d: Seq<u8> = cfb_decrypt_spec(ks, cfb_encrypt_spec(ks, m, iv), iv);
    assert forall|i: int| 0 <= i < m.len() implies d[i] == m[i] by {
        lemma_cfb_byte_round_trip(ks, m, iv, i);
    }
    assert(d =~= m);
}

// ---------------------------------------------------------------------
// CTR.
// ---------------------------------------------------------------------

/// A byte string incremented by one as a big-endian integer: trailing
/// 0xff bytes roll over to 0 and the first other byte from the right
/// gains one; an all-0xff string wraps around to all zero.
pub open spec fn inc_be(s: Seq<u8>) -> Seq<u8>
    decreases s.len(),
{
    if s.len() == 0 {
        s
    } else if s.last() == 0xff {
        inc_be(s.drop_last()).push(0)
    } else {
        s.update(s.len() - 1, (s.last() + 1) as u8)
    }
}

/// The counter block for block `b`: the nonce incremented `b` times,
/// wrapping modulo 2^128.
pub open spec fn ctr_counter(nonce: Seq<u8>, b: int) -> Seq<u8>
    decreases b,
{
    if b <= 0 {
        nonce
    } else {
        inc_be(ctr_counter(nonce, b - 1))
    }
}

/// CTR mode: byte `i` XORed with byte `i % 16` of the encrypted counter
/// block for its block. Encryption and decryption are the same formula,
/// and a final partial block consumes only the keystream it needs.
pub open spec fn ctr_spec(ks: Seq<u8>, data: Seq<u8>, nonce: Seq<u8>) -> Seq<u8> {
    Seq::new(
        data.len(),
        |i: int| data[i] ^ encrypt_block_spec(ks, ctr_counter(nonce, i / 16))[i % 16],
    )
}

proof fn lemma_inc_be_len(s: Seq<u8>)
    ensures
        inc_be(s).len() == s.len(),
    decreases s.len(),
{
    if s.len() > 0 && s.last() == 0xff {
        lemma_inc_be_len(s.drop_last());
    }
}

/// Increment the counter in place as a big-endian integer, wrapping
/// modulo 2^128 rather than failing.
fn inc_counter(c: &mut [u8; 16])
    ensures
        final(c)@ == inc_be(old(c)@),
{
    let mut idx: usize = 16;
    proof {
        assert(old(c)@.subrange(0, 16) =~= old(c)@);
        assert(inc_be(old(c)@) + c@.subrange(16, 16) =~= inc_be(old(c)@));
    }
    while idx > 0
        invariant
            idx <= 16,
            c@.len() == 16,
            c@.subrange(0, idx as int) == old(c)@.subrange(0, idx as int),
            forall|m: int| idx <= m < 16 ==> c@[m] == 0,
            inc_be(old(c)@) == inc_be(old(c)@.subrange(0, idx as int)) + c@.subrange(idx as int, 16),
        decreases idx,
    {
        let ghost p: Seq<u8> = old(c)@.subrange(0, idx as int);
        let ghost suffix: Seq<u8> = c@.subrange(idx as int, 16);
        proof {
            assert(c@[idx as int - 1] == p.last());
        }
        if c[idx - 1] == 0xff {
            c[idx - 1] = 0;
            proof {
                let p1: Seq<u8> = old(c)@.subrange(0, idx as int - 1);
                assert(p.drop_last() =~= p1);
                lemma_inc_be_len(p1);
                assert(c@.subrange(idx as int, 16) =~= suffix);
                assert(c@.subrange(0, idx as int - 1) =~= p1);
                assert(inc_be(p1).push(0) + suffix =~= inc_be(p1) + c@.subrange(idx as int - 1, 16));
            }
            idx -= 1;
        } else {
            let v = c[idx - 1];
            c[idx - 1] = v + 1;
            proof {
                assert(p.last() == v);
                assert(inc_be(p) =~= p.update(idx as int - 1, (v + 1) as u8));
                assert(c@.subrange(idx as int, 16) =~= suffix);
                assert(c@ =~= inc_be(p) + suffix);
                assert(c@ =~= inc_be(old(c)@));
            }
            return;
        }
    }
    proof {
        let p0: Seq<u8> = old(c)@.subrange(0, 0);
        assert(p0.len() == 0);
        assert(c@.subrange(0, 16) =~= c@);
        assert(c@ =~= inc_be(old(c)@));
    }
}

/// Apply CTR mode in place: encrypt the counter, XOR it into the data,
/// and increment the counter per block. The same call both encrypts and
/// decrypts.
pub fn ctr_encrypt_decrypt(aes: &Aes, data: &mut Vec<u8>, nonce: &[u8; 16])
    ensures
        final(data)@ == ctr_spec(aes.key_schedule(), old(data)@, nonce@),
{
    let ghost ks: Seq<u8> = aes.key_schedule();
    let n_blocks: usize = data.len() / 16;
    let rem: usize = data.len() % 16;
    let mut counter: [u8; 16] = *nonce;
    let mut b: usize = 0;
    while b < n_blocks
        invariant
            b <= n_blocks,
            data@.len() == old(data)@.len(),
            n_blocks == old(data)@.len() / 16,
            ks == aes.key_schedule(),
            counter@ == ctr_counter(nonce@, b as int),
            forall|i: int| 16 * b <= i < data@.len() ==> data@[i] == old(data)@[i],
            forall|i: int| 0 <= i < 16 * b ==> data@[i] == ctr_spec(ks, old(data)@, nonce@)[i],
        decreases n_blocks - b,
    {
        proof {
            assert(16 * b + 16 <= data@.len()) by (nonlinear_arith)
                requires
                    b < n_blocks && n_blocks == data@.len() / 16,
            ;
        }
        let mut keystream = counter;
        aes.encrypt_block(&mut keystream);
        let chunk = get_block(data, b);
        proof {
            assert(chunk@ =~= block_at(old(data)@, b as int));
        }
        let out = xor_block(&chunk, &keystream);
        put_block(data, b, &out);
        inc_counter(&mut counter);
        proof {
            assert forall|i: int| 16 * b <= i < 16 * b + 16 implies data@[i] == ctr_spec(
                ks,
                old(data)@,
                nonce@,
            )[i] by {
                lemma_block_index(i, b as int);
            }
        }
        b += 1;
    }
    if rem > 0 {
        let mut keystream = counter;
        aes.encrypt_block(&mut keystream);
        let base: usize = 16 * n_blocks;
        proof {
            assert(base + rem == data@.len()) by (nonlinear_arith)
                requires
                    base == 16 * n_blocks && rem == data@.len() % 16 && n_blocks == data@.len() / 16,
            ;
        }
        let mut j: usize = 0;
        while j < rem
            invariant
                j <= rem,
                0 < rem < 16,
                data@.len() == old(data)@.len(),
                base == 16 * n_blocks,
                base + rem == data@.len(),
                ks == aes.key_schedule(),
                keystream@ == encrypt_block_spec(ks, ctr_counter(nonce@, n_blocks as int)),
                forall|i: int| base + j <= i < data@.len() ==> data@[i] == old(data)@[i],
                forall|i: int| 0 <= i < base + j ==> data@[i] == ctr_spec(ks, old(data)@, nonce@)[i],
            decreases rem - j,
        {
            let idx: usize = base + j;
            data[idx] = data[idx] ^ keystream[j];
            proof {
                lemma_block_index(idx as int, n_blocks as int);
            }
            j += 1;
        }
    }
    proof {
        assert(data@ =~= ctr_spec(ks, old(data)@, nonce@));
    }
}

/// Applying CTR twice with the same key schedule and nonce returns the
/// original stream — for every nonce, including ones about to wrap, and
/// with the exact length preserved.
pub proof fn lemma_ctr_round_trip(ks: Seq<u8>, m: Seq<u8>, nonce: Seq<u8>)
    ensures
        ctr_spec(ks, ctr_spec(ks, m, nonce), nonce) == m,
{
    let c: Seq<u8> = ctr_spec(ks, m, nonce);
    let d: Seq<u8> = ctr_spec(ks, c, nonce);
    assert forall|i: int| 0 <= i < m.len() implies d[i] == m[i] by {
        let x: u8 = m[i];
        let y: u8 = encrypt_block_spec(ks, ctr_counter(nonce, i / 16))[i % 16];
        assert(d[i] == (x ^ y) ^ y);
        assert((x ^ y) ^ y == x) by (bit_vector);
    }
    assert(d =~= m);
}

// ---------------------------------------------------------------------
// The mode driver: one entry point per direction, all four modes.
// ---------------------------------------------------------------------

/// A mode of operation of the cipher.
#[derive(Debug, Clone, Copy, PartialEq, Eq, Structural)]
pub enum Mode {
    /// Electronic codebook: blocks encrypted independently, padded.
    Ecb,
    /// Cipher block chaining: XOR with the previous ciphertext block, padded.
    Cbc,
    /// Cipher feedback: stream mode over an encrypted shift register.
    Cfb,
    /// Counter: stream mode over an encrypted big-endian counter.
    Ctr,
}

/// The mathematical view of an optional IV argument.
pub open spec fn opt_iv_view(iv: Option<&[u8; 16]>) -> Option<Seq<u8>> {
    match iv {
        Option::Some(v) => Option::Some(v@),
        Option::None => Option::None,
    }
}

/// The mathematical view of a byte-vector result.
pub open spec fn result_view(r: Result<Vec<u8>, AesError>) -> Result<Seq<u8>, AesError> {
    match r {
        Result::Ok(v) => Result::Ok(v@),
        Result::Err(e) => Result::Err(e),
    }
}

/// What `mode_encrypt` returns: `MissingIv` exactly when a chaining or
/// stream mode has no IV; otherwise the mode's ciphertext, with ECB and
/// CBC padding their input first.
pub open spec fn mode_encrypt_spec(ks: Seq<u8>, mode: Mode, data: Seq<u8>, iv: Option<Seq<u8>>) -> Result<
    Seq<u8>,
    AesError,
> {
    if mode == Mode::Ecb {
        Result::Ok(ecb_encrypt_spec(ks, add_padding_spec(data, 16)))
    } else {
        match iv {
            Option::None => Result::Err(AesError::MissingIv),
            Option::Some(v) => if mode == Mode::Cbc {
                Result::Ok(cbc_encrypt_spec(ks, add_padding_spec(data, 16), v))
            } else if mode == Mode::Cfb {
                Result::Ok(cfb_encrypt_spec(ks, data, v))
            } else {
                Result::Ok(ctr_spec(ks, data, v))
            },
        }
    }
}

/// What `mode_decrypt` returns: `MissingIv` exactly when a chaining or
/// stream mode has no IV; `InvalidBlockSize` exactly when ECB or CBC is
/// given input not a multiple of 16 bytes; `InvalidPadding` exactly when
/// the decrypted stream of ECB or CBC does not end in valid padding; and
/// otherwise the recovered plaintext.
pub open spec fn mode_decrypt_spec(ks: Seq<u8>, mode: Mode, data: Seq<u8>, iv: Option<Seq<u8>>) -> Result<
    Seq<u8>,
    AesError,
> {
    if mode == Mode::Ecb {
        if data.len() % 16 != 0 {
            Result::Err(AesError::InvalidBlockSize)
        } else {
            let p = ecb_decrypt_spec(ks, data);
            if padding_ok(p) {
                Result::Ok(remove_padding_spec(p))
            } else {
                Result::Err(AesError::InvalidPadding)
            }
        }
    } else {
        match iv {
            Option::None => Result::Err(AesError::MissingIv),
            Option::Some(v) => if mode == Mode::Cbc {
                if data.len() % 16 != 0 {
                    Result::Err(AesError::InvalidBlockSize)
                } else {
                    let p = cbc_decrypt_spec(ks, data, v);
                    if padding_ok(p) {
                        Result::Ok(remove_padding_spec(p))
                    } else {
                        Result::Err(AesError::InvalidPadding)
                    }
                }
            } else if mode == Mode::Cfb {
                Result::Ok(cfb_decrypt_spec(ks, data, v))
            } else {
                Result::Ok(ctr_spec(ks, data, v))
            },
        }
    }
}

/// Copy a byte slice into a fresh vector.
fn copy_bytes(s: &[u8]) -> (r: Vec<u8>)
    ensures
        r@ == s@,
{
    let mut r: Vec<u8> = Vec::new();
    let mut k: usize = 0;
    while k < s.len()
        invariant
            k <= s@.len(),
            r@ == s@.subrange(0, k as int),
        decreases s@.len() - k,
    {
        r.push(s[k]);
        proof {
            assert(r@ =~= s@.subrange(0, k as int + 1));
        }
        k += 1;
    }
    proof {
        assert(s@.subrange(0, s@.len() as int) =~= s@);
    }
    r
}

proof fn lemma_padded_aligned(data: Seq<u8>)
    ensures
        add_padding_spec(data, 16).len() % 16 == 0,
{
    let len: int = data.len() as int;
    assert((len + (16 - len % 16)) % 16 == 0) by (nonlinear_arith)
        requires
            len >= 0,
    ;
}

/// Create a cipher context from a key of any length, failing with
/// `InvalidKeySize` exactly when the key is not 16 bytes.
pub fn new_context(key: &[u8]) -> (r: Result<Aes, AesError>)
    ensures
        key@.len() == 16 ==> (r matches Ok(aes) && aes.key_schedule() == expand_key_spec(key@)),
        key@.len() != 16 ==> (r matches Err(e) && e == AesError::InvalidKeySize),
{
    if key.len() != 16 {
        return Err(AesError::InvalidKeySize);
    }
    let mut arr: [u8; 16] = [0; 16];
    let mut k: usize = 0;
    while k < 16
        invariant
            k <= 16,
            key@.len() == 16,
            forall|m: int| 0 <= m < k ==> arr@[m] == key@[m],
        decreases 16 - k,
    {
        arr[k] = key[k];
        k += 1;
    }
    proof {
        assert(arr@ =~= key@);
    }
    Ok(Aes::new(&arr))
}

/// Encrypt a whole message in the given mode. ECB and CBC pad first and
/// so always grow the message to the next block boundary; CFB and CTR
/// keep its exact length. Fails with `MissingIv` exactly when a mode
/// other than ECB is given no IV; ECB ignores the IV.
pub fn mode_encrypt(aes: &Aes, mode: Mode, plaintext: &[u8], iv: Option<&[u8; 16]>) -> (r: Result<
    Vec<u8>,
    AesError,
>)
    requires
        plaintext@.len() + 16 <= usize::MAX,
    ensures
        result_view(r) == mode_encrypt_spec(aes.key_schedule(), mode, plaintext@, opt_iv_view(iv)),
{
    match mode {
        Mode::Ecb => {
            let mut data = copy_bytes(plaintext);
            add_padding(&mut data, 16);
            proof {
                lemma_padded_aligned(plaintext@);
            }
            ecb_encrypt(aes, &mut data);
            Ok(data)
        },
        _ => {
            match iv {
                None => Err(AesError::MissingIv),
                Some(v) => {
                    let mut data = copy_bytes(plaintext);
                    match mode {
                        Mode::Cbc => {
                            add_padding(&mut data, 16);
                            proof {
                                lemma_padded_aligned(plaintext@);
                            }
                            cbc_encrypt(aes, &mut data, v);
                        },
                        Mode::Cfb => {
                            cfb_encrypt(aes, &mut data, v);
                        },
                        _ => {
                            ctr_encrypt_decrypt(aes, &mut data, v);
                        },
                    }
                    Ok(data)
                },
            }
        },
    }
}

/// Decrypt a whole message in the given mode, undoing the padding for
/// ECB and CBC. Fails with `MissingIv` exactly when a mode other than
/// ECB is given no IV, with `InvalidBlockSize` exactly when ECB or CBC
/// input is not block-aligned, and with `InvalidPadding` exactly when
/// the decrypted stream does not end in valid padding.
pub fn mode_decrypt(aes: &Aes, mode: Mode, ciphertext: &[u8], iv: Option<&[u8; 16]>) -> (r: Result<
    Vec<u8>,
    AesError,
>)
    ensures
        result_view(r) == mode_decrypt_spec(aes.key_schedule(), mode, ciphertext@, opt_iv_view(iv)),
{
    match mode {
        Mode::Ecb => {
            if ciphertext.len() % 16 != 0 {
                return Err(AesError::InvalidBlockSize);
            }
            let mut data = copy_bytes(ciphertext);
            ecb_decrypt(aes, &mut data);
            match remove_padding(&mut data) {
                Ok(()) => Ok(data),
                Err(e) => Err(e),
            }
        },
        _ => {
            match iv {
                None => Err(AesError::MissingIv),
                Some(v) => {
                    match mode {
                        Mode::Cbc => {
                            if ciphertext.len() % 16 != 0 {
                                return Err(AesError::InvalidBlockSize);
                            }
                            let mut data = copy_bytes(ciphertext);
                            cbc_decrypt(aes, &mut data, v);
                            match remove_padding(&mut data) {
                                Ok(()) => Ok(data),
                                Err(e) => Err(e),
                            }
                        },
                        Mode::Cfb => {
                            let mut data = copy_bytes(ciphertext);
                            cfb_decrypt(aes, &mut data, v);
                            Ok(data)
                        },
                        _ => {
                            let mut data = copy_bytes(ciphertext);
                            ctr_encrypt_decrypt(aes, &mut data, v);
                            Ok(data)
                        },
                    }
                },
            }
        },
    }
}

/// Decrypting what was encrypted returns the original message, in every
/// mode, for every message and every IV (an IV is required for all
/// modes but ECB): the whole pipeline of padding, chaining and block
/// transform is undone exactly.
pub proof fn lemma_mode_round_trip(ks: Seq<u8>, mode: Mode, m: Seq<u8>, iv: Option<Seq<u8>>)
    requires
        mode == Mode::Ecb || iv is Some,
    ensures
        mode_encrypt_spec(ks, mode, m, iv) matches Ok(c) && mode_decrypt_spec(ks, mode, c, iv)
            == Ok::<Seq<u8>, AesError>(m),
{
    let padded: Seq<u8> = add_padding_spec(m, 16);
    lemma_padding_round_trip(m);
    lemma_padded_aligned(m);
    if mode == Mode::Ecb {
        let c: Seq<u8> = ecb_encrypt_spec(ks, padded);
        assert(c.len() == padded.len());
        lemma_ecb_round_trip(ks, padded);
    } else {
        let v: Seq<u8> = iv->Some_0;
        if mode == Mode::Cbc {
            let c: Seq<u8> = cbc_encrypt_spec(ks, padded, v);
            assert(c.len() == padded.len());
            lemma_cbc_round_trip(ks, padded, v);
        } else if mode == Mode::Cfb {
            lemma_cfb_round_trip(ks, m, v);
        } else {
            lemma_ctr_round_trip(ks, m, v);
        }
    }
}

} // verus!
