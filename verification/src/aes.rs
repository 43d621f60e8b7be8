//! The AES-128 block cipher: key expansion to eleven round keys and the
//! forward and inverse ten-round transform on one 16-byte block.
//!
//! A block is viewed as a 4x4 byte matrix filled column-major: byte `i`
//! of the flat block sits at row `i % 4`, column `i / 4`. Specifications
//! are stated over the flat 16-byte sequence.

use vstd::prelude::*;
use vstd::seq_lib::*;
use crate::gf;
use crate::sbox;

verus! {

// ---------------------------------------------------------------------
// Specification: the round operations on the flat 16-byte state.
// ---------------------------------------------------------------------

/// Apply the S-box to every byte.
pub open spec fn sub_bytes_spec(s: Seq<u8>) -> Seq<u8> {
    Seq::new(16, |i: int| sbox::sbox_spec(s[i]))
}

/// Apply the inverse S-box to every byte.
pub open spec fn inv_sub_bytes_spec(s: Seq<u8>) -> Seq<u8> {
    Seq::new(16, |i: int| sbox::inv_sbox_spec(s[i]))
}

/// Flat index that row `i % 4` takes its byte from when every row `r`
/// rotates left by `r` columns.
pub open spec fn shift_rows_src(i: int) -> int {
    (i % 4) + 4 * ((i / 4 + i % 4) % 4)
}

/// Row `r` of the state rotated left by `r` positions.
pub open spec fn shift_rows_spec(s: Seq<u8>) -> Seq<u8> {
    Seq::new(16, |i: int| s[shift_rows_src(i)])
}

/// Flat index that row `i % 4` takes its byte from when every row `r`
/// rotates right by `r` columns.
pub open spec fn inv_shift_rows_src(i: int) -> int {
    (i % 4) + 4 * ((i / 4 + 4 - i % 4) % 4)
}

/// Row `r` of the state rotated right by `r` positions.
pub open spec fn inv_shift_rows_spec(s: Seq<u8>) -> Seq<u8> {
    Seq::new(16, |i: int| s[inv_shift_rows_src(i)])
}

/// Every column multiplied by the fixed MixColumns matrix over GF(2^8).
pub open spec fn mix_columns_spec(s: Seq<u8>) -> Seq<u8> {
    Seq::new(
        16,
        |i: int|
            {
                let b: int = 4 * (i / 4);
                if i % 4 == 0 {
                    gf::mix_col0(s[b], s[b + 1], s[b + 2], s[b + 3])
                } else if i % 4 == 1 {
                    gf::mix_col1(s[b], s[b + 1], s[b + 2], s[b + 3])
                } else if i % 4 == 2 {
                    gf::mix_col2(s[b], s[b + 1], s[b + 2], s[b + 3])
                } else {
                    gf::mix_col3(s[b], s[b + 1], s[b + 2], s[b + 3])
                }
            },
    )
}

/// Every column multiplied by the inverse MixColumns matrix over GF(2^8).
pub open spec fn inv_mix_columns_spec(s: Seq<u8>) -> Seq<u8> {
    Seq::new(
        16,
        |i: int|
            {
                let b: int = 4 * (i / 4);
                if i % 4 == 0 {
                    gf::inv_mix_col0(s[b], s[b + 1], s[b + 2], s[b + 3])
                } else if i % 4 == 1 {
                    gf::inv_mix_col1(s[b], s[b + 1], s[b + 2], s[b + 3])
                } else if i % 4 == 2 {
                    gf::inv_mix_col2(s[b], s[b + 1], s[b + 2], s[b + 3])
                } else {
                    gf::inv_mix_col3(s[b], s[b + 1], s[b + 2], s[b + 3])
                }
            },
    )
}

/// XOR the 16-byte round key into the state.
pub open spec fn add_round_key_spec(s: Seq<u8>, k: Seq<u8>) -> Seq<u8> {
    Seq::new(16, |i: int| s[i] ^ k[i])
}

/// The 16 bytes of round key `r` inside the 176-byte expanded key.
pub open spec fn round_key(ks: Seq<u8>, r: int) -> Seq<u8> {
    ks.subrange(16 * r, 16 * r + 16)
}

// ---------------------------------------------------------------------
// Specification: key expansion.
// ---------------------------------------------------------------------

/// Round constant for the word that starts round key `r`.
pub open spec fn rcon_spec(r: int) -> u8 {
    if r == 1 { 0x01 }
    else if r == 2 { 0x02 }
    else if r == 3 { 0x04 }
    else if r == 4 { 0x08 }
    else if r == 5 { 0x10 }
    else if r == 6 { 0x20 }
    else if r == 7 { 0x40 }
    else if r == 8 { 0x80 }
    else if r == 9 { 0x1b }
    else if r == 10 { 0x36 }
    else { 0x00 }
}

/// Word `w` of the expanded key, given the `4 * w` bytes before it:
/// the previous word — rotated, substituted and offset by the round
/// constant when `w` starts a round key — XORed with the word four
/// positions earlier.
pub open spec fn next_word(prev: Seq<u8>, w: int) -> Seq<u8> {
    let last: Seq<u8> = prev.subrange(4 * w - 4, 4 * w);
    let t: Seq<u8> = if w % 4 == 0 {
        seq![
            sbox::sbox_spec(last[1]) ^ rcon_spec(w / 4),
            sbox::sbox_spec(last[2]),
            sbox::sbox_spec(last[3]),
            sbox::sbox_spec(last[0]),
        ]
    } else {
        last
    };
    Seq::new(4, |j: int| prev[4 * (w - 4) + j] ^ t[j])
}

/// The first `n` words of the expanded key (word 0 to 3 are the key).
pub open spec fn key_words(key: Seq<u8>, n: int) -> Seq<u8>
    decreases n,
{
    if n <= 4 {
        key
    } else {
        let prev: Seq<u8> = key_words(key, n - 1);
        prev + next_word(prev, n - 1)
    }
}

/// The full 176-byte expansion of a 16-byte key: 44 words.
pub open spec fn expand_key_spec(key: Seq<u8>) -> Seq<u8> {
    key_words(key, 44)
}

pub proof fn lemma_key_words_len(key: Seq<u8>, n: int)
    requires
        key.len() == 16,
        n >= 4,
    ensures
        key_words(key, n).len() == 4 * n,
    decreases n,
{
    if n > 4 {
        lemma_key_words_len(key, n - 1);
    }
}

// ---------------------------------------------------------------------
// Specification: the full block transform.
// ---------------------------------------------------------------------

/// The state after the initial AddRoundKey and rounds 1 to `r` of the
/// forward cipher (each: SubBytes, ShiftRows, MixColumns, AddRoundKey).
pub open spec fn enc_rounds_spec(ks: Seq<u8>, p: Seq<u8>, r: int) -> Seq<u8>
    decreases r,
{
    if r <= 0 {
        add_round_key_spec(p, round_key(ks, 0))
    } else {
        add_round_key_spec(
            mix_columns_spec(shift_rows_spec(sub_bytes_spec(enc_rounds_spec(ks, p, r - 1)))),
            round_key(ks, r),
        )
    }
}

/// Forward AES on one block: initial AddRoundKey, nine full rounds, and
/// a final round without MixColumns.
pub open spec fn encrypt_block_spec(ks: Seq<u8>, p: Seq<u8>) -> Seq<u8> {
    add_round_key_spec(shift_rows_spec(sub_bytes_spec(enc_rounds_spec(ks, p, 9))), round_key(ks, 10))
}

/// The state after undoing rounds `r` down to 1 (each: AddRoundKey,
/// InvMixColumns, InvShiftRows, InvSubBytes), starting from `s`.
pub open spec fn dec_rounds_spec(ks: Seq<u8>, s: Seq<u8>, r: int) -> Seq<u8>
    decreases r,
{
    if r <= 0 {
        s
    } else {
        dec_rounds_spec(
            ks,
            inv_sub_bytes_spec(inv_shift_rows_spec(inv_mix_columns_spec(add_round_key_spec(s, round_key(ks, r))))),
            r - 1,
        )
    }
}

/// Inverse AES on one block: undo the final round, then rounds 9 down
/// to 1, then the initial AddRoundKey.
pub open spec fn decrypt_block_spec(ks: Seq<u8>, c: Seq<u8>) -> Seq<u8> {
    add_round_key_spec(
        dec_rounds_spec(ks, inv_sub_bytes_spec(inv_shift_rows_spec(add_round_key_spec(c, round_key(ks, 10)))), 9),
        round_key(ks, 0),
    )
}

// ---------------------------------------------------------------------
// Inverse lemmas for the four round operations.
// ---------------------------------------------------------------------

pub proof fn lemma_add_round_key_cancel(s: Seq<u8>, k: Seq<u8>)
    requires
        s.len() == 16,
    ensures
        add_round_key_spec(add_round_key_spec(s, k), k) == s,
{
    let t: Seq<u8> = add_round_key_spec(add_round_key_spec(s, k), k);
    assert forall|i: int| 0 <= i < 16 implies t[i] == s[i] by {
        let x: u8 = s[i];
        let y: u8 = k[i];
        assert((x ^ y) ^ y == x) by (bit_vector);
    }
    assert(t =~= s);
}

pub proof fn lemma_sub_bytes_inverse(s: Seq<u8>)
    requires
        s.len() == 16,
    ensures
        inv_sub_bytes_spec(sub_bytes_spec(s)) == s,
{
    let t: Seq<u8> = inv_sub_bytes_spec(sub_bytes_spec(s));
    assert forall|i: int| 0 <= i < 16 implies t[i] == s[i] by {
        sbox::lemma_sbox_inverse(s[i]);
    }
    assert(t =~= s);
}

pub proof fn lemma_shift_rows_inverse(s: Seq<u8>)
    requires
        s.len() == 16,
    ensures
        inv_shift_rows_spec(shift_rows_spec(s)) == s,
{
    let t: Seq<u8> = inv_shift_rows_spec(shift_rows_spec(s));
    assert forall|i: int| 0 <= i < 16 implies t[i] == s[i] by {
        let r: int = i % 4;
        let c: int = i / 4;
        let j: int = inv_shift_rows_src(i);
        assert(j == r + 4 * ((c + 4 - r) % 4));
        assert(t[i] == shift_rows_spec(s)[j]);
        assert(j % 4 == r && j / 4 == (c + 4 - r) % 4) by (nonlinear_arith)
            requires
                0 <= r < 4 && j == r + 4 * ((c + 4 - r) % 4),
        ;
        assert((((c + 4 - r) % 4) + r) % 4 == c) by (nonlinear_arith)
            requires
                0 <= c < 4 && 0 <= r < 4,
        ;
        assert(shift_rows_src(j) == i);
    }
    assert(t =~= s);
}

pub proof fn lemma_mix_columns_inverse_state(s: Seq<u8>)
    requires
        s.len() == 16,
    ensures
        inv_mix_columns_spec(mix_columns_spec(s)) == s,
{
    let m: Seq<u8> = mix_columns_spec(s);
    let t: Seq<u8> = inv_mix_columns_spec(m);
    assert forall|i: int| 0 <= i < 16 implies t[i] == s[i] by {
        let b: int = 4 * (i / 4);
        gf::lemma_mix_columns_inverse(s[b], s[b + 1], s[b + 2], s[b + 3]);
        assert(m[b] == gf::mix_col0(s[b], s[b + 1], s[b + 2], s[b + 3]));
        assert(m[b + 1] == gf::mix_col1(s[b], s[b + 1], s[b + 2], s[b + 3]));
        assert(m[b + 2] == gf::mix_col2(s[b], s[b + 1], s[b + 2], s[b + 3]));
        assert(m[b + 3] == gf::mix_col3(s[b], s[b + 1], s[b + 2], s[b + 3]));
    }
    assert(t =~= s);
}

// ---------------------------------------------------------------------
// The block-level round trip.
// ---------------------------------------------------------------------

proof fn lemma_enc_rounds_len(ks: Seq<u8>, p: Seq<u8>, r: int)
    ensures
        enc_rounds_spec(ks, p, r).len() == 16,
    decreases r,
{
    if r > 0 {
        lemma_enc_rounds_len(ks, p, r - 1);
    }
}

proof fn lemma_dec_enc_rounds(ks: Seq<u8>, p: Seq<u8>, r: int)
    requires
        p.len() == 16,
    ensures
        dec_rounds_spec(ks, enc_rounds_spec(ks, p, r), r) == enc_rounds_spec(ks, p, 0),
    decreases r,
{
    if r > 0 {
        let prev: Seq<u8> = enc_rounds_spec(ks, p, r - 1);
        lemma_enc_rounds_len(ks, p, r - 1);
        let mixed: Seq<u8> = mix_columns_spec(shift_rows_spec(sub_bytes_spec(prev)));
        lemma_add_round_key_cancel(mixed, round_key(ks, r));
        lemma_mix_columns_inverse_state(shift_rows_spec(sub_bytes_spec(prev)));
        lemma_shift_rows_inverse(sub_bytes_spec(prev));
        lemma_sub_bytes_inverse(prev);
        lemma_dec_enc_rounds(ks, p, r - 1);
    }
}

/// Decrypting what was encrypted under the same expanded key returns
/// the original block: the inverse transform undoes the forward one.
pub proof fn lemma_block_round_trip(ks: Seq<u8>, p: Seq<u8>)
    requires
        p.len() == 16,
    ensures
        decrypt_block_spec(ks, encrypt_block_spec(ks, p)) == p,
{
    let e9: Seq<u8> = enc_rounds_spec(ks, p, 9);
    lemma_enc_rounds_len(ks, p, 9);
    let c: Seq<u8> = encrypt_block_spec(ks, p);
    lemma_add_round_key_cancel(shift_rows_spec(sub_bytes_spec(e9)), round_key(ks, 10));
    lemma_shift_rows_inverse(sub_bytes_spec(e9));
    lemma_sub_bytes_inverse(e9);
    lemma_dec_enc_rounds(ks, p, 9);
    lemma_add_round_key_cancel(p, round_key(ks, 0));
}

// ---------------------------------------------------------------------
// Executable code.
// ---------------------------------------------------------------------

/// The flat view of the 4x4 state matrix: byte `i` is row `i % 4`,
/// column `i / 4`.
pub open spec fn state_flat(s: [[u8; 4]; 4]) -> Seq<u8> {
    Seq::new(16, |i: int| s@[i % 4]@[i / 4])
}

/// An AES-128 cipher context: the 176-byte expanded key, 11 round keys
/// of 16 bytes, derived once from the 16-byte key and then read-only.
pub struct Aes {
    expanded_key: [u8; 176],
}

impl Aes {
    /// The mathematical view of the context: its expanded key bytes.
    pub closed spec fn key_schedule(&self) -> Seq<u8> {
        self.expanded_key@
    }

    /// Create a cipher context by expanding the given 16-byte key.
    pub fn new(key: &[u8; 16]) -> (aes: Aes)
        ensures
            aes.key_schedule() == expand_key_spec(key@),
    {
        let mut aes = Aes { expanded_key: [0; 176] };
        aes.key_expansion(key);
        aes
    }

    /// Round constant lookup.
    fn rcon_at(r: usize) -> (b: u8)
        ensures
            b == rcon_spec(r as int),
    {
        if r == 1 { 0x01 }
        else if r == 2 { 0x02 }
        else if r == 3 { 0x04 }
        else if r == 4 { 0x08 }
        else if r == 5 { 0x10 }
        else if r == 6 { 0x20 }
        else if r == 7 { 0x40 }
        else if r == 8 { 0x80 }
        else if r == 9 { 0x1b }
        else if r == 10 { 0x36 }
        else { 0x00 }
    }

    /// Expand the key: round key 0 is the key itself; each later word is
    /// the word 16 bytes earlier XORed with the previous word, which is
    /// rotated, substituted and offset by the round constant whenever it
    /// starts a new round key.
    fn key_expansion(&mut self, key: &[u8; 16])
        ensures
            final(self).expanded_key@ == expand_key_spec(key@),
    {
        let mut j: usize = 0;
        while j < 16
            invariant
                j <= 16,
                self.expanded_key@.len() == 176,
                forall|m: int| 0 <= m < j ==> self.expanded_key@[m] == key@[m],
            decreases 16 - j,
        {
            self.expanded_key[j] = key[j];
            j += 1;
        }
        assert(self.expanded_key@.subrange(0, 16) =~= key@);

        let mut i: usize = 16;
        while i < 176
            invariant
                16 <= i <= 176,
                i % 4 == 0,
                self.expanded_key@.len() == 176,
                self.expanded_key@.subrange(0, i as int) == key_words(key@, i as int / 4),
            decreases 176 - i,
        {
            let ghost w: int = i as int / 4;
            let ghost prev: Seq<u8> = self.expanded_key@.subrange(0, i as int);
            proof {
                lemma_key_words_len(key@, w);
            }

            let mut t0 = self.expanded_key[i - 4];
            let mut t1 = self.expanded_key[i - 3];
            let mut t2 = self.expanded_key[i - 2];
            let mut t3 = self.expanded_key[i - 1];

            if i % 16 == 0 {
                // RotWord then SubWord, then XOR the round constant into
                // the first byte.
                let r0 = sbox::sub_byte(t1) ^ Self::rcon_at(i / 16);
                let r1 = sbox::sub_byte(t2);
                let r2 = sbox::sub_byte(t3);
                let r3 = sbox::sub_byte(t0);
                t0 = r0;
                t1 = r1;
                t2 = r2;
                t3 = r3;
                proof {
                    assert(w % 4 == 0 && w / 4 == i as int / 16) by (nonlinear_arith)
                        requires
                            w == i as int / 4 && i as int % 16 == 0 && 16 <= i as int,
                    ;
                }
            } else {
                proof {
                    assert(w % 4 != 0) by (nonlinear_arith)
                        requires
                            w == i as int / 4 && i as int % 16 != 0 && i as int % 4 == 0 && 16 <= i as int,
                    ;
                }
            }

            let ghost t: Seq<u8> = seq![t0, t1, t2, t3];
            proof {
                let last: Seq<u8> = prev.subrange(4 * w - 4, 4 * w);
                assert(last[0] == prev[4 * w - 4] && last[1] == prev[4 * w - 3] && last[2] == prev[4 * w - 2]
                    && last[3] == prev[4 * w - 1]);
                if w % 4 == 0 {
                    assert(t =~= seq![
                        sbox::sbox_spec(last[1]) ^ rcon_spec(w / 4),
                        sbox::sbox_spec(last[2]),
                        sbox::sbox_spec(last[3]),
                        sbox::sbox_spec(last[0]),
                    ]);
                } else {
                    assert(t =~= last);
                }
            }

            self.expanded_key[i] = self.expanded_key[i - 16] ^ t0;
            self.expanded_key[i + 1] = self.expanded_key[i - 15] ^ t1;
            self.expanded_key[i + 2] = self.expanded_key[i - 14] ^ t2;
            self.expanded_key[i + 3] = self.expanded_key[i - 13] ^ t3;

            proof {
                let nw: Seq<u8> = next_word(prev, w);
                assert(forall|m: int| 0 <= m < 4 ==> nw[m] == prev[4 * (w - 4) + m] ^ t[m]);
                assert(self.expanded_key@.subrange(0, i as int + 4) =~= prev + nw);
                assert(key_words(key@, w + 1) == prev + nw);
            }
            i += 4;
        }
        assert(self.expanded_key@.subrange(0, 176) =~= self.expanded_key@);
    }

    /// Field multiplication in GF(2^8), as used by MixColumns.
    pub fn gf_mul(a: u8, b: u8) -> (r: u8)
        ensures
            r == gf::gf_mul_spec(a, b),
    {
        gf::gf_mul(a, b)
    }

    /// Read a flat block into the 4x4 column-major state matrix.
    pub fn bytes_to_state(&self, bytes: &[u8; 16]) -> (s: [[u8; 4]; 4])
        ensures
            state_flat(s) == bytes@,
    {
        let s: [[u8; 4]; 4] = [
            [bytes[0], bytes[4], bytes[8], bytes[12]],
            [bytes[1], bytes[5], bytes[9], bytes[13]],
            [bytes[2], bytes[6], bytes[10], bytes[14]],
            [bytes[3], bytes[7], bytes[11], bytes[15]],
        ];
        proof {
            assert(state_flat(s) =~= bytes@);
        }
        s
    }

    /// Write the 4x4 state matrix back to a flat block.
    pub fn state_to_bytes(&self, s: &[[u8; 4]; 4]) -> (bytes: [u8; 16])
        ensures
            bytes@ == state_flat(*s),
    {
        let bytes: [u8; 16] = [
            s[0][0], s[1][0], s[2][0], s[3][0],
            s[0][1], s[1][1], s[2][1], s[3][1],
            s[0][2], s[1][2], s[2][2], s[3][2],
            s[0][3], s[1][3], s[2][3], s[3][3],
        ];
        proof {
            assert(bytes@ =~= state_flat(*s));
        }
        bytes
    }

    /// SubBytes: substitute every state byte through the S-box.
    pub fn sub_bytes(&self, state: &mut [[u8; 4]; 4])
        ensures
            state_flat(*final(state)) == sub_bytes_spec(state_flat(*old(state))),
    {
        let s = *state;
        *state = [
            [sbox::sub_byte(s[0][0]), sbox::sub_byte(s[0][1]), sbox::sub_byte(s[0][2]), sbox::sub_byte(s[0][3])],
            [sbox::sub_byte(s[1][0]), sbox::sub_byte(s[1][1]), sbox::sub_byte(s[1][2]), sbox::sub_byte(s[1][3])],
            [sbox::sub_byte(s[2][0]), sbox::sub_byte(s[2][1]), sbox::sub_byte(s[2][2]), sbox::sub_byte(s[2][3])],
            [sbox::sub_byte(s[3][0]), sbox::sub_byte(s[3][1]), sbox::sub_byte(s[3][2]), sbox::sub_byte(s[3][3])],
        ];
        proof {
            assert(state_flat(*state) =~= sub_bytes_spec(state_flat(s)));
        }
    }

    /// InvSubBytes: substitute every state byte through the inverse S-box.
    pub fn inv_sub_bytes(&self, state: &mut [[u8; 4]; 4])
        ensures
            state_flat(*final(state)) == inv_sub_bytes_spec(state_flat(*old(state))),
    {
        let s = *state;
        *state = [
            [sbox::inv_sub_byte(s[0][0]), sbox::inv_sub_byte(s[0][1]), sbox::inv_sub_byte(s[0][2]), sbox::inv_sub_byte(s[0][3])],
            [sbox::inv_sub_byte(s[1][0]), sbox::inv_sub_byte(s[1][1]), sbox::inv_sub_byte(s[1][2]), sbox::inv_sub_byte(s[1][3])],
            [sbox::inv_sub_byte(s[2][0]), sbox::inv_sub_byte(s[2][1]), sbox::inv_sub_byte(s[2][2]), sbox::inv_sub_byte(s[2][3])],
            [sbox::inv_sub_byte(s[3][0]), sbox::inv_sub_byte(s[3][1]), sbox::inv_sub_byte(s[3][2]), sbox::inv_sub_byte(s[3][3])],
        ];
        proof {
            assert(state_flat(*state) =~= inv_sub_bytes_spec(state_flat(s)));
        }
    }

    /// ShiftRows: rotate row `r` left by `r` positions.
    pub fn shift_rows(&self, state: &mut [[u8; 4]; 4])
        ensures
            state_flat(*final(state)) == shift_rows_spec(state_flat(*old(state))),
    {
        let s = *state;
        *state = [
            [s[0][0], s[0][1], s[0][2], s[0][3]],
            [s[1][1], s[1][2], s[1][3], s[1][0]],
            [s[2][2], s[2][3], s[2][0], s[2][1]],
            [s[3][3], s[3][0], s[3][1], s[3][2]],
        ];
        proof {
            assert(state_flat(*state) =~= shift_rows_spec(state_flat(s)));
        }
    }

    /// InvShiftRows: rotate row `r` right by `r` positions.
    pub fn inv_shift_rows(&self, state: &mut [[u8; 4]; 4])
        ensures
            state_flat(*final(state)) == inv_shift_rows_spec(state_flat(*old(state))),
    {
        let s = *state;
        *state = [
            [s[0][0], s[0][1], s[0][2], s[0][3]],
            [s[1][3], s[1][0], s[1][1], s[1][2]],
            [s[2][2], s[2][3], s[2][0], s[2][1]],
            [s[3][1], s[3][2], s[3][3], s[3][0]],
        ];
        proof {
            assert(state_flat(*state) =~= inv_shift_rows_spec(state_flat(s)));
        }
    }

    /// MixColumns: multiply every column by the fixed matrix
    /// `[[2,3,1,1],[1,2,3,1],[1,1,2,3],[3,1,1,2]]` over GF(2^8).
    pub fn mix_columns(&self, state: &mut [[u8; 4]; 4])
        ensures
            state_flat(*final(state)) == mix_columns_spec(state_flat(*old(state))),
    {
        let s = *state;
        *state = [
            [
                Self::mix_row0(s[0][0], s[1][0], s[2][0], s[3][0]),
                Self::mix_row0(s[0][1], s[1][1], s[2][1], s[3][1]),
                Self::mix_row0(s[0][2], s[1][2], s[2][2], s[3][2]),
                Self::mix_row0(s[0][3], s[1][3], s[2][3], s[3][3]),
            ],
            [
                Self::mix_row1(s[0][0], s[1][0], s[2][0], s[3][0]),
                Self::mix_row1(s[0][1], s[1][1], s[2][1], s[3][1]),
                Self::mix_row1(s[0][2], s[1][2], s[2][2], s[3][2]),
                Self::mix_row1(s[0][3], s[1][3], s[2][3], s[3][3]),
            ],
            [
                Self::mix_row2(s[0][0], s[1][0], s[2][0], s[3][0]),
                Self::mix_row2(s[0][1], s[1][1], s[2][1], s[3][1]),
                Self::mix_row2(s[0][2], s[1][2], s[2][2], s[3][2]),
                Self::mix_row2(s[0][3], s[1][3], s[2][3], s[3][3]),
            ],
            [
                Self::mix_row3(s[0][0], s[1][0], s[2][0], s[3][0]),
                Self::mix_row3(s[0][1], s[1][1], s[2][1], s[3][1]),
                Self::mix_row3(s[0][2], s[1][2], s[2][2], s[3][2]),
                Self::mix_row3(s[0][3], s[1][3], s[2][3], s[3][3]),
            ],
        ];
        proof {
            assert(state_flat(*state) =~= mix_columns_spec(state_flat(s)));
        }
    }

    /// InvMixColumns: multiply every column by the inverse matrix
    /// `[[0xE,0xB,0xD,9],[9,0xE,0xB,0xD],[0xD,9,0xE,0xB],[0xB,0xD,9,0xE]]`.
    pub fn inv_mix_columns(&self, state: &mut [[u8; 4]; 4])
        ensures
            state_flat(*final(state)) == inv_mix_columns_spec(state_flat(*old(state))),
    {
        let s = *state;
        *state = [
            [
                Self::inv_mix_row0(s[0][0], s[1][0], s[2][0], s[3][0]),
                Self::inv_mix_row0(s[0][1], s[1][1], s[2][1], s[3][1]),
                Self::inv_mix_row0(s[0][2], s[1][2], s[2][2], s[3][2]),
                Self::inv_mix_row0(s[0][3], s[1][3], s[2][3], s[3][3]),
            ],
            [
                Self::inv_mix_row1(s[0][0], s[1][0], s[2][0], s[3][0]),
                Self::inv_mix_row1(s[0][1], s[1][1], s[2][1], s[3][1]),
                Self::inv_mix_row1(s[0][2], s[1][2], s[2][2], s[3][2]),
                Self::inv_mix_row1(s[0][3], s[1][3], s[2][3], s[3][3]),
            ],
            [
                Self::inv_mix_row2(s[0][0], s[1][0], s[2][0], s[3][0]),
                Self::inv_mix_row2(s[0][1], s[1][1], s[2][1], s[3][1]),
                Self::inv_mix_row2(s[0][2], s[1][2], s[2][2], s[3][2]),
                Self::inv_mix_row2(s[0][3], s[1][3], s[2][3], s[3][3]),
            ],
            [
                Self::inv_mix_row3(s[0][0], s[1][0], s[2][0], s[3][0]),
                Self::inv_mix_row3(s[0][1], s[1][1], s[2][1], s[3][1]),
                Self::inv_mix_row3(s[0][2], s[1][2], s[2][2], s[3][2]),
                Self::inv_mix_row3(s[0][3], s[1][3], s[2][3], s[3][3]),
            ],
        ];
        proof {
            assert(state_flat(*state) =~= inv_mix_columns_spec(state_flat(s)));
        }
    }

    fn mix_row0(s0: u8, s1: u8, s2: u8, s3: u8) -> (r: u8)
        ensures
            r == gf::mix_col0(s0, s1, s2, s3),
    {
        gf::gf_mul(0x02, s0) ^ gf::gf_mul(0x03, s1) ^ s2 ^ s3
    }

    fn mix_row1(s0: u8, s1: u8, s2: u8, s3: u8) -> (r: u8)
        ensures
            r == gf::mix_col1(s0, s1, s2, s3),
    {
        s0 ^ gf::gf_mul(0x02, s1) ^ gf::gf_mul(0x03, s2) ^ s3
    }

    fn mix_row2(s0: u8, s1: u8, s2: u8, s3: u8) -> (r: u8)
        ensures
            r == gf::mix_col2(s0, s1, s2, s3),
    {
        s0 ^ s1 ^ gf::gf_mul(0x02, s2) ^ gf::gf_mul(0x03, s3)
    }

    fn mix_row3(s0: u8, s1: u8, s2: u8, s3: u8) -> (r: u8)
        ensures
            r == gf::mix_col3(s0, s1, s2, s3),
    {
        gf::gf_mul(0x03, s0) ^ s1 ^ s2 ^ gf::gf_mul(0x02, s3)
    }

    fn inv_mix_row0(s0: u8, s1: u8, s2: u8, s3: u8) -> (r: u8)
        ensures
            r == gf::inv_mix_col0(s0, s1, s2, s3),
    {
        gf::gf_mul(0x0e, s0) ^ gf::gf_mul(0x0b, s1) ^ gf::gf_mul(0x0d, s2) ^ gf::gf_mul(0x09, s3)
    }

    fn inv_mix_row1(s0: u8, s1: u8, s2: u8, s3: u8) -> (r: u8)
        ensures
            r == gf::inv_mix_col1(s0, s1, s2, s3),
    {
        gf::gf_mul(0x09, s0) ^ gf::gf_mul(0x0e, s1) ^ gf::gf_mul(0x0b, s2) ^ gf::gf_mul(0x0d, s3)
    }

    fn inv_mix_row2(s0: u8, s1: u8, s2: u8, s3: u8) -> (r: u8)
        ensures
            r == gf::inv_mix_col2(s0, s1, s2, s3),
    {
        gf::gf_mul(0x0d, s0) ^ gf::gf_mul(0x09, s1) ^ gf::gf_mul(0x0e, s2) ^ gf::gf_mul(0x0b, s3)
    }

    fn inv_mix_row3(s0: u8, s1: u8, s2: u8, s3: u8) -> (r: u8)
        ensures
            r == gf::inv_mix_col3(s0, s1, s2, s3),
    {
        gf::gf_mul(0x0b, s0) ^ gf::gf_mul(0x0d, s1) ^ gf::gf_mul(0x09, s2) ^ gf::gf_mul(0x0e, s3)
    }

    /// AddRoundKey: XOR round key `round` into the state.
    pub fn add_round_key(&self, state: &mut [[u8; 4]; 4], round: usize)
        requires
            round <= 10,
        ensures
            state_flat(*final(state)) == add_round_key_spec(
                state_flat(*old(state)),
                round_key(self.key_schedule(), round as int),
            ),
    {
        let s = *state;
        let base: usize = round * 16;
        *state = [
            [
                s[0][0] ^ self.expanded_key[base],
                s[0][1] ^ self.expanded_key[base + 4],
                s[0][2] ^ self.expanded_key[base + 8],
                s[0][3] ^ self.expanded_key[base + 12],
            ],
            [
                s[1][0] ^ self.expanded_key[base + 1],
                s[1][1] ^ self.expanded_key[base + 5],
                s[1][2] ^ self.expanded_key[base + 9],
                s[1][3] ^ self.expanded_key[base + 13],
            ],
            [
                s[2][0] ^ self.expanded_key[base + 2],
                s[2][1] ^ self.expanded_key[base + 6],
                s[2][2] ^ self.expanded_key[base + 10],
                s[2][3] ^ self.expanded_key[base + 14],
            ],
            [
                s[3][0] ^ self.expanded_key[base + 3],
                s[3][1] ^ self.expanded_key[base + 7],
                s[3][2] ^ self.expanded_key[base + 11],
                s[3][3] ^ self.expanded_key[base + 15],
            ],
        ];
        proof {
            assert(state_flat(*state) =~= add_round_key_spec(
                state_flat(s),
                round_key(self.key_schedule(), round as int),
            ));
        }
    }

    /// Encrypt one 16-byte block in place with the forward transform.
    pub fn encrypt_block(&self, block: &mut [u8; 16])
        ensures
            final(block)@ == encrypt_block_spec(self.key_schedule(), old(block)@),
    {
        let mut state = self.bytes_to_state(block);

        self.add_round_key(&mut state, 0);

        let mut round: usize = 1;
        while round < 10
            invariant
                1 <= round <= 10,
                state_flat(state) == enc_rounds_spec(self.key_schedule(), old(block)@, round - 1),
            decreases 10 - round,
        {
            self.sub_bytes(&mut state);
            self.shift_rows(&mut state);
            self.mix_columns(&mut state);
            self.add_round_key(&mut state, round);
            round += 1;
        }

        self.sub_bytes(&mut state);
        self.shift_rows(&mut state);
        self.add_round_key(&mut state, 10);

        *block = self.state_to_bytes(&state);
    }

    /// Decrypt one 16-byte block in place with the inverse transform.
    pub fn decrypt_block(&self, block: &mut [u8; 16])
        ensures
            final(block)@ == decrypt_block_spec(self.key_schedule(), old(block)@),
    {
        let mut state = self.bytes_to_state(block);

        self.add_round_key(&mut state, 10);
        self.inv_shift_rows(&mut state);
        self.inv_sub_bytes(&mut state);

        let ghost s0: Seq<u8> = state_flat(state);

        let mut round: usize = 9;
        while round > 0
            invariant
                round <= 9,
                dec_rounds_spec(self.key_schedule(), s0, 9) == dec_rounds_spec(
                    self.key_schedule(),
                    state_flat(state),
                    round as int,
                ),
            decreases round,
        {
            self.add_round_key(&mut state, round);
            self.inv_mix_columns(&mut state);
            self.inv_shift_rows(&mut state);
            self.inv_sub_bytes(&mut state);
            round -= 1;
        }

        self.add_round_key(&mut state, 0);

        *block = self.state_to_bytes(&state);
    }
}

} // verus!
