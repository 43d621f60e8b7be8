//! A toy 16-bit substitution-permutation network: four rounds of key
//! addition, a fixed 4-bit S-box applied to each nibble, and a bit
//! permutation, with the same 16-bit key in every round. Alongside it,
//! the pieces of a linear attack on the cipher: the linear
//! approximation and the partial decryption that recovers round-four
//! intermediate values from ciphertext under a subkey guess.

use vstd::prelude::*;
use vstd::string::StringSliceAdditionalSpecFns;

verus! {

/// The 4-bit S-box.
pub open spec fn spn_sbox(n: int) -> u8 {
    if n == 0 { 0xe }
    else if n == 1 { 0x4 }
    else if n == 2 { 0xd }
    else if n == 3 { 0x1 }
    else if n == 4 { 0x2 }
    else if n == 5 { 0xf }
    else if n == 6 { 0xb }
    else if n == 7 { 0x8 }
    else if n == 8 { 0x3 }
    else if n == 9 { 0xa }
    else if n == 10 { 0x6 }
    else if n == 11 { 0xc }
    else if n == 12 { 0x5 }
    else if n == 13 { 0x9 }
    else if n == 14 { 0x0 }
    else { 0x7 }
}

/// The inverse 4-bit S-box.
pub open spec fn spn_inv_sbox(n: int) -> u8 {
    if n == 0 { 0xe }
    else if n == 1 { 0x3 }
    else if n == 2 { 0x4 }
    else if n == 3 { 0x8 }
    else if n == 4 { 0x1 }
    else if n == 5 { 0xc }
    else if n == 6 { 0xa }
    else if n == 7 { 0xf }
    else if n == 8 { 0x7 }
    else if n == 9 { 0xd }
    else if n == 10 { 0x9 }
    else if n == 11 { 0x6 }
    else if n == 12 { 0xb }
    else if n == 13 { 0x2 }
    else if n == 14 { 0x0 }
    else { 0x5 }
}

/// The S-box applied to all four nibbles of a word.
pub open spec fn apply_sbox_spec(x: u16) -> u16 {
    (spn_sbox((x & 0xf) as int) as u16) | ((spn_sbox(((x >> 4) & 0xf) as int) as u16) << 4) | ((
    spn_sbox(((x >> 8) & 0xf) as int) as u16) << 8) | ((spn_sbox(((x >> 12) & 0xf) as int) as u16)
        << 12)
}

/// The inverse S-box applied to all four nibbles of a word.
pub open spec fn apply_inv_sbox_spec(x: u16) -> u16 {
    (spn_inv_sbox((x & 0xf) as int) as u16) | ((spn_inv_sbox(((x >> 4) & 0xf) as int) as u16) << 4)
        | ((spn_inv_sbox(((x >> 8) & 0xf) as int) as u16) << 8) | ((spn_inv_sbox(
        ((x >> 12) & 0xf) as int,
    ) as u16) << 12)
}

/// The bit permutation: bit `4 i + j` moves to bit `4 j + i` (the
/// transposition of the 4x4 bit square).
pub open spec fn apply_perm_spec(x: u16) -> u16 {
    ((x & 1) << 0) | (((x >> 1) & 1) << 4) | (((x >> 2) & 1) << 8) | (((x >> 3) & 1) << 12) | (((x
        >> 4) & 1) << 1) | (((x >> 5) & 1) << 5) | (((x >> 6) & 1) << 9) | (((x >> 7) & 1) << 13) | (((
    x >> 8) & 1) << 2) | (((x >> 9) & 1) << 6) | (((x >> 10) & 1) << 10) | (((x >> 11) & 1) << 14)
        | (((x >> 12) & 1) << 3) | (((x >> 13) & 1) << 7) | (((x >> 14) & 1) << 11) | (((x >> 15)
        & 1) << 15)
}

/// One of the three identical full rounds: key addition, substitution,
/// permutation.
pub open spec fn spn_round_spec(key: u16, w: u16) -> u16 {
    apply_perm_spec(apply_sbox_spec(w ^ key))
}

/// The state just before the final substitution: three full rounds and
/// the fourth key addition.
pub open spec fn compute_u4_spec(key: u16, p: u16) -> u16 {
    spn_round_spec(key, spn_round_spec(key, spn_round_spec(key, p))) ^ key
}

/// The full cipher: three rounds, a final key addition, substitution,
/// and output key addition.
pub open spec fn spn_encrypt_spec(key: u16, p: u16) -> u16 {
    apply_sbox_spec(compute_u4_spec(key, p)) ^ key
}

/// The linear approximation under study: the XOR of plaintext bits 5,
/// 7, 8 and bits 6, 8, 14, 16 of the round-four intermediate value
/// (1-based bit counts).
pub open spec fn lin_approx_spec(plaintext: u16, u4: u16) -> u16 {
    (((plaintext >> 4) & 1) ^ ((plaintext >> 6) & 1) ^ ((plaintext >> 7) & 1)) ^ (((u4 >> 5) & 1)
        ^ ((u4 >> 7) & 1) ^ ((u4 >> 13) & 1) ^ ((u4 >> 15) & 1))
}

/// The round-four value reconstructed from a ciphertext under subkey
/// guesses `l1` (nibble 2) and `l2` (nibble 4): undo the final key
/// addition on those nibbles, then the final substitution.
pub open spec fn reconstruct_u4_spec(ciphertext: u16, l1: u8, l2: u8) -> u16 {
    apply_inv_sbox_spec(ciphertext ^ (((l2 as u16) << 12) | ((l1 as u16) << 4)))
}

proof fn lemma_nibble_bounds(x: u16)
    by (bit_vector)
    ensures
        x & 0xf < 16,
        (x >> 4) & 0xf < 16,
        (x >> 8) & 0xf < 16,
        (x >> 12) & 0xf < 16,
{
}

/// The toy substitution-permutation cipher with its fixed tables and a
/// single 16-bit round key.
pub struct SpnCipher {
    round_key: u16,
}

impl SpnCipher {
    /// The round key of this cipher.
    pub closed spec fn key(&self) -> u16 {
        self.round_key
    }

    /// A cipher using `key` in every round.
    pub fn new(key: u16) -> (r: SpnCipher)
        ensures
            r.key() == key,
    {
        SpnCipher { round_key: key }
    }

    /// The 4-bit S-box value of a nibble.
    fn sbox_at(n: u16) -> (r: u16)
        requires
            n < 16,
        ensures
            r == spn_sbox(n as int) as u16,
    {
        if n == 0 { 0xe }
        else if n == 1 { 0x4 }
        else if n == 2 { 0xd }
        else if n == 3 { 0x1 }
        else if n == 4 { 0x2 }
        else if n == 5 { 0xf }
        else if n == 6 { 0xb }
        else if n == 7 { 0x8 }
        else if n == 8 { 0x3 }
        else if n == 9 { 0xa }
        else if n == 10 { 0x6 }
        else if n == 11 { 0xc }
        else if n == 12 { 0x5 }
        else if n == 13 { 0x9 }
        else if n == 14 { 0x0 }
        else { 0x7 }
    }

    /// The inverse 4-bit S-box value of a nibble.
    fn inv_sbox_at(n: u16) -> (r: u16)
        requires
            n < 16,
        ensures
            r == spn_inv_sbox(n as int) as u16,
    {
        if n == 0 { 0xe }
        else if n == 1 { 0x3 }
        else if n == 2 { 0x4 }
        else if n == 3 { 0x8 }
        else if n == 4 { 0x1 }
        else if n == 5 { 0xc }
        else if n == 6 { 0xa }
        else if n == 7 { 0xf }
        else if n == 8 { 0x7 }
        else if n == 9 { 0xd }
        else if n == 10 { 0x9 }
        else if n == 11 { 0x6 }
        else if n == 12 { 0xb }
        else if n == 13 { 0x2 }
        else if n == 14 { 0x0 }
        else { 0x5 }
    }

    /// Substitute every nibble through the S-box.
    pub fn apply_sbox(&self, input: u16) -> (r: u16)
        ensures
            r == apply_sbox_spec(input),
    {
        proof {
            lemma_nibble_bounds(input);
        }
        let n0 = Self::sbox_at(input & 0xf);
        let n1 = Self::sbox_at((input >> 4) & 0xf);
        let n2 = Self::sbox_at((input >> 8) & 0xf);
        let n3 = Self::sbox_at((input >> 12) & 0xf);
        n0 | (n1 << 4) | (n2 << 8) | (n3 << 12)
    }

    /// Substitute every nibble through the inverse S-box.
    pub fn apply_inverse_sbox(&self, input: u16) -> (r: u16)
        ensures
            r == apply_inv_sbox_spec(input),
    {
        proof {
            lemma_nibble_bounds(input);
        }
        let n0 = Self::inv_sbox_at(input & 0xf);
        let n1 = Self::inv_sbox_at((input >> 4) & 0xf);
        let n2 = Self::inv_sbox_at((input >> 8) & 0xf);
        let n3 = Self::inv_sbox_at((input >> 12) & 0xf);
        n0 | (n1 << 4) | (n2 << 8) | (n3 << 12)
    }

    /// Move every bit to its transposed position.
    pub fn apply_permutation(&self, input: u16) -> (r: u16)
        ensures
            r == apply_perm_spec(input),
    {
        ((input & 1) << 0) | (((input >> 1) & 1) << 4) | (((input >> 2) & 1) << 8) | (((input >> 3)
            & 1) << 12) | (((input >> 4) & 1) << 1) | (((input >> 5) & 1) << 5) | (((input >> 6)
            & 1) << 9) | (((input >> 7) & 1) << 13) | (((input >> 8) & 1) << 2) | (((input >> 9)
            & 1) << 6) | (((input >> 10) & 1) << 10) | (((input >> 11) & 1) << 14) | (((input
            >> 12) & 1) << 3) | (((input >> 13) & 1) << 7) | (((input >> 14) & 1) << 11) | (((input
            >> 15) & 1) << 15)
    }

    /// Encrypt one 16-bit block: three full rounds, then key addition,
    /// substitution and a final key addition.
    pub fn encrypt_block(&self, plaintext: u16) -> (r: u16)
        ensures
            r == spn_encrypt_spec(self.key(), plaintext),
    {
        let mut w = plaintext;
        let mut round: usize = 1;
        while round <= 3
            invariant
                1 <= round <= 4,
                w == if round == 1 {
                    plaintext
                } else if round == 2 {
                    spn_round_spec(self.key(), plaintext)
                } else if round == 3 {
                    spn_round_spec(self.key(), spn_round_spec(self.key(), plaintext))
                } else {
                    spn_round_spec(
                        self.key(),
                        spn_round_spec(self.key(), spn_round_spec(self.key(), plaintext)),
                    )
                },
            decreases 4 - round,
    {
            let u = w ^ self.round_key;
            let v = self.apply_sbox(u);
            w = self.apply_permutation(v);
            round += 1;
        }
        let u_final = w ^ self.round_key;
        let v_final = self.apply_sbox(u_final);
        v_final ^ self.round_key
    }

    /// The round-four intermediate value of a plaintext: three full
    /// rounds and the fourth key addition, before the final S-box.
    pub fn compute_u4(&self, plaintext: u16) -> (r: u16)
        ensures
            r == compute_u4_spec(self.key(), plaintext),
    {
        let mut w = plaintext;
        let mut round: usize = 1;
        while round <= 3
            invariant
                1 <= round <= 4,
                w == if round == 1 {
                    plaintext
                } else if round == 2 {
                    spn_round_spec(self.key(), plaintext)
                } else if round == 3 {
                    spn_round_spec(self.key(), spn_round_spec(self.key(), plaintext))
                } else {
                    spn_round_spec(
                        self.key(),
                        spn_round_spec(self.key(), spn_round_spec(self.key(), plaintext)),
                    )
                },
            decreases 4 - round,
    {
            let u = w ^ self.round_key;
            let v = self.apply_sbox(u);
            w = self.apply_permutation(v);
            round += 1;
        }
        w ^ self.round_key
    }

    /// The round key.
    pub fn get_round_key(&self) -> (r: u16)
        ensures
            r == self.key(),
    {
        self.round_key
    }
}

/// Evaluate the linear approximation on a plaintext and a round-four
/// value: the result is the single XORed bit, 0 or 1.
pub fn linear_approximation(plaintext: u16, u4: u16) -> (r: u16)
    ensures
        r == lin_approx_spec(plaintext, u4),
        r == 0 || r == 1,
{
    let x_bits = ((plaintext >> 4) & 1) ^ ((plaintext >> 6) & 1) ^ ((plaintext >> 7) & 1);
    let u4_bits = ((u4 >> 5) & 1) ^ ((u4 >> 7) & 1) ^ ((u4 >> 13) & 1) ^ ((u4 >> 15) & 1);
    let r = x_bits ^ u4_bits;
    proof {
        assert(lin_approx_spec(plaintext, u4) == 0 || lin_approx_spec(plaintext, u4) == 1)
            by (bit_vector);
    }
    r
}

/// Reconstruct the round-four value from a ciphertext under the subkey
/// guesses `l1` and `l2`: undo the output key addition at nibbles 2 and
/// 4, then the final substitution.
pub fn reconstruct_u4_from_ciphertext(ciphertext: u16, l1: u8, l2: u8, cipher: &SpnCipher) -> (r:
    u16)
    ensures
        r == reconstruct_u4_spec(ciphertext, l1, l2),
{
    let key_guess: u16 = ((l2 as u16) << 12) | ((l1 as u16) << 4);
    let v4 = ciphertext ^ key_guess;
    cipher.apply_inverse_sbox(v4)
}

/// Failure of key or block parsing.
#[derive(Debug, PartialEq, Eq, Structural)]
pub enum SpnParseError {
    /// The cleaned text is not exactly four hexadecimal digits.
    WrongLength,
    /// A character is not a hexadecimal digit.
    InvalidHexCharacter,
}

/// An upper-case or lower-case ASCII letter raised to upper case.
pub open spec fn to_upper_byte(b: u8) -> u8 {
    if 0x61 <= b <= 0x7a {
        (b - 0x20) as u8
    } else {
        b
    }
}

/// ASCII whitespace.
pub open spec fn spn_is_ws(b: u8) -> bool {
    b == 0x20 || b == 0x09 || b == 0x0a || b == 0x0d || b == 0x0b || b == 0x0c
}

/// The input with whitespace removed and letters raised to upper case.
pub open spec fn clean_upper_spec(s: Seq<u8>) -> Seq<u8>
    decreases s.len(),
{
    if s.len() == 0 {
        s
    } else {
        clean_upper_spec(s.drop_last()) + (if spn_is_ws(s.last()) {
            Seq::<u8>::empty()
        } else {
            seq![to_upper_byte(s.last())]
        })
    }
}

/// An upper-case hexadecimal digit byte.
pub open spec fn is_upper_hex(b: u8) -> bool {
    (0x30 <= b <= 0x39) || (0x41 <= b <= 0x46)
}

/// The value of an upper-case hexadecimal digit byte.
pub open spec fn upper_hex_val(b: u8) -> int {
    if 0x30 <= b <= 0x39 {
        b - 0x30
    } else {
        b - 0x41 + 10
    }
}

/// The 16-bit value of four upper-case hexadecimal digits.
pub open spec fn word_of_hex4(s: Seq<u8>) -> u16 {
    (4096 * upper_hex_val(s[0]) + 256 * upper_hex_val(s[1]) + 16 * upper_hex_val(s[2])
        + upper_hex_val(s[3])) as u16
}

/// Whether four bytes are all upper-case hexadecimal digits.
pub open spec fn all_upper_hex(s: Seq<u8>) -> bool {
    forall|i: int| 0 <= i < s.len() ==> is_upper_hex(#[trigger] s[i])
}

/// Parse a 16-bit key from hexadecimal text: whitespace is dropped and
/// case is ignored; exactly four digits must remain, all hexadecimal.
#[verifier::loop_isolation(false)]
pub fn parse_key(key_str: &str) -> (r: Result<u16, SpnParseError>)
    ensures
        ({
            let c = clean_upper_spec(key_str.spec_bytes());
            if c.len() != 4 {
                r == Err::<u16, SpnParseError>(SpnParseError::WrongLength)
            } else if !all_upper_hex(c) {
                r == Err::<u16, SpnParseError>(SpnParseError::InvalidHexCharacter)
            } else {
                r == Ok::<u16, SpnParseError>(word_of_hex4(c))
            }
        }),
{
    let b: &[u8] = key_str.as_bytes();
    let mut cleaned: Vec<u8> = Vec::new();
    let mut k: usize = 0;
    proof {
        assert(b@.take(0) =~= Seq::<u8>::empty());
    }
    while k < b.len()
        invariant
            k <= b@.len(),
            cleaned@ == clean_upper_spec(b@.take(k as int)),
        decreases b@.len() - k,
    {
        let ghost pre: Seq<u8> = b@.take(k as int);
        proof {
            assert(b@.take(k as int + 1).drop_last() =~= pre);
            assert(b@.take(k as int + 1).last() == b@[k as int]);
        }
        let c: u8 = b[k];
        if !(c == 0x20 || c == 0x09 || c == 0x0a || c == 0x0d || c == 0x0b || c == 0x0c) {
            let raised: u8 = if 0x61 <= c && c <= 0x7a {
                c - 0x20
            } else {
                c
            };
            cleaned.push(raised);
            proof {
                assert(cleaned@ =~= clean_upper_spec(pre) + seq![to_upper_byte(b@[k as int])]);
            }
        } else {
            proof {
                assert(cleaned@ =~= clean_upper_spec(pre) + Seq::<u8>::empty());
            }
        }
        k += 1;
    }
    proof {
        assert(b@.take(b@.len() as int) =~= b@);
    }

    if cleaned.len() != 4 {
        return Err(SpnParseError::WrongLength);
    }
    let mut i: usize = 0;
    while i < 4
        invariant
            i <= 4,
            cleaned@.len() == 4,
            cleaned@ == clean_upper_spec(key_str.spec_bytes()),
            forall|m: int| 0 <= m < i ==> is_upper_hex(#[trigger] cleaned@[m]),
        decreases 4 - i,
    {
        let c: u8 = cleaned[i];
        if !((0x30 <= c && c <= 0x39) || (0x41 <= c && c <= 0x46)) {
            proof {
                assert(!is_upper_hex(cleaned@[i as int]));
                assert(!all_upper_hex(cleaned@));
            }
            return Err(SpnParseError::InvalidHexCharacter);
        }
        i += 1;
    }
    let d0 = upper_hex_digit_val(cleaned[0]);
    let d1 = upper_hex_digit_val(cleaned[1]);
    let d2 = upper_hex_digit_val(cleaned[2]);
    let d3 = upper_hex_digit_val(cleaned[3]);
    Ok(4096 * (d0 as u16) + 256 * (d1 as u16) + 16 * (d2 as u16) + (d3 as u16))
}

/// The value of one upper-case hexadecimal digit byte.
fn upper_hex_digit_val(b: u8) -> (r: u8)
    requires
        is_upper_hex(b),
    ensures
        r as int == upper_hex_val(b),
        r < 16,
{
    if b <= 0x39 {
        b - 0x30
    } else {
        b - 0x41 + 10
    }
}

/// The input with space characters removed and letters raised to upper
/// case.
pub open spec fn clean_spaces_upper(s: Seq<u8>) -> Seq<u8>
    decreases s.len(),
{
    if s.len() == 0 {
        s
    } else {
        clean_spaces_upper(s.drop_last()) + (if s.last() == 0x20 {
            Seq::<u8>::empty()
        } else {
            seq![to_upper_byte(s.last())]
        })
    }
}

/// The digits padded with `0` characters to a multiple of four.
pub open spec fn pad4(s: Seq<u8>) -> Seq<u8> {
    if s.len() % 4 == 0 {
        s
    } else {
        s + Seq::new((4 - s.len() % 4) as nat, |i: int| 0x30u8)
    }
}

/// The upper-case hexadecimal digit character for a value below 16.
pub open spec fn upper_hex_char(n: int) -> char {
    if n == 0 { '0' }
    else if n == 1 { '1' }
    else if n == 2 { '2' }
    else if n == 3 { '3' }
    else if n == 4 { '4' }
    else if n == 5 { '5' }
    else if n == 6 { '6' }
    else if n == 7 { '7' }
    else if n == 8 { '8' }
    else if n == 9 { '9' }
    else if n == 10 { 'A' }
    else if n == 11 { 'B' }
    else if n == 12 { 'C' }
    else if n == 13 { 'D' }
    else if n == 14 { 'E' }
    else { 'F' }
}

/// Nibble `j` of a word, counted from the most significant.
pub open spec fn nibble(v: u16, j: int) -> int {
    ((v >> ((12 - 4 * j) as u16)) & 0xf) as int
}

/// The ECB encryption of a block-aligned hexadecimal digit stream:
/// each group of four digits is one block, encrypted and written back
/// as four upper-case digits.
pub open spec fn spn_encrypt_str_spec(key: u16, c: Seq<u8>) -> Seq<char> {
    Seq::new(
        c.len(),
        |i: int|
            upper_hex_char(
                nibble(spn_encrypt_spec(key, word_of_hex4(c.subrange(4 * (i / 4), 4 * (i / 4) + 4))), i % 4),
            ),
    )
}

proof fn lemma_quad_index(i: int, b: int)
    by (nonlinear_arith)
    requires
        4 * b <= i < 4 * b + 4,
    ensures
        i / 4 == b,
        i % 4 == i - 4 * b,
{
}

/// The one-character string for an upper-case hexadecimal digit value.
fn upper_hex_digit_str(n: u16) -> (r: &'static str)
    requires
        n < 16,
    ensures
        r@ == seq![upper_hex_char(n as int)],
{
    proof {
        reveal_strlit("0");
        reveal_strlit("1");
        reveal_strlit("2");
        reveal_strlit("3");
        reveal_strlit("4");
        reveal_strlit("5");
        reveal_strlit("6");
        reveal_strlit("7");
        reveal_strlit("8");
        reveal_strlit("9");
        reveal_strlit("A");
        reveal_strlit("B");
        reveal_strlit("C");
        reveal_strlit("D");
        reveal_strlit("E");
        reveal_strlit("F");
    }
    let r: &'static str = if n == 0 { "0" }
    else if n == 1 { "1" }
    else if n == 2 { "2" }
    else if n == 3 { "3" }
    else if n == 4 { "4" }
    else if n == 5 { "5" }
    else if n == 6 { "6" }
    else if n == 7 { "7" }
    else if n == 8 { "8" }
    else if n == 9 { "9" }
    else if n == 10 { "A" }
    else if n == 11 { "B" }
    else if n == 12 { "C" }
    else if n == 13 { "D" }
    else if n == 14 { "E" }
    else { "F" };
    proof {
        assert(r@ =~= seq![upper_hex_char(n as int)]);
    }
    r
}

impl SpnCipher {
    /// Encrypt a stream of hexadecimal digits in ECB fashion: spaces
    /// are dropped, case is ignored, the digits are padded with zeros
    /// to blocks of four, and every block is encrypted and written as
    /// four upper-case digits. Fails exactly when a remaining character
    /// is not a hexadecimal digit.
    #[verifier::rlimit(100)]
    #[verifier::spinoff_prover]
    #[verifier::loop_isolation(false)]
    pub fn encrypt(&self, input: &str) -> (r: Result<String, SpnParseError>)
        ensures
            ({
                let c = clean_spaces_upper(input.spec_bytes());
                if all_upper_hex(c) {
                    r matches Ok(s) && s@ == spn_encrypt_str_spec(self.key(), pad4(c))
                } else {
                    r == Err::<String, SpnParseError>(SpnParseError::InvalidHexCharacter)
                }
            }),
    {
        let b: &[u8] = input.as_bytes();
        let mut cleaned: Vec<u8> = Vec::new();
        let mut k: usize = 0;
        proof {
            assert(b@.take(0) =~= Seq::<u8>::empty());
        }
        while k < b.len()
            invariant
                k <= b@.len(),
                cleaned@ == clean_spaces_upper(b@.take(k as int)),
            decreases b@.len() - k,
        {
            let ghost pre: Seq<u8> = b@.take(k as int);
            proof {
                assert(b@.take(k as int + 1).drop_last() =~= pre);
                assert(b@.take(k as int + 1).last() == b@[k as int]);
            }
            let c: u8 = b[k];
            if c != 0x20 {
                let raised: u8 = if 0x61 <= c && c <= 0x7a {
                    c - 0x20
                } else {
                    c
                };
                cleaned.push(raised);
                proof {
                    assert(cleaned@ =~= clean_spaces_upper(pre) + seq![to_upper_byte(b@[k as int])]);
                }
            } else {
                proof {
                    assert(cleaned@ =~= clean_spaces_upper(pre) + Seq::<u8>::empty());
                }
            }
            k += 1;
        }
        proof {
            assert(b@.take(b@.len() as int) =~= b@);
        }

        let mut i: usize = 0;
        while i < cleaned.len()
            invariant
                i <= cleaned@.len(),
                cleaned@ == clean_spaces_upper(input.spec_bytes()),
                forall|m: int| 0 <= m < i ==> is_upper_hex(#[trigger] cleaned@[m]),
            decreases cleaned@.len() - i,
        {
            let c: u8 = cleaned[i];
            if !((0x30 <= c && c <= 0x39) || (0x41 <= c && c <= 0x46)) {
                proof {
                    assert(!is_upper_hex(cleaned@[i as int]));
                    assert(!all_upper_hex(cleaned@));
                }
                return Err(SpnParseError::InvalidHexCharacter);
            }
            i += 1;
        }

        let mut padded = cleaned;
        let ghost before_pad: Seq<u8> = padded@;
        let mut extra: usize = 0;
        if padded.len() % 4 != 0 {
            extra = 4 - padded.len() % 4;
        }
        let mut e: usize = 0;
        while e < extra
            invariant
                e <= extra,
                extra < 4,
                padded@ == before_pad + Seq::new(e as nat, |t: int| 0x30u8),
            decreases extra - e,
        {
            padded.push(0x30);
            proof {
                assert(padded@ =~= before_pad + Seq::new((e + 1) as nat, |t: int| 0x30u8));
            }
            e += 1;
        }
        proof {
            assert(padded@ =~= pad4(before_pad));
            assert(padded@.len() % 4 == 0);
            assert(forall|m: int| 0 <= m < padded@.len() ==> is_upper_hex(#[trigger] padded@[m]));
        }

        let ghost target: Seq<char> = spn_encrypt_str_spec(self.key(), padded@);
        let mut result: String = String::new();
        let mut p: usize = 0;
        while p + 3 < padded.len()
            invariant
                p <= padded@.len(),
                p % 4 == 0,
                padded@.len() % 4 == 0,
                forall|m: int| 0 <= m < padded@.len() ==> is_upper_hex(#[trigger] padded@[m]),
                target == spn_encrypt_str_spec(self.key(), padded@),
                result@ == target.subrange(0, p as int),
            decreases padded@.len() - p,
        {
            let d0 = upper_hex_digit_val(padded[p]);
            let d1 = upper_hex_digit_val(padded[p + 1]);
            let d2 = upper_hex_digit_val(padded[p + 2]);
            let d3 = upper_hex_digit_val(padded[p + 3]);
            let word: u16 = 4096 * (d0 as u16) + 256 * (d1 as u16) + 16 * (d2 as u16) + (d3 as u16);
            let ghost blk: int = p as int / 4;
            proof {
                lemma_quad_index(p as int, blk);
                assert(padded@.subrange(4 * blk, 4 * blk + 4) =~= seq![
                    padded@[p as int],
                    padded@[p as int + 1],
                    padded@[p as int + 2],
                    padded@[p as int + 3],
                ]);
                assert(word == word_of_hex4(padded@.subrange(4 * blk, 4 * blk + 4)));
            }
            let encrypted: u16 = self.encrypt_block(word);
            proof {
                assert((encrypted >> 12) & 0xf < 16 && (encrypted >> 8) & 0xf < 16 && (encrypted
                    >> 4) & 0xf < 16 && encrypted & 0xf < 16) by (bit_vector);
            }
            let c0 = upper_hex_digit_str((encrypted >> 12) & 0xf);
            let c1 = upper_hex_digit_str((encrypted >> 8) & 0xf);
            let c2 = upper_hex_digit_str((encrypted >> 4) & 0xf);
            let c3 = upper_hex_digit_str(encrypted & 0xf);
            result.append(c0);
            result.append(c1);
            result.append(c2);
            result.append(c3);
            proof {
                lemma_quad_index(4 * blk, blk);
                lemma_quad_index(4 * blk + 1, blk);
                lemma_quad_index(4 * blk + 2, blk);
                lemma_quad_index(4 * blk + 3, blk);
                assert(((encrypted >> ((12 - 4 * 0) as u16)) & 0xf) == ((encrypted >> 12) & 0xf))
                    by (bit_vector);
                assert(((encrypted >> ((12 - 4 * 1) as u16)) & 0xf) == ((encrypted >> 8) & 0xf))
                    by (bit_vector);
                assert(((encrypted >> ((12 - 4 * 2) as u16)) & 0xf) == ((encrypted >> 4) & 0xf))
                    by (bit_vector);
                assert(((encrypted >> ((12 - 4 * 3) as u16)) & 0xf) == (encrypted & 0xf))
                    by (bit_vector);
                assert(target[4 * blk] == upper_hex_char((((encrypted >> 12) & 0xf) as u16) as int));
                assert(target[4 * blk + 1] == upper_hex_char((((encrypted >> 8) & 0xf) as u16) as int));
                assert(target[4 * blk + 2] == upper_hex_char((((encrypted >> 4) & 0xf) as u16) as int));
                assert(target[4 * blk + 3] == upper_hex_char(((encrypted & 0xf) as u16) as int));
                assert(result@ =~= target.subrange(0, p as int + 4));
            }
            p += 4;
        }
        proof {
            assert(target.subrange(0, padded@.len() as int) =~= target);
        }
        Ok(result)
    }
}

} // verus!
