//! Arithmetic in the Galois field GF(2^8) with the AES reduction
//! polynomial x^8 + x^4 + x^3 + x + 1 (0x11b).

use vstd::prelude::*;

verus! {

/// Multiplication by x in GF(2^8): shift left one bit and, if a bit was
/// shifted out, reduce by the polynomial (XOR with 0x1b).
pub open spec fn xtime(a: u8) -> u8 {
    if a & 0x80 != 0 {
        (a << 1) ^ 0x1b
    } else {
        a << 1
    }
}

/// The remaining `n` shift-and-add steps of the field multiplication,
/// starting from multiplicand `a` and remaining multiplier bits `b`.
pub open spec fn gf_mul_aux(a: u8, b: u8, n: int) -> u8
    decreases n,
{
    if n <= 0 {
        0
    } else {
        (if b & 1 != 0 { a } else { 0u8 }) ^ gf_mul_aux(xtime(a), b >> 1, n - 1)
    }
}

/// Product of `a` and `b` in GF(2^8): eight shift-and-add steps, one per
/// bit of `b`, each addition being an XOR.
pub open spec fn gf_mul_spec(a: u8, b: u8) -> u8 {
    gf_mul_aux(a, b, 8)
}

proof fn lemma_xor_assoc(x: u8, y: u8, z: u8)
    by (bit_vector)
    ensures
        (x ^ y) ^ z == x ^ (y ^ z),
{
}

proof fn lemma_xor_zero(x: u8)
    by (bit_vector)
    ensures
        x ^ 0u8 == x,
{
}

/// Field multiplication, computed by the shift-and-conditional-XOR loop.
pub fn gf_mul(a: u8, b: u8) -> (r: u8)
    ensures
        r == gf_mul_spec(a, b),
{
    let mut result: u8 = 0;
    let mut aa = a;
    let mut bb = b;
    let mut i: usize = 0;
    proof {
        let g = gf_mul_aux(a, b, 8);
        assert(0u8 ^ g == g) by (bit_vector);
    }
    while i < 8
        invariant
            i <= 8,
            gf_mul_spec(a, b) == result ^ gf_mul_aux(aa, bb, 8 - i as int),
        decreases 8 - i,
    {
        let ghost rest = gf_mul_aux(xtime(aa), bb >> 1, 8 - i as int - 1);
        let contribution: u8 = if bb & 1 != 0 { aa } else { 0 };
        proof {
            lemma_xor_assoc(result, contribution, rest);
        }
        result ^= contribution;
        let high_bit = aa & 0x80;
        aa <<= 1;
        if high_bit != 0 {
            aa ^= 0x1b;
        }
        bb >>= 1;
        i += 1;
    }
    proof {
        lemma_xor_zero(result);
    }
    result
}

/// One column of the forward MixColumns matrix `[2,3,1,1]` rotated per row.
pub open spec fn mix_col0(s0: u8, s1: u8, s2: u8, s3: u8) -> u8 {
    gf_mul_spec(0x02, s0) ^ gf_mul_spec(0x03, s1) ^ s2 ^ s3
}

pub open spec fn mix_col1(s0: u8, s1: u8, s2: u8, s3: u8) -> u8 {
    s0 ^ gf_mul_spec(0x02, s1) ^ gf_mul_spec(0x03, s2) ^ s3
}

pub open spec fn mix_col2(s0: u8, s1: u8, s2: u8, s3: u8) -> u8 {
    s0 ^ s1 ^ gf_mul_spec(0x02, s2) ^ gf_mul_spec(0x03, s3)
}

pub open spec fn mix_col3(s0: u8, s1: u8, s2: u8, s3: u8) -> u8 {
    gf_mul_spec(0x03, s0) ^ s1 ^ s2 ^ gf_mul_spec(0x02, s3)
}

/// One column of the inverse MixColumns matrix `[0xe,0xb,0xd,9]` rotated per row.
pub open spec fn inv_mix_col0(s0: u8, s1: u8, s2: u8, s3: u8) -> u8 {
    gf_mul_spec(0x0e, s0) ^ gf_mul_spec(0x0b, s1) ^ gf_mul_spec(0x0d, s2) ^ gf_mul_spec(0x09, s3)
}

pub open spec fn inv_mix_col1(s0: u8, s1: u8, s2: u8, s3: u8) -> u8 {
    gf_mul_spec(0x09, s0) ^ gf_mul_spec(0x0e, s1) ^ gf_mul_spec(0x0b, s2) ^ gf_mul_spec(0x0d, s3)
}

pub open spec fn inv_mix_col2(s0: u8, s1: u8, s2: u8, s3: u8) -> u8 {
    gf_mul_spec(0x0d, s0) ^ gf_mul_spec(0x09, s1) ^ gf_mul_spec(0x0e, s2) ^ gf_mul_spec(0x0b, s3)
}

pub open spec fn inv_mix_col3(s0: u8, s1: u8, s2: u8, s3: u8) -> u8 {
    gf_mul_spec(0x0b, s0) ^ gf_mul_spec(0x0d, s1) ^ gf_mul_spec(0x09, s2) ^ gf_mul_spec(0x0e, s3)
}

#[verifier::rlimit(100)]
#[verifier::spinoff_prover]
proof fn lemma_inv_mix_row0(s0: u8, s1: u8, s2: u8, s3: u8, t0: u8, t1: u8, t2: u8, t3: u8)
    by (bit_vector)
    requires
        t0 == mix_col0(s0, s1, s2, s3),
        t1 == mix_col1(s0, s1, s2, s3),
        t2 == mix_col2(s0, s1, s2, s3),
        t3 == mix_col3(s0, s1, s2, s3),
    ensures
        inv_mix_col0(t0, t1, t2, t3) == s0,
{
}

#[verifier::rlimit(100)]
#[verifier::spinoff_prover]
proof fn lemma_inv_mix_row1(s0: u8, s1: u8, s2: u8, s3: u8, t0: u8, t1: u8, t2: u8, t3: u8)
    by (bit_vector)
    requires
        t0 == mix_col0(s0, s1, s2, s3),
        t1 == mix_col1(s0, s1, s2, s3),
        t2 == mix_col2(s0, s1, s2, s3),
        t3 == mix_col3(s0, s1, s2, s3),
    ensures
        inv_mix_col1(t0, t1, t2, t3) == s1,
{
}

#[verifier::rlimit(100)]
#[verifier::spinoff_prover]
proof fn lemma_inv_mix_row2(s0: u8, s1: u8, s2: u8, s3: u8, t0: u8, t1: u8, t2: u8, t3: u8)
    by (bit_vector)
    requires
        t0 == mix_col0(s0, s1, s2, s3),
        t1 == mix_col1(s0, s1, s2, s3),
        t2 == mix_col2(s0, s1, s2, s3),
        t3 == mix_col3(s0, s1, s2, s3),
    ensures
        inv_mix_col2(t0, t1, t2, t3) == s2,
{
}

#[verifier::rlimit(100)]
#[verifier::spinoff_prover]
proof fn lemma_inv_mix_row3(s0: u8, s1: u8, s2: u8, s3: u8, t0: u8, t1: u8, t2: u8, t3: u8)
    by (bit_vector)
    requires
        t0 == mix_col0(s0, s1, s2, s3),
        t1 == mix_col1(s0, s1, s2, s3),
        t2 == mix_col2(s0, s1, s2, s3),
        t3 == mix_col3(s0, s1, s2, s3),
    ensures
        inv_mix_col3(t0, t1, t2, t3) == s3,
{
}

/// The inverse MixColumns matrix undoes the forward one on every column.
pub proof fn lemma_mix_columns_inverse(s0: u8, s1: u8, s2: u8, s3: u8)
    ensures
        inv_mix_col0(
            mix_col0(s0, s1, s2, s3),
            mix_col1(s0, s1, s2, s3),
            mix_col2(s0, s1, s2, s3),
            mix_col3(s0, s1, s2, s3),
        ) == s0,
        inv_mix_col1(
            mix_col0(s0, s1, s2, s3),
            mix_col1(s0, s1, s2, s3),
            mix_col2(s0, s1, s2, s3),
            mix_col3(s0, s1, s2, s3),
        ) == s1,
        inv_mix_col2(
            mix_col0(s0, s1, s2, s3),
            mix_col1(s0, s1, s2, s3),
            mix_col2(s0, s1, s2, s3),
            mix_col3(s0, s1, s2, s3),
        ) == s2,
        inv_mix_col3(
            mix_col0(s0, s1, s2, s3),
            mix_col1(s0, s1, s2, s3),
            mix_col2(s0, s1, s2, s3),
            mix_col3(s0, s1, s2, s3),
        ) == s3,
{
    let t0 = mix_col0(s0, s1, s2, s3);
    let t1 = mix_col1(s0, s1, s2, s3);
    let t2 = mix_col2(s0, s1, s2, s3);
    let t3 = mix_col3(s0, s1, s2, s3);
    lemma_inv_mix_row0(s0, s1, s2, s3, t0, t1, t2, t3);
    lemma_inv_mix_row1(s0, s1, s2, s3, t0, t1, t2, t3);
    lemma_inv_mix_row2(s0, s1, s2, s3, t0, t1, t2, t3);
    lemma_inv_mix_row3(s0, s1, s2, s3, t0, t1, t2, t3);
}

} // verus!
