//! Shared vocabulary of the letter ciphers: ASCII letter tests and the
//! Caesar shift of a single byte, case kept, everything else unchanged.

use vstd::prelude::*;

verus! {

/// An upper-case ASCII letter.
pub open spec fn is_upper(b: u8) -> bool {
    0x41 <= b <= 0x5a
}

/// A lower-case ASCII letter.
pub open spec fn is_lower(b: u8) -> bool {
    0x61 <= b <= 0x7a
}

/// An ASCII letter of either case.
pub open spec fn is_alpha(b: u8) -> bool {
    is_upper(b) || is_lower(b)
}

/// A letter raised to upper case; all else unchanged.
pub open spec fn upper_of(b: u8) -> u8 {
    if is_lower(b) {
        (b - 0x20) as u8
    } else {
        b
    }
}

/// A letter shifted forward by `k` places in its alphabet, for `k` in
/// 0..26; non-letters pass through unchanged.
pub open spec fn shift_fwd(b: u8, k: int) -> u8 {
    if is_upper(b) {
        ((b - 0x41 + k) % 26 + 0x41) as u8
    } else if is_lower(b) {
        ((b - 0x61 + k) % 26 + 0x61) as u8
    } else {
        b
    }
}

/// A letter shifted backward by `k` places, for `k` in 0..26.
pub open spec fn shift_back(b: u8, k: int) -> u8 {
    shift_fwd(b, (26 - k) % 26)
}

/// Shift one byte forward by `k` places.
pub fn shift_byte_fwd(b: u8, k: u8) -> (r: u8)
    requires
        k < 26,
    ensures
        r == shift_fwd(b, k as int),
{
    if 0x41 <= b && b <= 0x5a {
        ((b - 0x41 + k) % 26) + 0x41
    } else if 0x61 <= b && b <= 0x7a {
        ((b - 0x61 + k) % 26) + 0x61
    } else {
        b
    }
}

/// Shift one byte backward by `k` places.
pub fn shift_byte_back(b: u8, k: u8) -> (r: u8)
    requires
        k < 26,
    ensures
        r == shift_back(b, k as int),
{
    shift_byte_fwd(b, (26 - k) % 26)
}

/// The number of occurrences of letter `l` (0 for A to 25 for Z) in a
/// byte stream, counting both cases.
pub open spec fn count_letter(s: Seq<u8>, l: int) -> int
    decreases s.len(),
{
    if s.len() == 0 {
        0
    } else {
        count_letter(s.drop_last(), l) + (if is_alpha(s.last()) && upper_of(s.last()) == 0x41 + l {
            1int
        } else {
            0int
        })
    }
}

pub proof fn lemma_count_letter_le(s: Seq<u8>, l: int)
    ensures
        0 <= count_letter(s, l) <= s.len(),
    decreases s.len(),
{
    if s.len() > 0 {
        lemma_count_letter_le(s.drop_last(), l);
    }
}


/// Shifting forward keeps letters letters, with their case, and leaves
/// everything else untouched.
pub proof fn lemma_shift_alpha(b: u8, q: int)
    requires
        0 <= q < 26,
    ensures
        is_upper(shift_fwd(b, q)) == is_upper(b),
        is_lower(shift_fwd(b, q)) == is_lower(b),
        is_alpha(shift_fwd(b, q)) == is_alpha(b),
{
}

/// The backward shift undoes the forward shift of the same amount.
pub proof fn lemma_shift_cancel(b: u8, q: int)
    requires
        0 <= q < 26,
    ensures
        shift_back(shift_fwd(b, q), q) == b,
{
    if is_upper(b) {
        assert(shift_back(shift_fwd(b, q), q) == b) by (nonlinear_arith)
            requires
                0x41 <= b <= 0x5a && 0 <= q < 26,
        ;
    } else if is_lower(b) {
        assert(shift_back(shift_fwd(b, q), q) == b) by (nonlinear_arith)
            requires
                0x61 <= b <= 0x7a && 0 <= q < 26,
        ;
    }
}

} // verus!
