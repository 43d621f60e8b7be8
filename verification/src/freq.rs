//! Frequency analysis of an additive cipher over German text: count
//! letter frequencies, guess the key by assuming the most frequent
//! ciphertext letter stands for `e`, and decrypt with it.

use vstd::prelude::*;
use vstd::string::StringSliceAdditionalSpecFns;
use crate::letters::{is_alpha, upper_of, count_letter, lemma_count_letter_le};
use crate::additive::{additive_decrypt_spec};

verus! {

/// Count how often each letter occurs, case-insensitively: entry `l`
/// holds the occurrences of the `l`-th letter of the alphabet.
#[verifier::loop_isolation(false)]
pub fn count_frequencies(content: &str) -> (r: [u32; 26])
    requires
        content.spec_bytes().len() <= u32::MAX,
    ensures
        forall|l: int| 0 <= l < 26 ==> r@[l] == count_letter(content.spec_bytes(), l),
{
    let b: &[u8] = content.as_bytes();
    let mut frequencies: [u32; 26] = [0; 26];
    let mut i: usize = 0;
    proof {
        assert(b@.take(0) =~= Seq::<u8>::empty());
    }
    while i < b.len()
        invariant
            i <= b@.len(),
            forall|l: int| 0 <= l < 26 ==> frequencies@[l] == count_letter(b@.take(i as int), l),
        decreases b@.len() - i,
    {
        let ghost pre: Seq<u8> = b@.take(i as int);
        proof {
            assert(b@.take(i as int + 1).drop_last() =~= pre);
            assert(b@.take(i as int + 1).last() == b@[i as int]);
        }
        let c: u8 = b[i];
        if (0x41 <= c && c <= 0x5a) || (0x61 <= c && c <= 0x7a) {
            let index: usize = if c <= 0x5a {
                (c - 0x41) as usize
            } else {
                (c - 0x61) as usize
            };
            proof {
                assert(upper_of(b@[i as int]) == 0x41 + index);
                lemma_count_letter_le(pre, index as int);
            }
            frequencies[index] = frequencies[index] + 1;
        }
        i += 1;
    }
    proof {
        assert(b@.take(b@.len() as int) =~= b@);
    }
    frequencies
}

/// The index of the largest entry among the first `n`, the last one
/// winning ties.
pub open spec fn argmax_last(f: Seq<u32>, n: int) -> int
    decreases n,
{
    if n <= 1 {
        0
    } else {
        let p = argmax_last(f, n - 1);
        if f[n - 1] >= f[p] {
            n - 1
        } else {
            p
        }
    }
}

/// The additive key under which the most frequent ciphertext letter
/// decrypts to `e`, the most frequent letter of German text.
pub open spec fn best_key_spec(f: Seq<u32>) -> u8 {
    ((argmax_last(f, 26) + 22) % 26) as u8
}

/// Guess the key: the shift that maps the most frequent letter to `e`.
pub fn find_best_key(frequencies: &[u32; 26]) -> (r: u8)
    ensures
        r == best_key_spec(frequencies@),
{
    let mut best: usize = 0;
    let mut i: usize = 1;
    while i < 26
        invariant
            1 <= i <= 26,
            best < i,
            best == argmax_last(frequencies@, i as int),
        decreases 26 - i,
    {
        if frequencies[i] >= frequencies[best] {
            best = i;
        }
        i += 1;
    }
    ((best as u8) + 26 - 4) % 26
}

/// Decrypt an additive cipher with the given key: every letter shifted
/// back, everything else untouched.
pub fn decrypt(content: &str, key: u8) -> (r: Vec<u8>)
    ensures
        r@ == additive_decrypt_spec(content.spec_bytes(), key as int),
{
    crate::additive::decrypt(content, key)
}

} // verus!
