//! The additive (Caesar) cipher: every letter shifted by a fixed key,
//! case kept, everything else left as it is. The effective shift is the
//! key modulo 26.

use vstd::prelude::*;
use vstd::string::StringSliceAdditionalSpecFns;
use crate::letters::{is_alpha, is_upper, is_lower, shift_fwd, shift_back, shift_byte_fwd, shift_byte_back};

verus! {

/// Every byte shifted forward by `k` places.
pub open spec fn additive_encrypt_spec(s: Seq<u8>, k: int) -> Seq<u8> {
    Seq::new(s.len(), |i: int| shift_fwd(s[i], k % 26))
}

/// Every byte shifted backward by `k` places.
pub open spec fn additive_decrypt_spec(s: Seq<u8>, k: int) -> Seq<u8> {
    Seq::new(s.len(), |i: int| shift_back(s[i], k % 26))
}

/// Encrypt by shifting every letter forward by the key.
pub fn encrypt(content: &str, key: u8) -> (r: Vec<u8>)
    ensures
        r@ == additive_encrypt_spec(content.spec_bytes(), key as int),
{
    let b: &[u8] = content.as_bytes();
    let k: u8 = key % 26;
    let mut out: Vec<u8> = Vec::new();
    let mut i: usize = 0;
    while i < b.len()
        invariant
            i <= b@.len(),
            k == key % 26,
            b@ == content.spec_bytes(),
            out@ == additive_encrypt_spec(b@, key as int).subrange(0, i as int),
        decreases b@.len() - i,
    {
        out.push(shift_byte_fwd(b[i], k));
        proof {
            assert(out@ =~= additive_encrypt_spec(b@, key as int).subrange(0, i as int + 1));
        }
        i += 1;
    }
    proof {
        assert(additive_encrypt_spec(b@, key as int).subrange(0, b@.len() as int)
            =~= additive_encrypt_spec(b@, key as int));
    }
    out
}

/// Decrypt by shifting every letter backward by the key.
pub fn decrypt(content: &str, key: u8) -> (r: Vec<u8>)
    ensures
        r@ == additive_decrypt_spec(content.spec_bytes(), key as int),
{
    let b: &[u8] = content.as_bytes();
    let k: u8 = key % 26;
    let mut out: Vec<u8> = Vec::new();
    let mut i: usize = 0;
    while i < b.len()
        invariant
            i <= b@.len(),
            k == key % 26,
            b@ == content.spec_bytes(),
            out@ == additive_decrypt_spec(b@, key as int).subrange(0, i as int),
        decreases b@.len() - i,
    {
        out.push(shift_byte_back(b[i], k));
        proof {
            assert(out@ =~= additive_decrypt_spec(b@, key as int).subrange(0, i as int + 1));
        }
        i += 1;
    }
    proof {
        assert(additive_decrypt_spec(b@, key as int).subrange(0, b@.len() as int)
            =~= additive_decrypt_spec(b@, key as int));
    }
    out
}

/// Decrypting what was encrypted under the same key returns the
/// original bytes: the backward shift undoes the forward one.
pub proof fn lemma_additive_round_trip(s: Seq<u8>, k: int)
    ensures
        additive_decrypt_spec(additive_encrypt_spec(s, k), k) == s,
{
    let e: Seq<u8> = additive_encrypt_spec(s, k);
    let d: Seq<u8> = additive_decrypt_spec(e, k);
    assert forall|i: int| 0 <= i < s.len() implies d[i] == s[i] by {
        let b: u8 = s[i];
        let q: int = k % 26;
        assert(0 <= q < 26);
        if is_upper(b) {
            assert(shift_back(shift_fwd(b, q), q) == b) by (nonlinear_arith)
                requires
                    0x41 <= b <= 0x5a && 0 <= q < 26,
            ;
        } else if is_lower(b) {
            assert(shift_back(shift_fwd(b, q), q) == b) by (nonlinear_arith)
                requires
                    0x61 <= b <= 0x7a && 0 <= q < 26,
            ;
        }
    }
    assert(d =~= s);
}

} // verus!
