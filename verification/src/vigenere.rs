//! The Vigenère cipher — every letter shifted by the next letter of a
//! repeating key, case kept, non-letters passed through without
//! consuming a key position — and the text-preparation steps of its
//! frequency analysis.

use vstd::prelude::*;
use vstd::string::StringSliceAdditionalSpecFns;
use crate::letters::{is_alpha, upper_of, shift_fwd, shift_back, shift_byte_fwd, shift_byte_back};

verus! {

/// The shift a key letter stands for: 0 for `a`/`A` to 25 for `z`/`Z`.
pub open spec fn key_shift(kb: u8) -> int {
    if 0x41 <= kb <= 0x5a {
        kb - 0x41
    } else {
        kb - 0x61
    }
}

/// A key usable for the cipher: nonempty, letters only.
pub open spec fn key_ok(key: Seq<u8>) -> bool {
    key.len() > 0 && forall|i: int| 0 <= i < key.len() ==> is_alpha(#[trigger] key[i])
}

/// The number of letters among the first `n` bytes: how many key
/// positions they consumed.
pub open spec fn count_alpha_prefix(s: Seq<u8>, n: int) -> int
    decreases n,
{
    if n <= 0 {
        0
    } else {
        count_alpha_prefix(s, n - 1) + (if is_alpha(s[n - 1]) {
            1int
        } else {
            0int
        })
    }
}

/// Vigenère encryption: letter `i` shifted forward by the key letter at
/// the position given by how many letters came before it.
pub open spec fn vigenere_encrypt_spec(s: Seq<u8>, key: Seq<u8>) -> Seq<u8> {
    Seq::new(
        s.len(),
        |i: int|
            if is_alpha(s[i]) {
                shift_fwd(s[i], key_shift(key[count_alpha_prefix(s, i) % key.len() as int]))
            } else {
                s[i]
            },
    )
}

/// Vigenère decryption: the same walk with backward shifts.
pub open spec fn vigenere_decrypt_spec(s: Seq<u8>, key: Seq<u8>) -> Seq<u8> {
    Seq::new(
        s.len(),
        |i: int|
            if is_alpha(s[i]) {
                shift_back(s[i], key_shift(key[count_alpha_prefix(s, i) % key.len() as int]))
            } else {
                s[i]
            },
    )
}

proof fn lemma_count_alpha_bounds(s: Seq<u8>, n: int)
    ensures
        0 <= count_alpha_prefix(s, n) <= (if n >= 0 { n } else { 0 }),
    decreases n,
{
    if n > 0 {
        lemma_count_alpha_bounds(s, n - 1);
    }
}

/// Encrypt text under a letters-only key.
#[verifier::loop_isolation(false)]
pub fn encrypt(content: &str, key: &str) -> (r: Vec<u8>)
    requires
        key_ok(key.spec_bytes()),
    ensures
        r@ == vigenere_encrypt_spec(content.spec_bytes(), key.spec_bytes()),
{
    vigenere_walk(content, key, true)
}

/// Decrypt text under a letters-only key.
#[verifier::loop_isolation(false)]
pub fn decrypt(content: &str, key: &str) -> (r: Vec<u8>)
    requires
        key_ok(key.spec_bytes()),
    ensures
        r@ == vigenere_decrypt_spec(content.spec_bytes(), key.spec_bytes()),
{
    vigenere_walk(content, key, false)
}

/// Decrypt a recovered ciphertext with a recovered key; identical to
/// `decrypt`, under the analysis entry point's name.
pub fn vigenere_decrypt(ciphertext: &str, key: &str) -> (r: Vec<u8>)
    requires
        key_ok(key.spec_bytes()),
    ensures
        r@ == vigenere_decrypt_spec(ciphertext.spec_bytes(), key.spec_bytes()),
{
    decrypt(ciphertext, key)
}

/// The shared walk of both directions.
#[verifier::loop_isolation(false)]
fn vigenere_walk(content: &str, key: &str, forward: bool) -> (r: Vec<u8>)
    requires
        key_ok(key.spec_bytes()),
    ensures
        forward ==> r@ == vigenere_encrypt_spec(content.spec_bytes(), key.spec_bytes()),
        !forward ==> r@ == vigenere_decrypt_spec(content.spec_bytes(), key.spec_bytes()),
{
    let b: &[u8] = content.as_bytes();
    let kb: &[u8] = key.as_bytes();
    let key_len: usize = kb.len();
    let mut out: Vec<u8> = Vec::new();
    let mut key_index: usize = 0;
    let mut i: usize = 0;
    let ghost target: Seq<u8> = if forward {
        vigenere_encrypt_spec(b@, kb@)
    } else {
        vigenere_decrypt_spec(b@, kb@)
    };
    while i < b.len()
        invariant
            i <= b@.len(),
            key_index == count_alpha_prefix(b@, i as int),
            out@ == target.subrange(0, i as int),
        decreases b@.len() - i,
    {
        let c: u8 = b[i];
        if (0x41 <= c && c <= 0x5a) || (0x61 <= c && c <= 0x7a) {
            let k: u8 = kb[key_index % key_len];
            let sh: u8 = if 0x41 <= k && k <= 0x5a {
                k - 0x41
            } else {
                k - 0x61
            };
            proof {
                assert(is_alpha(kb@[key_index as int % key_len as int]));
                lemma_count_alpha_bounds(b@, i as int);
            }
            let shifted: u8 = if forward {
                shift_byte_fwd(c, sh)
            } else {
                shift_byte_back(c, sh)
            };
            out.push(shifted);
            key_index += 1;
        } else {
            out.push(c);
        }
        proof {
            assert(out@ =~= target.subrange(0, i as int + 1));
        }
        i += 1;
    }
    proof {
        assert(target.subrange(0, b@.len() as int) =~= target);
    }
    out
}

proof fn lemma_count_alpha_same(s: Seq<u8>, e: Seq<u8>, n: int)
    requires
        s.len() == e.len(),
        forall|m: int| 0 <= m < s.len() ==> (is_alpha(#[trigger] e[m]) <==> is_alpha(s[m])),
        0 <= n <= s.len(),
    ensures
        count_alpha_prefix(e, n) == count_alpha_prefix(s, n),
    decreases n,
{
    if n > 0 {
        lemma_count_alpha_same(s, e, n - 1);
    }
}

/// Decrypting an encryption under the same key returns the original
/// bytes: each letter's backward shift undoes its forward shift, and
/// both walks consume key positions in step.
pub proof fn lemma_vigenere_round_trip(s: Seq<u8>, key: Seq<u8>)
    requires
        key_ok(key),
    ensures
        vigenere_decrypt_spec(vigenere_encrypt_spec(s, key), key) == s,
{
    let e: Seq<u8> = vigenere_encrypt_spec(s, key);
    let d: Seq<u8> = vigenere_decrypt_spec(e, key);
    assert forall|m: int| 0 <= m < s.len() implies (is_alpha(#[trigger] e[m]) <==> is_alpha(
        s[m],
    )) by {
        if is_alpha(s[m]) {
            let idx: int = count_alpha_prefix(s, m) % key.len() as int;
            lemma_count_alpha_bounds(s, m);
            assert(is_alpha(key[idx]));
            crate::letters::lemma_shift_alpha(s[m], key_shift(key[idx]));
        }
    }
    assert forall|i: int| 0 <= i < s.len() implies d[i] == s[i] by {
        lemma_count_alpha_same(s, e, i);
        if is_alpha(s[i]) {
            let idx: int = count_alpha_prefix(s, i) % key.len() as int;
            lemma_count_alpha_bounds(s, i);
            assert(is_alpha(key[idx]));
            let q: int = key_shift(key[idx]);
            crate::letters::lemma_shift_alpha(s[i], q);
            crate::letters::lemma_shift_cancel(s[i], q);
        }
    }
    assert(d =~= s);
}

/// Only the letters of the text, raised to upper case.
pub open spec fn clean_text_spec(s: Seq<u8>) -> Seq<u8>
    decreases s.len(),
{
    if s.len() == 0 {
        s
    } else {
        clean_text_spec(s.drop_last()) + (if is_alpha(s.last()) {
            seq![upper_of(s.last())]
        } else {
            Seq::<u8>::empty()
        })
    }
}

/// Keep only letters and raise them to upper case.
#[verifier::loop_isolation(false)]
pub fn clean_text(text: &str) -> (r: Vec<u8>)
    ensures
        r@ == clean_text_spec(text.spec_bytes()),
{
    let b: &[u8] = text.as_bytes();
    let mut out: Vec<u8> = Vec::new();
    let mut i: usize = 0;
    proof {
        assert(b@.take(0) =~= Seq::<u8>::empty());
    }
    while i < b.len()
        invariant
            i <= b@.len(),
            out@ == clean_text_spec(b@.take(i as int)),
        decreases b@.len() - i,
    {
        let ghost pre: Seq<u8> = b@.take(i as int);
        proof {
            assert(b@.take(i as int + 1).drop_last() =~= pre);
            assert(b@.take(i as int + 1).last() == b@[i as int]);
        }
        let c: u8 = b[i];
        if 0x41 <= c && c <= 0x5a {
            out.push(c);
            proof {
                assert(out@ =~= clean_text_spec(pre) + seq![upper_of(b@[i as int])]);
            }
        } else if 0x61 <= c && c <= 0x7a {
            out.push(c - 0x20);
            proof {
                assert(out@ =~= clean_text_spec(pre) + seq![upper_of(b@[i as int])]);
            }
        } else {
            proof {
                assert(out@ =~= clean_text_spec(pre) + Seq::<u8>::empty());
            }
        }
        i += 1;
    }
    proof {
        assert(b@.take(b@.len() as int) =~= b@);
    }
    out
}

/// How many bytes of a text of length `len` sit at positions congruent
/// to `j` modulo `k`.
pub open spec fn subtext_len(len: int, k: int, j: int) -> int {
    if j >= len {
        0
    } else {
        (len - j - 1) / k + 1
    }
}

/// The bytes at positions congruent to `j` modulo `k`.
pub open spec fn subtext_spec(s: Seq<u8>, k: int, j: int) -> Seq<u8> {
    Seq::new(subtext_len(s.len() as int, k, j) as nat, |m: int| s[j + k * m])
}

/// Split a text into `key_length` subtexts, the `j`-th holding the
/// bytes at positions congruent to `j`: all bytes enciphered by the
/// same key letter, when the text is the letters-only stream.
#[verifier::loop_isolation(false)]
pub fn split_text_by_key_length(text: &str, key_length: usize) -> (r: Vec<Vec<u8>>)
    requires
        key_length > 0,
        text.spec_bytes().len() + key_length <= usize::MAX,
    ensures
        r@.len() == key_length,
        forall|j: int| 0 <= j < key_length ==> #[trigger] r@[j]@ == subtext_spec(
            text.spec_bytes(),
            key_length as int,
            j,
        ),
{
    let b: &[u8] = text.as_bytes();
    let mut r: Vec<Vec<u8>> = Vec::new();
    let mut j: usize = 0;
    while j < key_length
        invariant
            j <= key_length,
            r@.len() == j,
            forall|t: int| 0 <= t < j ==> #[trigger] r@[t]@ == subtext_spec(b@, key_length as int, t),
        decreases key_length - j,
    {
        let mut sub: Vec<u8> = Vec::new();
        let mut pos: usize = j;
        let ghost m: int = 0;
        while pos < b.len()
            invariant
                j < key_length,
                pos == j + key_length * m,
                m >= 0,
                m > 0 ==> j + key_length * (m - 1) < b@.len(),
                sub@.len() == m,
                sub@ == Seq::new(m as nat, |t: int| b@[j + key_length * t]),
                pos <= b@.len() + key_length,
            decreases b@.len() + key_length - pos,
        {
            sub.push(b[pos]);
            proof {
                assert(sub@ =~= Seq::new((m + 1) as nat, |t: int| b@[j + key_length * t]));
            }
            pos += key_length;
            proof {
                let m0: int = m;
                m = m + 1;
                assert(key_length * (m0 + 1) == key_length * m0 + key_length) by (nonlinear_arith);
                assert(key_length * ((m0 + 1) - 1) == key_length * m0) by (nonlinear_arith);
            }
        }
        proof {
            let len: int = b@.len() as int;
            let k: int = key_length as int;
            if m == 0 {
                assert(j >= len);
                assert(sub@ =~= subtext_spec(b@, k, j as int));
            } else {
                assert(j + k * (m - 1) < len <= j + k * m);
                assert((len - j - 1) / k + 1 == m) by (nonlinear_arith)
                    requires
                        k > 0 && m >= 1 && j + k * (m - 1) < len && len <= j + k * m && j >= 0,
                ;
                assert(sub@ =~= subtext_spec(b@, k, j as int));
            }
        }
        r.push(sub);
        j += 1;
    }
    r
}

} // verus!
