//! SHA3-224 following the sponge construction of FIPS 202: a 1600-bit
//! state as a 5x5 array of 64-bit lanes, a rate of 1152 bits (144
//! bytes), 24 rounds of the Keccak permutation, and a 28-byte digest.
//!
//! The state's mathematical view is a flat sequence of 25 lanes: lane
//! `k` is row `k % 5`, column `k / 5`, so that word `i` of an absorbed
//! block lands in lane `i`.

use vstd::prelude::*;
use vstd::string::StringSliceAdditionalSpecFns;
use vstd::string::StringExecFns;

verus! {

/// The flat 25-lane view of the 5x5 state.
pub open spec fn state_words(s: [[u64; 5]; 5]) -> Seq<u64> {
    Seq::new(25, |k: int| s@[k % 5]@[k / 5])
}

/// Rotate a 64-bit lane left by `p` positions (modulo 64).
pub open spec fn rol64_spec(v: u64, p: int) -> u64 {
    let q: int = p % 64;
    if q == 0 {
        v
    } else {
        (v << (q as u64)) | (v >> ((64 - q) as u64))
    }
}

/// The parity of column `x`: the XOR of its five lanes.
pub open spec fn col_parity(st: Seq<u64>, x: int) -> u64 {
    st[x] ^ st[x + 5] ^ st[x + 10] ^ st[x + 15] ^ st[x + 20]
}

/// Theta: XOR into every lane the parity of the column to its left and
/// the rotated parity of the column to its right (columns run over the
/// second coordinate).
pub open spec fn theta_spec(st: Seq<u64>) -> Seq<u64> {
    Seq::new(
        25,
        |k: int| st[k] ^ (col_parity(st, (k % 5 + 4) % 5) ^ rol64_spec(col_parity(st, (k % 5 + 1) % 5), 1)),
    )
}

/// The rotation offset of the lane at row `i`, column `j`.
pub open spec fn rho_off(i: int, j: int) -> int {
    if i == 0 && j == 0 { 0 }
    else if i == 0 && j == 1 { 1 }
    else if i == 0 && j == 2 { 62 }
    else if i == 0 && j == 3 { 28 }
    else if i == 0 && j == 4 { 27 }
    else if i == 1 && j == 0 { 36 }
    else if i == 1 && j == 1 { 44 }
    else if i == 1 && j == 2 { 6 }
    else if i == 1 && j == 3 { 55 }
    else if i == 1 && j == 4 { 20 }
    else if i == 2 && j == 0 { 3 }
    else if i == 2 && j == 1 { 10 }
    else if i == 2 && j == 2 { 43 }
    else if i == 2 && j == 3 { 25 }
    else if i == 2 && j == 4 { 39 }
    else if i == 3 && j == 0 { 41 }
    else if i == 3 && j == 1 { 45 }
    else if i == 3 && j == 2 { 15 }
    else if i == 3 && j == 3 { 21 }
    else if i == 3 && j == 4 { 8 }
    else if i == 4 && j == 0 { 18 }
    else if i == 4 && j == 1 { 2 }
    else if i == 4 && j == 2 { 61 }
    else if i == 4 && j == 3 { 56 }
    else if i == 4 && j == 4 { 14 }
    else { 0 }
}

/// Rho: rotate every lane by its fixed offset.
pub open spec fn rho_spec(st: Seq<u64>) -> Seq<u64> {
    Seq::new(25, |k: int| rol64_spec(st[k], rho_off(k / 5, k % 5)))
}

/// Pi: permute the lanes, moving the lane at row `i`, column `j` to row
/// `j`, column `(2 i + 3 j) % 5`.
pub open spec fn pi_spec(st: Seq<u64>) -> Seq<u64> {
    Seq::new(25, |k: int| st[((k % 5 + 3 * (k / 5)) % 5) + 5 * (k % 5)])
}

/// Chi: the nonlinear step, XORing each lane with a function of the
/// next two lanes of its row.
pub open spec fn chi_spec(st: Seq<u64>) -> Seq<u64> {
    Seq::new(
        25,
        |k: int| st[k] ^ ((!st[((k % 5 + 1) % 5) + 5 * (k / 5)]) & st[((k % 5 + 2) % 5) + 5 * (k / 5)]),
    )
}

/// The round constant XORed into lane 0 by iota in round `r`.
pub open spec fn rc_spec(r: int) -> u64 {
    if r == 0 { 0x0000000000000001 }
    else if r == 1 { 0x0000000000008082 }
    else if r == 2 { 0x800000000000808A }
    else if r == 3 { 0x8000000080008000 }
    else if r == 4 { 0x000000000000808B }
    else if r == 5 { 0x0000000080000001 }
    else if r == 6 { 0x8000000080008081 }
    else if r == 7 { 0x8000000000008009 }
    else if r == 8 { 0x000000000000008A }
    else if r == 9 { 0x0000000000000088 }
    else if r == 10 { 0x0000000080008009 }
    else if r == 11 { 0x000000008000000A }
    else if r == 12 { 0x000000008000808B }
    else if r == 13 { 0x800000000000008B }
    else if r == 14 { 0x8000000000008089 }
    else if r == 15 { 0x8000000000008003 }
    else if r == 16 { 0x8000000000008002 }
    else if r == 17 { 0x8000000000000080 }
    else if r == 18 { 0x000000000000800A }
    else if r == 19 { 0x800000008000000A }
    else if r == 20 { 0x8000000080008081 }
    else if r == 21 { 0x8000000000008080 }
    else if r == 22 { 0x0000000080000001 }
    else if r == 23 { 0x8000000080008008 }
    else { 0 }
}

/// Iota: XOR the round constant into lane 0.
pub open spec fn iota_spec(st: Seq<u64>, r: int) -> Seq<u64> {
    st.update(0, st[0] ^ rc_spec(r))
}

/// The state after rounds 0 to `n - 1` of the Keccak permutation.
pub open spec fn keccak_rounds_spec(st: Seq<u64>, n: int) -> Seq<u64>
    decreases n,
{
    if n <= 0 {
        st
    } else {
        iota_spec(chi_spec(pi_spec(rho_spec(theta_spec(keccak_rounds_spec(st, n - 1))))), n - 1)
    }
}

/// The full 24-round Keccak permutation.
pub open spec fn keccak_f_spec(st: Seq<u64>) -> Seq<u64> {
    keccak_rounds_spec(st, 24)
}

/// The 64-bit word at position `i` of a block, read little-endian.
pub open spec fn le64(b: Seq<u8>, i: int) -> u64 {
    (b[8 * i] as u64) | ((b[8 * i + 1] as u64) << 8) | ((b[8 * i + 2] as u64) << 16) | ((b[8 * i
        + 3] as u64) << 24) | ((b[8 * i + 4] as u64) << 32) | ((b[8 * i + 5] as u64) << 40) | ((b[8
        * i + 6] as u64) << 48) | ((b[8 * i + 7] as u64) << 56)
}

/// The state with a 144-byte block XORed into its first 18 lanes.
pub open spec fn absorb_xor_spec(st: Seq<u64>, block: Seq<u8>) -> Seq<u64> {
    Seq::new(25, |k: int| if k < 18 { st[k] ^ le64(block, k) } else { st[k] })
}

/// Absorb one 144-byte block: XOR it into the rate portion of the state
/// and run the permutation.
pub open spec fn absorb_block_spec(st: Seq<u64>, block: Seq<u8>) -> Seq<u64> {
    keccak_f_spec(absorb_xor_spec(st, block))
}

/// Absorb every whole 144-byte block of the byte stream; the result is
/// the new state and the bytes still pending (fewer than 144).
pub open spec fn absorb_stream(st: Seq<u64>, bytes: Seq<u8>) -> (Seq<u64>, Seq<u8>)
    decreases bytes.len(),
{
    if bytes.len() < 144 {
        (st, bytes)
    } else {
        absorb_stream(absorb_block_spec(st, bytes.take(144)), bytes.skip(144))
    }
}

/// The pending bytes extended to a 144-byte block with the SHA3 domain
/// padding: 0x06 after the data, zeros, and the top bit of the last
/// byte set.
pub open spec fn pad144_spec(p: Seq<u8>) -> Seq<u8> {
    Seq::new(
        144,
        |i: int|
            {
                let b: u8 = if i < p.len() {
                    p[i]
                } else if i == p.len() {
                    0x06
                } else {
                    0
                };
                if i == 143 {
                    b | 0x80
                } else {
                    b
                }
            },
    )
}

/// The first 28 bytes of the state, read lane by lane, little-endian.
pub open spec fn squeeze_spec(st: Seq<u64>) -> Seq<u8> {
    Seq::new(28, |i: int| (st[i / 8] >> ((8 * (i % 8)) as u64)) as u8)
}

/// The all-zero initial state.
pub open spec fn zero_state() -> Seq<u64> {
    Seq::new(25, |k: int| 0u64)
}

/// The SHA3-224 digest of a byte stream: absorb every whole block, pad
/// what is left, absorb the final block, and squeeze 28 bytes.
pub open spec fn sha3_224_spec(data: Seq<u8>) -> Seq<u8> {
    let st = absorb_stream(zero_state(), data);
    squeeze_spec(absorb_block_spec(st.0, pad144_spec(st.1)))
}

/// A SHA3-224 hasher: the 5x5 lane state and a buffer of not yet
/// absorbed input bytes.
pub struct Sha3_224 {
    state: [[u64; 5]; 5],
    buffer: Vec<u8>,
    buffer_len: usize,
}

impl Sha3_224 {
    /// The hasher is well formed: a 144-byte buffer holding fewer than
    /// 144 pending bytes.
    pub closed spec fn wf(&self) -> bool {
        self.buffer@.len() == 144 && self.buffer_len < 144
    }

    /// The flat view of the lane state.
    pub closed spec fn state_view(&self) -> Seq<u64> {
        state_words(self.state)
    }

    /// The input bytes buffered but not yet absorbed.
    pub closed spec fn pending(&self) -> Seq<u8> {
        self.buffer@.take(self.buffer_len as int)
    }

    /// A fresh hasher: zero state, nothing pending.
    #[verifier::loop_isolation(false)]
    pub fn new() -> (r: Sha3_224)
        ensures
            r.wf(),
            r.state_view() == zero_state(),
            r.pending() == Seq::<u8>::empty(),
    {
        let mut buffer: Vec<u8> = Vec::new();
        let mut k: usize = 0;
        while k < 144
            invariant
                k <= 144,
                buffer@ == Seq::new(k as nat, |i: int| 0u8),
            decreases 144 - k,
        {
            buffer.push(0);
            proof {
                assert(buffer@ =~= Seq::new((k + 1) as nat, |i: int| 0u8));
            }
            k += 1;
        }
        let r = Sha3_224 { state: [[0u64; 5]; 5], buffer, buffer_len: 0 };
        proof {
            assert(r.state_view() =~= zero_state());
            assert(r.pending() =~= Seq::<u8>::empty());
        }
        r
    }

    /// Rotate a lane left.
    fn rol64(value: u64, positions: usize) -> (r: u64)
        ensures
            r == rol64_spec(value, positions as int),
    {
        let q: usize = positions % 64;
        if q == 0 {
            value
        } else {
            (value << (q as u64)) | (value >> ((64 - q) as u64))
        }
    }

    /// Theta: column parities XORed across the state.
    fn theta(&mut self)
        ensures
            state_words(final(self).state) == theta_spec(state_words(old(self).state)),
            final(self).buffer == old(self).buffer,
            final(self).buffer_len == old(self).buffer_len,
    {
        let s = self.state;
        let p0 = s[0][0] ^ s[0][1] ^ s[0][2] ^ s[0][3] ^ s[0][4];
        let p1 = s[1][0] ^ s[1][1] ^ s[1][2] ^ s[1][3] ^ s[1][4];
        let p2 = s[2][0] ^ s[2][1] ^ s[2][2] ^ s[2][3] ^ s[2][4];
        let p3 = s[3][0] ^ s[3][1] ^ s[3][2] ^ s[3][3] ^ s[3][4];
        let p4 = s[4][0] ^ s[4][1] ^ s[4][2] ^ s[4][3] ^ s[4][4];
        let t0 = p4 ^ Self::rol64(p1, 1);
        let t1 = p0 ^ Self::rol64(p2, 1);
        let t2 = p1 ^ Self::rol64(p3, 1);
        let t3 = p2 ^ Self::rol64(p4, 1);
        let t4 = p3 ^ Self::rol64(p0, 1);
        self.state = [
            [s[0][0] ^ t0, s[0][1] ^ t0, s[0][2] ^ t0, s[0][3] ^ t0, s[0][4] ^ t0],
            [s[1][0] ^ t1, s[1][1] ^ t1, s[1][2] ^ t1, s[1][3] ^ t1, s[1][4] ^ t1],
            [s[2][0] ^ t2, s[2][1] ^ t2, s[2][2] ^ t2, s[2][3] ^ t2, s[2][4] ^ t2],
            [s[3][0] ^ t3, s[3][1] ^ t3, s[3][2] ^ t3, s[3][3] ^ t3, s[3][4] ^ t3],
            [s[4][0] ^ t4, s[4][1] ^ t4, s[4][2] ^ t4, s[4][3] ^ t4, s[4][4] ^ t4],
        ];
        proof {
            assert(state_words(self.state) =~= theta_spec(state_words(s)));
        }
    }

    /// Rho: rotate every lane by its offset.
    fn rho(&mut self)
        ensures
            state_words(final(self).state) == rho_spec(state_words(old(self).state)),
            final(self).buffer == old(self).buffer,
            final(self).buffer_len == old(self).buffer_len,
    {
        let s = self.state;
        let r00 = Self::rol64(s[0][0], 0);
        let r01 = Self::rol64(s[0][1], 36);
        let r02 = Self::rol64(s[0][2], 3);
        let r03 = Self::rol64(s[0][3], 41);
        let r04 = Self::rol64(s[0][4], 18);
        let r10 = Self::rol64(s[1][0], 1);
        let r11 = Self::rol64(s[1][1], 44);
        let r12 = Self::rol64(s[1][2], 10);
        let r13 = Self::rol64(s[1][3], 45);
        let r14 = Self::rol64(s[1][4], 2);
        let r20 = Self::rol64(s[2][0], 62);
        let r21 = Self::rol64(s[2][1], 6);
        let r22 = Self::rol64(s[2][2], 43);
        let r23 = Self::rol64(s[2][3], 15);
        let r24 = Self::rol64(s[2][4], 61);
        let r30 = Self::rol64(s[3][0], 28);
        let r31 = Self::rol64(s[3][1], 55);
        let r32 = Self::rol64(s[3][2], 25);
        let r33 = Self::rol64(s[3][3], 21);
        let r34 = Self::rol64(s[3][4], 56);
        let r40 = Self::rol64(s[4][0], 27);
        let r41 = Self::rol64(s[4][1], 20);
        let r42 = Self::rol64(s[4][2], 39);
        let r43 = Self::rol64(s[4][3], 8);
        let r44 = Self::rol64(s[4][4], 14);
        self.state = [
            [r00, r01, r02, r03, r04],
            [r10, r11, r12, r13, r14],
            [r20, r21, r22, r23, r24],
            [r30, r31, r32, r33, r34],
            [r40, r41, r42, r43, r44],
        ];
        proof {
            assert(state_words(self.state) =~= rho_spec(state_words(s)));
        }
    }

    /// Pi: permute the lanes.
    fn pi(&mut self)
        ensures
            state_words(final(self).state) == pi_spec(state_words(old(self).state)),
            final(self).buffer == old(self).buffer,
            final(self).buffer_len == old(self).buffer_len,
    {
        let s = self.state;
        self.state = [
            [s[0][0], s[3][0], s[1][0], s[4][0], s[2][0]],
            [s[1][1], s[4][1], s[2][1], s[0][1], s[3][1]],
            [s[2][2], s[0][2], s[3][2], s[1][2], s[4][2]],
            [s[3][3], s[1][3], s[4][3], s[2][3], s[0][3]],
            [s[4][4], s[2][4], s[0][4], s[3][4], s[1][4]],
        ];
        proof {
            assert(state_words(self.state) =~= pi_spec(state_words(s)));
        }
    }

    /// Chi: the nonlinear step.
    fn chi(&mut self)
        ensures
            state_words(final(self).state) == chi_spec(state_words(old(self).state)),
            final(self).buffer == old(self).buffer,
            final(self).buffer_len == old(self).buffer_len,
    {
        let s = self.state;
        self.state = [
            [s[0][0] ^ ((!s[1][0]) & s[2][0]), s[0][1] ^ ((!s[1][1]) & s[2][1]), s[0][2] ^ ((!s[1][2]) & s[2][2]), s[0][3] ^ ((!s[1][3]) & s[2][3]), s[0][4] ^ ((!s[1][4]) & s[2][4])],
            [s[1][0] ^ ((!s[2][0]) & s[3][0]), s[1][1] ^ ((!s[2][1]) & s[3][1]), s[1][2] ^ ((!s[2][2]) & s[3][2]), s[1][3] ^ ((!s[2][3]) & s[3][3]), s[1][4] ^ ((!s[2][4]) & s[3][4])],
            [s[2][0] ^ ((!s[3][0]) & s[4][0]), s[2][1] ^ ((!s[3][1]) & s[4][1]), s[2][2] ^ ((!s[3][2]) & s[4][2]), s[2][3] ^ ((!s[3][3]) & s[4][3]), s[2][4] ^ ((!s[3][4]) & s[4][4])],
            [s[3][0] ^ ((!s[4][0]) & s[0][0]), s[3][1] ^ ((!s[4][1]) & s[0][1]), s[3][2] ^ ((!s[4][2]) & s[0][2]), s[3][3] ^ ((!s[4][3]) & s[0][3]), s[3][4] ^ ((!s[4][4]) & s[0][4])],
            [s[4][0] ^ ((!s[0][0]) & s[1][0]), s[4][1] ^ ((!s[0][1]) & s[1][1]), s[4][2] ^ ((!s[0][2]) & s[1][2]), s[4][3] ^ ((!s[0][3]) & s[1][3]), s[4][4] ^ ((!s[0][4]) & s[1][4])],
        ];
        proof {
            assert(state_words(self.state) =~= chi_spec(state_words(s)));
        }
    }

    /// The round constant for `round`.
    fn rc_at(round: usize) -> (r: u64)
        ensures
            r == rc_spec(round as int),
    {
        if round == 0 { 0x0000000000000001 }
        else if round == 1 { 0x0000000000008082 }
        else if round == 2 { 0x800000000000808A }
        else if round == 3 { 0x8000000080008000 }
        else if round == 4 { 0x000000000000808B }
        else if round == 5 { 0x0000000080000001 }
        else if round == 6 { 0x8000000080008081 }
        else if round == 7 { 0x8000000000008009 }
        else if round == 8 { 0x000000000000008A }
        else if round == 9 { 0x0000000000000088 }
        else if round == 10 { 0x0000000080008009 }
        else if round == 11 { 0x000000008000000A }
        else if round == 12 { 0x000000008000808B }
        else if round == 13 { 0x800000000000008B }
        else if round == 14 { 0x8000000000008089 }
        else if round == 15 { 0x8000000000008003 }
        else if round == 16 { 0x8000000000008002 }
        else if round == 17 { 0x8000000000000080 }
        else if round == 18 { 0x000000000000800A }
        else if round == 19 { 0x800000008000000A }
        else if round == 20 { 0x8000000080008081 }
        else if round == 21 { 0x8000000000008080 }
        else if round == 22 { 0x0000000080000001 }
        else if round == 23 { 0x8000000080008008 }
        else { 0 }
    }

    /// Iota: XOR the round constant into lane 0.
    fn iota(&mut self, round: usize)
        ensures
            state_words(final(self).state) == iota_spec(state_words(old(self).state), round as int),
            final(self).buffer == old(self).buffer,
            final(self).buffer_len == old(self).buffer_len,
    {
        let c = Self::rc_at(round);
        let mut row0 = self.state[0];
        row0[0] = row0[0] ^ c;
        self.state[0] = row0;
        proof {
            assert(state_words(self.state) =~= iota_spec(state_words(old(self).state), round as int));
        }
    }

    /// The 24-round Keccak permutation.
    #[verifier::loop_isolation(false)]
    fn keccak_f(&mut self)
        ensures
            state_words(final(self).state) == keccak_f_spec(state_words(old(self).state)),
            final(self).buffer == old(self).buffer,
            final(self).buffer_len == old(self).buffer_len,
    {
        let ghost st0: Seq<u64> = state_words(self.state);
        let mut round: usize = 0;
        while round < 24
            invariant
                round <= 24,
                state_words(self.state) == keccak_rounds_spec(st0, round as int),
                self.buffer == old(self).buffer,
                self.buffer_len == old(self).buffer_len,
            decreases 24 - round,
        {
            self.theta();
            self.rho();
            self.pi();
            self.chi();
            self.iota(round);
            round += 1;
        }
    }

    /// Absorb one full 144-byte block: XOR its 18 little-endian words
    /// into the rate portion and permute.
    #[verifier::loop_isolation(false)]
    fn absorb_block(&mut self, block: &[u8])
        requires
            block@.len() == 144,
        ensures
            state_words(final(self).state) == absorb_block_spec(state_words(old(self).state), block@),
            final(self).buffer == old(self).buffer,
            final(self).buffer_len == old(self).buffer_len,
    {
        let ghost st0: Seq<u64> = state_words(self.state);
        let mut i: usize = 0;
        while i < 18
            invariant
                i <= 18,
                block@.len() == 144,
                state_words(self.state) == Seq::new(
                    25,
                    |k: int| if k < i { st0[k] ^ le64(block@, k) } else { st0[k] },
                ),
                self.buffer == old(self).buffer,
                self.buffer_len == old(self).buffer_len,
            decreases 18 - i,
        {
            let o: usize = 8 * i;
            let word: u64 = (block[o] as u64) | ((block[o + 1] as u64) << 8) | ((block[o
                + 2] as u64) << 16) | ((block[o + 3] as u64) << 24) | ((block[o + 4] as u64) << 32)
                | ((block[o + 5] as u64) << 40) | ((block[o + 6] as u64) << 48) | ((block[o
                + 7] as u64) << 56);
            let x: usize = i % 5;
            let y: usize = i / 5;
            let ghost pre: Seq<u64> = state_words(self.state);
            let mut row = self.state[x];
            row[y] = row[y] ^ word;
            self.state[x] = row;
            proof {
                assert(x + 5 * y == i) by (nonlinear_arith)
                    requires
                        x == i as int % 5 && y == i as int / 5,
                ;
                assert(word == le64(block@, i as int));
                assert forall|k: int| 0 <= k < 25 implies state_words(self.state)[k] == (if k == i {
                    pre[k] ^ word
                } else {
                    pre[k]
                }) by {
                    if k % 5 == x && k / 5 == y {
                        assert(k == i) by (nonlinear_arith)
                            requires
                                k % 5 == x && k / 5 == y && x + 5 * y == i as int && 0 <= k < 25,
                        ;
                    }
                }
                assert(state_words(self.state) =~= Seq::new(
                    25,
                    |k: int| if k < i + 1 { st0[k] ^ le64(block@, k) } else { st0[k] },
                ));
            }
            i += 1;
        }
        proof {
            assert(state_words(self.state) =~= absorb_xor_spec(st0, block@));
        }
        self.keccak_f();
    }

    /// Feed input to the hasher: buffer it, absorbing a block whenever
    /// 144 bytes have accumulated.
    #[verifier::loop_isolation(false)]
    pub fn update(&mut self, data: &[u8])
        requires
            old(self).wf(),
        ensures
            final(self).wf(),
            ({
                let st = absorb_stream(old(self).state_view(), old(self).pending() + data@);
                final(self).state_view() == st.0 && final(self).pending() == st.1
            }),
    {
        let ghost full: (Seq<u64>, Seq<u8>) = absorb_stream(self.state_view(), self.pending() + data@);
        let mut consumed: usize = 0;
        proof {
            assert(data@.skip(0) =~= data@);
        }
        while consumed < data.len()
            invariant
                consumed <= data@.len(),
                self.wf(),
                full == absorb_stream(self.state_view(), self.pending() + data@.skip(consumed as int)),
            decreases data@.len() - consumed,
        {
            let available: usize = 144 - self.buffer_len;
            let remaining: usize = data.len() - consumed;
            let to_copy: usize = if remaining < available { remaining } else { available };
            let ghost pend0: Seq<u8> = self.pending();
            let ghost st_snap: Seq<u64> = self.state_view();
            let ghost bl0: usize = self.buffer_len;
            let mut j: usize = 0;
            while j < to_copy
                invariant
                    j <= to_copy,
                    self.buffer@.len() == 144,
                    bl0 + to_copy <= 144,
                    bl0 == self.buffer_len,
                    consumed + to_copy <= data@.len(),
                    self.state_view() == st_snap,
                    self.buffer@.take(bl0 as int) == pend0,
                    self.buffer@.subrange(bl0 as int, bl0 as int + j as int) == data@.subrange(
                        consumed as int,
                        consumed as int + j as int,
                    ),
                decreases to_copy - j,
            {
                self.buffer[self.buffer_len + j] = data[consumed + j];
                proof {
                    assert(self.buffer@.take(bl0 as int) =~= pend0);
                    assert(self.buffer@.subrange(bl0 as int, bl0 as int + j as int + 1) =~= data@.subrange(
                        consumed as int,
                        consumed as int + j as int + 1,
                    ));
                }
                j += 1;
            }
            let ghost old_consumed: usize = consumed;
            self.buffer_len = self.buffer_len + to_copy;
            consumed = consumed + to_copy;
            proof {
                assert(self.pending() + data@.skip(consumed as int) =~= pend0 + data@.skip(
                    old_consumed as int,
                ));
            }
            if self.buffer_len == 144 {
                let buffer_copy = clone_bytes(&self.buffer);
                let ghost pend_now: Seq<u8> = self.buffer@;
                let ghost rest: Seq<u8> = data@.skip(consumed as int);
                proof {
                    assert(self.pending() =~= pend_now);
                    assert((pend_now + rest).take(144) =~= pend_now);
                    assert((pend_now + rest).skip(144) =~= rest);
                }
                self.absorb_block(buffer_copy.as_slice());
                self.buffer_len = 0;
                proof {
                    assert(self.pending() =~= Seq::<u8>::empty());
                    assert(Seq::<u8>::empty() + rest =~= rest);
                }
            }
        }
        proof {
            assert(data@.skip(data@.len() as int) =~= Seq::<u8>::empty());
            assert(self.pending() + Seq::<u8>::empty() =~= self.pending());
        }
    }

    /// Finish the hash: pad the pending bytes to a final block with the
    /// 0x06 domain bits and a trailing 0x80, absorb it, and squeeze the
    /// 28-byte digest.
    #[verifier::rlimit(100)]
    #[verifier::spinoff_prover]
    #[verifier::loop_isolation(false)]
    pub fn finalize(self) -> (r: Vec<u8>)
        requires
            self.wf(),
        ensures
            r@ == squeeze_spec(absorb_block_spec(self.state_view(), pad144_spec(self.pending()))),
    {
        let mut this = self;
        let ghost pend0: Seq<u8> = this.pending();
        let pos: usize = this.buffer_len;
        this.buffer[pos] = 0x06;
        let mut i: usize = pos + 1;
        while i < 144
            invariant
                pos + 1 <= i <= 144,
                this.buffer@.len() == 144,
                this.state == self.state,
                this.buffer_len == pos,
                this.buffer@.take(pos as int) == pend0,
                this.buffer@[pos as int] == 0x06,
                forall|m: int| pos < m < i ==> this.buffer@[m] == 0,
            decreases 144 - i,
        {
            this.buffer[i] = 0;
            i += 1;
        }
        let last: u8 = this.buffer[143];
        this.buffer[143] = last | 0x80;
        proof {
            let p: Seq<u8> = pad144_spec(pend0);
            assert(pend0.len() == pos);
            assert forall|m: int| 0 <= m < 144 implies this.buffer@[m] == p[m] by {
                if m < pos {
                    assert(this.buffer@[m] == pend0[m]);
                }
            }
            assert(this.buffer@ =~= p);
        }
        let block = clone_bytes(&this.buffer);
        let ghost st0: Seq<u64> = this.state_view();
        this.absorb_block(block.as_slice());
        proof {
            assert(state_words(this.state) == absorb_block_spec(st0, pad144_spec(pend0)));
        }
        let r = this.squeeze();
        proof {
            assert(st0 == self.state_view());
            assert(pend0 == self.pending());
            assert(r@ == squeeze_spec(absorb_block_spec(st0, pad144_spec(pend0))));
        }
        r
    }

    /// Read the first 28 bytes of the state, lane by lane.
    #[verifier::loop_isolation(false)]
    fn squeeze(&self) -> (r: Vec<u8>)
        ensures
            r@ == squeeze_spec(state_words(self.state)),
    {
        let mut out: Vec<u8> = Vec::new();
        let mut i: usize = 0;
        while i < 28
            invariant
                i <= 28,
                out@ == squeeze_spec(state_words(self.state)).subrange(0, i as int),
            decreases 28 - i,
        {
            let w: usize = i / 8;
            let word: u64 = self.state[w][0];
            let sh: u64 = (8 * (i % 8)) as u64;
            out.push((word >> sh) as u8);
            proof {
                assert(out@ =~= squeeze_spec(state_words(self.state)).subrange(0, i as int + 1));
            }
            i += 1;
        }
        proof {
            assert(squeeze_spec(state_words(self.state)).subrange(0, 28) =~= squeeze_spec(
                state_words(self.state),
            ));
        }
        out
    }
}

/// Copy a byte vector.
#[verifier::loop_isolation(false)]
fn clone_bytes(v: &Vec<u8>) -> (r: Vec<u8>)
    ensures
        r@ == v@,
{
    let mut r: Vec<u8> = Vec::new();
    let mut k: usize = 0;
    while k < v.len()
        invariant
            k <= v@.len(),
            r@ == v@.subrange(0, k as int),
        decreases v@.len() - k,
    {
        r.push(v[k]);
        proof {
            assert(r@ =~= v@.subrange(0, k as int + 1));
        }
        k += 1;
    }
    proof {
        assert(v@.subrange(0, v@.len() as int) =~= v@);
    }
    r
}

/// The SHA3-224 digest of a byte stream, as 28 bytes.
pub fn sha3_224(data: &[u8]) -> (r: Vec<u8>)
    ensures
        r@ == sha3_224_spec(data@),
        r@.len() == 28,
{
    let mut hasher = Sha3_224::new();
    hasher.update(data);
    proof {
        assert(Seq::<u8>::empty() + data@ =~= data@);
    }
    hasher.finalize()
}

/// ASCII whitespace, as removed from hexadecimal input.
pub open spec fn is_ws_byte(b: u8) -> bool {
    b == 0x20 || b == 0x09 || b == 0x0a || b == 0x0d || b == 0x0b || b == 0x0c
}

/// An upper-case ASCII letter mapped to lower case; all else unchanged.
pub open spec fn to_lower_byte(b: u8) -> u8 {
    if 0x41 <= b <= 0x5a {
        (b + 0x20) as u8
    } else {
        b
    }
}

/// The input with whitespace removed and letters lowered.
pub open spec fn clean_bytes_spec(s: Seq<u8>) -> Seq<u8>
    decreases s.len(),
{
    if s.len() == 0 {
        s
    } else {
        clean_bytes_spec(s.drop_last()) + (if is_ws_byte(s.last()) {
            Seq::<u8>::empty()
        } else {
            seq![to_lower_byte(s.last())]
        })
    }
}

/// A lower-case hexadecimal digit byte.
pub open spec fn is_hex_digit(b: u8) -> bool {
    (0x30 <= b <= 0x39) || (0x61 <= b <= 0x66)
}

/// Every byte is a lower-case hexadecimal digit.
pub open spec fn all_hex(s: Seq<u8>) -> bool {
    forall|i: int| 0 <= i < s.len() ==> is_hex_digit(#[trigger] s[i])
}

/// The value of a lower-case hexadecimal digit byte.
pub open spec fn hex_val(b: u8) -> int {
    if 0x30 <= b <= 0x39 {
        b - 0x30
    } else {
        b - 0x61 + 10
    }
}

/// The input with a leading zero digit when its length is odd.
pub open spec fn pad_even(s: Seq<u8>) -> Seq<u8> {
    if s.len() % 2 == 1 {
        seq![0x30u8] + s
    } else {
        s
    }
}

/// Each pair of hexadecimal digits as one byte.
pub open spec fn hex_pairs_spec(s: Seq<u8>) -> Seq<u8> {
    Seq::new(s.len() / 2, |i: int| (16 * hex_val(s[2 * i]) + hex_val(s[2 * i + 1])) as u8)
}

/// Failure of hexadecimal parsing.
#[derive(Debug, PartialEq, Eq, Structural)]
pub enum HexError {
    /// The input holds a character that is not a hexadecimal digit.
    InvalidHexCharacter,
}

/// Parse hexadecimal text to bytes: whitespace is dropped, case is
/// ignored, an odd digit count gains a leading zero, and any other
/// non-hexadecimal character is rejected.
#[verifier::loop_isolation(false)]
pub fn hex_to_bytes(hex_str: &str) -> (r: Result<Vec<u8>, HexError>)
    ensures
        ({
            let c = clean_bytes_spec(hex_str.spec_bytes());
            if all_hex(c) {
                r matches Ok(v) && v@ == hex_pairs_spec(pad_even(c))
            } else {
                r == Err::<Vec<u8>, HexError>(HexError::InvalidHexCharacter)
            }
        }),
{
    let b: &[u8] = hex_str.as_bytes();
    let mut cleaned: Vec<u8> = Vec::new();
    let mut k: usize = 0;
    proof {
        assert(b@.take(0) =~= Seq::<u8>::empty());
    }
    while k < b.len()
        invariant
            k <= b@.len(),
            cleaned@ == clean_bytes_spec(b@.take(k as int)),
        decreases b@.len() - k,
    {
        let ghost pre: Seq<u8> = b@.take(k as int);
        proof {
            assert(b@.take(k as int + 1).drop_last() =~= pre);
            assert(b@.take(k as int + 1).last() == b@[k as int]);
        }
        let c: u8 = b[k];
        if !(c == 0x20 || c == 0x09 || c == 0x0a || c == 0x0d || c == 0x0b || c == 0x0c) {
            let lowered: u8 = if 0x41 <= c && c <= 0x5a {
                c + 0x20
            } else {
                c
            };
            cleaned.push(lowered);
            proof {
                assert(cleaned@ =~= clean_bytes_spec(pre) + seq![to_lower_byte(b@[k as int])]);
            }
        } else {
            proof {
                assert(cleaned@ =~= clean_bytes_spec(pre) + Seq::<u8>::empty());
            }
        }
        k += 1;
    }
    proof {
        assert(b@.take(b@.len() as int) =~= b@);
    }

    let mut i: usize = 0;
    while i < cleaned.len()
        invariant
            i <= cleaned@.len(),
            cleaned@ == clean_bytes_spec(hex_str.spec_bytes()),
            forall|m: int| 0 <= m < i ==> is_hex_digit(#[trigger] cleaned@[m]),
        decreases cleaned@.len() - i,
    {
        let c: u8 = cleaned[i];
        if !((0x30 <= c && c <= 0x39) || (0x61 <= c && c <= 0x66)) {
            proof {
                assert(!is_hex_digit(cleaned@[i as int]));
                assert(!all_hex(cleaned@));
            }
            return Err(HexError::InvalidHexCharacter);
        }
        i += 1;
    }

    let mut padded: Vec<u8> = Vec::new();
    if cleaned.len() % 2 == 1 {
        padded.push(0x30);
    }
    let mut k2: usize = 0;
    let ghost base: Seq<u8> = padded@;
    while k2 < cleaned.len()
        invariant
            k2 <= cleaned@.len(),
            padded@ == base + cleaned@.subrange(0, k2 as int),
        decreases cleaned@.len() - k2,
    {
        padded.push(cleaned[k2]);
        proof {
            assert(padded@ =~= base + cleaned@.subrange(0, k2 as int + 1));
        }
        k2 += 1;
    }
    proof {
        assert(cleaned@.subrange(0, cleaned@.len() as int) =~= cleaned@);
        assert(padded@ =~= pad_even(cleaned@));
        assert(padded@.len() % 2 == 0);
        assert(forall|m: int| 0 <= m < padded@.len() ==> is_hex_digit(#[trigger] padded@[m]));
    }

    let mut out: Vec<u8> = Vec::new();
    let mut p: usize = 0;
    while p + 1 < padded.len()
        invariant
            p <= padded@.len(),
            p % 2 == 0,
            padded@.len() % 2 == 0,
            forall|m: int| 0 <= m < padded@.len() ==> is_hex_digit(#[trigger] padded@[m]),
            out@ == hex_pairs_spec(padded@).subrange(0, (p / 2) as int),
        decreases padded@.len() - p,
    {
        let hi: u8 = padded[p];
        let lo: u8 = padded[p + 1];
        let hv: u8 = if hi <= 0x39 {
            hi - 0x30
        } else {
            hi - 0x61 + 10
        };
        let lv: u8 = if lo <= 0x39 {
            lo - 0x30
        } else {
            lo - 0x61 + 10
        };
        out.push(16 * hv + lv);
        proof {
            assert(out@ =~= hex_pairs_spec(padded@).subrange(0, (p / 2) as int + 1));
        }
        p += 2;
    }
    proof {
        assert(hex_pairs_spec(padded@).subrange(0, (padded@.len() / 2) as int) =~= hex_pairs_spec(
            padded@,
        ));
    }
    Ok(out)
}

/// The lower-case hexadecimal digit character for a value below 16.
pub open spec fn hex_digit_char(n: int) -> char {
    if n == 0 { '0' }
    else if n == 1 { '1' }
    else if n == 2 { '2' }
    else if n == 3 { '3' }
    else if n == 4 { '4' }
    else if n == 5 { '5' }
    else if n == 6 { '6' }
    else if n == 7 { '7' }
    else if n == 8 { '8' }
    else if n == 9 { '9' }
    else if n == 10 { 'a' }
    else if n == 11 { 'b' }
    else if n == 12 { 'c' }
    else if n == 13 { 'd' }
    else if n == 14 { 'e' }
    else { 'f' }
}

/// The bytes written as lower-case hexadecimal text, two digits each.
pub open spec fn hex_chars_spec(b: Seq<u8>) -> Seq<char>
    decreases b.len(),
{
    if b.len() == 0 {
        Seq::<char>::empty()
    } else {
        hex_chars_spec(b.drop_last()) + seq![
            hex_digit_char((b.last() / 16) as int),
            hex_digit_char((b.last() % 16) as int),
        ]
    }
}

/// The one-character string for a hexadecimal digit value.
fn hex_digit_str(n: u8) -> (r: &'static str)
    requires
        n < 16,
    ensures
        r@ == seq![hex_digit_char(n as int)],
{
    proof {
        reveal_strlit("0");
        reveal_strlit("1");
        reveal_strlit("2");
        reveal_strlit("3");
        reveal_strlit("4");
        reveal_strlit("5");
        reveal_strlit("6");
        reveal_strlit("7");
        reveal_strlit("8");
        reveal_strlit("9");
        reveal_strlit("a");
        reveal_strlit("b");
        reveal_strlit("c");
        reveal_strlit("d");
        reveal_strlit("e");
        reveal_strlit("f");
    }
    let r: &'static str = if n == 0 { "0" }
    else if n == 1 { "1" }
    else if n == 2 { "2" }
    else if n == 3 { "3" }
    else if n == 4 { "4" }
    else if n == 5 { "5" }
    else if n == 6 { "6" }
    else if n == 7 { "7" }
    else if n == 8 { "8" }
    else if n == 9 { "9" }
    else if n == 10 { "a" }
    else if n == 11 { "b" }
    else if n == 12 { "c" }
    else if n == 13 { "d" }
    else if n == 14 { "e" }
    else { "f" };
    proof {
        assert(r@ =~= seq![hex_digit_char(n as int)]);
    }
    r
}

/// Write bytes as lower-case hexadecimal text, two digits per byte.
#[verifier::loop_isolation(false)]
pub fn bytes_to_hex(bytes: &[u8]) -> (r: String)
    ensures
        r@ == hex_chars_spec(bytes@),
{
    let mut s: String = String::new();
    let mut k: usize = 0;
    proof {
        assert(bytes@.take(0) =~= Seq::<u8>::empty());
    }
    while k < bytes.len()
        invariant
            k <= bytes@.len(),
            s@ == hex_chars_spec(bytes@.take(k as int)),
        decreases bytes@.len() - k,
    {
        let ghost pre: Seq<u8> = bytes@.take(k as int);
        let b: u8 = bytes[k];
        let hi = hex_digit_str(b / 16);
        let lo = hex_digit_str(b % 16);
        s.append(hi);
        s.append(lo);
        proof {
            assert(bytes@.take(k as int + 1).drop_last() =~= pre);
            assert(bytes@.take(k as int + 1).last() == b);
            assert(s@ =~= hex_chars_spec(bytes@.take(k as int + 1)));
        }
        k += 1;
    }
    proof {
        assert(bytes@.take(bytes@.len() as int) =~= bytes@);
    }
    s
}

} // verus!
