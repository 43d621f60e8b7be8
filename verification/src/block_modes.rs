//! Block cipher modes of operation over a generic cipher trait: ECB,
//! CBC, OFB and CTR drivers that work with any `BlockCipher`
//! implementation, plus a XOR-based `DummyCipher` for exercising them.
//!
//! The drivers are specified against the cipher's own specification
//! functions: each one states exactly which bytes come out and which
//! error is returned, for every input and every cipher behaviour.

use vstd::prelude::*;
use vstd::seq_lib::*;

verus! {

/// Errors of the mode drivers. The `EncryptionError` message is
/// human-readable detail; contracts speak of the error kind.
#[derive(Debug, Clone)]
pub enum CipherModeError {
    /// The block size is zero.
    InvalidBlockSize,
    /// The IV length does not match the block size.
    InvalidIvLength,
    /// Ciphertext length not a multiple of the block size.
    PaddingError,
    /// The cipher failed, or produced a block that cannot be combined.
    EncryptionError(String),
}

/// The kind of a `CipherModeError`, with the message abstracted away.
#[derive(PartialEq, Eq, Structural)]
pub enum ModeErrorKind {
    BlockSize,
    IvLength,
    Padding,
    Encryption,
}

/// The kind of an error value.
pub open spec fn kind_of(e: CipherModeError) -> ModeErrorKind {
    match e {
        CipherModeError::InvalidBlockSize => ModeErrorKind::BlockSize,
        CipherModeError::InvalidIvLength => ModeErrorKind::IvLength,
        CipherModeError::PaddingError => ModeErrorKind::Padding,
        CipherModeError::EncryptionError(_) => ModeErrorKind::Encryption,
    }
}

/// The mathematical view of a driver result: the bytes on success, the
/// error kind on failure.
pub open spec fn kres(r: Result<Vec<u8>, CipherModeError>) -> Result<Seq<u8>, ModeErrorKind> {
    match r {
        Result::Ok(v) => Result::Ok(v@),
        Result::Err(e) => Result::Err(kind_of(e)),
    }
}

/// A block cipher as the mode drivers see it: `spec_encrypt` and
/// `spec_decrypt` describe what the executable methods return, so that
/// a driver's contract can be stated for any implementation.
pub trait BlockCipher {
    /// What `encrypt` returns on the given key and block.
    spec fn spec_encrypt(&self, key: Seq<u8>, block: Seq<u8>) -> Result<Seq<u8>, ModeErrorKind>;

    /// What `decrypt` returns on the given key and block.
    spec fn spec_decrypt(&self, key: Seq<u8>, block: Seq<u8>) -> Result<Seq<u8>, ModeErrorKind>;

    /// What `block_size` returns.
    spec fn spec_block_size(&self) -> int;

    /// Encrypt a single block.
    fn encrypt(&self, key: &[u8], block: &[u8]) -> (r: Result<Vec<u8>, CipherModeError>)
        ensures
            kres(r) == self.spec_encrypt(key@, block@),
    ;

    /// Decrypt a single block.
    fn decrypt(&self, key: &[u8], block: &[u8]) -> (r: Result<Vec<u8>, CipherModeError>)
        ensures
            kres(r) == self.spec_decrypt(key@, block@),
    ;

    /// The block size of the cipher in bytes.
    fn block_size(&self) -> (r: usize)
        ensures
            r as int == self.spec_block_size(),
    ;
}

// ---------------------------------------------------------------------
// Utilities: null padding and XOR.
// ---------------------------------------------------------------------

/// The stream extended with zero bytes up to the next multiple of `bs`
/// — unchanged when already aligned.
pub open spec fn null_pad_spec(data: Seq<u8>, bs: int) -> Seq<u8> {
    if data.len() % (bs as nat) == 0 {
        data
    } else {
        data + Seq::new((bs - data.len() as int % bs) as nat, |i: int| 0u8)
    }
}

/// The stream with every trailing zero byte removed.
pub open spec fn strip_zeros_spec(data: Seq<u8>) -> Seq<u8>
    decreases data.len(),
{
    if data.len() > 0 && data.last() == 0 {
        strip_zeros_spec(data.drop_last())
    } else {
        data
    }
}

/// Pad with zero bytes to the next multiple of `block_size`; data that
/// is already aligned is returned unchanged.
pub fn add_padding(data: &[u8], block_size: usize) -> (r: Vec<u8>)
    requires
        block_size > 0,
        data@.len() + block_size <= usize::MAX,
    ensures
        r@ == null_pad_spec(data@, block_size as int),
{
    let mut padded = copy_slice(data);
    let remainder: usize = data.len() % block_size;
    if remainder != 0 {
        let padding_needed: usize = block_size - remainder;
        let mut k: usize = 0;
        while k < padding_needed
            invariant
                k <= padding_needed,
                padding_needed == block_size - remainder,
                remainder == data@.len() % (block_size as nat),
                remainder != 0,
                padded@ == data@ + Seq::new(k as nat, |i: int| 0u8),
            decreases padding_needed - k,
        {
            padded.push(0);
            proof {
                assert(padded@ =~= data@ + Seq::new((k + 1) as nat, |i: int| 0u8));
            }
            k += 1;
        }
    }
    proof {
        assert(padded@ =~= null_pad_spec(data@, block_size as int));
    }
    padded
}

/// Remove trailing zero bytes.
pub fn remove_padding(data: &[u8]) -> (r: Vec<u8>)
    ensures
        r@ == strip_zeros_spec(data@),
{
    let mut k: usize = data.len();
    proof {
        assert(data@.subrange(0, data@.len() as int) =~= data@);
    }
    while k > 0 && data[k - 1] == 0
        invariant
            k <= data@.len(),
            strip_zeros_spec(data@) == strip_zeros_spec(data@.subrange(0, k as int)),
        decreases k,
    {
        proof {
            let p: Seq<u8> = data@.subrange(0, k as int);
            let p1: Seq<u8> = data@.subrange(0, k as int - 1);
            assert(p.last() == 0);
            assert(p.drop_last() =~= p1);
        }
        k -= 1;
    }
    let ghost p: Seq<u8> = data@.subrange(0, k as int);
    proof {
        if k > 0 {
            assert(p.last() != 0);
        }
        assert(strip_zeros_spec(p) == p);
    }
    let r = copy_range(data, 0, k);
    r
}

/// Byte-wise XOR of two equal-length streams.
pub open spec fn xor_seq(a: Seq<u8>, b: Seq<u8>) -> Seq<u8> {
    Seq::new(a.len(), |i: int| a[i] ^ b[i])
}

/// XOR two byte slices; fails exactly when their lengths differ.
pub fn xor_blocks(a: &[u8], b: &[u8]) -> (r: Result<Vec<u8>, CipherModeError>)
    ensures
        a@.len() == b@.len() ==> kres(r) == Result::<Seq<u8>, ModeErrorKind>::Ok(xor_seq(a@, b@)),
        a@.len() != b@.len() ==> kres(r) == Result::<Seq<u8>, ModeErrorKind>::Err(ModeErrorKind::Encryption),
{
    if a.len() != b.len() {
        return Err(CipherModeError::EncryptionError(
            "Blocks have different lengths for XOR".to_string(),
        ));
    }
    let mut out: Vec<u8> = Vec::new();
    let mut k: usize = 0;
    while k < a.len()
        invariant
            k <= a@.len(),
            a@.len() == b@.len(),
            out@ == xor_seq(a@, b@).subrange(0, k as int),
        decreases a@.len() - k,
    {
        out.push(a[k] ^ b[k]);
        proof {
            assert(out@ =~= xor_seq(a@, b@).subrange(0, k as int + 1));
        }
        k += 1;
    }
    proof {
        assert(xor_seq(a@, b@).subrange(0, a@.len() as int) =~= xor_seq(a@, b@));
    }
    Ok(out)
}

/// Copy a slice into a fresh vector.
fn copy_slice(s: &[u8]) -> (r: Vec<u8>)
    ensures
        r@ == s@,
{
    let r = copy_range(s, 0, s.len());
    proof {
        assert(s@.subrange(0, s@.len() as int) =~= s@);
    }
    r
}

/// Copy `s[start .. start + n]` into a fresh vector.
fn copy_range(s: &[u8], start: usize, n: usize) -> (r: Vec<u8>)
    requires
        start + n <= s@.len(),
    ensures
        r@ == s@.subrange(start as int, start as int + n as int),
{
    let slen: usize = s.len();
    let mut r: Vec<u8> = Vec::new();
    let mut k: usize = 0;
    while k < n
        invariant
            k <= n,
            start + n <= slen,
            slen == s@.len(),
            r@ == s@.subrange(start as int, start as int + k as int),
        decreases n - k,
    {
        r.push(s[start + k]);
        proof {
            assert(r@ =~= s@.subrange(start as int, start as int + k as int + 1));
        }
        k += 1;
    }
    r
}

// ---------------------------------------------------------------------
// The drivers.
// ---------------------------------------------------------------------

/// Main struct for the cipher mode drivers.
pub struct CipherModes;

/// ECB over the remaining stream: encrypt (or decrypt) each chunk of at
/// most `bs` bytes independently and concatenate the outputs, stopping
/// at the cipher's first error.
pub open spec fn ecb_map_spec<C: BlockCipher>(
    cipher: &C,
    key: Seq<u8>,
    data: Seq<u8>,
    bs: int,
    enc: bool,
) -> Result<Seq<u8>, ModeErrorKind>
    decreases data.len(),
{
    if bs <= 0 || data.len() == 0 {
        Result::Ok(Seq::empty())
    } else {
        let cl: int = if data.len() < bs { data.len() as int } else { bs };
        let step: Result<Seq<u8>, ModeErrorKind> = if enc {
            cipher.spec_encrypt(key, data.take(cl))
        } else {
            cipher.spec_decrypt(key, data.take(cl))
        };
        match step {
            Result::Err(e) => Result::Err(e),
            Result::Ok(blk) => match ecb_map_spec(cipher, key, data.skip(cl), bs, enc) {
                Result::Err(e) => Result::Err(e),
                Result::Ok(rest) => Result::Ok(blk + rest),
            },
        }
    }
}

/// CBC encryption over the remaining stream, chaining on `prev`: each
/// chunk is XORed with the previous ciphertext block before the cipher
/// runs; a chunk whose length differs from `prev` cannot be XORed and
/// fails.
pub open spec fn cbc_enc_spec<C: BlockCipher>(
    cipher: &C,
    key: Seq<u8>,
    data: Seq<u8>,
    prev: Seq<u8>,
    bs: int,
) -> Result<Seq<u8>, ModeErrorKind>
    decreases data.len(),
{
    if bs <= 0 || data.len() == 0 {
        Result::Ok(Seq::empty())
    } else {
        let cl: int = if data.len() < bs { data.len() as int } else { bs };
        if cl != prev.len() {
            Result::Err(ModeErrorKind::Encryption)
        } else {
            match cipher.spec_encrypt(key, xor_seq(data.take(cl), prev)) {
                Result::Err(e) => Result::Err(e),
                Result::Ok(blk) => match cbc_enc_spec(cipher, key, data.skip(cl), blk, bs) {
                    Result::Err(e) => Result::Err(e),
                    Result::Ok(rest) => Result::Ok(blk + rest),
                },
            }
        }
    }
}

/// CBC decryption over the remaining stream, chaining on `prev`: each
/// chunk is decrypted and the output XORed with the previous ciphertext
/// block; an output whose length differs from `prev` fails.
pub open spec fn cbc_dec_spec<C: BlockCipher>(
    cipher: &C,
    key: Seq<u8>,
    data: Seq<u8>,
    prev: Seq<u8>,
    bs: int,
) -> Result<Seq<u8>, ModeErrorKind>
    decreases data.len(),
{
    if bs <= 0 || data.len() == 0 {
        Result::Ok(Seq::empty())
    } else {
        let cl: int = if data.len() < bs { data.len() as int } else { bs };
        match cipher.spec_decrypt(key, data.take(cl)) {
            Result::Err(e) => Result::Err(e),
            Result::Ok(dec) => if dec.len() != prev.len() {
                Result::Err(ModeErrorKind::Encryption)
            } else {
                match cbc_dec_spec(cipher, key, data.skip(cl), data.take(cl), bs) {
                    Result::Err(e) => Result::Err(e),
                    Result::Ok(rest) => Result::Ok(xor_seq(dec, prev) + rest),
                }
            },
        }
    }
}

/// OFB over the remaining stream: the feedback register is repeatedly
/// encrypted to make the keystream, and each chunk is XORed with as
/// much of it as the chunk needs. A keystream shorter than the chunk
/// fails.
pub open spec fn ofb_spec<C: BlockCipher>(
    cipher: &C,
    key: Seq<u8>,
    data: Seq<u8>,
    feedback: Seq<u8>,
    bs: int,
) -> Result<Seq<u8>, ModeErrorKind>
    decreases data.len(),
{
    if bs <= 0 || data.len() == 0 {
        Result::Ok(Seq::empty())
    } else {
        let cl: int = if data.len() < bs { data.len() as int } else { bs };
        match cipher.spec_encrypt(key, feedback) {
            Result::Err(e) => Result::Err(e),
            Result::Ok(fb) => if fb.len() < cl {
                Result::Err(ModeErrorKind::Encryption)
            } else {
                match ofb_spec(cipher, key, data.skip(cl), fb, bs) {
                    Result::Err(e) => Result::Err(e),
                    Result::Ok(rest) => Result::Ok(xor_seq(data.take(cl), fb.take(cl)) + rest),
                }
            },
        }
    }
}

/// Byte `j` of the big-endian encoding of a 64-bit counter.
pub open spec fn u64_be_byte(c: u64, j: int) -> u8 {
    (c >> ((56 - 8 * j) as u64)) as u8
}

/// The counter encoded big-endian into a block of `bs` bytes, placed at
/// the right edge and zero-padded on the left; a block shorter than 8
/// bytes keeps only the low-order counter bytes.
pub open spec fn counter_block_spec(c: u64, bs: int) -> Seq<u8> {
    Seq::new(bs as nat, |i: int| if i < bs - 8 { 0u8 } else { u64_be_byte(c, i - bs + 8) })
}

/// The counter after one block: incremented by one, wrapping at 2^64.
pub open spec fn next_counter(c: u64) -> u64 {
    if c == u64::MAX { 0 } else { (c + 1) as u64 }
}

/// CTR over the remaining stream: each chunk is XORed with the
/// encryption of the counter block, and the counter increments per
/// chunk with wraparound. A keystream shorter than the chunk fails.
pub open spec fn ctr_spec<C: BlockCipher>(
    cipher: &C,
    key: Seq<u8>,
    data: Seq<u8>,
    counter: u64,
    bs: int,
) -> Result<Seq<u8>, ModeErrorKind>
    decreases data.len(),
{
    if bs <= 0 || data.len() == 0 {
        Result::Ok(Seq::empty())
    } else {
        let cl: int = if data.len() < bs { data.len() as int } else { bs };
        match cipher.spec_encrypt(key, counter_block_spec(counter, bs)) {
            Result::Err(e) => Result::Err(e),
            Result::Ok(ks) => if ks.len() < cl {
                Result::Err(ModeErrorKind::Encryption)
            } else {
                match ctr_spec(cipher, key, data.skip(cl), next_counter(counter), bs) {
                    Result::Err(e) => Result::Err(e),
                    Result::Ok(rest) => Result::Ok(xor_seq(data.take(cl), ks.take(cl)) + rest),
                }
            },
        }
    }
}

/// Byte `j` of the big-endian encoding of a 32-bit counter.
pub open spec fn u32_be_byte(c: u32, j: int) -> u8 {
    (c >> ((24 - 8 * j) as u32)) as u8
}

/// The counter block of the nonce-based CTR variant: the nonce at the
/// front, zeros in the middle, the 32-bit counter big-endian in the
/// last four bytes.
pub open spec fn nonce_counter_block_spec(nonce: Seq<u8>, c: u32, bs: int) -> Seq<u8> {
    Seq::new(
        bs as nat,
        |i: int|
            if i < nonce.len() {
                nonce[i]
            } else if i < bs - 4 {
                0u8
            } else {
                u32_be_byte(c, i - bs + 4)
            },
    )
}

/// The 32-bit counter after one block, wrapping at 2^32.
pub open spec fn next_counter32(c: u32) -> u32 {
    if c == u32::MAX { 0 } else { (c + 1) as u32 }
}

/// Nonce-based CTR over the remaining stream.
pub open spec fn ctr_nonce_spec<C: BlockCipher>(
    cipher: &C,
    key: Seq<u8>,
    data: Seq<u8>,
    nonce: Seq<u8>,
    counter: u32,
    bs: int,
) -> Result<Seq<u8>, ModeErrorKind>
    decreases data.len(),
{
    if bs <= 0 || data.len() == 0 {
        Result::Ok(Seq::empty())
    } else {
        let cl: int = if data.len() < bs { data.len() as int } else { bs };
        match cipher.spec_encrypt(key, nonce_counter_block_spec(nonce, counter, bs)) {
            Result::Err(e) => Result::Err(e),
            Result::Ok(ks) => if ks.len() < cl {
                Result::Err(ModeErrorKind::Encryption)
            } else {
                match ctr_nonce_spec(cipher, key, data.skip(cl), nonce, next_counter32(counter), bs) {
                    Result::Err(e) => Result::Err(e),
                    Result::Ok(rest) => Result::Ok(xor_seq(data.take(cl), ks.take(cl)) + rest),
                }
            },
        }
    }
}

/// Prefix every successful result with already-produced output.
pub open spec fn then_prepend(prefix: Seq<u8>, r: Result<Seq<u8>, ModeErrorKind>) -> Result<
    Seq<u8>,
    ModeErrorKind,
> {
    match r {
        Result::Ok(rest) => Result::Ok(prefix + rest),
        Result::Err(e) => Result::Err(e),
    }
}

/// Strip trailing zeros from a successful result.
pub open spec fn strip_result(r: Result<Seq<u8>, ModeErrorKind>) -> Result<Seq<u8>, ModeErrorKind> {
    match r {
        Result::Ok(p) => Result::Ok(strip_zeros_spec(p)),
        Result::Err(e) => Result::Err(e),
    }
}

proof fn lemma_prepend_empty(r: Result<Seq<u8>, ModeErrorKind>)
    ensures
        then_prepend(Seq::empty(), r) == r,
{
    match r {
        Result::Ok(rest) => {
            assert(Seq::<u8>::empty() + rest =~= rest);
        },
        Result::Err(_) => {},
    }
}

proof fn lemma_prepend_assoc(a: Seq<u8>, b: Seq<u8>, r: Result<Seq<u8>, ModeErrorKind>)
    ensures
        then_prepend(a, then_prepend(b, r)) == then_prepend(a + b, r),
{
    match r {
        Result::Ok(rest) => {
            assert(a + (b + rest) =~= (a + b) + rest);
        },
        Result::Err(_) => {},
    }
}

proof fn lemma_prepend_end(a: Seq<u8>)
    ensures
        then_prepend(a, Result::Ok(Seq::empty())) == Result::<Seq<u8>, ModeErrorKind>::Ok(a),
{
    assert(a + Seq::<u8>::empty() =~= a);
}

impl CipherModes {
    /// The version of this library.
    pub fn version() -> &'static str {
        "0.1.0"
    }

    /// The names of the supported cipher modes.
    pub fn supported_modes() -> (r: Vec<&'static str>)
        ensures
            r@.len() == 4,
    {
        let mut v: Vec<&'static str> = Vec::new();
        v.push("ECB");
        v.push("CBC");
        v.push("OFB");
        v.push("CTR");
        v
    }

    /// Accept exactly the nonzero block sizes.
    pub fn validate_block_size(block_size: usize) -> (r: Result<(), CipherModeError>)
        ensures
            block_size > 0 ==> r matches Ok(()),
            block_size == 0 ==> (r matches Err(e) && kind_of(e) == ModeErrorKind::BlockSize),
    {
        if block_size == 0 {
            Err(CipherModeError::InvalidBlockSize)
        } else {
            Ok(())
        }
    }

    /// Accept exactly the IVs whose length equals the block size.
    pub fn validate_iv_length(iv: &[u8], block_size: usize) -> (r: Result<(), CipherModeError>)
        ensures
            iv@.len() == block_size ==> r matches Ok(()),
            iv@.len() != block_size ==> (r matches Err(e) && kind_of(e) == ModeErrorKind::IvLength),
    {
        if iv.len() != block_size {
            Err(CipherModeError::InvalidIvLength)
        } else {
            Ok(())
        }
    }

    /// ECB encryption: pad with zeros to a block boundary, then run the
    /// cipher on every block independently; fails on a zero block size,
    /// and otherwise exactly as the cipher does.
    #[verifier::loop_isolation(false)]
    pub fn ecb_encrypt<C: BlockCipher>(
        cipher: &C,
        key: &[u8],
        plaintext: &[u8],
        block_size: usize,
    ) -> (r: Result<Vec<u8>, CipherModeError>)
        requires
            plaintext@.len() + block_size <= usize::MAX,
        ensures
            block_size == 0 ==> (r matches Err(e) && kind_of(e) == ModeErrorKind::BlockSize),
            block_size > 0 ==> kres(r) == ecb_map_spec(
                cipher,
                key@,
                null_pad_spec(plaintext@, block_size as int),
                block_size as int,
                true,
            ),
    {
        if block_size == 0 {
            return Err(CipherModeError::InvalidBlockSize);
        }
        let padded = add_padding(plaintext, block_size);
        let ghost full: Result<Seq<u8>, ModeErrorKind> = ecb_map_spec(
            cipher,
            key@,
            padded@,
            block_size as int,
            true,
        );
        let mut ciphertext: Vec<u8> = Vec::new();
        let mut pos: usize = 0;
        proof {
            assert(padded@.skip(0) =~= padded@);
            lemma_prepend_empty(full);
        }
        while pos < padded.len()
            invariant
                pos <= padded@.len(),
                block_size > 0,
                full == ecb_map_spec(cipher, key@, padded@, block_size as int, true),
                full == then_prepend(
                    ciphertext@,
                    ecb_map_spec(cipher, key@, padded@.skip(pos as int), block_size as int, true),
                ),
            decreases padded@.len() - pos,
        {
            let cl: usize = if padded.len() - pos < block_size {
                padded.len() - pos
            } else {
                block_size
            };
            let ghost suffix: Seq<u8> = padded@.skip(pos as int);
            let chunk = copy_range(padded.as_slice(), pos, cl);
            proof {
                assert(chunk@ =~= suffix.take(cl as int));
            }
            match cipher.encrypt(key, chunk.as_slice()) {
                Err(e) => {
                    return Err(e);
                },
                Ok(blk) => {
                    let ghost before: Seq<u8> = ciphertext@;
                    let ghost rest: Result<Seq<u8>, ModeErrorKind> = ecb_map_spec(
                        cipher,
                        key@,
                        suffix.skip(cl as int),
                        block_size as int,
                        true,
                    );
                    proof {
                        assert(suffix.skip(cl as int) =~= padded@.skip(pos as int + cl as int));
                        lemma_prepend_assoc(before, blk@, rest);
                    }
                    append_vec(&mut ciphertext, blk);
                },
            }
            pos += cl;
        }
        proof {
            assert(padded@.skip(padded@.len() as int) =~= Seq::<u8>::empty());
            lemma_prepend_end(ciphertext@);
        }
        Ok(ciphertext)
    }

    /// ECB decryption: run the cipher's inverse on every block and strip
    /// the zero padding; fails on a zero block size, on input not a
    /// multiple of the block size, and otherwise exactly as the cipher
    /// does.
    #[verifier::loop_isolation(false)]
    pub fn ecb_decrypt<C: BlockCipher>(
        cipher: &C,
        key: &[u8],
        ciphertext: &[u8],
        block_size: usize,
    ) -> (r: Result<Vec<u8>, CipherModeError>)
        ensures
            block_size == 0 ==> (r matches Err(e) && kind_of(e) == ModeErrorKind::BlockSize),
            block_size > 0 && ciphertext@.len() % (block_size as nat) != 0 ==> (r matches Err(e)
                && kind_of(e) == ModeErrorKind::Padding),
            block_size > 0 && ciphertext@.len() % (block_size as nat) == 0 ==> kres(r)
                == strip_result(ecb_map_spec(cipher, key@, ciphertext@, block_size as int, false)),
    {
        if block_size == 0 {
            return Err(CipherModeError::InvalidBlockSize);
        }
        if ciphertext.len() % block_size != 0 {
            return Err(CipherModeError::PaddingError);
        }
        let ghost full: Result<Seq<u8>, ModeErrorKind> = ecb_map_spec(
            cipher,
            key@,
            ciphertext@,
            block_size as int,
            false,
        );
        let mut plaintext: Vec<u8> = Vec::new();
        let mut pos: usize = 0;
        proof {
            assert(ciphertext@.skip(0) =~= ciphertext@);
            lemma_prepend_empty(full);
        }
        while pos < ciphertext.len()
            invariant
                pos <= ciphertext@.len(),
                block_size > 0,
                full == ecb_map_spec(cipher, key@, ciphertext@, block_size as int, false),
                full == then_prepend(
                    plaintext@,
                    ecb_map_spec(cipher, key@, ciphertext@.skip(pos as int), block_size as int, false),
                ),
            decreases ciphertext@.len() - pos,
        {
            let cl: usize = if ciphertext.len() - pos < block_size {
                ciphertext.len() - pos
            } else {
                block_size
            };
            let ghost suffix: Seq<u8> = ciphertext@.skip(pos as int);
            let chunk = copy_range(ciphertext, pos, cl);
            proof {
                assert(chunk@ =~= suffix.take(cl as int));
            }
            match cipher.decrypt(key, chunk.as_slice()) {
                Err(e) => {
                    return Err(e);
                },
                Ok(blk) => {
                    let ghost before: Seq<u8> = plaintext@;
                    let ghost rest: Result<Seq<u8>, ModeErrorKind> = ecb_map_spec(
                        cipher,
                        key@,
                        suffix.skip(cl as int),
                        block_size as int,
                        false,
                    );
                    proof {
                        assert(suffix.skip(cl as int) =~= ciphertext@.skip(pos as int + cl as int));
                        lemma_prepend_assoc(before, blk@, rest);
                    }
                    append_vec(&mut plaintext, blk);
                },
            }
            pos += cl;
        }
        proof {
            assert(ciphertext@.skip(ciphertext@.len() as int) =~= Seq::<u8>::empty());
            lemma_prepend_end(plaintext@);
        }
        Ok(remove_padding(plaintext.as_slice()))
    }

    /// CBC encryption: pad with zeros, then XOR every block with the
    /// previous ciphertext block (the IV first) before the cipher runs.
    /// Fails on a zero block size or a wrong IV length, and otherwise
    /// exactly as the cipher and chaining allow.
    #[verifier::loop_isolation(false)]
    pub fn cbc_encrypt<C: BlockCipher>(
        cipher: &C,
        key: &[u8],
        plaintext: &[u8],
        iv: &[u8],
        block_size: usize,
    ) -> (r: Result<Vec<u8>, CipherModeError>)
        requires
            plaintext@.len() + block_size <= usize::MAX,
        ensures
            block_size == 0 ==> (r matches Err(e) && kind_of(e) == ModeErrorKind::BlockSize),
            block_size > 0 && iv@.len() != block_size ==> (r matches Err(e) && kind_of(e)
                == ModeErrorKind::IvLength),
            block_size > 0 && iv@.len() == block_size ==> kres(r) == cbc_enc_spec(
                cipher,
                key@,
                null_pad_spec(plaintext@, block_size as int),
                iv@,
                block_size as int,
            ),
    {
        if block_size == 0 {
            return Err(CipherModeError::InvalidBlockSize);
        }
        if iv.len() != block_size {
            return Err(CipherModeError::InvalidIvLength);
        }
        let padded = add_padding(plaintext, block_size);
        let ghost full: Result<Seq<u8>, ModeErrorKind> = cbc_enc_spec(
            cipher,
            key@,
            padded@,
            iv@,
            block_size as int,
        );
        let mut ciphertext: Vec<u8> = Vec::new();
        let mut previous_block = copy_slice(iv);
        let mut pos: usize = 0;
        proof {
            assert(padded@.skip(0) =~= padded@);
            lemma_prepend_empty(full);
        }
        while pos < padded.len()
            invariant
                pos <= padded@.len(),
                block_size > 0,
                full == cbc_enc_spec(cipher, key@, padded@, iv@, block_size as int),
                full == then_prepend(
                    ciphertext@,
                    cbc_enc_spec(cipher, key@, padded@.skip(pos as int), previous_block@, block_size as int),
                ),
            decreases padded@.len() - pos,
        {
            let cl: usize = if padded.len() - pos < block_size {
                padded.len() - pos
            } else {
                block_size
            };
            let ghost suffix: Seq<u8> = padded@.skip(pos as int);
            let chunk = copy_range(padded.as_slice(), pos, cl);
            proof {
                assert(chunk@ =~= suffix.take(cl as int));
            }
            let xored = match xor_blocks(chunk.as_slice(), previous_block.as_slice()) {
                Ok(v) => v,
                Err(e) => {
                    return Err(e);
                },
            };
            match cipher.encrypt(key, xored.as_slice()) {
                Err(e) => {
                    return Err(e);
                },
                Ok(blk) => {
                    let ghost before: Seq<u8> = ciphertext@;
                    let ghost rest: Result<Seq<u8>, ModeErrorKind> = cbc_enc_spec(
                        cipher,
                        key@,
                        suffix.skip(cl as int),
                        blk@,
                        block_size as int,
                    );
                    proof {
                        assert(suffix.skip(cl as int) =~= padded@.skip(pos as int + cl as int));
                        lemma_prepend_assoc(before, blk@, rest);
                    }
                    append_vec(&mut ciphertext, blk.clone());
                    previous_block = blk;
                },
            }
            pos += cl;
        }
        proof {
            assert(padded@.skip(padded@.len() as int) =~= Seq::<u8>::empty());
            lemma_prepend_end(ciphertext@);
        }
        Ok(ciphertext)
    }

    /// CBC decryption: run the cipher's inverse on every block, XOR with
    /// the previous ciphertext block (the IV first), and strip the zero
    /// padding. Fails on a zero block size, a wrong IV length, or input
    /// not a multiple of the block size, and otherwise exactly as the
    /// cipher and chaining allow.
    #[verifier::loop_isolation(false)]
    pub fn cbc_decrypt<C: BlockCipher>(
        cipher: &C,
        key: &[u8],
        ciphertext: &[u8],
        iv: &[u8],
        block_size: usize,
    ) -> (r: Result<Vec<u8>, CipherModeError>)
        ensures
            block_size == 0 ==> (r matches Err(e) && kind_of(e) == ModeErrorKind::BlockSize),
            block_size > 0 && iv@.len() != block_size ==> (r matches Err(e) && kind_of(e)
                == ModeErrorKind::IvLength),
            block_size > 0 && iv@.len() == block_size && ciphertext@.len() % (block_size as nat) != 0 ==> (
            r matches Err(e) && kind_of(e) == ModeErrorKind::Padding),
            block_size > 0 && iv@.len() == block_size && ciphertext@.len() % (block_size as nat) == 0
                ==> kres(r) == strip_result(
                cbc_dec_spec(cipher, key@, ciphertext@, iv@, block_size as int),
            ),
    {
        if block_size == 0 {
            return Err(CipherModeError::InvalidBlockSize);
        }
        if iv.len() != block_size {
            return Err(CipherModeError::InvalidIvLength);
        }
        if ciphertext.len() % block_size != 0 {
            return Err(CipherModeError::PaddingError);
        }
        let ghost full: Result<Seq<u8>, ModeErrorKind> = cbc_dec_spec(
            cipher,
            key@,
            ciphertext@,
            iv@,
            block_size as int,
        );
        let mut plaintext: Vec<u8> = Vec::new();
        let mut previous_block = copy_slice(iv);
        let mut pos: usize = 0;
        proof {
            assert(ciphertext@.skip(0) =~= ciphertext@);
            lemma_prepend_empty(full);
        }
        while pos < ciphertext.len()
            invariant
                pos <= ciphertext@.len(),
                block_size > 0,
                full == cbc_dec_spec(cipher, key@, ciphertext@, iv@, block_size as int),
                full == then_prepend(
                    plaintext@,
                    cbc_dec_spec(
                        cipher,
                        key@,
                        ciphertext@.skip(pos as int),
                        previous_block@,
                        block_size as int,
                    ),
                ),
            decreases ciphertext@.len() - pos,
        {
            let cl: usize = if ciphertext.len() - pos < block_size {
                ciphertext.len() - pos
            } else {
                block_size
            };
            let ghost suffix: Seq<u8> = ciphertext@.skip(pos as int);
            let chunk = copy_range(ciphertext, pos, cl);
            proof {
                assert(chunk@ =~= suffix.take(cl as int));
            }
            match cipher.decrypt(key, chunk.as_slice()) {
                Err(e) => {
                    return Err(e);
                },
                Ok(decrypted_block) => {
                    let xored = match xor_blocks(decrypted_block.as_slice(), previous_block.as_slice()) {
                        Ok(v) => v,
                        Err(e) => {
                            return Err(e);
                        },
                    };
                    let ghost before: Seq<u8> = plaintext@;
                    let ghost rest: Result<Seq<u8>, ModeErrorKind> = cbc_dec_spec(
                        cipher,
                        key@,
                        suffix.skip(cl as int),
                        suffix.take(cl as int),
                        block_size as int,
                    );
                    proof {
                        assert(suffix.skip(cl as int) =~= ciphertext@.skip(pos as int + cl as int));
                        lemma_prepend_assoc(before, xored@, rest);
                    }
                    append_vec(&mut plaintext, xored);
                    previous_block = chunk;
                },
            }
            pos += cl;
        }
        proof {
            assert(ciphertext@.skip(ciphertext@.len() as int) =~= Seq::<u8>::empty());
            lemma_prepend_end(plaintext@);
        }
        Ok(remove_padding(plaintext.as_slice()))
    }

    /// OFB mode: the block cipher repeatedly encrypts a feedback
    /// register seeded with the IV, and the resulting keystream is
    /// XORed with the data; a partial final chunk takes only what it
    /// needs, so the length is preserved. Fails on a zero block size,
    /// a wrong IV length, a cipher error, or a keystream block shorter
    /// than a chunk.
    #[verifier::loop_isolation(false)]
    pub fn ofb_encrypt<C: BlockCipher>(
        cipher: &C,
        key: &[u8],
        plaintext: &[u8],
        iv: &[u8],
        block_size: usize,
    ) -> (r: Result<Vec<u8>, CipherModeError>)
        ensures
            block_size == 0 ==> (r matches Err(e) && kind_of(e) == ModeErrorKind::BlockSize),
            block_size > 0 && iv@.len() != block_size ==> (r matches Err(e) && kind_of(e)
                == ModeErrorKind::IvLength),
            block_size > 0 && iv@.len() == block_size ==> kres(r) == ofb_spec(
                cipher,
                key@,
                plaintext@,
                iv@,
                block_size as int,
            ),
    {
        if block_size == 0 {
            return Err(CipherModeError::InvalidBlockSize);
        }
        if iv.len() != block_size {
            return Err(CipherModeError::InvalidIvLength);
        }
        let ghost full: Result<Seq<u8>, ModeErrorKind> = ofb_spec(
            cipher,
            key@,
            plaintext@,
            iv@,
            block_size as int,
        );
        let mut ciphertext: Vec<u8> = Vec::new();
        let mut feedback = copy_slice(iv);
        let mut pos: usize = 0;
        proof {
            assert(plaintext@.skip(0) =~= plaintext@);
            lemma_prepend_empty(full);
        }
        while pos < plaintext.len()
            invariant
                pos <= plaintext@.len(),
                block_size > 0,
                full == ofb_spec(cipher, key@, plaintext@, iv@, block_size as int),
                full == then_prepend(
                    ciphertext@,
                    ofb_spec(cipher, key@, plaintext@.skip(pos as int), feedback@, block_size as int),
                ),
            decreases plaintext@.len() - pos,
        {
            let cl: usize = if plaintext.len() - pos < block_size {
                plaintext.len() - pos
            } else {
                block_size
            };
            let ghost suffix: Seq<u8> = plaintext@.skip(pos as int);
            let chunk = copy_range(plaintext, pos, cl);
            proof {
                assert(chunk@ =~= suffix.take(cl as int));
            }
            feedback = match cipher.encrypt(key, feedback.as_slice()) {
                Ok(v) => v,
                Err(e) => {
                    return Err(e);
                },
            };
            if feedback.len() < cl {
                return Err(CipherModeError::EncryptionError(
                    "Keystream block shorter than the chunk".to_string(),
                ));
            }
            let keystream = copy_range(feedback.as_slice(), 0, cl);
            proof {
                assert(keystream@ =~= feedback@.take(cl as int));
            }
            let xored = match xor_blocks(chunk.as_slice(), keystream.as_slice()) {
                Ok(v) => v,
                Err(e) => {
                    return Err(e);
                },
            };
            let ghost before: Seq<u8> = ciphertext@;
            let ghost rest: Result<Seq<u8>, ModeErrorKind> = ofb_spec(
                cipher,
                key@,
                suffix.skip(cl as int),
                feedback@,
                block_size as int,
            );
            proof {
                assert(suffix.skip(cl as int) =~= plaintext@.skip(pos as int + cl as int));
                lemma_prepend_assoc(before, xored@, rest);
            }
            append_vec(&mut ciphertext, xored);
            pos += cl;
        }
        proof {
            assert(plaintext@.skip(plaintext@.len() as int) =~= Seq::<u8>::empty());
            lemma_prepend_end(ciphertext@);
        }
        Ok(ciphertext)
    }

    /// OFB decryption is identical to OFB encryption.
    pub fn ofb_decrypt<C: BlockCipher>(
        cipher: &C,
        key: &[u8],
        ciphertext: &[u8],
        iv: &[u8],
        block_size: usize,
    ) -> (r: Result<Vec<u8>, CipherModeError>)
        ensures
            block_size == 0 ==> (r matches Err(e) && kind_of(e) == ModeErrorKind::BlockSize),
            block_size > 0 && iv@.len() != block_size ==> (r matches Err(e) && kind_of(e)
                == ModeErrorKind::IvLength),
            block_size > 0 && iv@.len() == block_size ==> kres(r) == ofb_spec(
                cipher,
                key@,
                ciphertext@,
                iv@,
                block_size as int,
            ),
    {
        Self::ofb_encrypt(cipher, key, ciphertext, iv, block_size)
    }

    /// Encode a 64-bit counter big-endian into a block: at the right
    /// edge, zero-padded on the left, keeping only the low-order bytes
    /// when the block is shorter than eight bytes.
    pub fn counter_to_bytes(counter: u64, block_size: usize) -> (r: Vec<u8>)
        ensures
            r@ == counter_block_spec(counter, block_size as int),
    {
        let mut out: Vec<u8> = Vec::new();
        let mut i: usize = 0;
        while i < block_size
            invariant
                i <= block_size,
                out@ == counter_block_spec(counter, block_size as int).subrange(0, i as int),
            decreases block_size - i,
        {
            if block_size - i > 8 {
                out.push(0);
            } else {
                let j: usize = 8 - (block_size - i);
                let sh: u64 = (56 - 8 * j) as u64;
                proof {
                    assert(j == i + 8 - block_size);
                }
                out.push((counter >> sh) as u8);
            }
            proof {
                assert(out@ =~= counter_block_spec(counter, block_size as int).subrange(0, i as int + 1));
            }
            i += 1;
        }
        proof {
            assert(counter_block_spec(counter, block_size as int).subrange(0, block_size as int) =~=
                counter_block_spec(counter, block_size as int));
        }
        out
    }

    /// CTR encryption: the cipher encrypts a block holding the counter,
    /// the result is XORed with the data, and the counter increments
    /// per chunk, wrapping at 2^64; a partial final chunk keeps the
    /// exact length. Fails on a zero block size, a cipher error, or a
    /// keystream block shorter than a chunk.
    #[verifier::loop_isolation(false)]
    pub fn ctr_encrypt<C: BlockCipher>(
        cipher: &C,
        key: &[u8],
        plaintext: &[u8],
        counter: u64,
        block_size: usize,
    ) -> (r: Result<Vec<u8>, CipherModeError>)
        ensures
            block_size == 0 ==> (r matches Err(e) && kind_of(e) == ModeErrorKind::BlockSize),
            block_size > 0 ==> kres(r) == ctr_spec(cipher, key@, plaintext@, counter, block_size as int),
    {
        if block_size == 0 {
            return Err(CipherModeError::InvalidBlockSize);
        }
        let ghost full: Result<Seq<u8>, ModeErrorKind> = ctr_spec(
            cipher,
            key@,
            plaintext@,
            counter,
            block_size as int,
        );
        let mut ciphertext: Vec<u8> = Vec::new();
        let mut current_counter: u64 = counter;
        let mut pos: usize = 0;
        proof {
            assert(plaintext@.skip(0) =~= plaintext@);
            lemma_prepend_empty(full);
        }
        while pos < plaintext.len()
            invariant
                pos <= plaintext@.len(),
                block_size > 0,
                full == ctr_spec(cipher, key@, plaintext@, counter, block_size as int),
                full == then_prepend(
                    ciphertext@,
                    ctr_spec(
                        cipher,
                        key@,
                        plaintext@.skip(pos as int),
                        current_counter,
                        block_size as int,
                    ),
                ),
            decreases plaintext@.len() - pos,
        {
            let cl: usize = if plaintext.len() - pos < block_size {
                plaintext.len() - pos
            } else {
                block_size
            };
            let ghost suffix: Seq<u8> = plaintext@.skip(pos as int);
            let chunk = copy_range(plaintext, pos, cl);
            proof {
                assert(chunk@ =~= suffix.take(cl as int));
            }
            let counter_bytes = Self::counter_to_bytes(current_counter, block_size);
            let encrypted_counter = match cipher.encrypt(key, counter_bytes.as_slice()) {
                Ok(v) => v,
                Err(e) => {
                    return Err(e);
                },
            };
            if encrypted_counter.len() < cl {
                return Err(CipherModeError::EncryptionError(
                    "Keystream block shorter than the chunk".to_string(),
                ));
            }
            let keystream = copy_range(encrypted_counter.as_slice(), 0, cl);
            proof {
                assert(keystream@ =~= encrypted_counter@.take(cl as int));
            }
            let xored = match xor_blocks(chunk.as_slice(), keystream.as_slice()) {
                Ok(v) => v,
                Err(e) => {
                    return Err(e);
                },
            };
            let ghost before: Seq<u8> = ciphertext@;
            let ghost rest: Result<Seq<u8>, ModeErrorKind> = ctr_spec(
                cipher,
                key@,
                suffix.skip(cl as int),
                next_counter(current_counter),
                block_size as int,
            );
            proof {
                assert(suffix.skip(cl as int) =~= plaintext@.skip(pos as int + cl as int));
                lemma_prepend_assoc(before, xored@, rest);
            }
            append_vec(&mut ciphertext, xored);
            if current_counter == u64::MAX {
                current_counter = 0;
            } else {
                current_counter = current_counter + 1;
            }
            pos += cl;
        }
        proof {
            assert(plaintext@.skip(plaintext@.len() as int) =~= Seq::<u8>::empty());
            lemma_prepend_end(ciphertext@);
        }
        Ok(ciphertext)
    }

    /// CTR decryption is identical to CTR encryption.
    pub fn ctr_decrypt<C: BlockCipher>(
        cipher: &C,
        key: &[u8],
        ciphertext: &[u8],
        counter: u64,
        block_size: usize,
    ) -> (r: Result<Vec<u8>, CipherModeError>)
        ensures
            block_size == 0 ==> (r matches Err(e) && kind_of(e) == ModeErrorKind::BlockSize),
            block_size > 0 ==> kres(r) == ctr_spec(cipher, key@, ciphertext@, counter, block_size as int),
    {
        Self::ctr_encrypt(cipher, key, ciphertext, counter, block_size)
    }

    /// CTR with a separate nonce: the counter block carries the nonce at
    /// the front and a 32-bit big-endian counter in the last four bytes.
    /// The block size must leave room for the counter; fails on a zero
    /// block size or a nonce longer than the remaining space, and
    /// otherwise as the cipher does.
    #[verifier::loop_isolation(false)]
    pub fn ctr_encrypt_with_nonce<C: BlockCipher>(
        cipher: &C,
        key: &[u8],
        plaintext: &[u8],
        nonce: &[u8],
        counter: u32,
        block_size: usize,
    ) -> (r: Result<Vec<u8>, CipherModeError>)
        requires
            block_size == 0 || block_size >= 4,
        ensures
            block_size == 0 ==> (r matches Err(e) && kind_of(e) == ModeErrorKind::BlockSize),
            block_size >= 4 && nonce@.len() > block_size - 4 ==> (r matches Err(e) && kind_of(e)
                == ModeErrorKind::Encryption),
            block_size >= 4 && nonce@.len() <= block_size - 4 ==> kres(r) == ctr_nonce_spec(
                cipher,
                key@,
                plaintext@,
                nonce@,
                counter,
                block_size as int,
            ),
    {
        if block_size == 0 {
            return Err(CipherModeError::InvalidBlockSize);
        }
        if nonce.len() > block_size - 4 {
            return Err(CipherModeError::EncryptionError(
                "Nonce too long for block size".to_string(),
            ));
        }
        let ghost full: Result<Seq<u8>, ModeErrorKind> = ctr_nonce_spec(
            cipher,
            key@,
            plaintext@,
            nonce@,
            counter,
            block_size as int,
        );
        let mut ciphertext: Vec<u8> = Vec::new();
        let mut current_counter: u32 = counter;
        let mut pos: usize = 0;
        proof {
            assert(plaintext@.skip(0) =~= plaintext@);
            lemma_prepend_empty(full);
        }
        while pos < plaintext.len()
            invariant
                pos <= plaintext@.len(),
                block_size >= 4,
                nonce@.len() <= block_size - 4,
                full == ctr_nonce_spec(cipher, key@, plaintext@, nonce@, counter, block_size as int),
                full == then_prepend(
                    ciphertext@,
                    ctr_nonce_spec(
                        cipher,
                        key@,
                        plaintext@.skip(pos as int),
                        nonce@,
                        current_counter,
                        block_size as int,
                    ),
                ),
            decreases plaintext@.len() - pos,
        {
            let cl: usize = if plaintext.len() - pos < block_size {
                plaintext.len() - pos
            } else {
                block_size
            };
            let ghost suffix: Seq<u8> = plaintext@.skip(pos as int);
            let chunk = copy_range(plaintext, pos, cl);
            proof {
                assert(chunk@ =~= suffix.take(cl as int));
            }
            let mut counter_block: Vec<u8> = Vec::new();
            let mut i: usize = 0;
            while i < block_size
                invariant
                    i <= block_size,
                    block_size >= 4,
                    nonce@.len() <= block_size - 4,
                    counter_block@ == nonce_counter_block_spec(
                        nonce@,
                        current_counter,
                        block_size as int,
                    ).subrange(0, i as int),
                decreases block_size - i,
            {
                if i < nonce.len() {
                    counter_block.push(nonce[i]);
                } else if block_size - i > 4 {
                    counter_block.push(0);
                } else {
                    let j: usize = 4 - (block_size - i);
                    let sh: u32 = (24 - 8 * j) as u32;
                    proof {
                        assert(j == i + 4 - block_size);
                    }
                    counter_block.push((current_counter >> sh) as u8);
                }
                proof {
                    assert(counter_block@ =~= nonce_counter_block_spec(
                        nonce@,
                        current_counter,
                        block_size as int,
                    ).subrange(0, i as int + 1));
                }
                i += 1;
            }
            proof {
                assert(counter_block@ =~= nonce_counter_block_spec(
                    nonce@,
                    current_counter,
                    block_size as int,
                ));
            }
            let encrypted_counter = match cipher.encrypt(key, counter_block.as_slice()) {
                Ok(v) => v,
                Err(e) => {
                    return Err(e);
                },
            };
            if encrypted_counter.len() < cl {
                return Err(CipherModeError::EncryptionError(
                    "Keystream block shorter than the chunk".to_string(),
                ));
            }
            let keystream = copy_range(encrypted_counter.as_slice(), 0, cl);
            proof {
                assert(keystream@ =~= encrypted_counter@.take(cl as int));
            }
            let xored = match xor_blocks(chunk.as_slice(), keystream.as_slice()) {
                Ok(v) => v,
                Err(e) => {
                    return Err(e);
                },
            };
            let ghost before: Seq<u8> = ciphertext@;
            let ghost rest: Result<Seq<u8>, ModeErrorKind> = ctr_nonce_spec(
                cipher,
                key@,
                suffix.skip(cl as int),
                nonce@,
                next_counter32(current_counter),
                block_size as int,
            );
            proof {
                assert(suffix.skip(cl as int) =~= plaintext@.skip(pos as int + cl as int));
                lemma_prepend_assoc(before, xored@, rest);
            }
            append_vec(&mut ciphertext, xored);
            if current_counter == u32::MAX {
                current_counter = 0;
            } else {
                current_counter = current_counter + 1;
            }
            pos += cl;
        }
        proof {
            assert(plaintext@.skip(plaintext@.len() as int) =~= Seq::<u8>::empty());
            lemma_prepend_end(ciphertext@);
        }
        Ok(ciphertext)
    }

    /// Nonce-based CTR decryption is identical to encryption.
    pub fn ctr_decrypt_with_nonce<C: BlockCipher>(
        cipher: &C,
        key: &[u8],
        ciphertext: &[u8],
        nonce: &[u8],
        counter: u32,
        block_size: usize,
    ) -> (r: Result<Vec<u8>, CipherModeError>)
        requires
            block_size == 0 || block_size >= 4,
        ensures
            block_size == 0 ==> (r matches Err(e) && kind_of(e) == ModeErrorKind::BlockSize),
            block_size >= 4 && nonce@.len() > block_size - 4 ==> (r matches Err(e) && kind_of(e)
                == ModeErrorKind::Encryption),
            block_size >= 4 && nonce@.len() <= block_size - 4 ==> kres(r) == ctr_nonce_spec(
                cipher,
                key@,
                ciphertext@,
                nonce@,
                counter,
                block_size as int,
            ),
    {
        Self::ctr_encrypt_with_nonce(cipher, key, ciphertext, nonce, counter, block_size)
    }
}

// ---------------------------------------------------------------------
// A XOR-based cipher for exercising the drivers. Never a real cipher.
// ---------------------------------------------------------------------

/// The XOR "encryption" of the dummy cipher: every byte XORed with the
/// key repeated cyclically.
pub open spec fn dummy_xor(key: Seq<u8>, block: Seq<u8>) -> Seq<u8> {
    Seq::new(block.len(), |i: int| block[i] ^ key[i % key.len() as int])
}

/// A demonstration cipher that XORs with the repeated key. It is its
/// own inverse and offers no security; it exists to exercise the mode
/// drivers without a real block cipher.
#[derive(Debug, Clone)]
pub struct DummyCipher {
    block_size: usize,
}

impl DummyCipher {
    /// Create a dummy cipher with the given block size.
    pub fn new(block_size: usize) -> (r: DummyCipher)
        ensures
            r.spec_block_size() == block_size as int,
    {
        DummyCipher { block_size }
    }

    /// The block size of this cipher.
    pub fn get_block_size(&self) -> (r: usize)
        ensures
            r as int == self.spec_block_size(),
    {
        self.block_size
    }
}

impl BlockCipher for DummyCipher {
    open spec fn spec_encrypt(&self, key: Seq<u8>, block: Seq<u8>) -> Result<Seq<u8>, ModeErrorKind> {
        if key.len() == 0 {
            Result::Err(ModeErrorKind::Encryption)
        } else {
            Result::Ok(dummy_xor(key, block))
        }
    }

    open spec fn spec_decrypt(&self, key: Seq<u8>, block: Seq<u8>) -> Result<Seq<u8>, ModeErrorKind> {
        self.spec_encrypt(key, block)
    }

    closed spec fn spec_block_size(&self) -> int {
        self.block_size as int
    }

    /// "Encrypt" by XOR with the repeated key; an empty key fails.
    fn encrypt(&self, key: &[u8], block: &[u8]) -> (r: Result<Vec<u8>, CipherModeError>)
    {
        if key.len() == 0 {
            return Err(CipherModeError::EncryptionError("Key cannot be empty".to_string()));
        }
        let mut out: Vec<u8> = Vec::new();
        let mut k: usize = 0;
        while k < block.len()
            invariant
                k <= block@.len(),
                key@.len() > 0,
                out@ == dummy_xor(key@, block@).subrange(0, k as int),
            decreases block@.len() - k,
        {
            out.push(block[k] ^ key[k % key.len()]);
            proof {
                assert(out@ =~= dummy_xor(key@, block@).subrange(0, k as int + 1));
            }
            k += 1;
        }
        proof {
            assert(dummy_xor(key@, block@).subrange(0, block@.len() as int) =~= dummy_xor(key@, block@));
        }
        Ok(out)
    }

    /// XOR decryption is identical to XOR encryption.
    fn decrypt(&self, key: &[u8], block: &[u8]) -> (r: Result<Vec<u8>, CipherModeError>)
    {
        self.encrypt(key, block)
    }

    /// The block size.
    fn block_size(&self) -> (r: usize) {
        self.block_size
    }
}



/// Append `v` to `acc`.
fn append_vec(acc: &mut Vec<u8>, v: Vec<u8>)
    ensures
        final(acc)@ == old(acc)@ + v@,
{
    let mut k: usize = 0;
    while k < v.len()
        invariant
            k <= v@.len(),
            acc@ == old(acc)@ + v@.subrange(0, k as int),
        decreases v@.len() - k,
    {
        acc.push(v[k]);
        proof {
            assert(acc@ =~= old(acc)@ + v@.subrange(0, k as int + 1));
        }
        k += 1;
    }
    proof {
        assert(v@.subrange(0, v@.len() as int) =~= v@);
        assert(acc@ =~= old(acc)@ + v@);
    }
}

} // verus!
