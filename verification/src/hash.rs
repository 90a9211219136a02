//! The streaming SHA-256 context: the compression transform, the incremental
//! buffering of input into 64-byte blocks, and the padding and serialization
//! that finalization performs. Every function is proved against the
//! definitions in `model`.
use crate::model;
use vstd::prelude::*;
use vstd::slice::slice_subrange;

verus! {

/// Rotate a 32-bit word right by `n` positions.
pub fn rotr(x: u32, n: u32) -> (r: u32)
    requires
        0 < n < 32,
    ensures
        r == model::rotr(x, n),
{
    (x >> n) | (x << (32 - n))
}

/// The "choose" function of the round: bits of `x` select between `y` and `z`.
pub fn ch(x: u32, y: u32, z: u32) -> (r: u32)
    ensures
        r == model::ch(x, y, z),
{
    (x & y) ^ ((!x) & z)
}

/// The "majority" function of the round.
pub fn maj(x: u32, y: u32, z: u32) -> (r: u32)
    ensures
        r == model::maj(x, y, z),
{
    (x & y) ^ (x & z) ^ (y & z)
}

/// Big sigma 0, applied to working variable `a`.
pub fn bsig0(x: u32) -> (r: u32)
    ensures
        r == model::bsig0(x),
{
    rotr(x, 2) ^ rotr(x, 13) ^ rotr(x, 22)
}

/// Big sigma 1, applied to working variable `e`.
pub fn bsig1(x: u32) -> (r: u32)
    ensures
        r == model::bsig1(x),
{
    rotr(x, 6) ^ rotr(x, 11) ^ rotr(x, 25)
}

/// Small sigma 0 of the message-schedule expansion.
pub fn ssig0(x: u32) -> (r: u32)
    ensures
        r == model::ssig0(x),
{
    rotr(x, 7) ^ rotr(x, 18) ^ (x >> 3u32)
}

/// Small sigma 1 of the message-schedule expansion.
pub fn ssig1(x: u32) -> (r: u32)
    ensures
        r == model::ssig1(x),
{
    rotr(x, 17) ^ rotr(x, 19) ^ (x >> 10u32)
}

/// The 64 round constants as an array, equal to the model's table.
fn round_constant_table() -> (t: [u32; 64])
    ensures
        t@ == model::round_constants(),
{
    let t: [u32; 64] = [
        0x428a2f98, 0x71374491, 0xb5c0fbcf, 0xe9b5dba5,
        0x3956c25b, 0x59f111f1, 0x923f82a4, 0xab1c5ed5,
        0xd807aa98, 0x12835b01, 0x243185be, 0x550c7dc3,
        0x72be5d74, 0x80deb1fe, 0x9bdc06a7, 0xc19bf174,
        0xe49b69c1, 0xefbe4786, 0x0fc19dc6, 0x240ca1cc,
        0x2de92c6f, 0x4a7484aa, 0x5cb0a9dc, 0x76f988da,
        0x983e5152, 0xa831c66d, 0xb00327c8, 0xbf597fc7,
        0xc6e00bf3, 0xd5a79147, 0x06ca6351, 0x14292967,
        0x27b70a85, 0x2e1b2138, 0x4d2c6dfc, 0x53380d13,
        0x650a7354, 0x766a0abb, 0x81c2c92e, 0x92722c85,
        0xa2bfe8a1, 0xa81a664b, 0xc24b8b70, 0xc76c51a3,
        0xd192e819, 0xd6990624, 0xf40e3585, 0x106aa070,
        0x19a4c116, 0x1e376c08, 0x2748774c, 0x34b0bcb5,
        0x391c0cb3, 0x4ed8aa4a, 0x5b9cca4f, 0x682e6ff3,
        0x748f82ee, 0x78a5636f, 0x84c87814, 0x8cc70208,
        0x90befffa, 0xa4506ceb, 0xbef9a3f7, 0xc67178f2,
    ];
    proof {
        assert(t@ =~= model::round_constants());
    }
    t
}

/// An 8-word state serialized as 32 big-endian bytes, word 0 first.
fn state_to_bytes(s: &[u32; 8]) -> (out: [u8; 32])
    ensures
        out@ == Seq::new(32, (|i: int| (s@[i / 4] >> ((24 - 8 * (i % 4)) as u32)) as u8)),
{
    let mut out: [u8; 32] = [0; 32];
    let mut i: usize = 0;
    while i < 8
        invariant
            i <= 8,
            out@.len() == 32,
            forall|k: int| 0 <= k < 4 * i ==> out@[k] == (s@[k / 4] >> ((24 - 8 * (k % 4))
                as u32)) as u8,
        decreases 8 - i,
    {
        let v = s[i];
        out[4 * i] = (v >> 24u32) as u8;
        out[4 * i + 1] = (v >> 16u32) as u8;
        out[4 * i + 2] = (v >> 8u32) as u8;
        out[4 * i + 3] = v as u8;
        proof {
            assert(v >> 0u32 == v) by (bit_vector);
            vstd::arithmetic::div_mod::lemma_fundamental_div_mod_converse(4 * i as int, 4, i as int, 0);
            vstd::arithmetic::div_mod::lemma_fundamental_div_mod_converse(4 * i + 1, 4, i as int, 1);
            vstd::arithmetic::div_mod::lemma_fundamental_div_mod_converse(4 * i + 2, 4, i as int, 2);
            vstd::arithmetic::div_mod::lemma_fundamental_div_mod_converse(4 * i + 3, 4, i as int, 3);
        }
        i += 1;
    }
    proof {
        assert(out@ =~= Seq::new(32, (|i: int| (s@[i / 4] >> ((24 - 8 * (i % 4)) as u32)) as u8)));
    }
    out
}

/// A streaming SHA-256 context: the 8-word running state, a holding buffer
/// for input that does not yet form a complete 64-byte block, the number of
/// valid bytes in that buffer, and the total number of bits absorbed. The
/// ghost field records the whole byte sequence absorbed so far; the
/// well-formedness invariant `wf` ties every concrete field to it.
pub struct Sha256Ctx {
    h: [u32; 8],
    buffer: [u8; 64],
    buflen: usize,
    bitlen: u64,
    msg: Ghost<Seq<u8>>,
}

impl Sha256Ctx {
    /// The running 8-word compression state.
    pub closed spec fn state(self) -> Seq<u32> {
        self.h@
    }

    /// The bytes buffered towards the next 64-byte block.
    pub closed spec fn pending(self) -> Seq<u8> {
        self.buffer@.take(self.buflen as int)
    }

    /// The number of buffered bytes.
    pub closed spec fn buffered(self) -> int {
        self.buflen as int
    }

    /// The running count of absorbed bits.
    pub closed spec fn bit_count(self) -> u64 {
        self.bitlen
    }

    /// All bytes absorbed since initialization.
    pub closed spec fn absorbed(self) -> Seq<u8> {
        self.msg@
    }

    /// Well-formedness between calls: the state is the compression of all
    /// complete blocks of the absorbed message, the buffer holds exactly its
    /// unconsumed tail, and the bit count is eight times its length.
    pub closed spec fn wf(self) -> bool {
        &&& self.buflen < 64
        &&& self.h@ == model::state_after(self.msg@, model::num_blocks(self.msg@))
        &&& self.buffer@.take(self.buflen as int) == model::rest(self.msg@)
        &&& self.buflen as int == self.msg@.len() as int % 64
        &&& self.bitlen == 8 * self.msg@.len()
    }

    /// Creates a fresh context that has absorbed nothing.
    pub fn new() -> (c: Sha256Ctx)
        ensures
            c.wf(),
            c.absorbed() == Seq::<u8>::empty(),
    {
        let mut c = Sha256Ctx {
            h: [0; 8],
            buffer: [0; 64],
            buflen: 0,
            bitlen: 0,
            msg: Ghost(Seq::empty()),
        };
        c.init();
        c
    }

    /// Resets the context to the standard initial constants and clears all
    /// bookkeeping. Safe to call any number of times to start a fresh message.
    pub fn init(&mut self)
        ensures
            final(self).wf(),
            final(self).absorbed() == Seq::<u8>::empty(),
    {
        self.h = [
            0x6a09e667, 0xbb67ae85, 0x3c6ef372, 0xa54ff53a,
            0x510e527f, 0x9b05688c, 0x1f83d9ab, 0x5be0cd19,
        ];
        self.buflen = 0;
        self.bitlen = 0;
        proof {
            self.msg@ = Seq::empty();
            assert(self.h@ =~= model::init_state());
            assert(self.buffer@.take(0) =~= model::rest(self.msg@));
        }
    }

    /// Absorbs `data`. Afterwards the context has absorbed exactly the old
    /// message followed by `data`, so splitting an input across any sequence
    /// of `update` calls absorbs the same message as one call with the whole.
    pub fn update(&mut self, data: &[u8])
        requires
            old(self).wf(),
            8 * (old(self).absorbed().len() + data@.len()) <= u64::MAX,
        ensures
            final(self).wf(),
            final(self).absorbed() == old(self).absorbed() + data@,
    {
        let ghost m0 = self.msg@;
        let ghost m1 = m0 + data@;
        let n = data.len();
        proof {
            self.msg@ = m1;
            vstd::arithmetic::div_mod::lemma_fundamental_div_mod(m0.len() as int, 64);
        }
        self.bitlen = self.bitlen + (n as u64) * 8;
        let mut i: usize = 0;
        if self.buflen > 0 {
            let need = 64 - self.buflen;
            if n < need {
                // The span cannot complete the pending block: append it whole.
                let mut j: usize = 0;
                while j < n
                    invariant
                        j <= n,
                        n == data@.len(),
                        n < 64 - self.buflen,
                        0 < self.buflen < 64,
                        m1 == m0 + data@,
                        self.buflen as int == m0.len() as int % 64,
                        self.buffer@.take(self.buflen + j) == model::rest(m0) + data@.take(
                            j as int,
                        ),
                        self.h@ == model::state_after(m0, model::num_blocks(m0)),
                        self.msg@ == m1,
                        self.bitlen == 8 * m1.len(),
                    decreases n - j,
                {
                    self.buffer[self.buflen + j] = data[j];
                    proof {
                        vstd::arithmetic::div_mod::lemma_fundamental_div_mod(m0.len() as int, 64);
                        assert(model::rest(m0).len() == self.buflen as int);
                        assert(self.buffer@[self.buflen + j] == data@[j as int]);
                        assert forall|k: int| 0 <= k < self.buflen + j implies self.buffer@[k]
                            == (model::rest(m0) + data@.take(j as int))[k] by {
                            assert(self.buffer@.take(self.buflen + j as int)[k] == self.buffer@[k]);
                        }
                        assert(self.buffer@.take(self.buflen + j + 1) =~= model::rest(m0)
                            + data@.take(j + 1));
                    }
                    j += 1;
                }
                self.buflen = self.buflen + n;
                proof {
                    let q = model::num_blocks(m0);
                    vstd::arithmetic::div_mod::lemma_fundamental_div_mod_converse(
                        m1.len() as int,
                        64,
                        q,
                        self.buflen as int,
                    );
                    model::lemma_state_after_prefix(m0, m1, q);
                    assert(data@.take(n as int) =~= data@);
                    assert(model::rest(m1) =~= model::rest(m0) + data@);
                }
                return;
            } else {
                // Complete the pending block with the first `need` bytes and
                // compress it.
                let mut j: usize = 0;
                while j < need
                    invariant
                        j <= need,
                        n == data@.len(),
                        need <= n,
                        0 < self.buflen < 64,
                        need as int == 64 - self.buflen,
                        m1 == m0 + data@,
                        self.buflen as int == m0.len() as int % 64,
                        self.buffer@.take(self.buflen + j) == model::rest(m0) + data@.take(
                            j as int,
                        ),
                        self.h@ == model::state_after(m0, model::num_blocks(m0)),
                        self.msg@ == m1,
                        self.bitlen == 8 * m1.len(),
                    decreases need - j,
                {
                    self.buffer[self.buflen + j] = data[j];
                    proof {
                        vstd::arithmetic::div_mod::lemma_fundamental_div_mod(m0.len() as int, 64);
                        assert(model::rest(m0).len() == self.buflen as int);
                        assert(self.buffer@[self.buflen + j] == data@[j as int]);
                        assert forall|k: int| 0 <= k < self.buflen + j implies self.buffer@[k]
                            == (model::rest(m0) + data@.take(j as int))[k] by {
                            assert(self.buffer@.take(self.buflen + j as int)[k] == self.buffer@[k]);
                        }
                        assert(self.buffer@.take(self.buflen + j + 1) =~= model::rest(m0)
                            + data@.take(j + 1));
                    }
                    j += 1;
                }
                let tmp = self.buffer;
                proof {
                    let q = model::num_blocks(m0);
                    assert(tmp@ == self.buffer@.take((self.buflen + need) as int));
                    assert(tmp@ =~= model::block_at(m1, q));
                    model::lemma_state_after_prefix(m0, m1, q);
                }
                self.transform(tmp.as_slice());
                self.buflen = 0;
                i = need;
                proof {
                    let q = model::num_blocks(m0);
                    assert(self.h@ == model::state_after(m1, q + 1));
                    vstd::arithmetic::div_mod::lemma_fundamental_div_mod_converse(
                        (m0.len() + i) as int,
                        64,
                        q + 1,
                        0,
                    );
                }
            }
        } else {
            proof {
                model::lemma_state_after_prefix(m0, m1, model::num_blocks(m0));
            }
        }
        // Compress each complete 64-byte window of the remaining input
        // directly, without copying through the buffer.
        while n - i >= 64
            invariant
                i <= n,
                n == data@.len(),
                m1 == m0 + data@,
                self.msg@ == m1,
                self.bitlen == 8 * m1.len(),
                self.buflen == 0,
                (m0.len() + i) as int % 64 == 0,
                self.h@ == model::state_after(m1, (m0.len() + i) as int / 64),
            decreases n - i,
        {
            let ghost q = (m0.len() + i) as int / 64;
            proof {
                vstd::arithmetic::div_mod::lemma_fundamental_div_mod((m0.len() + i) as int, 64);
            }
            let blk = slice_subrange(data, i, i + 64);
            proof {
                assert(blk@ =~= model::block_at(m1, q));
            }
            self.transform(blk);
            i += 64;
            proof {
                vstd::arithmetic::div_mod::lemma_fundamental_div_mod_converse(
                    (m0.len() + i) as int,
                    64,
                    q + 1,
                    0,
                );
            }
        }
        // Hold the 0-to-63-byte tail in the buffer for a later call.
        if i < n {
            let rem = n - i;
            let mut j: usize = 0;
            while j < rem
                invariant
                    j <= rem,
                    rem == n - i,
                    rem < 64,
                    i <= n,
                    n == data@.len(),
                    m1 == m0 + data@,
                    self.msg@ == m1,
                    self.bitlen == 8 * m1.len(),
                    self.buflen == 0,
                    (m0.len() + i) as int % 64 == 0,
                    self.h@ == model::state_after(m1, (m0.len() + i) as int / 64),
                    self.buffer@.take(j as int) == data@.subrange(i as int, i + j),
                decreases rem - j,
            {
                self.buffer[j] = data[i + j];
                proof {
                    assert(self.buffer@.take(j + 1) =~= data@.subrange(i as int, i + j + 1));
                }
                j += 1;
            }
            self.buflen = rem;
        }
        proof {
            let q = (m0.len() + i) as int / 64;
            vstd::arithmetic::div_mod::lemma_fundamental_div_mod((m0.len() + i) as int, 64);
            vstd::arithmetic::div_mod::lemma_fundamental_div_mod_converse(
                m1.len() as int,
                64,
                q,
                (n - i) as int,
            );
            assert(self.buffer@.take(self.buflen as int) =~= model::rest(m1));
        }
    }

    /// Applies the Merkle-Damgard padding, compresses the final block or
    /// blocks, and serializes the state as the 32-byte big-endian digest of
    /// everything absorbed. The context counts as consumed afterwards: call
    /// `init` before absorbing another message.
    #[verifier::rlimit(50)]
    pub fn finalize(&mut self) -> (out: [u8; 32])
        requires
            old(self).wf(),
        ensures
            out@ == model::digest(old(self).absorbed()),
    {
        let ghost m = self.msg@;
        let ghost r0 = self.buflen as int;
        let ghost nb = model::num_blocks(m);
        let ghost p = model::padded(m);
        let ghost pz = model::pad_zeros(m.len() as int);
        let ghost fb = model::num_blocks(p) - 1;
        let ghost lastblk = model::block_at(p, fb);
        let bits = self.bitlen;
        proof {
            vstd::arithmetic::div_mod::lemma_fundamental_div_mod(m.len() as int, 64);
            if r0 <= 55 {
                vstd::arithmetic::div_mod::lemma_fundamental_div_mod_converse(
                    119 - r0,
                    64,
                    1,
                    55 - r0,
                );
                vstd::arithmetic::div_mod::lemma_fundamental_div_mod_converse(
                    p.len() as int,
                    64,
                    nb + 1,
                    0,
                );
            } else {
                vstd::arithmetic::div_mod::lemma_fundamental_div_mod_converse(
                    119 - r0,
                    64,
                    0,
                    119 - r0,
                );
                vstd::arithmetic::div_mod::lemma_fundamental_div_mod_converse(
                    p.len() as int,
                    64,
                    nb + 2,
                    0,
                );
            }
            assert((8 * m.len()) as u64 == bits);
            model::lemma_state_after_prefix(m, p, nb);
        }
        // Append the 0x80 marker byte.
        self.buffer[self.buflen] = 0x80;
        self.buflen = self.buflen + 1;
        proof {
            assert(self.buffer@.take(self.buflen as int) =~= model::rest(m) + seq![0x80u8]
                + model::zeros(0));
        }
        if self.buflen > 56 {
            // No room left for the 8-byte length field: zero-fill, compress,
            // and let the length-bearing block follow.
            while self.buflen < 64
                invariant
                    r0 + 1 <= self.buflen <= 64,
                    56 <= r0 < 64,
                    m.len() as int % 64 == r0,
                    model::rest(m).len() == r0,
                    self.msg@ == m,
                    self.bitlen == bits,
                    self.h@ == model::state_after(p, nb),
                    self.buffer@.take(self.buflen as int) == model::rest(m) + seq![0x80u8]
                        + model::zeros(self.buflen - r0 - 1),
                decreases 64 - self.buflen,
            {
                self.buffer[self.buflen] = 0;
                self.buflen = self.buflen + 1;
                proof {
                    let bl = self.buflen as int;
                    assert forall|k: int| 0 <= k < bl - 1 implies self.buffer@[k]
                        == (model::rest(m) + seq![0x80u8] + model::zeros(bl - 1 - r0 - 1))[k] by {
                        assert(self.buffer@.take(bl - 1)[k] == self.buffer@[k]);
                    }
                    assert(self.buffer@.take(bl) =~= model::rest(m) + seq![0x80u8]
                        + model::zeros(bl - r0 - 1));
                }
            }
            let tmp = self.buffer;
            proof {
                assert(tmp@ == self.buffer@.take(64));
                assert(tmp@ =~= model::block_at(p, nb));
            }
            self.transform(tmp.as_slice());
            self.buflen = 0;
            proof {
                assert(fb == nb + 1);
                assert(self.h@ == model::state_after(p, fb));
                assert(self.buffer@.take(0) =~= lastblk.take(0));
                assert forall|t: int| 0 <= t < 56 implies lastblk[t] == 0 by {
                    assert(lastblk[t] == p[64 * (nb + 1) + t]);
                }
                assert forall|u: int| 0 <= u < 8 implies lastblk[56 + u]
                    == model::be_bytes_u64(bits)[u] by {
                    assert(lastblk[56 + u] == p[64 * (nb + 1) + 56 + u]);
                }
            }
        } else {
            proof {
                assert(fb == nb);
                assert(self.h@ == model::state_after(p, fb));
                assert(self.buffer@.take(self.buflen as int) =~= lastblk.take(
                    self.buflen as int,
                ));
                assert forall|t: int| self.buflen <= t < 56 implies lastblk[t] == 0 by {
                    assert(lastblk[t] == p[64 * nb + t]);
                }
                assert forall|u: int| 0 <= u < 8 implies lastblk[56 + u]
                    == model::be_bytes_u64(bits)[u] by {
                    assert(lastblk[56 + u] == p[64 * nb + 56 + u]);
                }
            }
        }
        // Zero-fill up to the length field.
        while self.buflen < 56
            invariant
                self.buflen <= 56,
                self.msg@ == m,
                self.bitlen == bits,
                self.h@ == model::state_after(p, fb),
                lastblk == model::block_at(p, fb),
                lastblk.len() == 64,
                forall|t: int| self.buflen <= t < 56 ==> lastblk[t] == 0,
                self.buffer@.take(self.buflen as int) == lastblk.take(self.buflen as int),
            decreases 56 - self.buflen,
        {
            self.buffer[self.buflen] = 0;
            self.buflen = self.buflen + 1;
            proof {
                assert(self.buffer@.take(self.buflen as int) =~= lastblk.take(
                    self.buflen as int,
                ));
            }
        }
        // Write the total bit count, big-endian, into the last 8 bytes.
        self.buffer[56] = (bits >> 56u64) as u8;
        self.buffer[57] = (bits >> 48u64) as u8;
        self.buffer[58] = (bits >> 40u64) as u8;
        self.buffer[59] = (bits >> 32u64) as u8;
        self.buffer[60] = (bits >> 24u64) as u8;
        self.buffer[61] = (bits >> 16u64) as u8;
        self.buffer[62] = (bits >> 8u64) as u8;
        self.buffer[63] = bits as u8;
        proof {
            assert forall|t: int| 0 <= t < 56 implies self.buffer@[t] == lastblk[t] by {
                assert(self.buffer@.take(56)[t] == self.buffer@[t]);
                assert(lastblk.take(56)[t] == lastblk[t]);
            }
            assert(self.buffer@ =~= lastblk);
        }
        let tmp = self.buffer;
        self.transform(tmp.as_slice());
        proof {
            assert(self.h@ == model::state_after(p, model::num_blocks(p)));
        }
        // Serialize the 8 state words big-endian, word 0 first.
        let out = state_to_bytes(&self.h);
        proof {
            assert(out@ =~= model::digest(m));
        }
        out
    }

    /// The total number of bits absorbed so far, as the finalizer will encode
    /// it into the padding's length field.
    pub fn bits_absorbed(&self) -> (r: u64)
        ensures
            r == self.bit_count(),
    {
        self.bitlen
    }

    /// The compression transform: folds one 64-byte block into the running
    /// state and touches nothing else.
    pub fn transform(&mut self, block: &[u8])
        requires
            block@.len() == 64,
        ensures
            final(self).state() == model::compress(old(self).state(), block@),
            final(self).pending() == old(self).pending(),
            final(self).buffered() == old(self).buffered(),
            final(self).bit_count() == old(self).bit_count(),
            final(self).absorbed() == old(self).absorbed(),
    {
        let ghost s0 = self.h@;
        // Message schedule: the first 16 words are the block, read big-endian.
        let mut w: [u32; 64] = [0; 64];
        let mut i: usize = 0;
        while i < 16
            invariant
                i <= 16,
                block@.len() == 64,
                forall|k: int| 0 <= k < i ==> w@[k] == model::schedule(block@, k),
            decreases 16 - i,
        {
            let j = i * 4;
            w[i] = ((block[j] as u32) << 24u32) | ((block[j + 1] as u32) << 16u32)
                | ((block[j + 2] as u32) << 8u32) | (block[j + 3] as u32);
            assert(w@[i as int] == model::schedule(block@, i as int));
            i += 1;
        }
        // The remaining 48 words each mix four earlier schedule words.
        while i < 64
            invariant
                16 <= i <= 64,
                block@.len() == 64,
                forall|k: int| 0 <= k < i ==> w@[k] == model::schedule(block@, k),
            decreases 64 - i,
        {
            w[i] = ssig1(w[i - 2]).wrapping_add(w[i - 7]).wrapping_add(ssig0(w[i - 15]))
                .wrapping_add(w[i - 16]);
            assert(w@[i as int] == model::schedule(block@, i as int));
            i += 1;
        }
        let kt = round_constant_table();
        // 64 rounds over the eight working variables.
        let mut a = self.h[0];
        let mut b = self.h[1];
        let mut c = self.h[2];
        let mut d = self.h[3];
        let mut e = self.h[4];
        let mut f = self.h[5];
        let mut g = self.h[6];
        let mut h = self.h[7];
        assert(seq![a, b, c, d, e, f, g, h] =~= model::rounds(s0, block@, 0));
        let mut r: usize = 0;
        while r < 64
            invariant
                r <= 64,
                block@.len() == 64,
                kt@ == model::round_constants(),
                forall|k: int| 0 <= k < 64 ==> w@[k] == model::schedule(block@, k),
                seq![a, b, c, d, e, f, g, h] == model::rounds(s0, block@, r as int),
            decreases 64 - r,
        {
            let t1 = h.wrapping_add(bsig1(e)).wrapping_add(ch(e, f, g)).wrapping_add(kt[r])
                .wrapping_add(w[r]);
            let t2 = bsig0(a).wrapping_add(maj(a, b, c));
            h = g;
            g = f;
            f = e;
            e = d.wrapping_add(t1);
            d = c;
            c = b;
            b = a;
            a = t1.wrapping_add(t2);
            proof {
                let prev = model::rounds(s0, block@, r as int);
                assert(seq![a, b, c, d, e, f, g, h] =~= model::round(
                    prev,
                    model::round_constants()[r as int],
                    model::schedule(block@, r as int),
                ));
                assert(seq![a, b, c, d, e, f, g, h] == model::rounds(s0, block@, r + 1));
            }
            r += 1;
        }
        // Fold the working variables back into the state, word by word.
        self.h[0] = self.h[0].wrapping_add(a);
        self.h[1] = self.h[1].wrapping_add(b);
        self.h[2] = self.h[2].wrapping_add(c);
        self.h[3] = self.h[3].wrapping_add(d);
        self.h[4] = self.h[4].wrapping_add(e);
        self.h[5] = self.h[5].wrapping_add(f);
        self.h[6] = self.h[6].wrapping_add(g);
        self.h[7] = self.h[7].wrapping_add(h);
        proof {
            assert(self.h@ =~= model::compress(s0, block@));
        }
    }
}

/// A context's whole observable state is a function of the bytes it absorbed
/// and of nothing else: two well-formed contexts that absorbed equal messages
/// agree on the running state, the pending bytes, and the bit count, however
/// their inputs were split across `update` calls. In particular, independent
/// contexts never disturb one another, and the digest `finalize` yields
/// depends on the absorbed message alone.
pub proof fn lemma_state_determined_by_message(c1: Sha256Ctx, c2: Sha256Ctx)
    requires
        c1.wf(),
        c2.wf(),
        c1.absorbed() == c2.absorbed(),
    ensures
        c1.state() == c2.state(),
        c1.pending() == c2.pending(),
        c1.buffered() == c2.buffered(),
        c1.bit_count() == c2.bit_count(),
{
}

} // verus!
