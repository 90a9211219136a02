//! Mathematical model of SHA-256.
//!
//! Everything here is ghost: spec functions that define, word by word and
//! byte by byte, what the hash of a byte sequence is. The executable code in
//! the other modules is proved against these definitions.
use vstd::prelude::*;

verus! {

/// 32-bit addition modulo 2^32, the only addition SHA-256 uses.
pub open spec fn wadd(x: u32, y: u32) -> u32 {
    vstd::wrapping::u32_specs::wrapping_add(x, y)
}

/// Right rotation of a 32-bit word by `n` positions, 0 < n < 32.
pub open spec fn rotr(x: u32, n: u32) -> u32
    recommends
        0 < n < 32,
{
    (x >> n) | (x << ((32 - n) as u32))
}

/// The "choose" function: each bit of `x` selects the bit of `y` or `z`.
pub open spec fn ch(x: u32, y: u32, z: u32) -> u32 {
    (x & y) ^ ((!x) & z)
}

/// The "majority" function: each result bit is the majority of the three input bits.
pub open spec fn maj(x: u32, y: u32, z: u32) -> u32 {
    (x & y) ^ (x & z) ^ (y & z)
}

/// Big sigma 0, the mixing function applied to working variable `a` each round.
pub open spec fn bsig0(x: u32) -> u32 {
    rotr(x, 2) ^ rotr(x, 13) ^ rotr(x, 22)
}

/// Big sigma 1, the mixing function applied to working variable `e` each round.
pub open spec fn bsig1(x: u32) -> u32 {
    rotr(x, 6) ^ rotr(x, 11) ^ rotr(x, 25)
}

/// Small sigma 0, used in the message-schedule expansion.
pub open spec fn ssig0(x: u32) -> u32 {
    rotr(x, 7) ^ rotr(x, 18) ^ (x >> 3u32)
}

/// Small sigma 1, used in the message-schedule expansion.
pub open spec fn ssig1(x: u32) -> u32 {
    rotr(x, 17) ^ rotr(x, 19) ^ (x >> 10u32)
}

/// The 64 round constants (first 32 bits of the fractional parts of the cube
/// roots of the first 64 primes).
pub open spec fn round_constants() -> Seq<u32> {
    seq![
        0x428a2f98u32, 0x71374491, 0xb5c0fbcf, 0xe9b5dba5,
        0x3956c25b, 0x59f111f1, 0x923f82a4, 0xab1c5ed5,
        0xd807aa98, 0x12835b01, 0x243185be, 0x550c7dc3,
        0x72be5d74, 0x80deb1fe, 0x9bdc06a7, 0xc19bf174,
        0xe49b69c1, 0xefbe4786, 0x0fc19dc6, 0x240ca1cc,
        0x2de92c6f, 0x4a7484aa, 0x5cb0a9dc, 0x76f988da,
        0x983e5152, 0xa831c66d, 0xb00327c8, 0xbf597fc7,
        0xc6e00bf3, 0xd5a79147, 0x06ca6351, 0x14292967,
        0x27b70a85, 0x2e1b2138, 0x4d2c6dfc, 0x53380d13,
        0x650a7354, 0x766a0abb, 0x81c2c92e, 0x92722c85,
        0xa2bfe8a1, 0xa81a664b, 0xc24b8b70, 0xc76c51a3,
        0xd192e819, 0xd6990624, 0xf40e3585, 0x106aa070,
        0x19a4c116, 0x1e376c08, 0x2748774c, 0x34b0bcb5,
        0x391c0cb3, 0x4ed8aa4a, 0x5b9cca4f, 0x682e6ff3,
        0x748f82ee, 0x78a5636f, 0x84c87814, 0x8cc70208,
        0x90befffa, 0xa4506ceb, 0xbef9a3f7, 0xc67178f2,
    ]
}

/// The eight initial state words (first 32 bits of the fractional parts of
/// the square roots of the first 8 primes).
pub open spec fn init_state() -> Seq<u32> {
    seq![
        0x6a09e667u32, 0xbb67ae85, 0x3c6ef372, 0xa54ff53a,
        0x510e527f, 0x9b05688c, 0x1f83d9ab, 0x5be0cd19,
    ]
}

/// A 32-bit word read big-endian from four bytes.
pub open spec fn word_be(b0: u8, b1: u8, b2: u8, b3: u8) -> u32 {
    ((b0 as u32) << 24u32) | ((b1 as u32) << 16u32) | ((b2 as u32) << 8u32) | (b3 as u32)
}

/// Word `i` of the message schedule of one 64-byte block: the first 16 words
/// are the block read as big-endian words, the rest mix four earlier words.
pub open spec fn schedule(block: Seq<u8>, i: int) -> u32
    recommends
        block.len() == 64,
        0 <= i < 64,
    decreases i,
{
    if i < 16 {
        word_be(block[4 * i], block[4 * i + 1], block[4 * i + 2], block[4 * i + 3])
    } else {
        wadd(
            wadd(wadd(ssig1(schedule(block, i - 2)), schedule(block, i - 7)), ssig0(schedule(block, i - 15))),
            schedule(block, i - 16),
        )
    }
}

/// One round of the compression function on the eight working variables
/// `v = [a, b, c, d, e, f, g, h]`, with round constant `ki` and schedule word `wi`.
pub open spec fn round(v: Seq<u32>, ki: u32, wi: u32) -> Seq<u32>
    recommends
        v.len() == 8,
{
    let t1 = wadd(wadd(wadd(wadd(v[7], bsig1(v[4])), ch(v[4], v[5], v[6])), ki), wi);
    let t2 = wadd(bsig0(v[0]), maj(v[0], v[1], v[2]));
    seq![wadd(t1, t2), v[0], v[1], v[2], wadd(v[3], t1), v[4], v[5], v[6]]
}

/// The working variables after the first `n` of the 64 rounds, starting from `v`.
pub open spec fn rounds(v: Seq<u32>, block: Seq<u8>, n: int) -> Seq<u32>
    recommends
        v.len() == 8,
        block.len() == 64,
        0 <= n <= 64,
    decreases n,
{
    if n <= 0 {
        v
    } else {
        round(rounds(v, block, n - 1), round_constants()[n - 1], schedule(block, n - 1))
    }
}

/// The compression transform: one 64-byte block folded into the 8-word state.
pub open spec fn compress(s: Seq<u32>, block: Seq<u8>) -> Seq<u32>
    recommends
        s.len() == 8,
        block.len() == 64,
{
    let v = rounds(s, block, 64);
    Seq::new(8, |i: int| wadd(s[i], v[i]))
}

/// Bytes `64*i .. 64*i + 64` of a message: its block number `i`.
pub open spec fn block_at(m: Seq<u8>, i: int) -> Seq<u8> {
    m.subrange(64 * i, 64 * i + 64)
}

/// The state after compressing the first `n` blocks of `m` into the initial state.
pub open spec fn state_after(m: Seq<u8>, n: int) -> Seq<u32>
    decreases n,
{
    if n <= 0 {
        init_state()
    } else {
        compress(state_after(m, n - 1), block_at(m, n - 1))
    }
}

/// How many complete 64-byte blocks `m` holds.
pub open spec fn num_blocks(m: Seq<u8>) -> int {
    m.len() as int / 64
}

/// The tail of `m` past its complete blocks: 0 to 63 bytes.
pub open spec fn rest(m: Seq<u8>) -> Seq<u8> {
    m.skip(64 * num_blocks(m))
}

/// `n` zero bytes.
pub open spec fn zeros(n: int) -> Seq<u8> {
    Seq::new(n as nat, |i: int| 0u8)
}

/// A 64-bit value as eight big-endian bytes.
pub open spec fn be_bytes_u64(x: u64) -> Seq<u8> {
    seq![
        (x >> 56u64) as u8,
        (x >> 48u64) as u8,
        (x >> 40u64) as u8,
        (x >> 32u64) as u8,
        (x >> 24u64) as u8,
        (x >> 16u64) as u8,
        (x >> 8u64) as u8,
        x as u8,
    ]
}

/// How many zero bytes the padding inserts between the 0x80 marker and the
/// 8-byte length field, so that the padded length is a multiple of 64.
pub open spec fn pad_zeros(len: int) -> int {
    (119 - (len % 64)) % 64
}

/// A message with the Merkle-Damgard padding appended: the 0x80 marker, the
/// zero fill, and the original length in bits as a big-endian 64-bit field.
pub open spec fn padded(m: Seq<u8>) -> Seq<u8>
    recommends
        8 * m.len() <= u64::MAX,
{
    m + seq![0x80u8] + zeros(pad_zeros(m.len() as int)) + be_bytes_u64((8 * m.len()) as u64)
}

/// The 32-byte SHA-256 digest of a message: the state after all blocks of the
/// padded message, serialized big-endian, word 0 first.
pub open spec fn digest(m: Seq<u8>) -> Seq<u8>
    recommends
        8 * m.len() <= u64::MAX,
{
    let s = state_after(padded(m), num_blocks(padded(m)));
    Seq::new(32, |i: int| (s[i / 4] >> ((24 - 8 * (i % 4)) as u32)) as u8)
}

/// The state after `n` blocks depends only on the first `64 * n` bytes of the
/// message: bytes appended past them never disturb it.
pub proof fn lemma_state_after_prefix(m1: Seq<u8>, m2: Seq<u8>, n: int)
    requires
        0 <= n,
        64 * n <= m1.len(),
        64 * n <= m2.len(),
        forall|i: int| 0 <= i < 64 * n ==> m1[i] == m2[i],
    ensures
        state_after(m1, n) == state_after(m2, n),
    decreases n,
{
    if n > 0 {
        lemma_state_after_prefix(m1, m2, n - 1);
        assert(block_at(m1, n - 1) =~= block_at(m2, n - 1));
    }
}

/// Splitting an input at any byte boundary loses nothing: absorbing the two
/// halves in order absorbs exactly the whole. Since `update` appends its span
/// to the absorbed message, feeding a message through any sequence of
/// sub-spans absorbs the same message as one call with the whole, and the
/// digest agrees.
pub proof fn lemma_split_absorbs_whole(m: Seq<u8>, k: int)
    requires
        0 <= k <= m.len(),
    ensures
        m.take(k) + m.skip(k) == m,
{
    assert(m.take(k) + m.skip(k) =~= m);
}

/// The lowercase hexadecimal digit for a nibble.
pub open spec fn hex_digit(n: u8) -> u8
    recommends
        n < 16,
{
    if n < 10 {
        (0x30 + n) as u8
    } else {
        (0x57 + n) as u8
    }
}

/// Is `c` the ASCII code of a lowercase hexadecimal digit?
pub open spec fn is_lower_hex(c: u8) -> bool {
    (0x30 <= c <= 0x39) || (0x61 <= c <= 0x66)
}

/// A byte sequence rendered as lowercase hexadecimal text, high nibble first,
/// with one terminating null byte.
pub open spec fn hex_encoding(d: Seq<u8>) -> Seq<u8> {
    Seq::new(
        2 * d.len(),
        |i: int| if i % 2 == 0 {
            hex_digit(d[i / 2] >> 4u8)
        } else {
            hex_digit(d[i / 2] & 0x0fu8)
        },
    ) + seq![0u8]
}

} // verus!
