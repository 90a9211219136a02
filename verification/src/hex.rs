//! Rendering a 32-byte digest as lowercase hexadecimal text with a
//! terminating null byte, as the model's `hex_encoding` defines it.
use crate::model;
use vstd::prelude::*;

verus! {

/// The lowercase hexadecimal character of one nibble.
fn hex_digit_char(n: u8) -> (c: u8)
    requires
        n < 16,
    ensures
        c == model::hex_digit(n),
{
    if n < 10 {
        0x30 + n
    } else {
        0x57 + n
    }
}

/// Renders exactly 32 digest bytes as 64 lowercase hexadecimal characters,
/// high nibble first, followed by one terminating null byte.
pub fn sha256_to_hex(digest: &[u8]) -> (out: [u8; 65])
    requires
        digest@.len() == 32,
    ensures
        out@ == model::hex_encoding(digest@),
        out@[64] == 0,
        forall|i: int| 0 <= i < 64 ==> model::is_lower_hex(out@[i]),
{
    let mut out: [u8; 65] = [0; 65];
    let mut i: usize = 0;
    while i < 32
        invariant
            i <= 32,
            digest@.len() == 32,
            out@.len() == 65,
            out@[64] == 0,
            forall|k: int| 0 <= k < 2 * i ==> out@[k] == model::hex_encoding(digest@)[k],
        decreases 32 - i,
    {
        let b = digest[i];
        let hi = b >> 4u8;
        let lo = b & 0x0fu8;
        assert(b >> 4u8 < 16 && b & 0x0fu8 < 16) by (bit_vector);
        out[2 * i] = hex_digit_char(hi);
        out[2 * i + 1] = hex_digit_char(lo);
        i += 1;
    }
    proof {
        assert(out@ =~= model::hex_encoding(digest@));
        assert forall|k: int| 0 <= k < 64 implies model::is_lower_hex(out@[k]) by {
            let b = digest@[k / 2];
            assert(b >> 4u8 < 16 && b & 0x0fu8 < 16) by (bit_vector);
            assert(out@[k] == model::hex_encoding(digest@)[k]);
        }
    }
    out
}

} // verus!
