//! Sixteen-bit packing shared by the glyph blobs.

use vstd::prelude::*;

verus! {

/// The signed sixteen-bit number that is congruent to `n` modulo 65536.
pub open spec fn wrapped(n: int) -> i16 {
    let low = n % 65536;
    if low >= 32768 {
        (low - 65536) as i16
    } else {
        low as i16
    }
}

/// The low sixteen bits of `n` as a signed number.
pub fn low_i16(n: u32) -> (r: i16)
    ensures
        r == wrapped(n as int),
{
    let r: i16 = n as i16;
    proof {
        assert((n as i16) as int == (if n % 65536 >= 32768 {
            (n % 65536) - 65536
        } else {
            (n % 65536) as int
        })) by (bit_vector);
    }
    r
}

/// The low sixteen bits of a signed `n` as a signed number.
pub fn low_i16_signed(n: i32) -> (r: i16)
    ensures
        r == wrapped(n as int),
{
    let u: u32 = n as u32;
    proof {
        assert(u == (if n >= 0 { n as int } else { n + 0x1_0000_0000 })) by (bit_vector)
            requires
                u == n as u32,
        ;
    }
    low_i16(u)
}

/// Two signed sixteen-bit numbers in one word: `a` in the low half, `b` in
/// the high half.
pub open spec fn packed(a: i16, b: i16) -> i32 {
    let low = if a < 0 { a + 65536 } else { a as int };
    (b * 65536 + low) as i32
}

/// The low half of a packed word.
pub open spec fn unpacked_low(w: i32) -> i16 {
    wrapped(w as int)
}

/// The high half of a packed word.
pub open spec fn unpacked_high(w: i32) -> i16 {
    (w as int / 65536) as i16
}

/// Packs two `i16` values into one `i32`: low half `a`, high half `b`.
pub fn pack_i16_pair(a: i16, b: i16) -> (r: i32)
    ensures
        r == packed(a, b),
{
    let r: i32 = (a as u16 as u32 | ((b as u16 as u32) << 16)) as i32;
    proof {
        assert(((a as u16 as u32 | ((b as u16 as u32) << 16u32)) as i32) as int == b * 65536 + (if a < 0 {
            a + 65536
        } else {
            a as int
        })) by (bit_vector);
    }
    r
}

/// A packed pair gives both of its halves back.
pub proof fn lemma_unpack_packed(a: i16, b: i16)
    ensures
        unpacked_low(packed(a, b)) == a,
        unpacked_high(packed(a, b)) == b,
{
    let low = if a < 0 { a + 65536 } else { a as int };
    assert(packed(a, b) == b * 65536 + low);
    assert((b * 65536 + low) / 65536 == b);
    assert((b * 65536 + low) % 65536 == low);
}

} // verus!
