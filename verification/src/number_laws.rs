//! What bit patterns stand for, and what is made of them.
//!
//! Numbers are told by what they are worth, words by the remainders they leave.

use crate::bytes::{in_memory, little_endian, signed, unsigned, word_byte};
use crate::culling::{is_still, same_place};
use crate::scalar::{
    lemma_order_is_value_order, magnitude_value, quantized, round_shifted, Scalar,
};
use crate::types::{border_width, usable, TextBorder};
use crate::words::{lemma_unpack_packed, packed, unpacked_high, unpacked_low, wrapped};
use vstd::arithmetic::div_mod::{
    lemma_div_denominator, lemma_div_pos_is_pos, lemma_fundamental_div_mod,
};
use vstd::arithmetic::power2::{lemma2_to64, lemma_pow2_pos, lemma_pow2_unfold, pow2};
use vstd::prelude::*;

verus! {

/// The smallest numbers are worth as many units as their bits say.
pub proof fn lemma_small_bits_are_units(v: Scalar)
    requires
        v.bits < 0x100_0000,
    ensures
        v.value() == v.bits,
        !v.nan(),
        v.finite(),
{
    let bits = v.bits as int;
    lemma2_to64();
    if bits < 0x80_0000 {
        assert(bits / 0x80_0000 == 0 && bits % 0x80_0000 == bits);
    } else {
        assert(bits / 0x80_0000 == 1 && bits % 0x80_0000 == bits - 0x80_0000);
        assert(pow2(0) == 1);
        assert(bits * 1 == bits);
    }
}

/// One more in the exponent doubles a number.
pub proof fn lemma_exponent_doubles(v: Scalar, w: Scalar)
    requires
        0x80_0000 <= v.bits,
        w.bits == v.bits + 0x80_0000,
        w.bits < 0x7f80_0000,
    ensures
        w.value() == 2 * v.value(),
        w.finite(),
{
    let e = v.bits as int / 0x80_0000;
    let f = v.bits as int % 0x80_0000;
    assert(w.bits as int / 0x80_0000 == e + 1);
    assert(w.bits as int % 0x80_0000 == f);
    lemma_pow2_unfold(e as nat);
    let p = pow2((e - 1) as nat) as int;
    assert((f + 0x80_0000) * (2 * p) == 2 * ((f + 0x80_0000) * p)) by (nonlinear_arith);
}

/// The sign bit turns a number into its opposite and leaves its kind alone.
pub proof fn lemma_sign_bit_negates(v: Scalar, w: Scalar)
    requires
        v.bits < 0x8000_0000,
        w.bits == v.bits + 0x8000_0000,
    ensures
        w.value() == -v.value(),
        w.order() == -v.order(),
        w.nan() == v.nan(),
        w.finite() == v.finite(),
        w.negative() && !v.negative(),
        quantized(v) < i32::MAX ==> quantized(w) == -quantized(v),
{
    lemma_magnitude_not_negative(v.magnitude());
    lemma_pow2_pos(146);
    lemma_pow2_pos(147);
    lemma_div_pos_is_pos(magnitude_value(v.magnitude()) + pow2(146), pow2(147) as int);
}

/// Numbers without a sign stand in the order of their bits: the finite ones,
/// then infinity. What comes behind is no number.
pub proof fn lemma_bits_in_order(v: Scalar, w: Scalar)
    requires
        v.bits < 0x8000_0000,
        w.bits < 0x8000_0000,
    ensures
        v.nan() <==> v.bits > 0x7f80_0000,
        v.finite() <==> v.bits < 0x7f80_0000,
        v.order() - w.order() == v.bits - w.bits,
        v.bits == 0 ==> v.order() == 0,
{
}

/// What is no number compares with nothing.
pub proof fn lemma_nan_compares_with_nothing(v: Scalar, w: Scalar)
    requires
        v.nan() || w.nan(),
    ensures
        !v.less(w),
        !v.equal(w),
        !same_place(v, w),
{
}

/// Every finite number lies between the two infinities.
pub proof fn lemma_infinities_enclose(v: Scalar, low: Scalar, high: Scalar)
    requires
        v.finite(),
        low.bits == 0xff80_0000,
        high.bits == 0x7f80_0000,
    ensures
        low.less(v) && v.less(high) && low.less(high),
        !v.less(low) && !high.less(v),
        !v.equal(low) && !v.equal(high),
{
}

/// Of two numbers one is not less and the other not greater than either, and
/// both are among the two. What is no number gives way.
pub proof fn lemma_least_and_greatest(v: Scalar, w: Scalar)
    ensures
        v.least(w) == v || v.least(w) == w,
        v.greatest(w) == v || v.greatest(w) == w,
        !v.nan() && !w.nan() ==> {
            &&& !v.less(v.least(w)) && !w.less(v.least(w))
            &&& !v.greatest(w).less(v) && !v.greatest(w).less(w)
        },
        v.nan() ==> v.least(w) == w && v.greatest(w) == w,
        !v.nan() && w.nan() ==> v.least(w) == v && v.greatest(w) == v,
{
}

/// A quantized coordinate is the whole number of quarter units that is nearest
/// to it, and the one farther from zero where two are equally near. What is
/// out of range stays at the end of the range.
pub proof fn lemma_quantized_nearest(v: Scalar)
    ensures
        v.nan() ==> quantized(v) == 0,
        v.bits == 0x7f80_0000 ==> quantized(v) == i32::MAX,
        v.bits == 0xff80_0000 ==> quantized(v) == i32::MIN,
        v.finite() ==> {
            let q = quantized(v);
            let n = 4 * v.value();
            let unit = pow2(149) as int;
            &&& i32::MIN <= q <= i32::MAX
            &&& i32::MIN < q < i32::MAX ==> {
                &&& -unit <= 2 * (n - q * unit) <= unit
                &&& 2 * (n - q * unit) == unit ==> n < 0
                &&& 2 * (n - q * unit) == -unit ==> n > 0
            }
            &&& q == i32::MAX ==> 2 * n >= (2 * i32::MAX - 1) * unit
            &&& q == i32::MIN ==> 2 * n <= (2 * i32::MIN + 1) * unit
        },
{
    if v.finite() {
        let m = magnitude_value(v.magnitude());
        let one = pow2(147) as int;
        let half = pow2(146) as int;
        let r = round_shifted(m, 147);
        lemma_magnitude_not_negative(v.magnitude());
        lemma_pow2_pos(146);
        lemma_pow2_pos(147);
        lemma_pow2_unfold(147);
        lemma_pow2_unfold(148);
        lemma_pow2_unfold(149);
        lemma_fundamental_div_mod(m + half, one);
        let rest = (m + half) % one;
        assert(0 <= rest < one);
        assert(m + half == one * r + rest);
        assert(one * r == r * one) by (nonlinear_arith);
        let unit = pow2(149) as int;
        assert(unit == 4 * one);
        assert(r * unit == 4 * (r * one)) by (nonlinear_arith)
            requires
                unit == 4 * one,
        ;
        assert((-r) * unit == -(r * unit)) by (nonlinear_arith);
        assert(r >= 0) by {
            lemma_div_pos_is_pos(m + half, one);
        }
        let n = 4 * m;
        assert(-unit <= 2 * (n - r * unit) < unit);
        let top = i32::MAX as int;
        if r > top {
            assert(r * unit >= (top + 1) * unit) by (nonlinear_arith)
                requires
                    r >= top + 1,
                    unit > 0,
            ;
            assert((top + 1) * unit == top * unit + unit) by (nonlinear_arith);
        }
        assert((2 * top - 1) * unit == 2 * (top * unit) - unit) by (nonlinear_arith);
        assert((2 * top + 1) * unit == 2 * (top * unit) + unit) by (nonlinear_arith);
        let bottom = i32::MIN as int;
        assert((2 * bottom + 1) * unit == -((2 * top + 1) * unit)) by (nonlinear_arith)
            requires
                bottom == -top - 1,
        ;
        assert(bottom * unit == -(top * unit) - unit) by (nonlinear_arith)
            requires
                bottom == -top - 1,
        ;
        if r == top + 1 {
            assert(r * unit == top * unit + unit);
        }
        if r == 0 {
            assert(r * unit == 0);
        }
        if r > 0 && 2 * (n - r * unit) == -unit {
            assert(r * unit >= unit) by (nonlinear_arith)
                requires
                    r >= 1,
                    unit > 0,
            ;
        }
    }
}

proof fn lemma_magnitude_not_negative(magnitude: int)
    requires
        magnitude >= 0,
    ensures
        magnitude_value(magnitude) >= 0,
{
    let e = magnitude / 0x80_0000;
    let f = magnitude % 0x80_0000;
    if e != 0 {
        lemma_pow2_pos((e - 1) as nat);
        assert((f + 0x80_0000) * pow2((e - 1) as nat) >= 0) by (nonlinear_arith)
            requires
                f >= 0,
                pow2((e - 1) as nat) > 0,
        ;
    }
}

/// Two coordinates are the same place exactly when both are finite and worth
/// the same, and a distance is none exactly when it is worth nothing.
pub proof fn lemma_same_place_is_same_value(v: Scalar, w: Scalar)
    ensures
        same_place(v, w) <==> v.finite() && w.finite() && v.value() == w.value(),
        v.finite() && w.finite() ==> (is_still(v, w) <==> v.value() == 0 && w.value() == 0),
        is_still(v, w) ==> v.finite() && w.finite(),
{
    if v.finite() && w.finite() {
        let zero = Scalar { bits: 0 };
        lemma_order_is_value_order(v, w);
        lemma_order_is_value_order(v, zero);
        lemma_order_is_value_order(w, zero);
        lemma_small_bits_are_units(zero);
    }
}

/// A number is usable exactly when it is finite and worth more than nothing.
pub proof fn lemma_usable_is_positive(v: Scalar)
    ensures
        usable(v) <==> v.finite() && v.value() > 0,
{
    if v.finite() {
        let zero = Scalar { bits: 0 };
        lemma_order_is_value_order(zero, v);
        lemma_small_bits_are_units(zero);
    }
}

/// An area has a border exactly when it asks for one and the width it asks for,
/// its scale and their product are all finite and worth more than nothing; the
/// border is then as wide as the product.
pub proof fn lemma_border_width(border: Option<TextBorder>, scale: Scalar, product: Scalar)
    ensures
        match border_width(border, scale, product) {
            Some(width) => {
                &&& width == product
                &&& border is Some
                &&& border->0.width.finite() && border->0.width.value() > 0
                &&& scale.finite() && scale.value() > 0
                &&& product.finite() && product.value() > 0
            },
            None => {
                ||| border is None
                ||| !border->0.width.finite() || border->0.width.value() <= 0
                ||| !scale.finite() || scale.value() <= 0
                ||| !product.finite() || product.value() <= 0
            },
        },
{
    lemma_usable_is_positive(scale);
    lemma_usable_is_positive(product);
    if let Some(b) = border {
        lemma_usable_is_positive(b.width);
    }
}

/// Sixteen bits keep the remainder of a number.
pub proof fn lemma_wrapped_keeps_remainder(n: int)
    ensures
        (wrapped(n) - n) % 65536 == 0,
        -32768 <= n < 32768 ==> wrapped(n) == n,
{
}

/// A packed word leaves its low half as remainder and its high half as
/// quotient, and both are read back from it.
pub proof fn lemma_packed_halves(a: i16, b: i16)
    ensures
        packed(a, b) as int / 65536 == b,
        (packed(a, b) - a) % 65536 == 0,
        unpacked_low(packed(a, b)) == a,
        unpacked_high(packed(a, b)) == b,
{
    lemma_unpack_packed(a, b);
    let low = if a < 0 { a + 65536 } else { a as int };
    assert(packed(a, b) == b * 65536 + low);
}

/// A signed and an unsigned word with the same bits differ by a whole number of
/// 2^32, and each is had from the other.
pub proof fn lemma_signed_unsigned(s: i32, u: u32)
    ensures
        (unsigned(s) - s) % 0x1_0000_0000 == 0,
        (signed(u) - u) % 0x1_0000_0000 == 0,
        signed(unsigned(s)) == s,
        unsigned(signed(u)) == u,
{
}

/// The word that four bytes hold with the lowest byte first.
pub open spec fn little_word(bytes: Seq<u8>, at: int) -> int {
    bytes[at] + 0x100 * bytes[at + 1] + 0x1_0000 * bytes[at + 2] + 0x100_0000 * bytes[at + 3]
}

/// The word that four bytes hold with the highest byte first.
pub open spec fn big_word(bytes: Seq<u8>, at: int) -> int {
    bytes[at + 3] + 0x100 * bytes[at + 2] + 0x1_0000 * bytes[at + 1] + 0x100_0000 * bytes[at]
}

/// Whoever reads four bytes at a time, in the byte order of the machine, finds
/// the words one after the other.
pub proof fn lemma_words_read_back(words: Seq<u32>, bytes: Seq<u8>)
    requires
        in_memory(words, bytes),
    ensures
        bytes.len() == 4 * words.len(),
        (forall|i: int| 0 <= i < words.len() ==> little_word(bytes, 4 * i) == #[trigger] words[i])
            || (forall|i: int|
            0 <= i < words.len() ==> big_word(bytes, 4 * i) == #[trigger] words[i]),
{
    if little_endian(words, bytes) {
        assert forall|i: int| 0 <= i < words.len() implies little_word(bytes, 4 * i)
            == #[trigger] words[i] by {
            lemma_four_bytes(words[i]);
            assert(bytes[4 * i] == word_byte(words[4 * i / 4], 4 * i % 4));
            assert(bytes[4 * i + 1] == word_byte(
                words[(4 * i + 1) / 4],
                (4 * i + 1) % 4,
            ));
            assert(bytes[4 * i + 2] == word_byte(
                words[(4 * i + 2) / 4],
                (4 * i + 2) % 4,
            ));
            assert(bytes[4 * i + 3] == word_byte(
                words[(4 * i + 3) / 4],
                (4 * i + 3) % 4,
            ));
        }
    } else {
        assert forall|i: int| 0 <= i < words.len() implies big_word(bytes, 4 * i)
            == #[trigger] words[i] by {
            lemma_four_bytes(words[i]);
            assert(bytes[4 * i] == word_byte(words[4 * i / 4], 3 - 4 * i % 4));
            assert(bytes[4 * i + 1] == word_byte(
                words[(4 * i + 1) / 4],
                3 - (4 * i + 1) % 4,
            ));
            assert(bytes[4 * i + 2] == word_byte(
                words[(4 * i + 2) / 4],
                3 - (4 * i + 2) % 4,
            ));
            assert(bytes[4 * i + 3] == word_byte(
                words[(4 * i + 3) / 4],
                3 - (4 * i + 3) % 4,
            ));
        }
    }
}

proof fn lemma_four_bytes(word: u32)
    ensures
        ({
            let a = word_byte(word, 0);
            let b = word_byte(word, 1);
            let c = word_byte(word, 2);
            let d = word_byte(word, 3);
            a + 0x100 * b + 0x1_0000 * c + 0x100_0000 * d == word
        }),
{
    let w = word as int;
    lemma_fundamental_div_mod(w, 0x100);
    lemma_fundamental_div_mod(w / 0x100, 0x100);
    lemma_fundamental_div_mod(w / 0x1_0000, 0x100);
    lemma_div_denominator(w, 0x100, 0x100);
    lemma_div_denominator(w, 0x1_0000, 0x100);
}

} // verus!
