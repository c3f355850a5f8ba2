//! Single-precision numbers carried as bit patterns.
//!
//! Coordinates, colours and depths travel through this crate unchanged: the
//! crate compares them, takes minima and maxima, and quantizes them for the
//! glyph buffer. All of that is exact on the bit pattern, so it is done with
//! integers.

use vstd::arithmetic::div_mod::{
    lemma_basic_div, lemma_div_multiples_vanish_quotient, lemma_fundamental_div_mod_converse,
};
use vstd::arithmetic::power2::{
    lemma2_to64, lemma_pow2_adds, lemma_pow2_pos, lemma_pow2_strictly_increases,
    lemma_pow2_unfold, pow2,
};
use vstd::prelude::*;

verus! {

/// A single-precision number, held as its IEEE 754 bit pattern.
///
/// `==` compares bit patterns; [`Scalar::same`] compares numbers.
#[derive(Clone, Copy, Debug, PartialEq, Eq, Structural)]
pub struct Scalar {
    pub bits: u32,
}

/// Weight of the sign bit.
pub const SIGN_BIT: u32 = 0x8000_0000;

/// Magnitude of infinity: every larger magnitude is a NaN.
pub const INFINITE: u32 = 0x7f80_0000;

/// Weight of the exponent field, and the implicit leading bit of a mantissa.
pub const MANTISSA_ONE: u32 = 0x0080_0000;

/// The value of a finite magnitude, counted in units of 2^-149, the smallest
/// positive number there is. Every finite number is a whole multiple of it.
pub open spec fn magnitude_value(magnitude: int) -> int {
    let exponent = magnitude / 0x80_0000;
    let fraction = magnitude % 0x80_0000;
    if exponent == 0 {
        fraction
    } else {
        (fraction + 0x80_0000) * pow2((exponent - 1) as nat)
    }
}

impl Scalar {
    /// Whether the sign bit is set.
    pub open spec fn negative(self) -> bool {
        self.bits >= SIGN_BIT
    }

    /// The bit pattern without its sign.
    pub open spec fn magnitude(self) -> int {
        if self.bits >= SIGN_BIT {
            self.bits - SIGN_BIT
        } else {
            self.bits as int
        }
    }

    /// Whether this is not a number.
    pub open spec fn nan(self) -> bool {
        self.magnitude() > INFINITE
    }

    /// Whether this is neither infinite nor a NaN.
    pub open spec fn finite(self) -> bool {
        self.magnitude() < INFINITE
    }

    /// The place of this number in the order of numbers; both zeros have
    /// place 0.
    pub open spec fn order(self) -> int {
        if self.negative() {
            -self.magnitude()
        } else {
            self.magnitude()
        }
    }

    /// The exact value of a finite number in units of 2^-149.
    pub open spec fn value(self) -> int {
        if self.negative() {
            -magnitude_value(self.magnitude())
        } else {
            magnitude_value(self.magnitude())
        }
    }

    /// `self < other`: false when either is a NaN.
    pub open spec fn less(self, other: Scalar) -> bool {
        !self.nan() && !other.nan() && self.order() < other.order()
    }

    /// `self == other` as numbers: false when either is a NaN, true of the
    /// two zeros.
    pub open spec fn equal(self, other: Scalar) -> bool {
        !self.nan() && !other.nan() && self.order() == other.order()
    }

    /// The smaller of two numbers; a NaN gives way to the other operand.
    pub open spec fn least(self, other: Scalar) -> Scalar {
        if self.nan() || other.less(self) {
            other
        } else {
            self
        }
    }

    /// The larger of two numbers; a NaN gives way to the other operand.
    pub open spec fn greatest(self, other: Scalar) -> Scalar {
        if self.nan() || self.less(other) {
            other
        } else {
            self
        }
    }
}

/// `n / 2^k` rounded to the nearest integer, halves away from zero, for a
/// non-negative `n`.
pub open spec fn round_shifted(n: int, k: nat) -> int
    recommends
        k >= 1,
        n >= 0,
{
    (n + pow2((k - 1) as nat)) / (pow2(k) as int)
}

/// The nearest `i32` to `n`.
pub open spec fn saturate_i32(n: int) -> int {
    if n > i32::MAX {
        i32::MAX as int
    } else if n < i32::MIN {
        i32::MIN as int
    } else {
        n
    }
}

/// The coordinate `v` in quarter units: `4 v` rounded to the nearest integer,
/// halves away from zero, and held within the range of `i32`. A NaN gives 0.
pub open spec fn quantized(v: Scalar) -> int {
    if v.nan() {
        0
    } else if !v.finite() {
        if v.negative() { i32::MIN as int } else { i32::MAX as int }
    } else {
        let rounded = round_shifted(magnitude_value(v.magnitude()), 147);
        saturate_i32(if v.negative() { -rounded } else { rounded })
    }
}

/// The largest magnitude whose quadruple still fits an `i16`: 8191.75.
pub const QUANTIZED_LIMIT: u32 = 0x45ff_fe00;

impl Scalar {
    pub fn from_bits(bits: u32) -> (r: Scalar)
        ensures
            r.bits == bits,
    {
        Scalar { bits }
    }

    fn unsigned(self) -> (r: u32)
        ensures
            r == self.magnitude(),
    {
        if self.bits >= SIGN_BIT {
            self.bits - SIGN_BIT
        } else {
            self.bits
        }
    }

    pub fn is_nan(self) -> (r: bool)
        ensures
            r == self.nan(),
    {
        self.unsigned() > INFINITE
    }

    pub fn is_finite(self) -> (r: bool)
        ensures
            r == self.finite(),
    {
        self.unsigned() < INFINITE
    }

    /// The place of this number in the order of numbers.
    pub fn rank(self) -> (r: i32)
        ensures
            r == self.order(),
    {
        if self.bits >= SIGN_BIT {
            -((self.bits - SIGN_BIT) as i32)
        } else {
            self.bits as i32
        }
    }

    /// Whether `self < other` as numbers.
    pub fn is_less(self, other: Scalar) -> (r: bool)
        ensures
            r == self.less(other),
    {
        !self.is_nan() && !other.is_nan() && self.rank() < other.rank()
    }

    /// Whether `self == other` as numbers.
    pub fn same(self, other: Scalar) -> (r: bool)
        ensures
            r == self.equal(other),
    {
        !self.is_nan() && !other.is_nan() && self.rank() == other.rank()
    }

    /// Whether this is a zero of either sign.
    pub fn is_zero(self) -> (r: bool)
        ensures
            r == (self.order() == 0),
    {
        self.rank() == 0
    }

    /// Whether this is a number above zero.
    pub fn is_positive(self) -> (r: bool)
        ensures
            r == (!self.nan() && self.order() > 0),
    {
        !self.is_nan() && self.rank() > 0
    }

    pub fn min(self, other: Scalar) -> (r: Scalar)
        ensures
            r == self.least(other),
    {
        if self.is_nan() || other.is_less(self) {
            other
        } else {
            self
        }
    }

    pub fn max(self, other: Scalar) -> (r: Scalar)
        ensures
            r == self.greatest(other),
    {
        if self.is_nan() || self.is_less(other) {
            other
        } else {
            self
        }
    }

    /// Whether four times this number would leave the range of `i16`:
    /// whether its distance from zero exceeds 32767 / 4. A NaN does not.
    pub fn exceeds_quantized_range(self) -> (r: bool)
        ensures
            r == (!self.nan() && self.magnitude() > QUANTIZED_LIMIT),
    {
        !self.is_nan() && self.unsigned() > QUANTIZED_LIMIT
    }

    /// The coordinate in quarter units, rounded to the nearest integer with
    /// halves away from zero.
    pub fn quantize(self) -> (r: i32)
        ensures
            r == quantized(self),
    {
        proof {
            lemma2_to64();
        }
        let magnitude: u32 = self.unsigned();
        let is_negative: bool = self.bits >= SIGN_BIT;
        if magnitude > INFINITE {
            return 0;
        }
        let exponent: u32 = magnitude / MANTISSA_ONE;
        let fraction: u32 = magnitude % MANTISSA_ONE;
        if exponent >= 156 {
            proof {
                if self.finite() {
                    lemma_quantize_large(magnitude as int);
                }
            }
            if is_negative {
                return i32::MIN;
            }
            return i32::MAX;
        }
        let rounded: u32 = if exponent == 0 {
            proof {
                lemma_round_small(magnitude as int, 147, 23);
            }
            0
        } else {
            let mantissa: u32 = fraction + MANTISSA_ONE;
            if exponent >= 148 {
                let shift: u32 = exponent - 148;
                proof {
                    lemma_quantize_up(magnitude as int);
                    lemma_shift_left(mantissa, shift);
                }
                mantissa << shift
            } else {
                let shift: u32 = 148 - exponent;
                proof {
                    lemma_quantize_down(magnitude as int);
                }
                if shift > 25 {
                    proof {
                        lemma_round_small(mantissa as int, shift as nat, 24);
                    }
                    0
                } else {
                    proof {
                        lemma_pow2_strictly_increases((shift - 1) as nat, shift as nat);
                        if shift < 25 {
                            lemma_pow2_strictly_increases(shift as nat, 25);
                        }
                        lemma_shift_left(1, (shift - 1) as u32);
                        lemma_shift_left(1, shift);
                    }
                    (mantissa + (1u32 << (shift - 1))) / (1u32 << shift)
                }
            }
        };
        proof {
            assert(rounded == round_shifted(magnitude_value(self.magnitude()), 147));
        }
        if is_negative {
            -(rounded as i32)
        } else {
            rounded as i32
        }
    }
}

/// A shift to the left within 32 bits multiplies by a power of two.
proof fn lemma_shift_left(n: u32, k: u32)
    requires
        k <= 25,
        n * pow2(k as nat) <= u32::MAX,
    ensures
        n << k == n * pow2(k as nat),
{
    vstd::bits::lemma_u32_shl_is_mul(n, k);
}

/// A number below `2^b` rounds to zero at any shift above `b + 1`.
proof fn lemma_round_small(n: int, k: nat, b: nat)
    requires
        0 <= n < pow2(b),
        b + 1 < k,
    ensures
        round_shifted(n, k) == 0,
{
    lemma_pow2_strictly_increases(b, (k - 1) as nat);
    lemma_pow2_unfold(k);
    lemma_basic_div(
        n + pow2((k - 1) as nat),
        pow2(k) as int,
    );
}

proof fn lemma_quantize_up(magnitude: int)
    requires
        148 <= magnitude / 0x80_0000 < 156,
    ensures
        round_shifted(magnitude_value(magnitude), 147) == (magnitude % 0x80_0000 + 0x80_0000)
            * pow2((magnitude / 0x80_0000 - 148) as nat),
        round_shifted(magnitude_value(magnitude), 147) < 0x8000_0000,
{
    let e = magnitude / 0x80_0000;
    let m = magnitude % 0x80_0000 + 0x80_0000;
    let s = (e - 148) as nat;
    lemma_pow2_adds(147, s);
    lemma_pow2_pos(147);
    lemma_pow2_pos(146);
    lemma_pow2_unfold(147);
    let one = pow2(147) as int;
    assert(m * pow2((e - 1) as nat) == (m * pow2(s)) * one) by (nonlinear_arith)
        requires
            pow2((e - 1) as nat) == one * pow2(s),
    ;
    lemma_fundamental_div_mod_converse(
        (m * pow2(s)) * one + pow2(146),
        one,
        m * pow2(s),
        pow2(146) as int,
    );
    if s < 7 {
        lemma_pow2_strictly_increases(s, 7);
    }
    assert(pow2(7) == 128) by {
        lemma2_to64();
    }
    assert(m * pow2(s) < 0x8000_0000) by (nonlinear_arith)
        requires
            0 <= m < 0x100_0000,
            0 <= pow2(s) <= 128,
    ;
}

proof fn lemma_quantize_down(magnitude: int)
    requires
        1 <= magnitude / 0x80_0000 < 148,
    ensures
        round_shifted(magnitude_value(magnitude), 147) == round_shifted(
            magnitude % 0x80_0000 + 0x80_0000,
            (148 - magnitude / 0x80_0000) as nat,
        ),
{
    let e = magnitude / 0x80_0000;
    let m = magnitude % 0x80_0000 + 0x80_0000;
    let k = (148 - e) as nat;
    let low = (e - 1) as nat;
    lemma_pow2_adds(low, k);
    lemma_pow2_adds(low, (k - 1) as nat);
    lemma_pow2_pos(low);
    lemma_pow2_pos(k);
    let unit = pow2(low) as int;
    let half = pow2((k - 1) as nat) as int;
    assert(m * unit + unit * half == unit * (m + half)) by (nonlinear_arith);
    lemma_div_multiples_vanish_quotient(
        unit,
        m + half,
        pow2(k) as int,
    );
}

proof fn lemma_quantize_large(magnitude: int)
    requires
        156 <= magnitude / 0x80_0000,
    ensures
        round_shifted(magnitude_value(magnitude), 147) >= 0x8000_0000,
{
    let e = magnitude / 0x80_0000;
    let m = magnitude % 0x80_0000 + 0x80_0000;
    let s = (e - 148) as nat;
    lemma_pow2_adds(147, s);
    lemma_pow2_pos(147);
    lemma_pow2_pos(146);
    lemma_pow2_unfold(147);
    let one = pow2(147) as int;
    assert(m * pow2((e - 1) as nat) == (m * pow2(s)) * one) by (nonlinear_arith)
        requires
            pow2((e - 1) as nat) == one * pow2(s),
    ;
    lemma_fundamental_div_mod_converse(
        (m * pow2(s)) * one + pow2(146),
        one,
        m * pow2(s),
        pow2(146) as int,
    );
    if s > 8 {
        lemma_pow2_strictly_increases(8, s);
    }
    assert(pow2(8) == 256) by {
        lemma2_to64();
    }
    assert(m * pow2(s) >= 0x8000_0000) by (nonlinear_arith)
        requires
            m >= 0x80_0000,
            pow2(s) >= 256,
    ;
}

/// Larger magnitudes have larger values.
proof fn lemma_magnitude_increasing(a: int, b: int)
    requires
        0 <= a < b,
    ensures
        magnitude_value(a) < magnitude_value(b),
{
    let ea = a / 0x80_0000;
    let eb = b / 0x80_0000;
    let fa = a % 0x80_0000;
    let fb = b % 0x80_0000;
    if eb > 0 {
        let ub = pow2((eb - 1) as nat) as int;
        lemma_pow2_pos((eb - 1) as nat);
        assert(0x80_0000 * ub <= (fb + 0x80_0000) * ub) by (nonlinear_arith)
            requires
                fb >= 0,
                ub > 0,
        ;
        if ea == 0 {
            assert(0x80_0000 <= 0x80_0000 * ub);
        } else {
            let ua = pow2((ea - 1) as nat) as int;
            lemma_pow2_pos((ea - 1) as nat);
            if ea == eb {
                assert((fa + 0x80_0000) * ua < (fb + 0x80_0000) * ua) by (nonlinear_arith)
                    requires
                        fa < fb,
                        ua > 0,
                ;
            } else {
                lemma_pow2_unfold(ea as nat);
                if ea < eb - 1 {
                    lemma_pow2_strictly_increases(ea as nat, (eb - 1) as nat);
                }
                assert((fa + 0x80_0000) * ua < 0x80_0000 * (2 * ua)) by (nonlinear_arith)
                    requires
                        fa < 0x80_0000,
                        ua > 0,
                ;
                assert(2 * ua <= ub);
            }
        }
    }
}

/// The order of bit patterns is the order of the numbers they stand for.
pub proof fn lemma_order_is_value_order(a: Scalar, b: Scalar)
    requires
        a.finite(),
        b.finite(),
    ensures
        a.less(b) <==> a.value() < b.value(),
        a.equal(b) <==> a.value() == b.value(),
{
    lemma_magnitude_signed(a.magnitude());
    lemma_magnitude_signed(b.magnitude());
    if a.magnitude() < b.magnitude() {
        lemma_magnitude_increasing(a.magnitude(), b.magnitude());
    } else if b.magnitude() < a.magnitude() {
        lemma_magnitude_increasing(b.magnitude(), a.magnitude());
    }
}

proof fn lemma_magnitude_signed(m: int)
    requires
        0 <= m,
    ensures
        magnitude_value(m) >= 0,
        magnitude_value(m) == 0 <==> m == 0,
{
    if m > 0 {
        lemma_magnitude_increasing(0, m);
    }
}

proof fn lemma_limit_value()
    ensures
        magnitude_value(QUANTIZED_LIMIT as int) == 32767 * pow2(147),
{
    lemma_pow2_adds(138, 9);
    lemma2_to64();
    assert(0x45ff_fe00int / 0x80_0000 == 139);
    assert(0x45ff_fe00int % 0x80_0000 == 0x7f_fe00);
    assert(magnitude_value(QUANTIZED_LIMIT as int) == 0xff_fe00 * pow2(138));
}

/// A coordinate within the quantized range is stored without loss: its
/// quantized value fits an `i16`.
pub proof fn lemma_quantized_fits(v: Scalar)
    requires
        !v.nan(),
        v.magnitude() <= QUANTIZED_LIMIT,
    ensures
        -32767 <= quantized(v) <= 32767,
        4 * magnitude_value(v.magnitude()) <= 32767 * pow2(149),
{
    let m = v.magnitude();
    let n = magnitude_value(m);
    let top = magnitude_value(QUANTIZED_LIMIT as int);
    lemma_magnitude_signed(m);
    if m < QUANTIZED_LIMIT {
        lemma_magnitude_increasing(m, QUANTIZED_LIMIT as int);
    }
    let unit = pow2(147) as int;
    lemma_pow2_pos(146);
    lemma_pow2_unfold(147);
    lemma_pow2_unfold(148);
    lemma_pow2_unfold(149);
    lemma_limit_value();
    vstd::arithmetic::div_mod::lemma_div_is_ordered(
        n + pow2(146),
        32767 * unit + pow2(146),
        unit,
    );
    lemma_fundamental_div_mod_converse(
        32767 * unit + pow2(146),
        unit,
        32767,
        pow2(146) as int,
    );
    vstd::arithmetic::div_mod::lemma_div_pos_is_pos(n + pow2(146), unit);
}

/// Every number beyond the quantized range is more than 32767 quarter units
/// from zero.
pub proof fn lemma_beyond_quantized_range(v: Scalar)
    requires
        v.finite(),
        v.magnitude() > QUANTIZED_LIMIT,
    ensures
        4 * magnitude_value(v.magnitude()) > 32767 * pow2(149),
{
    lemma_magnitude_increasing(QUANTIZED_LIMIT as int, v.magnitude());
    lemma_pow2_unfold(148);
    lemma_pow2_unfold(149);
    lemma_limit_value();
}

/// Equal numbers quantize alike, whatever the sign of a zero.
pub proof fn lemma_equal_quantized(a: Scalar, b: Scalar)
    requires
        a.equal(b),
    ensures
        quantized(a) == quantized(b),
{
    if a.negative() != b.negative() {
        assert(a.magnitude() == 0 && b.magnitude() == 0);
        lemma_pow2_pos(0);
        lemma_round_small(0, 147, 0);
    } else {
        assert(a.magnitude() == b.magnitude());
    }
}

} // verus!
