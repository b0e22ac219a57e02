//! Single-precision numbers as bit patterns.
//!
//! Authored parameters are carried by their IEEE 754 encoding. Every finite
//! single-precision number is a whole multiple of 2^-149, so its value is an
//! integer once scaled by 2^149; comparisons are stated over that integer and
//! decided on the encoding.
use vstd::arithmetic::power2::{
    lemma2_to64, lemma_pow2_adds, lemma_pow2_pos, lemma_pow2_unfold, pow2,
};
use vstd::prelude::*;

verus! {

/// Encoding of a single-precision number.
#[derive(Clone, Copy, Debug, PartialEq, Eq, Hash, Structural)]
pub struct F32 {
    pub bits: u32,
}

/// The number with the given encoding.
pub open spec fn single(bits: u32) -> F32 {
    F32 { bits }
}

pub fn from_bits(bits: u32) -> (r: F32)
    ensures
        r == single(bits),
{
    F32 { bits }
}

/// Encoding of one.
pub const ONE_BITS: u32 = 0x3F80_0000;

pub const SIGN_BIT: u32 = 0x8000_0000;

/// Encoding of positive infinity; a larger magnitude encodes no number.
pub const INFINITY_BITS: u32 = 0x7F80_0000;

/// Number of mantissa steps per exponent.
pub const MANTISSA_RANGE: u32 = 0x0080_0000;

/// Value of the magnitude encoding `m`, in multiples of 2^-149.
pub open spec fn magnitude_units(m: int) -> int {
    let exponent = m / MANTISSA_RANGE as int;
    let mantissa = m % MANTISSA_RANGE as int;
    if exponent == 0 {
        mantissa
    } else {
        (mantissa + MANTISSA_RANGE) * pow2((exponent - 1) as nat)
    }
}

proof fn lemma_magnitude_units_step(m: int)
    requires
        0 <= m,
    ensures
        magnitude_units(m) < magnitude_units(m + 1),
{
    let range = MANTISSA_RANGE as int;
    let exponent = m / range;
    let mantissa = m % range;
    if exponent > 0 {
        lemma_pow2_pos((exponent - 1) as nat);
    }
    if mantissa + 1 < range {
        assert((m + 1) / range == exponent && (m + 1) % range == mantissa + 1);
        if exponent > 0 {
            let unit = pow2((exponent - 1) as nat) as int;
            assert((mantissa + range) * unit < (mantissa + 1 + range) * unit) by (nonlinear_arith)
                requires
                    unit > 0,
            ;
        }
    } else {
        assert((m + 1) / range == exponent + 1 && (m + 1) % range == 0);
        if exponent > 0 {
            lemma_pow2_unfold(exponent as nat);
            let unit = pow2((exponent - 1) as nat) as int;
            assert((mantissa + range) * unit < (0 + range) * (2 * unit)) by (nonlinear_arith)
                requires
                    unit > 0,
                    mantissa + 1 == range,
            ;
        } else {
            lemma2_to64();
        }
    }
}

/// The encoding of magnitudes preserves their order.
pub proof fn lemma_magnitude_units_monotone(m: int, n: int)
    requires
        0 <= m <= n,
    ensures
        m < n ==> magnitude_units(m) < magnitude_units(n),
        magnitude_units(m) >= 0,
        magnitude_units(m) == 0 <==> m == 0,
    decreases n,
{
    if m < n {
        lemma_magnitude_units_step(n - 1);
        lemma_magnitude_units_monotone(m, n - 1);
    } else if m > 0 {
        lemma_magnitude_units_monotone(0, m - 1);
        lemma_magnitude_units_step(m - 1);
        assert(magnitude_units(0) == 0);
    }
}

impl F32 {
    pub open spec fn spec_negative(self) -> bool {
        self.bits >= SIGN_BIT
    }

    /// Encoding of the absolute value.
    pub open spec fn spec_magnitude(self) -> int {
        self.bits as int % SIGN_BIT as int
    }

    pub open spec fn spec_is_nan(self) -> bool {
        self.spec_magnitude() > INFINITY_BITS
    }

    pub open spec fn spec_is_finite(self) -> bool {
        self.spec_magnitude() < INFINITY_BITS
    }

    /// The number in multiples of 2^-149. Infinity counts as the next step past
    /// the largest finite number, so that it compares as it should.
    pub open spec fn units(self) -> int {
        if self.spec_negative() {
            -magnitude_units(self.spec_magnitude())
        } else {
            magnitude_units(self.spec_magnitude())
        }
    }

    /// `self < other` of IEEE 754: false if either is not a number.
    pub open spec fn spec_lt(self, other: F32) -> bool {
        !self.spec_is_nan() && !other.spec_is_nan() && self.units() < other.units()
    }

    /// `self <= other` of IEEE 754: false if either is not a number.
    pub open spec fn spec_le(self, other: F32) -> bool {
        !self.spec_is_nan() && !other.spec_is_nan() && self.units() <= other.units()
    }

    /// `self == other` of IEEE 754: the two zeros are equal, and nothing equals
    /// what is not a number.
    pub open spec fn spec_same_value(self, other: F32) -> bool {
        !self.spec_is_nan() && !other.spec_is_nan() && self.units() == other.units()
    }

    /// Rank in the total order of encodings: negative numbers by falling
    /// magnitude, then positive ones by rising magnitude, -0 before +0 and the
    /// patterns that encode no number at the two ends.
    pub open spec fn total_rank(self) -> int {
        if self.spec_negative() {
            -self.spec_magnitude() - 1
        } else {
            self.spec_magnitude()
        }
    }

    pub open spec fn order_key(self) -> int {
        if self.spec_negative() {
            -self.spec_magnitude()
        } else {
            self.spec_magnitude()
        }
    }

    proof fn lemma_order_key(self, other: F32)
        ensures
            self.units() < other.units() <==> self.order_key() < other.order_key(),
            self.units() == other.units() <==> self.order_key() == other.order_key(),
    {
        let a = self.spec_magnitude();
        let b = other.spec_magnitude();
        if a <= b {
            lemma_magnitude_units_monotone(a, b);
            lemma_magnitude_units_monotone(b, b);
        } else {
            lemma_magnitude_units_monotone(b, a);
            lemma_magnitude_units_monotone(a, a);
        }
    }

    /// Comparison of numbers, read off the encodings.
    pub proof fn lemma_order(self, other: F32)
        ensures
            self.spec_lt(other) <==> !self.spec_is_nan() && !other.spec_is_nan()
                && self.order_key() < other.order_key(),
            self.spec_le(other) <==> !self.spec_is_nan() && !other.spec_is_nan()
                && self.order_key() <= other.order_key(),
    {
        self.lemma_order_key(other);
    }

    /// The number without its sign.
    pub open spec fn spec_abs(self) -> F32 {
        F32 { bits: self.spec_magnitude() as u32 }
    }

    pub fn abs(self) -> (r: F32)
        ensures
            r == self.spec_abs(),
    {
        F32 { bits: self.magnitude() }
    }

    /// The total order of encodings extends the order of numbers.
    pub proof fn lemma_total_rank_extends_order(self, other: F32)
        requires
            self.spec_lt(other),
        ensures
            self.total_rank() < other.total_rank(),
    {
        self.lemma_order_key(other);
    }

    /// Equal ranks mean equal encodings.
    pub proof fn lemma_total_rank_injective(self, other: F32)
        requires
            self.total_rank() == other.total_rank(),
        ensures
            self == other,
    {
    }

    fn magnitude(self) -> (m: u32)
        ensures
            m == self.spec_magnitude(),
    {
        self.bits % SIGN_BIT
    }

    /// Number to compare by: smaller exactly for smaller numbers.
    pub fn order(self) -> (k: i64)
        ensures
            k == self.order_key(),
    {
        let m: i64 = self.magnitude() as i64;
        if self.bits >= SIGN_BIT {
            -m
        } else {
            m
        }
    }

    pub fn is_nan(self) -> (nan: bool)
        ensures
            nan == self.spec_is_nan(),
    {
        self.magnitude() > INFINITY_BITS
    }

    pub fn is_finite(self) -> (finite: bool)
        ensures
            finite == self.spec_is_finite(),
    {
        self.magnitude() < INFINITY_BITS
    }

    pub fn lt(self, other: F32) -> (less: bool)
        ensures
            less == self.spec_lt(other),
    {
        proof {
            self.lemma_order_key(other);
        }
        !self.is_nan() && !other.is_nan() && self.order() < other.order()
    }

    pub fn le(self, other: F32) -> (less: bool)
        ensures
            less == self.spec_le(other),
    {
        proof {
            self.lemma_order_key(other);
        }
        !self.is_nan() && !other.is_nan() && self.order() <= other.order()
    }

    pub fn same_value(self, other: F32) -> (same: bool)
        ensures
            same == self.spec_same_value(other),
    {
        proof {
            self.lemma_order_key(other);
        }
        !self.is_nan() && !other.is_nan() && self.order() == other.order()
    }

    /// A finite number above zero.
    pub open spec fn spec_is_positive(self) -> bool {
        self.spec_is_finite() && single(0).spec_lt(self)
    }

    pub fn is_positive(self) -> (positive: bool)
        ensures
            positive == self.spec_is_positive(),
    {
        self.is_finite() && from_bits(0).lt(self)
    }

    /// A finite number that is zero or above.
    pub open spec fn spec_is_nonnegative(self) -> bool {
        self.spec_is_finite() && single(0).spec_le(self)
    }

    pub fn is_nonnegative(self) -> (nonnegative: bool)
        ensures
            nonnegative == self.spec_is_nonnegative(),
    {
        self.is_finite() && from_bits(0).le(self)
    }

    /// Rank of the encoding in the total order.
    pub fn rank(self) -> (rank: i64)
        ensures
            rank == self.total_rank(),
    {
        let m: i64 = self.magnitude() as i64;
        if self.bits >= SIGN_BIT {
            -m - 1
        } else {
            m
        }
    }
}

/// Bits of `n` beyond the 24 that a single-precision number keeps.
pub open spec fn surplus_bits(n: int) -> nat
    decreases n,
{
    if n < 2 * MANTISSA_RANGE {
        0
    } else {
        1 + surplus_bits(n / 2)
    }
}

/// The single-precision number nearest to `n`, ties to the even one.
pub open spec fn nearest_single(n: int) -> int {
    let unit = pow2(surplus_bits(n)) as int;
    let q = n / unit;
    let rest = n % unit;
    if 2 * rest > unit || (2 * rest == unit && q % 2 == 1) {
        (q + 1) * unit
    } else {
        q * unit
    }
}

/// Small integers are single-precision numbers.
pub proof fn lemma_small_integer_is_single(n: int)
    requires
        0 <= n < 2 * MANTISSA_RANGE,
    ensures
        nearest_single(n) == n,
{
    lemma2_to64();
}

proof fn lemma_surplus_bits(n: int, shift: nat)
    requires
        n >= 0,
        n / pow2(shift) as int >= MANTISSA_RANGE || shift == 0,
        n / (pow2(shift) as int) < 2 * MANTISSA_RANGE,
    ensures
        surplus_bits(n) == shift,
    decreases shift,
{
    lemma2_to64();
    lemma_pow2_pos(shift);
    if shift == 0 {
        assert(n / 1 == n);
    } else {
        let smaller = pow2((shift - 1) as nat) as int;
        lemma_pow2_unfold(shift);
        lemma_pow2_pos((shift - 1) as nat);
        vstd::arithmetic::div_mod::lemma_div_denominator(n, 2, smaller);
        assert((n / 2) / smaller == n / (2 * smaller));
        assert(n >= 2 * MANTISSA_RANGE) by (nonlinear_arith)
            requires
                n / (2 * smaller) >= MANTISSA_RANGE,
                smaller >= 1,
                n >= 0,
        ;
        if shift > 1 {
            lemma_surplus_bits(n / 2, (shift - 1) as nat);
        } else {
            assert(smaller == 1);
            assert((n / 2) / 1 == n / 2);
            lemma_surplus_bits(n / 2, 0);
        }
    }
}

impl F32 {
    /// The number `q * 2^(place - 150)`, whose leading bit is the 24th of `q`.
    fn encode(q: u32, place: u32) -> (r: F32)
        requires
            MANTISSA_RANGE <= q < 2 * MANTISSA_RANGE,
            1 <= place <= 200,
        ensures
            r.units() == q * pow2((place - 1) as nat),
            r.spec_is_finite(),
            !r.spec_negative(),
    {
        let r = F32 { bits: place * MANTISSA_RANGE + (q - MANTISSA_RANGE) };
        proof {
            let range = MANTISSA_RANGE as int;
            assert(r.spec_magnitude() == r.bits);
            assert(r.bits as int / range == place && r.bits as int % range == q - range)
                by (nonlinear_arith)
                requires
                    r.bits == place * range + (q - range),
                    0 <= q - range < range,
                    range == 0x0080_0000,
            ;
        }
        r
    }

    /// The single-precision number nearest to `n`, ties to the even one.
    pub fn from_u32(n: u32) -> (r: F32)
        ensures
            r.units() == nearest_single(n as int) * pow2(149),
            r.spec_is_finite(),
            !r.spec_negative(),
    {
        proof {
            lemma2_to64();
        }
        if n == 0 {
            proof {
                lemma_small_integer_is_single(0);
                assert(magnitude_units(0) == 0);
            }
            return F32 { bits: 0 };
        }
        if n < 2 * MANTISSA_RANGE {
            let mut q: u32 = n;
            let mut place: u32 = 150;
            let ghost mut k: nat = 0;
            while q < MANTISSA_RANGE
                invariant
                    1 <= q < 2 * MANTISSA_RANGE,
                    0 < n < 2 * MANTISSA_RANGE,
                    q == n * pow2(k),
                    k <= 23,
                    place == 150 - k,
                decreases 2 * MANTISSA_RANGE - q,
            {
                proof {
                    lemma2_to64();
                    lemma_pow2_unfold(k + 1);
                    assert(n * (2 * pow2(k)) == 2 * (n * pow2(k))) by (nonlinear_arith);
                    assert(k < 23) by {
                        if k == 23 {
                            assert(n * pow2(23) >= 0x80_0000) by (nonlinear_arith)
                                requires
                                    n >= 1,
                                    pow2(23) == 0x80_0000,
                            ;
                        }
                    }
                    k = k + 1;
                }
                q = 2 * q;
                place = place - 1;
            }
            proof {
                lemma_small_integer_is_single(n as int);
                lemma_pow2_adds(k, (149 - k) as nat);
                assert((n * pow2(k)) * pow2((149 - k) as nat) == n * (pow2(k) * pow2(
                    (149 - k) as nat,
                ))) by (nonlinear_arith);
            }
            return Self::encode(q, place);
        }
        let mut unit: u32 = 1;
        let mut place: u32 = 150;
        let ghost mut shift: nat = 0;
        while n / unit >= 2 * MANTISSA_RANGE
            invariant
                unit == pow2(shift),
                1 <= unit <= 256,
                shift <= 8,
                place == 150 + shift,
                n >= 2 * MANTISSA_RANGE,
                n / unit >= MANTISSA_RANGE,
            decreases 8 - shift,
        {
            proof {
                lemma2_to64();
                lemma_pow2_unfold(shift + 1);
                assert(unit < 256) by {
                    if unit >= 256 {
                        assert(n / unit < 0x100_0000) by (nonlinear_arith)
                            requires
                                unit >= 256,
                                n <= 0xFFFF_FFFF,
                        ;
                    }
                }
                assert(shift < 8) by {
                    if shift == 8 {
                        assert(pow2(8) == 256);
                    }
                }
                vstd::arithmetic::div_mod::lemma_div_denominator(n as int, unit as int, 2);
                assert((n as int / unit as int) / 2 == n as int / (2 * unit));
                shift = shift + 1;
            }
            unit = 2 * unit;
            place = place + 1;
        }
        let q: u32 = n / unit;
        let rest: u32 = n % unit;
        proof {
            lemma_surplus_bits(n as int, shift);
            lemma_pow2_adds(shift, 149);
            lemma_pow2_unfold(150 + shift);
        }
        if 2 * rest > unit || (2 * rest == unit && q % 2 == 1) {
            if q + 1 == 2 * MANTISSA_RANGE {
                proof {
                    let u = unit as int;
                    let high = pow2((149 + shift) as nat) as int;
                    assert(MANTISSA_RANGE * (2 * high) == (q + 1) * high) by (nonlinear_arith)
                        requires
                            q + 1 == 2 * MANTISSA_RANGE,
                    ;
                    assert((q + 1) * (u * pow2(149)) == ((q + 1) * u) * pow2(149))
                        by (nonlinear_arith);
                }
                return Self::encode(MANTISSA_RANGE, place + 1);
            }
            proof {
                assert((q + 1) * (unit * pow2(149)) == ((q + 1) * unit) * pow2(149))
                    by (nonlinear_arith);
            }
            return Self::encode(q + 1, place);
        }
        proof {
            assert(q * (unit * pow2(149)) == (q * unit) * pow2(149)) by (nonlinear_arith);
        }
        Self::encode(q, place)
    }
}

} // verus!
