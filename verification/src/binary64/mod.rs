//! Double-precision numbers: IEEE 754 bit patterns with a meaning in whole numbers.
//!
//! Every finite double is a whole multiple of `2^-1074`. [`Binary64::scaled`] is that
//! multiple, so the order of two doubles is the order of two integers, and a sum, product or
//! quotient of doubles is a fraction of integers that is rounded once.
pub mod accuracy;
pub mod arithmetic;
pub mod errors;
pub mod figures;
pub mod integers;
pub mod monotone;
pub mod numbers;
pub mod ranges;
pub mod root;
pub mod rounding;

use vstd::arithmetic::power2::{lemma_pow2_strictly_increases, lemma_pow2_unfold, pow2};
use vstd::prelude::*;

verus! {

/// The bit that holds the sign.
pub const SIGN_BIT: u64 = 0x8000_0000_0000_0000;

/// The bit pattern of positive infinity; larger magnitudes are not numbers.
pub const INFINITE_BITS: u64 = 0x7FF0_0000_0000_0000;

/// The number of bits below the exponent, as a factor.
pub const FRACTION_SPAN: u64 = 0x0010_0000_0000_0000;

/// A double-precision number, held as its bit pattern.
#[derive(Debug, Clone, Copy, PartialEq, Eq, Structural)]
pub struct Binary64 {
    pub bits: u64,
}

/// The magnitude that a pattern without sign stands for, in units of `2^-1074`. Infinity
/// counts as the value that follows the largest finite one.
pub open spec fn scaled_magnitude(magnitude: int) -> int {
    let exponent = magnitude / FRACTION_SPAN as int;
    let fraction = magnitude % FRACTION_SPAN as int;
    if exponent == 0 {
        fraction
    } else {
        (FRACTION_SPAN + fraction) * pow2((exponent - 1) as nat)
    }
}

impl Binary64 {
    /// Whether the sign bit is set.
    pub open spec fn sign(self) -> bool {
        self.bits >= SIGN_BIT
    }

    /// The bit pattern without the sign bit.
    pub open spec fn magnitude(self) -> int {
        if self.sign() {
            self.bits - SIGN_BIT
        } else {
            self.bits as int
        }
    }

    /// Whether the pattern is not a number.
    pub open spec fn nan(self) -> bool {
        self.magnitude() > INFINITE_BITS
    }

    /// The value in units of `2^-1074`.
    pub open spec fn scaled(self) -> int {
        if self.sign() {
            -scaled_magnitude(self.magnitude())
        } else {
            scaled_magnitude(self.magnitude())
        }
    }

    /// The order of numbers; nothing is less than, or greater than, what is not a number.
    pub open spec fn less(self, other: Self) -> bool {
        !self.nan() && !other.nan() && self.scaled() < other.scaled()
    }

    /// The order of numbers, with equality.
    pub open spec fn at_most(self, other: Self) -> bool {
        !self.nan() && !other.nan() && self.scaled() <= other.scaled()
    }

    /// Whether two numbers have the same value: zeros of either sign do, and nothing has the value
    /// of what is not a number.
    pub open spec fn same_value(self, other: Self) -> bool {
        !self.nan() && !other.nan() && self.scaled() == other.scaled()
    }

    /// The smaller of two numbers; what is not a number gives way to the other one.
    pub open spec fn smaller(self, other: Self) -> Self {
        if other.nan() || self.at_most(other) {
            self
        } else {
            other
        }
    }

    /// The larger of two numbers; what is not a number gives way to the other one.
    pub open spec fn larger(self, other: Self) -> Self {
        if other.nan() || other.at_most(self) {
            self
        } else {
            other
        }
    }

    /// The number nearest to `self` that lies between the bounds. What is not a number stays.
    pub open spec fn clamped(self, low: Self, high: Self) -> Self {
        if self.less(low) {
            low
        } else if high.less(self) {
            high
        } else {
            self
        }
    }

    /// Whether two numbers can bound a range.
    pub open spec fn is_range(low: Self, high: Self) -> bool {
        low.at_most(high)
    }

    /// The number with the sign bit cleared.
    pub open spec fn absolute(self) -> Self {
        Binary64 { bits: self.magnitude() as u64 }
    }

    /// The number with the given bit pattern.
    pub open spec fn of_bits(bits: u64) -> Self {
        Binary64 { bits }
    }

    /// The number with the given bit pattern.
    pub fn from_bits(bits: u64) -> (r: Self)
        ensures
            r == Self::of_bits(bits),
    {
        Binary64 { bits }
    }

    fn key(&self) -> (k: i64)
        ensures
            k == (if self.sign() {
                -self.magnitude()
            } else {
                self.magnitude()
            }),
    {
        if self.bits >= SIGN_BIT {
            -((self.bits - SIGN_BIT) as i64)
        } else {
            self.bits as i64
        }
    }

    /// Whether the pattern is not a number.
    pub fn is_nan(&self) -> (r: bool)
        ensures
            r == self.nan(),
    {
        let magnitude: u64 = if self.bits >= SIGN_BIT {
            self.bits - SIGN_BIT
        } else {
            self.bits
        };
        magnitude > INFINITE_BITS
    }

    /// `self < other`
    pub fn lt(&self, other: &Self) -> (r: bool)
        ensures
            r == self.less(*other),
    {
        proof {
            lemma_scaled_orders_keys(*self, *other);
        }
        !self.is_nan() && !other.is_nan() && self.key() < other.key()
    }

    /// `self <= other`
    pub fn le(&self, other: &Self) -> (r: bool)
        ensures
            r == self.at_most(*other),
    {
        proof {
            lemma_scaled_orders_keys(*other, *self);
        }
        !self.is_nan() && !other.is_nan() && self.key() <= other.key()
    }

    /// `self > other`
    pub fn gt(&self, other: &Self) -> (r: bool)
        ensures
            r == other.less(*self),
    {
        other.lt(self)
    }

    /// `self >= other`
    pub fn ge(&self, other: &Self) -> (r: bool)
        ensures
            r == other.at_most(*self),
    {
        other.le(self)
    }

    /// The smaller of two numbers.
    pub fn min(&self, other: &Self) -> (r: Self)
        ensures
            r == self.smaller(*other),
    {
        if other.is_nan() || self.le(other) {
            *self
        } else {
            *other
        }
    }

    /// The larger of two numbers.
    pub fn max(&self, other: &Self) -> (r: Self)
        ensures
            r == self.larger(*other),
    {
        if other.is_nan() || other.le(self) {
            *self
        } else {
            *other
        }
    }

    /// Whether two numbers have the same value.
    pub fn has_value_of(&self, other: &Self) -> (r: bool)
        ensures
            r == self.same_value(*other),
    {
        self.le(other) && other.le(self)
    }

    /// Restrict a number to a range.
    pub fn clamp(&self, low: &Self, high: &Self) -> (r: Self)
        requires
            Self::is_range(*low, *high),
        ensures
            r == self.clamped(*low, *high),
    {
        if self.lt(low) {
            *low
        } else if self.gt(high) {
            *high
        } else {
            *self
        }
    }

    /// The absolute value.
    pub fn abs(&self) -> (r: Self)
        ensures
            r == self.absolute(),
    {
        if self.bits >= SIGN_BIT {
            Binary64 { bits: self.bits - SIGN_BIT }
        } else {
            *self
        }
    }
}

/// The bit pattern of `0.0`.
pub const ZERO_BITS: u64 = 0;

/// The bit pattern of `1.0`.
pub const ONE_BITS: u64 = 0x3FF0_0000_0000_0000;

/// `0.0`
pub open spec fn zero_value() -> Binary64 {
    Binary64 { bits: ZERO_BITS }
}

/// `1.0`
pub open spec fn one_value() -> Binary64 {
    Binary64 { bits: ONE_BITS }
}

/// `0.0`
pub fn zero() -> (r: Binary64)
    ensures
        r == zero_value(),
{
    Binary64 { bits: ZERO_BITS }
}

/// `1.0`
pub fn one() -> (r: Binary64)
    ensures
        r == one_value(),
{
    Binary64 { bits: ONE_BITS }
}

/// A larger pattern stands for a larger magnitude.
pub proof fn lemma_scaled_magnitude_increases(a: int, b: int)
    requires
        0 <= a < b,
    ensures
        0 <= scaled_magnitude(a) < scaled_magnitude(b),
{
    let span = FRACTION_SPAN as int;
    let (ea, fa) = (a / span, a % span);
    let (eb, fb) = (b / span, b % span);
    assert(ea <= eb) by (nonlinear_arith)
        requires
            0 <= a < b,
            span > 0,
            ea == a / span,
            eb == b / span,
    ;
    if ea == 0 {
        if eb > 0 {
            vstd::arithmetic::power2::lemma_pow2_pos((eb - 1) as nat);
            let p = pow2((eb - 1) as nat) as int;
            assert((span + fb) * p >= span) by (nonlinear_arith)
                requires
                    p >= 1,
                    fb >= 0,
                    span > 0,
            ;
        }
    } else {
        vstd::arithmetic::power2::lemma_pow2_pos((ea - 1) as nat);
        let pa = pow2((ea - 1) as nat) as int;
        let pb = pow2((eb - 1) as nat) as int;
        assert((span + fa) * pa >= 0) by (nonlinear_arith)
            requires
                pa >= 1,
                fa >= 0,
                span > 0,
        ;
        if ea == eb {
            assert(fa < fb) by (nonlinear_arith)
                requires
                    a < b,
                    a == ea * span + fa,
                    b == eb * span + fb,
                    ea == eb,
            ;
            assert((span + fa) * pa < (span + fb) * pa) by (nonlinear_arith)
                requires
                    fa < fb,
                    pa >= 1,
            ;
        } else {
            if ea < eb - 1 {
                lemma_pow2_strictly_increases(ea as nat, (eb - 1) as nat);
            }
            lemma_pow2_unfold(ea as nat);
            assert(pb >= 2 * pa);
            assert((span + fa) * pa < (span + fb) * pb) by (nonlinear_arith)
                requires
                    pa >= 1,
                    pb >= 2 * pa,
                    0 <= fa < span,
                    fb >= 0,
            ;
        }
    }
}

proof fn lemma_scaled_orders_keys(a: Binary64, b: Binary64)
    ensures
        ({
            let ka = if a.sign() {
                -a.magnitude()
            } else {
                a.magnitude()
            };
            let kb = if b.sign() {
                -b.magnitude()
            } else {
                b.magnitude()
            };
            a.scaled() < b.scaled() <==> ka < kb
        }),
{
    let (ma, mb) = (a.magnitude(), b.magnitude());
    if ma < mb {
        lemma_scaled_magnitude_increases(ma, mb);
    }
    if mb < ma {
        lemma_scaled_magnitude_increases(mb, ma);
    }
    if ma > 0 {
        lemma_scaled_magnitude_increases(0, ma);
    }
    if mb > 0 {
        lemma_scaled_magnitude_increases(0, mb);
    }
    assert(scaled_magnitude(0) == 0);
}

/// A clamped number lies in the range, unless it is not a number; clamping it again changes
/// nothing; a number of the range is left as it is.
pub proof fn law_clamped(x: Binary64, low: Binary64, high: Binary64)
    requires
        Binary64::is_range(low, high),
    ensures
        !x.nan() ==> low.at_most(x.clamped(low, high)) && x.clamped(low, high).at_most(high),
        x.clamped(low, high).clamped(low, high) == x.clamped(low, high),
        low.at_most(x) && x.at_most(high) ==> x.clamped(low, high) == x,
        x.nan() ==> x.clamped(low, high) == x,
{
}

/// Numbers are totally ordered: of two, one is less or they have the same value.
pub proof fn law_order_is_total(a: Binary64, b: Binary64)
    requires
        !a.nan(),
        !b.nan(),
    ensures
        a.less(b) || b.less(a) || a.scaled() == b.scaled(),
        a.at_most(b) == !b.less(a),
{
}

} // verus!
