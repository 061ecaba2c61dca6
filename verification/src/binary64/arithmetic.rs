//! Arithmetic on doubles.
//!
//! Each operation gives the double nearest to the exact result of the two numbers, with the
//! signs, infinities and missing numbers that IEEE 754 asks for.
use crate::binary64::{scaled_magnitude, Binary64, FRACTION_SPAN, INFINITE_BITS, SIGN_BIT};
use crate::binary64::rounding::{
    are_parts, brackets, lemma_nearest, lemma_pattern_value, nearest, pattern, power, round_exact,
    unit, BIAS,
};
use vstd::arithmetic::power2::{
    lemma2_to64, lemma2_to64_rest, lemma_pow2_adds, lemma_pow2_pos, lemma_pow2_strictly_increases,
    lemma_pow2_unfold, pow2,
};
use vstd::prelude::*;

verus! {

/// The bit pattern of an operation without a result.
pub const NAN_BITS: u64 = 0x7FF8_0000_0000_0000;

/// The exponent of the units in which doubles are counted: they are `2^-1074`.
pub const UNIT_EXPONENT: i32 = 1074;

/// The number of units in one.
pub open spec fn one_in_units() -> int {
    pow2(UNIT_EXPONENT as nat) as int
}

/// The double with the given sign and pattern.
pub open spec fn with_sign(negative: bool, p: int) -> Binary64 {
    Binary64 { bits: (if negative {
        p + SIGN_BIT
    } else {
        p
    }) as u64 }
}

/// What has no result.
pub open spec fn nan_value() -> Binary64 {
    Binary64 { bits: NAN_BITS }
}

impl Binary64 {
    /// Whether the number is infinite.
    pub open spec fn infinite(self) -> bool {
        self.magnitude() == INFINITE_BITS
    }

    /// Whether the number is zero, of either sign.
    pub open spec fn zero(self) -> bool {
        self.magnitude() == 0
    }

    /// The absolute value in units.
    pub open spec fn units(self) -> int {
        scaled_magnitude(self.magnitude())
    }

    /// `-self`
    pub open spec fn negated(self) -> Self {
        with_sign(!self.sign(), self.magnitude())
    }

    /// `self + other`
    pub open spec fn plus(self, other: Self) -> Self {
        if self.nan() || other.nan() {
            nan_value()
        } else if self.infinite() {
            if other.infinite() && self.sign() != other.sign() {
                nan_value()
            } else {
                self
            }
        } else if other.infinite() {
            other
        } else {
            let sum = self.scaled() + other.scaled();
            if sum == 0 {
                with_sign(self.sign() && other.sign(), 0)
            } else if sum > 0 {
                with_sign(false, nearest(sum, 1))
            } else {
                with_sign(true, nearest(-sum, 1))
            }
        }
    }

    /// `self - other`
    pub open spec fn minus(self, other: Self) -> Self {
        self.plus(other.negated())
    }

    /// `self * other`
    pub open spec fn times(self, other: Self) -> Self {
        let negative = self.sign() != other.sign();
        if self.nan() || other.nan() {
            nan_value()
        } else if self.infinite() || other.infinite() {
            if self.zero() || other.zero() {
                nan_value()
            } else {
                with_sign(negative, INFINITE_BITS as int)
            }
        } else {
            with_sign(negative, nearest(self.units() * other.units(), one_in_units()))
        }
    }

    /// `self / other`
    pub open spec fn over(self, other: Self) -> Self {
        let negative = self.sign() != other.sign();
        if self.nan() || other.nan() {
            nan_value()
        } else if self.infinite() {
            if other.infinite() {
                nan_value()
            } else {
                with_sign(negative, INFINITE_BITS as int)
            }
        } else if other.infinite() {
            with_sign(negative, 0)
        } else if other.zero() {
            if self.zero() {
                nan_value()
            } else {
                with_sign(negative, INFINITE_BITS as int)
            }
        } else {
            with_sign(negative, nearest(self.units() * one_in_units(), other.units()))
        }
    }

    /// The double nearest to a whole number.
    pub open spec fn of_int(i: int) -> Self {
        if i < 0 {
            with_sign(true, nearest(-i * one_in_units(), 1))
        } else {
            with_sign(false, nearest(i * one_in_units(), 1))
        }
    }
}

// ---------------------------------------------------------------------------
// Parts of a number
// ---------------------------------------------------------------------------

fn make(negative: bool, p: u64) -> (r: Binary64)
    requires
        p <= INFINITE_BITS,
    ensures
        r == with_sign(negative, p as int),
{
    if negative {
        Binary64 { bits: p + SIGN_BIT }
    } else {
        Binary64 { bits: p }
    }
}

impl Binary64 {
    fn magnitude_bits(&self) -> (p: u64)
        ensures
            p == self.magnitude(),
    {
        if self.bits >= SIGN_BIT {
            self.bits - SIGN_BIT
        } else {
            self.bits
        }
    }

    /// Whether the sign bit is set.
    pub fn is_negative(&self) -> (r: bool)
        ensures
            r == self.sign(),
    {
        self.bits >= SIGN_BIT
    }

    /// The significand and the exponent.
    pub fn parts(&self) -> (r: (u64, i32))
        requires
            self.magnitude() < INFINITE_BITS,
        ensures
            are_parts(r.0 as int, r.1 as int),
            r.1 <= 2045,
            self.magnitude() == pattern(r.0 as int, r.1 as int),
            self.units() == r.0 * pow2(r.1 as nat),
            r.0 == 0 <==> self.zero(),
    {
        let p: u64 = self.magnitude_bits();
        let exponent: u64 = p / FRACTION_SPAN;
        let fraction: u64 = p % FRACTION_SPAN;
        assert(exponent < 2047) by (nonlinear_arith)
            requires
                p < 2047 * 0x0010_0000_0000_0000u64,
                exponent == p / 0x0010_0000_0000_0000u64,
        ;
        if exponent == 0 {
            proof {
                lemma_pattern_value(fraction as int, 0);
            }
            (fraction, 0)
        } else {
            let m: u64 = FRACTION_SPAN + fraction;
            let k: i32 = (exponent - 1) as i32;
            proof {
                assert(p == pattern(m as int, k as int)) by (nonlinear_arith)
                    requires
                        p == exponent * FRACTION_SPAN + fraction,
                        m == FRACTION_SPAN + fraction,
                        k == exponent - 1,
                ;
                lemma_pattern_value(m as int, k as int);
            }
            (m, k)
        }
    }

    /// Whether the number is infinite.
    pub fn is_infinite(&self) -> (r: bool)
        ensures
            r == self.infinite(),
    {
        self.magnitude_bits() == INFINITE_BITS
    }

    /// `-self`
    pub fn neg(&self) -> (r: Self)
        ensures
            r == self.negated(),
    {
        if self.bits >= SIGN_BIT {
            Binary64 { bits: self.bits - SIGN_BIT }
        } else {
            Binary64 { bits: self.bits + SIGN_BIT }
        }
    }
}

// ---------------------------------------------------------------------------
// Products
// ---------------------------------------------------------------------------

proof fn lemma_product_is_exact(m1: int, k1: int, m2: int, k2: int)
    requires
        0 <= k1,
        0 <= k2,
    ensures
        brackets(
            m1 * m2,
            k1 + k2 - UNIT_EXPONENT,
            false,
            (m1 * pow2(k1 as nat)) * (m2 * pow2(k2 as nat)),
            one_in_units(),
        ),
{
    let e = k1 + k2 - UNIT_EXPONENT;
    lemma_pow2_adds(k1 as nat, k2 as nat);
    lemma_pow2_adds((k1 + k2) as nat, BIAS as nat);
    lemma_pow2_adds((e + BIAS) as nat, UNIT_EXPONENT as nat);
    lemma_pow2_pos((e + BIAS) as nat);
    lemma_pow2_pos(UNIT_EXPONENT as nat);
    assert((e + BIAS) as nat + UNIT_EXPONENT as nat == (k1 + k2) as nat + BIAS as nat);
    let (a, b) = (pow2(k1 as nat) as int, pow2(k2 as nat) as int);
    let (u, d, t) = (unit(e) as int, one_in_units(), unit(0) as int);
    assert(m1 * m2 * u * d == (m1 * a) * (m2 * b) * t) by (nonlinear_arith)
        requires
            u * d == a * b * t,
    ;
    assert(m1 * m2 * u * d < (m1 * m2 + 1) * u * d) by (nonlinear_arith)
        requires
            u > 0,
            d > 0,
    ;
}

impl Binary64 {
    fn mul_finite(&self, other: &Self) -> (p: u64)
        requires
            self.magnitude() < INFINITE_BITS,
            other.magnitude() < INFINITE_BITS,
        ensures
            p == nearest(self.units() * other.units(), one_in_units()),
            p <= INFINITE_BITS,
    {
        let (m1, k1) = self.parts();
        let (m2, k2) = other.parts();
        assert(m1 * m2 <= 0x20_0000_0000_0000 * 0x20_0000_0000_0000) by (nonlinear_arith)
            requires
                m1 <= 0x20_0000_0000_0000,
                m2 <= 0x20_0000_0000_0000,
        ;
        let n: u128 = m1 as u128 * m2 as u128;
        proof {
            lemma_product_is_exact(m1 as int, k1 as int, m2 as int, k2 as int);
            lemma_pow2_pos(UNIT_EXPONENT as nat);
        }
        round_exact(
            n,
            k1 + k2 - UNIT_EXPONENT,
            false,
            Ghost(self.units() * other.units()),
            Ghost(one_in_units()),
        )
    }

    /// `self * other`
    pub fn mul(&self, other: &Self) -> (r: Self)
        ensures
            r == self.times(*other),
    {
        let negative = self.is_negative() != other.is_negative();
        if self.is_nan() || other.is_nan() {
            Binary64 { bits: NAN_BITS }
        } else if self.is_infinite() || other.is_infinite() {
            if self.magnitude_bits() == 0 || other.magnitude_bits() == 0 {
                Binary64 { bits: NAN_BITS }
            } else {
                make(negative, INFINITE_BITS)
            }
        } else {
            make(negative, self.mul_finite(other))
        }
    }
}

// ---------------------------------------------------------------------------
// Quotients
// ---------------------------------------------------------------------------

proof fn lemma_quotient_is_bracketed(
    m1: int,
    k1: int,
    m2: int,
    k2: int,
    t: int,
    n: int,
    rest: int,
)
    requires
        0 <= k1,
        0 <= k2 <= 2045,
        0 < m2,
        0 <= t <= 120,
        m1 * pow2(t as nat) == n * m2 + rest,
        0 <= rest < m2,
    ensures
        brackets(
            n,
            k1 - k2 - t + UNIT_EXPONENT,
            rest != 0,
            (m1 * pow2(k1 as nat)) * one_in_units(),
            m2 * pow2(k2 as nat),
        ),
{
    let e = k1 - k2 - t + UNIT_EXPONENT;
    lemma_pow2_adds((e + BIAS) as nat, k2 as nat);
    let g = (k1 + UNIT_EXPONENT + BIAS - t) as nat;
    assert((e + BIAS) as nat + k2 as nat == g);
    lemma_pow2_adds(t as nat, g);
    lemma_pow2_adds(k1 as nat, UNIT_EXPONENT as nat);
    lemma_pow2_adds((k1 + UNIT_EXPONENT) as nat, BIAS as nat);
    assert(t as nat + g == (k1 + UNIT_EXPONENT) as nat + BIAS as nat);
    lemma_pow2_pos(g);
    let (a, b, f) = (pow2(k1 as nat) as int, pow2(k2 as nat) as int, pow2(t as nat) as int);
    let (u, o, c, z) = (unit(e) as int, one_in_units(), pow2(g) as int, unit(0) as int);
    // u * b == c and f * c == a * o * z
    assert(n * u * (m2 * b) == n * m2 * c) by (nonlinear_arith)
        requires
            u * b == c,
    ;
    assert((n + 1) * u * (m2 * b) == (n * m2 + m2) * c) by (nonlinear_arith)
        requires
            u * b == c,
    ;
    assert((m1 * a) * o * z == (n * m2 + rest) * c) by (nonlinear_arith)
        requires
            f * c == a * o * z,
            m1 * f == n * m2 + rest,
    ;
    assert(n * m2 * c <= (n * m2 + rest) * c && (n * m2 + rest) * c < (n * m2 + m2) * c)
        by (nonlinear_arith)
        requires
            0 <= rest < m2,
            c > 0,
    ;
    assert(rest != 0 ==> n * m2 * c < (n * m2 + rest) * c) by (nonlinear_arith)
        requires
            0 <= rest,
            c > 0,
    ;
}

impl Binary64 {
    fn div_finite(&self, other: &Self) -> (p: u64)
        requires
            self.magnitude() < INFINITE_BITS,
            other.magnitude() < INFINITE_BITS,
            !other.zero(),
        ensures
            p == nearest(self.units() * one_in_units(), other.units()),
            p <= INFINITE_BITS,
    {
        let (m1, k1) = self.parts();
        let (m2, k2) = other.parts();
        // Shift the dividend so that the quotient has more bits than are kept.
        let mut t: i32 = 0;
        let mut top: u128 = m1 as u128;
        proof {
            lemma2_to64();
            assert(m1 * pow2(0) == m1);
        }
        while m1 != 0 && top < 0x80_0000_0000_0000_0000_0000_0000_0000
            invariant
                0 <= t <= 119,
                top == m1 * pow2(t as nat),
                m1 == 0 ==> top == 0,
                top < 0x100_0000_0000_0000_0000_0000_0000_0000,
            decreases 120 - t,
        {
            proof {
                lemma_pow2_unfold((t + 1) as nat);
                lemma_shift_bound(m1 as int, t as nat);
                let w = pow2(t as nat) as int;
                assert(2 * (m1 * w) == m1 * (2 * w)) by (nonlinear_arith);
            }
            top = top * 2;
            t += 1;
        }
        let n: u128 = top / m2 as u128;
        let rest: u128 = top % m2 as u128;
        proof {
            vstd::arithmetic::div_mod::lemma_fundamental_div_mod(top as int, m2 as int);
            assert(top == n * m2 + rest) by (nonlinear_arith)
                requires
                    top == m2 * n + rest,
            ;
            lemma_quotient_is_bracketed(
                m1 as int,
                k1 as int,
                m2 as int,
                k2 as int,
                t as int,
                n as int,
                rest as int,
            );
            lemma_pow2_pos(k2 as nat);
            assert(m2 * pow2(k2 as nat) > 0) by (nonlinear_arith)
                requires
                    m2 > 0,
                    pow2(k2 as nat) > 0,
            ;
            assert(n <= top) by (nonlinear_arith)
                requires
                    top == n * m2 + rest,
                    m2 >= 1,
                    rest >= 0,
                    n >= 0,
            ;
            if rest != 0 {
                assert(n >= 0x40_0000_0000_0000) by (nonlinear_arith)
                    requires
                        top == n * m2 + rest,
                        rest < m2,
                        m2 < 0x20_0000_0000_0000,
                        top >= 0x80_0000_0000_0000_0000_0000_0000_0000,
                        n >= 0,
                ;
            }
        }
        round_exact(
            n,
            k1 - k2 - t + UNIT_EXPONENT,
            rest != 0,
            Ghost(self.units() * one_in_units()),
            Ghost(other.units()),
        )
    }

    /// `self / other`
    pub fn div(&self, other: &Self) -> (r: Self)
        ensures
            r == self.over(*other),
    {
        let negative = self.is_negative() != other.is_negative();
        if self.is_nan() || other.is_nan() {
            Binary64 { bits: NAN_BITS }
        } else if self.is_infinite() {
            if other.is_infinite() {
                Binary64 { bits: NAN_BITS }
            } else {
                make(negative, INFINITE_BITS)
            }
        } else if other.is_infinite() {
            make(negative, 0)
        } else if other.magnitude_bits() == 0 {
            if self.magnitude_bits() == 0 {
                Binary64 { bits: NAN_BITS }
            } else {
                make(negative, INFINITE_BITS)
            }
        } else {
            make(negative, self.div_finite(other))
        }
    }
}

proof fn lemma_shift_bound(m: int, t: nat)
    requires
        m >= 1,
        m * pow2(t) < 0x80_0000_0000_0000_0000_0000_0000_0000,
    ensures
        t < 119,
{
    lemma2_to64();
    lemma2_to64_rest();
    lemma_pow2_adds(60, 59);
    assert(0x1000_0000_0000_0000int * 0x800_0000_0000_0000int
        == 0x80_0000_0000_0000_0000_0000_0000_0000int);
    if t >= 119 {
        if t > 119 {
            lemma_pow2_strictly_increases(119, t);
        }
        assert(m * pow2(t) >= pow2(t)) by (nonlinear_arith)
            requires
                m >= 1,
                pow2(t) >= 0,
        ;
    }
}

// ---------------------------------------------------------------------------
// Sums
// ---------------------------------------------------------------------------

proof fn lemma_aligned_is_exact(n: int, k: int)
    requires
        0 <= k,
        0 <= n,
    ensures
        brackets(n, k, false, n * pow2(k as nat), 1),
{
    lemma_pow2_adds(k as nat, BIAS as nat);
    lemma_pow2_pos((k + BIAS) as nat);
    let (v, b, u) = (pow2(k as nat) as int, unit(0) as int, unit(k) as int);
    assert(n * u * 1 == n * v * b) by (nonlinear_arith)
        requires
            u == v * b,
    ;
    assert(n * u * 1 < (n + 1) * u * 1) by (nonlinear_arith)
        requires
            u > 0,
    ;
}

/// A sum or a difference in which one number is far smaller than the other.
proof fn lemma_far_apart(m1: int, k1: int, m2: int, k2: int, add: bool)
    requires
        0 <= k2,
        k1 > k2 + 66,
        0 < m2 < 0x20_0000_0000_0000,
        0 <= m1,
    ensures
        ({
            let big = m1 * pow2(k1 as nat);
            let small = m2 * pow2(k2 as nat);
            &&& add ==> brackets(m1 * 0x2000, k1 - 13, true, big + small, 1)
            &&& !add ==> brackets(m1 * 0x2000 - 1, k1 - 13, true, big - small, 1)
            &&& small < pow2((k1 - 13) as nat)
        }),
{
    let e = k1 - 13;
    lemma2_to64();
    lemma2_to64_rest();
    lemma_pow2_adds(13, e as nat);
    lemma_pow2_adds(e as nat, BIAS as nat);
    lemma_pow2_pos(BIAS as nat);
    lemma_pow2_pos(k2 as nat);
    lemma_pow2_adds(53, k2 as nat);
    assert(13 + e as nat == k1 as nat);
    assert(e as nat + BIAS as nat == (e + BIAS) as nat);
    let (v, b, u) = (pow2(e as nat) as int, unit(0) as int, unit(e) as int);
    let w = pow2(k2 as nat) as int;
    let (big, small) = (m1 * pow2(k1 as nat), m2 * w);
    assert(pow2(13) == 0x2000);
    assert(0 < small && small < pow2(53) * w) by (nonlinear_arith)
        requires
            small == m2 * w,
            0 < m2 < pow2(53),
            w > 0,
    ;
    if 53 + k2 < e {
        lemma_pow2_strictly_increases((53 + k2) as nat, e as nat);
    }
    assert(small < v);
    let n = m1 * 0x2000;
    assert(big == n * v) by (nonlinear_arith)
        requires
            big == m1 * (0x2000 * v),
            n == m1 * 0x2000,
    ;
    assert(n * u * 1 == big * b) by (nonlinear_arith)
        requires
            big == n * v,
            u == v * b,
    ;
    assert((n + 1) * u * 1 == big * b + v * b && (n - 1) * u * 1 == big * b - v * b)
        by (nonlinear_arith)
        requires
            big == n * v,
            u == v * b,
    ;
    assert(0 < small * b && small * b < v * b) by (nonlinear_arith)
        requires
            0 < small < v,
            b > 0,
    ;
    assert((big + small) * b == big * b + small * b && (big - small) * b == big * b - small * b)
        by (nonlinear_arith);
    assert((n - 1 + 1) * u * 1 == n * u * 1);
}

/// The pattern of the sum, or of the difference, of `m1 * 2^k1` and `m2 * 2^k2`. The first one
/// has the larger exponent, and is the larger one where the difference is asked for.
fn add_parts(m1: u64, k1: i32, m2: u64, k2: i32, add: bool) -> (p: u64)
    requires
        are_parts(m1 as int, k1 as int),
        are_parts(m2 as int, k2 as int),
        k1 >= k2,
        k1 <= 2045,
        !add ==> m1 * pow2(k1 as nat) >= m2 * pow2(k2 as nat),
    ensures
        add ==> p == nearest(m1 * pow2(k1 as nat) + m2 * pow2(k2 as nat), 1),
        !add ==> p == nearest(m1 * pow2(k1 as nat) - m2 * pow2(k2 as nat), 1),
        p <= INFINITE_BITS,
{
    let gap: i32 = k1 - k2;
    proof {
        lemma2_to64();
        lemma2_to64_rest();
    }
    if gap <= 66 {
        let factor: u128 = power(gap as u32);
        proof {
            lemma_pow2_adds(gap as nat, k2 as nat);
            lemma_pow2_adds(66, 53);
            lemma_pow2_adds(60, 6);
            lemma_pow2_adds(60, 59);
            if gap < 66 {
                lemma_pow2_strictly_increases(gap as nat, 66);
            }
            assert(gap as nat + k2 as nat == k1 as nat);
            assert(m1 * factor < 0x20_0000_0000_0000 * 0x4_0000_0000_0000_0000) by (nonlinear_arith)
                requires
                    m1 < 0x20_0000_0000_0000,
                    0 <= factor <= 0x4_0000_0000_0000_0000,
            ;
        }
        let big: u128 = m1 as u128 * factor;
        let ghost v = pow2(k2 as nat) as int;
        let ghost w = pow2(k1 as nat) as int;
        proof {
            lemma_pow2_pos(k2 as nat);
            assert(big * v == m1 * w) by (nonlinear_arith)
                requires
                    big == m1 * factor,
                    w == factor * v,
            ;
            if !add {
                assert(big >= m2) by (nonlinear_arith)
                    requires
                        big * v >= m2 * v,
                        v > 0,
                ;
            }
        }
        let n: u128 = if add {
            big + m2 as u128
        } else {
            big - m2 as u128
        };
        proof {
            lemma_aligned_is_exact(n as int, k2 as int);
            assert((big + m2) * v == big * v + m2 * v && (big - m2) * v == big * v - m2 * v)
                by (nonlinear_arith);
        }
        let ghost x = n * v;
        round_exact(n, k2, false, Ghost(x), Ghost(1))
    } else {
        let shifted: u128 = m1 as u128 * 0x2000;
        if m2 == 0 {
            proof {
                lemma_aligned_is_exact(shifted as int, k1 - 13);
                lemma_pow2_adds(13, (k1 - 13) as nat);
                let v = pow2((k1 - 13) as nat) as int;
                assert(shifted * v == m1 * (0x2000 * v)) by (nonlinear_arith)
                    requires
                        shifted == m1 * 0x2000,
                ;
                assert(m2 * pow2(k2 as nat) == 0) by (nonlinear_arith)
                    requires
                        m2 == 0,
                ;
            }
            let ghost x = m1 * pow2(k1 as nat);
            round_exact(shifted, k1 - 13, false, Ghost(x), Ghost(1))
        } else {
            proof {
                lemma_far_apart(m1 as int, k1 as int, m2 as int, k2 as int, add);
            }
            let ghost big = m1 * pow2(k1 as nat);
            let ghost small = m2 * pow2(k2 as nat);
            if add {
                round_exact(shifted, k1 - 13, true, Ghost(big + small), Ghost(1))
            } else {
                round_exact(shifted - 1, k1 - 13, true, Ghost(big - small), Ghost(1))
            }
        }
    }
}

impl Binary64 {
    /// The sum of the absolute values.
    fn add_magnitudes(&self, other: &Self) -> (p: u64)
        requires
            self.magnitude() < INFINITE_BITS,
            other.magnitude() < INFINITE_BITS,
        ensures
            p == nearest(self.units() + other.units(), 1),
            p <= INFINITE_BITS,
    {
        let (m1, k1) = self.parts();
        let (m2, k2) = other.parts();
        if k1 >= k2 {
            add_parts(m1, k1, m2, k2, true)
        } else {
            add_parts(m2, k2, m1, k1, true)
        }
    }

    /// The difference of the absolute values, of which the first one is not the smaller one.
    fn sub_magnitudes(&self, other: &Self) -> (p: u64)
        requires
            self.magnitude() < INFINITE_BITS,
            other.magnitude() <= self.magnitude(),
        ensures
            p == nearest(self.units() - other.units(), 1),
            p <= INFINITE_BITS,
    {
        let (m1, k1) = self.parts();
        let (m2, k2) = other.parts();
        proof {
            if other.magnitude() < self.magnitude() {
                crate::binary64::lemma_scaled_magnitude_increases(
                    other.magnitude(),
                    self.magnitude(),
                );
            }
            // The larger pattern has the larger exponent.
            if k1 < k2 {
                assert(pattern(m1 as int, k1 as int) < pattern(m2 as int, k2 as int))
                    by (nonlinear_arith)
                    requires
                        k1 + 1 <= k2,
                        m1 < 2 * FRACTION_SPAN,
                        m2 >= FRACTION_SPAN,
                ;
            }
        }
        add_parts(m1, k1, m2, k2, false)
    }

    /// `self + other`
    pub fn add(&self, other: &Self) -> (r: Self)
        ensures
            r == self.plus(*other),
    {
        if self.is_nan() || other.is_nan() {
            return Binary64 { bits: NAN_BITS };
        }
        if self.is_infinite() {
            if other.is_infinite() && self.is_negative() != other.is_negative() {
                return Binary64 { bits: NAN_BITS };
            }
            return *self;
        }
        if other.is_infinite() {
            return *other;
        }
        proof {
            lemma_units_of_zero(*self);
            lemma_units_of_zero(*other);
            lemma_units_order(*self, *other);
            lemma_units_order(*other, *self);
        }
        if self.is_negative() == other.is_negative() {
            if self.magnitude_bits() == 0 && other.magnitude_bits() == 0 {
                return make(self.is_negative(), 0);
            }
            return make(self.is_negative(), self.add_magnitudes(other));
        }
        if self.magnitude_bits() == other.magnitude_bits() {
            make(false, 0)
        } else if self.magnitude_bits() > other.magnitude_bits() {
            make(self.is_negative(), self.sub_magnitudes(other))
        } else {
            make(other.is_negative(), other.sub_magnitudes(self))
        }
    }

    /// `self - other`
    pub fn sub(&self, other: &Self) -> (r: Self)
        ensures
            r == self.minus(*other),
    {
        self.add(&other.neg())
    }
}

proof fn lemma_units_of_zero(a: Binary64)
    ensures
        a.units() >= 0,
        a.units() == 0 <==> a.zero(),
{
    crate::binary64::lemma_scaled_magnitude_increases(0, 1);
    if a.magnitude() > 0 {
        crate::binary64::lemma_scaled_magnitude_increases(0, a.magnitude());
    }
}

proof fn lemma_units_order(a: Binary64, b: Binary64)
    ensures
        a.magnitude() < b.magnitude() ==> a.units() < b.units(),
        a.magnitude() == b.magnitude() ==> a.units() == b.units(),
{
    if a.magnitude() < b.magnitude() {
        crate::binary64::lemma_scaled_magnitude_increases(a.magnitude(), b.magnitude());
    }
}

/// Swapping the operands of a difference turns its sign, unless the difference is zero.
pub proof fn lemma_minus_mirrors(a: Binary64, b: Binary64)
    ensures
        a.minus(b).magnitude() == b.minus(a).magnitude(),
        !a.minus(b).nan() && a.scaled() != b.scaled() ==> b.minus(a) == a.minus(b).negated(),
{
    lemma_negated(a);
    lemma_negated(b);
    lemma_nearest(a.scaled() - b.scaled(), 1);
    lemma_nearest(b.scaled() - a.scaled(), 1);
}

/// A number less itself is zero, where it is a number at all.
pub proof fn lemma_minus_itself(a: Binary64)
    ensures
        a.minus(a).nan() || a.minus(a).zero(),
{
    lemma_negated(a);
}

/// The order of two factors does not matter.
pub proof fn lemma_times_commutes(a: Binary64, b: Binary64)
    ensures
        a.times(b) == b.times(a),
{
    assert(a.units() * b.units() == b.units() * a.units()) by (nonlinear_arith);
}

/// Turning the sign of a factor turns the sign of the product.
pub proof fn lemma_times_mirrors(a: Binary64, b: Binary64, c: Binary64)
    requires
        a.magnitude() == b.magnitude(),
    ensures
        a.times(c).magnitude() == b.times(c).magnitude(),
        !a.times(c).nan() && b == a.negated() ==> b.times(c) == a.times(c).negated(),
{
    lemma_negated(a);
    lemma_nearest(a.units() * c.units(), one_in_units());
}

proof fn lemma_negated(a: Binary64)
    ensures
        a.negated().magnitude() == a.magnitude(),
        a.negated().sign() == !a.sign(),
        a.negated().scaled() == -a.scaled(),
        a.negated().nan() == a.nan(),
{
}

// ---------------------------------------------------------------------------
// Whole numbers
// ---------------------------------------------------------------------------

fn round_whole(n: u64) -> (p: u64)
    ensures
        p == nearest(n * one_in_units(), 1),
        p <= INFINITE_BITS,
{
    proof {
        lemma_aligned_is_exact(n as int, UNIT_EXPONENT as int);
    }
    round_exact(n as u128, UNIT_EXPONENT, false, Ghost(n * one_in_units()), Ghost(1))
}

impl Binary64 {
    /// The double nearest to a whole number.
    pub fn from_u64(n: u64) -> (r: Self)
        ensures
            r == Self::of_int(n as int),
    {
        make(false, round_whole(n))
    }

    /// The double nearest to a whole number.
    pub fn from_i64(i: i64) -> (r: Self)
        ensures
            r == Self::of_int(i as int),
    {
        if i >= 0 {
            make(false, round_whole(i as u64))
        } else {
            let n: u64 = (-(i as i128)) as u64;
            make(true, round_whole(n))
        }
    }
}

} // verus!
