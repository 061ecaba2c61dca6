//! How far the results of arithmetic are from the exact ones.
use super::arithmetic::one_in_units;
use super::monotone::{
    lemma_product_is_rounded, lemma_quotient_is_rounded, lemma_sum_is_rounded, signed_nearest,
};
use super::ranges::{lemma_units, lemma_with_sign};
use super::numbers::D_100;
use super::rounding::{
    are_parts, law_a_double_is_not_rounded, law_rounding_is_monotone, lemma_nearest,
    lemma_pattern_value, nearest, pattern,
};
use super::{one_value, scaled_magnitude, Binary64, FRACTION_SPAN, INFINITE_BITS, ONE_BITS};
use vstd::arithmetic::power2::{
    lemma2_to64, lemma2_to64_rest, lemma_pow2_adds, lemma_pow2_pos, lemma_pow2_unfold, pow2,
};
use vstd::prelude::*;

verus! {

/// The size of a whole number.
pub open spec fn size(n: int) -> int {
    if n < 0 {
        -n
    } else {
        n
    }
}

/// The distance from one to the next double, in units.
pub open spec fn epsilon() -> int {
    pow2(1022) as int
}

impl Binary64 {
    /// Whether two numbers differ by at most one part in so many of one.
    pub open spec fn within(self, other: Self, parts: int) -> bool {
        &&& !self.nan()
        &&& !other.nan()
        &&& parts * size(self.scaled() - other.scaled()) <= one_in_units()
    }
}

/// One is as many times the distance to the next double as there are fractions.
pub proof fn lemma_epsilon()
    ensures
        epsilon() > 0,
        one_in_units() == FRACTION_SPAN * epsilon(),
        epsilon() >= 1000 * FRACTION_SPAN,
{
    lemma2_to64();
    lemma2_to64_rest();
    lemma_pow2_adds(52, 1022);
    lemma_pow2_adds(52, 970);
    lemma_pow2_adds(10, 960);
    lemma_pow2_pos(960);
    lemma_pow2_pos(1022);
    assert(pow2(970) >= 1000);
    assert(FRACTION_SPAN * pow2(970) >= 1000 * FRACTION_SPAN) by (nonlinear_arith)
        requires
            pow2(970) >= 1000,
    ;
}

/// The doubles next to a finite one are as far away as its last bit counts, or less.
proof fn lemma_gaps(p: int) -> (gap: int)
    requires
        0 <= p < INFINITE_BITS,
    ensures
        gap > 0,
        scaled_magnitude(p + 1) == scaled_magnitude(p) + gap,
        p > 0 ==> scaled_magnitude(p - 1) >= scaled_magnitude(p) - gap,
        gap == 1 || FRACTION_SPAN * gap <= scaled_magnitude(p),
{
    let span = FRACTION_SPAN as int;
    let (m, k) = if p < span {
        (p, 0int)
    } else {
        (p % span + span, p / span - 1)
    };
    assert(p == k * span + m) by (nonlinear_arith)
        requires
            p < span ==> m == p && k == 0,
            p >= span ==> m == p % span + span && k == p / span - 1,
            span > 0,
    ;
    assert(are_parts(m, k)) by (nonlinear_arith)
        requires
            p < span ==> m == p && k == 0,
            p >= span ==> m == p % span + span && k == p / span - 1,
            0 <= p,
            span == FRACTION_SPAN,
            span > 0,
    ;
    lemma_pattern_value(m, k);
    let gap = pow2(k as nat) as int;
    lemma_pow2_pos(k as nat);
    assert((m + 1) * gap == m * gap + gap) by (nonlinear_arith);
    if p > 0 {
        if k == 0 || m > span {
            lemma_pattern_value(m - 1, k);
            assert(pattern(m - 1, k) == p - 1);
            assert((m - 1) * gap == m * gap - gap) by (nonlinear_arith);
        } else {
            lemma_pattern_value(2 * span - 1, k - 1);
            assert(pattern(2 * span - 1, k - 1) == p - 1) by (nonlinear_arith)
                requires
                    p == k * span + m,
                    m == span,
                    FRACTION_SPAN == span,
                    pattern(2 * span - 1, k - 1) == (k - 1) * FRACTION_SPAN + (2 * span - 1),
            ;
            lemma_pow2_unfold(k as nat);
            let half = pow2((k - 1) as nat) as int;
            assert((2 * span - 1) * half == span * (2 * half) - half) by (nonlinear_arith);
        }
    }
    if k == 0 {
        lemma2_to64();
    } else {
        assert(span * gap <= m * gap) by (nonlinear_arith)
            requires
                span <= m,
                gap > 0,
        ;
    }
    gap
}

/// A fraction that is rounded to a finite double is missed by at most half the last bit.
proof fn lemma_rounding_error(n: int, d: int)
    requires
        d > 0,
        0 <= n,
        nearest(n, d) < INFINITE_BITS,
    ensures
        ({
            let v = scaled_magnitude(nearest(n, d));
            2 * FRACTION_SPAN * size(v * d - n) <= v * d + FRACTION_SPAN * d
        }),
{
    let p = nearest(n, d);
    lemma_nearest(n, d);
    let gap = lemma_gaps(p);
    let v = scaled_magnitude(p);
    let (below, above) = (scaled_magnitude(p - 1), scaled_magnitude(p + 1));
    let span = FRACTION_SPAN as int;
    assert(2 * (n - v * d) <= gap * d) by (nonlinear_arith)
        requires
            2 * n <= (v + above) * d,
            above == v + gap,
    ;
    if p > 0 {
        assert(2 * (v * d - n) <= gap * d) by (nonlinear_arith)
            requires
                2 * n >= (below + v) * d,
                below >= v - gap,
                d > 0,
        ;
    } else {
        assert(v == 0);
        assert(v * d - n <= 0) by (nonlinear_arith)
            requires
                v == 0,
                n >= 0,
        ;
        assert(gap * d >= 0) by (nonlinear_arith)
            requires
                gap > 0,
                d > 0,
        ;
    }
    lemma_units(Binary64::of_bits(p as u64));
    let err = size(v * d - n);
    assert(2 * err <= gap * d);
    assert(v * d >= 0) by (nonlinear_arith)
        requires
            v >= 0,
            d > 0,
    ;
    if gap == 1 {
        assert(2 * span * err <= span * d) by (nonlinear_arith)
            requires
                2 * err <= gap * d,
                gap == 1,
                span > 0,
        ;
    } else {
        assert(2 * span * err <= v * d) by (nonlinear_arith)
            requires
                2 * err <= gap * d,
                span * gap <= v,
                span > 0,
                d > 0,
        ;
        assert(span * d >= 0) by (nonlinear_arith)
            requires
                span > 0,
                d > 0,
        ;
    }
}

/// A signed fraction that is rounded to a finite double is missed by at most half the last bit.
proof fn lemma_signed_error(n: int, d: int)
    requires
        d > 0,
        signed_nearest(n, d).finite(),
    ensures
        ({
            let v = signed_nearest(n, d).scaled();
            2 * FRACTION_SPAN * size(v * d - n) <= size(v) * d + FRACTION_SPAN * d
        }),
{
    let x = size(n);
    lemma_nearest(x, d);
    lemma_with_sign(n < 0, nearest(x, d));
    lemma_units(signed_nearest(n, d));
    lemma_rounding_error(x, d);
    let v = signed_nearest(n, d).scaled();
    let u = scaled_magnitude(nearest(x, d));
    if n < 0 {
        assert(v * d == -(u * d)) by (nonlinear_arith)
            requires
                v == -u,
        ;
    }
}

/// A finite sum is missed by at most half its last bit.
pub proof fn lemma_sum_error(a: Binary64, b: Binary64)
    requires
        a.finite(),
        b.finite(),
        a.plus(b).finite(),
    ensures
        ({
            let r = a.plus(b).scaled();
            2 * FRACTION_SPAN * size(r - (a.scaled() + b.scaled())) <= size(r) + FRACTION_SPAN
        }),
{
    let n = a.scaled() + b.scaled();
    lemma_sum_is_rounded(a, b);
    lemma_finite_by_value(a.plus(b), signed_nearest(n, 1));
    lemma_signed_error(n, 1);
}

/// A finite difference is missed by at most half its last bit.
pub proof fn lemma_difference_error(a: Binary64, b: Binary64)
    requires
        a.finite(),
        b.finite(),
        a.minus(b).finite(),
    ensures
        ({
            let r = a.minus(b).scaled();
            2 * FRACTION_SPAN * size(r - (a.scaled() - b.scaled())) <= size(r) + FRACTION_SPAN
        }),
{
    let n = b.negated();
    assert(n.scaled() == -b.scaled() && n.magnitude() == b.magnitude());
    lemma_sum_error(a, n);
}

/// A finite product is missed by at most half its last bit.
pub proof fn lemma_product_error(a: Binary64, b: Binary64)
    requires
        a.finite(),
        b.finite(),
        a.times(b).finite(),
    ensures
        ({
            let r = a.times(b).scaled();
            let one = one_in_units();
            2 * FRACTION_SPAN * size(r * one - a.scaled() * b.scaled()) <= size(r) * one
                + FRACTION_SPAN * one
        }),
{
    let n = a.scaled() * b.scaled();
    super::ranges::lemma_one();
    lemma_product_is_rounded(a, b);
    lemma_finite_by_value(a.times(b), signed_nearest(n, one_in_units()));
    lemma_signed_error(n, one_in_units());
}

/// A finite quotient by a positive number is missed by at most half its last bit.
pub proof fn lemma_quotient_error(a: Binary64, b: Binary64)
    requires
        a.finite(),
        b.finite(),
        b.positive(),
        a.over(b).finite(),
    ensures
        b.scaled() > 0,
        ({
            let r = a.over(b).scaled();
            let d = b.scaled();
            2 * FRACTION_SPAN * size(r * d - a.scaled() * one_in_units()) <= size(r) * d
                + FRACTION_SPAN * d
        }),
{
    let n = a.scaled() * one_in_units();
    lemma_units(b);
    lemma_quotient_is_rounded(a, b);
    lemma_finite_by_value(a.over(b), signed_nearest(n, b.units()));
    lemma_signed_error(n, b.units());
}

/// Numbers of the same value are both finite or both not.
proof fn lemma_finite_by_value(a: Binary64, b: Binary64)
    requires
        a.finite(),
        a.scaled() == b.scaled(),
    ensures
        b.finite(),
{
    lemma_units(a);
    lemma_units(b);
    super::ranges::lemma_order_of_patterns(a.magnitude(), b.magnitude());
}

/// A number that is at most a hundred times another one, divided by it, gives at most a hundred.
pub proof fn lemma_quotient_up_to_a_hundred(a: Binary64, b: Binary64)
    requires
        a.finite(),
        b.finite(),
        b.positive(),
        a.units() <= 100 * b.units(),
    ensures
        a.over(b).finite(),
        size(a.over(b).scaled()) <= 100 * one_in_units(),
{
    let one = one_in_units();
    super::ranges::lemma_one();
    super::ranges::lemma_hundred();
    lemma_units(a);
    lemma_units(b);
    let (x, d) = (a.units(), b.units());
    assert(x * one * 1 <= 100 * one * d && x * one >= 0) by (nonlinear_arith)
        requires
            0 <= x <= 100 * d,
            one > 0,
    ;
    law_rounding_is_monotone(x * one, d, 100 * one, 1);
    let p = nearest(x * one, d);
    lemma_nearest(x * one, d);
    lemma_with_sign(a.sign() != b.sign(), p);
    lemma_units(a.over(b));
    super::ranges::lemma_order_of_patterns(p, D_100 as int);
}

/// Dividing by one or more gives a number that is no larger.
pub proof fn lemma_quotient_shrinks(a: Binary64, b: Binary64)
    requires
        a.finite(),
        b.finite(),
        one_value().at_most(b),
    ensures
        a.over(b).finite(),
        a.over(b).magnitude() <= a.magnitude(),
{
    super::ranges::lemma_one();
    lemma_units(a);
    lemma_units(b);
    let (x, d, one) = (a.units(), b.units(), one_in_units());
    assert(x * one * 1 <= x * d) by (nonlinear_arith)
        requires
            0 <= x,
            one <= d,
    ;
    law_rounding_is_monotone(x * one, d, x, 1);
    law_a_double_is_not_rounded(a.magnitude());
    lemma_nearest(x * one, d);
    lemma_with_sign(a.sign() != b.sign(), nearest(x * one, d));
}

/// Where the exact product of two numbers is at most a hundred, so is the rounded one.
pub proof fn lemma_product_up_to_a_hundred(a: Binary64, b: Binary64)
    requires
        a.finite(),
        b.finite(),
        a.units() * b.units() <= 100 * one_in_units() * one_in_units(),
    ensures
        a.times(b).finite(),
        size(a.times(b).scaled()) <= 100 * one_in_units(),
{
    let one = one_in_units();
    super::ranges::lemma_one();
    super::ranges::lemma_hundred();
    lemma_units(a);
    lemma_units(b);
    let n = a.units() * b.units();
    assert(n >= 0) by (nonlinear_arith)
        requires
            n == a.units() * b.units(),
            a.units() >= 0,
            b.units() >= 0,
    ;
    law_rounding_is_monotone(n, one, 100 * one, 1);
    lemma_nearest(n, one);
    lemma_with_sign(a.sign() != b.sign(), nearest(n, one));
    lemma_units(a.times(b));
    super::ranges::lemma_order_of_patterns(nearest(n, one), D_100 as int);
}

/// A number below one is below it by half the distance to the next double at least.
pub proof fn lemma_below_one(a: Binary64)
    requires
        a.nonnegative(),
        a.less(one_value()),
    ensures
        2 * a.scaled() <= 2 * one_in_units() - epsilon(),
{
    super::ranges::lemma_one();
    lemma_epsilon();
    lemma_units(a);
    let span = FRACTION_SPAN as int;
    let before = ONE_BITS - 1;
    lemma_pattern_value(2 * span - 1, 1021);
    assert(pattern(2 * span - 1, 1021) == before);
    lemma_pow2_unfold(1022);
    super::ranges::lemma_order_of_patterns(a.magnitude(), ONE_BITS as int);
    super::ranges::lemma_order_of_patterns(a.magnitude(), before);
    let half = pow2(1021) as int;
    assert((2 * span - 1) * half == span * (2 * half) - half) by (nonlinear_arith);
}

} // verus!
