//! Arithmetic keeps the order of numbers.
use super::arithmetic::{one_in_units, with_sign};
use super::ranges::{lemma_one, lemma_order_of_patterns, lemma_units, lemma_with_sign};
use super::rounding::{
    law_a_double_is_not_rounded, law_rounding_is_monotone, lemma_nearest, nearest,
};
use super::{scaled_magnitude, Binary64};
use vstd::prelude::*;

verus! {

/// The double nearest to a signed fraction.
pub open spec fn signed_nearest(n: int, d: int) -> Binary64 {
    if n >= 0 {
        with_sign(false, nearest(n, d))
    } else {
        with_sign(true, nearest(-n, d))
    }
}

/// A larger signed fraction is not rounded to a smaller double.
pub proof fn law_signed_rounding_is_monotone(n1: int, d1: int, n2: int, d2: int)
    requires
        d1 > 0,
        d2 > 0,
        n1 * d2 <= n2 * d1,
    ensures
        signed_nearest(n1, d1).at_most(signed_nearest(n2, d2)),
{
    lemma_nearest(n1, d1);
    lemma_nearest(-n1, d1);
    lemma_nearest(n2, d2);
    lemma_nearest(-n2, d2);
    lemma_with_sign(false, nearest(n1, d1));
    lemma_with_sign(true, nearest(-n1, d1));
    lemma_with_sign(false, nearest(n2, d2));
    lemma_with_sign(true, nearest(-n2, d2));
    lemma_units(signed_nearest(n1, d1));
    lemma_units(signed_nearest(n2, d2));
    if n1 >= 0 {
        assert(n2 >= 0) by (nonlinear_arith)
            requires
                n1 * d2 <= n2 * d1,
                n1 >= 0,
                d1 > 0,
                d2 > 0,
        ;
        law_rounding_is_monotone(n1, d1, n2, d2);
        lemma_order_of_patterns(nearest(n1, d1), nearest(n2, d2));
    } else if n2 < 0 {
        assert((-n2) * d1 <= (-n1) * d2) by (nonlinear_arith)
            requires
                n1 * d2 <= n2 * d1,
        ;
        law_rounding_is_monotone(-n2, d2, -n1, d1);
        lemma_order_of_patterns(nearest(-n2, d2), nearest(-n1, d1));
    }
}

pub(super) proof fn lemma_sum_is_rounded(a: Binary64, b: Binary64)
    requires
        a.finite(),
        b.finite(),
    ensures
        a.plus(b).scaled() == signed_nearest(a.scaled() + b.scaled(), 1).scaled(),
        !a.plus(b).nan(),
{
    let sum = a.scaled() + b.scaled();
    lemma_nearest(sum, 1);
    lemma_nearest(-sum, 1);
    lemma_with_sign(false, nearest(sum, 1));
    lemma_with_sign(true, nearest(-sum, 1));
    if sum == 0 {
        super::ranges::lemma_zero_is_not_rounded(1);
        lemma_units(with_sign(true, 0));
        lemma_units(with_sign(false, 0));
    }
}

/// A difference of finite numbers is the exact one, rounded.
pub proof fn lemma_difference_is_rounded(a: Binary64, b: Binary64)
    requires
        a.finite(),
        b.finite(),
    ensures
        !a.minus(b).nan(),
        a.minus(b).scaled() == signed_nearest(a.scaled() - b.scaled(), 1).scaled(),
        a.minus(b).magnitude() == nearest(
            if a.scaled() < b.scaled() {
                b.scaled() - a.scaled()
            } else {
                a.scaled() - b.scaled()
            },
            1,
        ),
{
    let n = b.negated();
    assert(n.scaled() == -b.scaled() && n.magnitude() == b.magnitude());
    lemma_sum_is_rounded(a, n);
    let d = a.scaled() - b.scaled();
    lemma_nearest(d, 1);
    lemma_nearest(-d, 1);
    lemma_with_sign(false, nearest(d, 1));
    lemma_with_sign(true, nearest(-d, 1));
    super::ranges::lemma_zero_is_not_rounded(1);
}

/// A sum whose exact value is at most a number, or at least a number, is so once it is rounded.
pub proof fn lemma_sum_keeps_bounds(a: Binary64, b: Binary64, low: Binary64, high: Binary64)
    requires
        a.finite(),
        b.finite(),
        low.finite(),
        low.nonnegative(),
        high.finite(),
        high.nonnegative(),
    ensures
        !a.plus(b).nan(),
        a.scaled() + b.scaled() <= low.scaled() ==> a.plus(b).scaled() <= low.scaled(),
        low.scaled() <= a.scaled() + b.scaled() ==> low.scaled() <= a.plus(b).scaled(),
        a.scaled() + b.scaled() <= high.scaled() ==> a.plus(b).scaled() <= high.scaled(),
        high.scaled() <= a.scaled() + b.scaled() ==> high.scaled() <= a.plus(b).scaled(),
{
    let sum = a.scaled() + b.scaled();
    lemma_one();
    lemma_sum_is_rounded(a, b);
    lemma_units(low);
    lemma_units(high);
    law_a_double_is_not_rounded(low.magnitude());
    law_a_double_is_not_rounded(high.magnitude());
    lemma_with_sign(false, low.magnitude());
    lemma_with_sign(false, high.magnitude());
    if sum <= low.scaled() {
        law_signed_rounding_is_monotone(sum, 1, low.scaled(), 1);
    }
    if low.scaled() <= sum {
        law_signed_rounding_is_monotone(low.scaled(), 1, sum, 1);
    }
    if sum <= high.scaled() {
        law_signed_rounding_is_monotone(sum, 1, high.scaled(), 1);
    }
    if high.scaled() <= sum {
        law_signed_rounding_is_monotone(high.scaled(), 1, sum, 1);
    }
}

/// A larger summand does not give a smaller sum.
pub proof fn law_sum_is_monotone(a: Binary64, b: Binary64, c: Binary64)
    requires
        a.finite(),
        b.finite(),
        c.finite(),
        a.at_most(b),
    ensures
        a.plus(c).at_most(b.plus(c)),
        c.plus(a).at_most(c.plus(b)),
{
    lemma_sum_is_rounded(a, c);
    lemma_sum_is_rounded(b, c);
    lemma_sum_is_rounded(c, a);
    lemma_sum_is_rounded(c, b);
    law_signed_rounding_is_monotone(a.scaled() + c.scaled(), 1, b.scaled() + c.scaled(), 1);
}

/// Taking away more does not leave more, and taking away from more does not leave less.
pub proof fn law_difference_is_monotone(a: Binary64, b: Binary64, c: Binary64)
    requires
        a.finite(),
        b.finite(),
        c.finite(),
        a.at_most(b),
    ensures
        c.minus(b).at_most(c.minus(a)),
        a.minus(c).at_most(b.minus(c)),
{
    let (na, nb, nc) = (a.negated(), b.negated(), c.negated());
    assert(na.scaled() == -a.scaled() && na.magnitude() == a.magnitude());
    assert(nb.scaled() == -b.scaled() && nb.magnitude() == b.magnitude());
    assert(nc.scaled() == -c.scaled() && nc.magnitude() == c.magnitude());
    law_sum_is_monotone(nb, na, c);
    law_sum_is_monotone(a, b, nc);
}

/// A whole number of units that is not zero is not rounded to zero.
proof fn lemma_units_are_not_lost(n: int)
    requires
        n != 0,
    ensures
        signed_nearest(n, 1).scaled() != 0,
{
    let x = if n > 0 {
        n
    } else {
        -n
    };
    assert(scaled_magnitude(1) == 1);
    law_a_double_is_not_rounded(1);
    law_rounding_is_monotone(1, 1, x, 1);
    lemma_nearest(x, 1);
    lemma_with_sign(n < 0, nearest(x, 1));
    lemma_units(signed_nearest(n, 1));
}

/// Where different numbers give equal differences, the differences are the same double: they are
/// not zeros of different signs.
pub proof fn lemma_equal_differences(a: Binary64, b: Binary64, c: Binary64)
    requires
        a.finite(),
        b.finite(),
        c.finite(),
        a.scaled() != b.scaled(),
        a.minus(c).scaled() == b.minus(c).scaled(),
    ensures
        a.minus(c) == b.minus(c),
{
    let n = c.negated();
    assert(n.scaled() == -c.scaled() && n.magnitude() == c.magnitude());
    lemma_sum_is_rounded(a, n);
    lemma_sum_is_rounded(b, n);
    let (x, y) = (a.minus(c), b.minus(c));
    if a.scaled() != c.scaled() {
        lemma_units_are_not_lost(a.scaled() - c.scaled());
    } else {
        lemma_units_are_not_lost(b.scaled() - c.scaled());
    }
    lemma_units(x);
    lemma_units(y);
    lemma_order_of_patterns(x.magnitude(), y.magnitude());
}

pub(super) proof fn lemma_product_is_rounded(a: Binary64, b: Binary64)
    requires
        a.finite(),
        b.finite(),
    ensures
        a.times(b).scaled() == signed_nearest(a.scaled() * b.scaled(), one_in_units()).scaled(),
        !a.times(b).nan(),
{
    lemma_one();
    lemma_units(a);
    lemma_units(b);
    let (x, y) = (a.units(), b.units());
    let one = one_in_units();
    assert(a.scaled() * b.scaled() == (if a.sign() != b.sign() {
        -(x * y)
    } else {
        x * y
    })) by (nonlinear_arith)
        requires
            a.scaled() == (if a.sign() {
                -x
            } else {
                x
            }),
            b.scaled() == (if b.sign() {
                -y
            } else {
                y
            }),
    ;
    assert(x * y >= 0) by (nonlinear_arith)
        requires
            x >= 0,
            y >= 0,
    ;
    lemma_nearest(x * y, one);
    lemma_with_sign(false, nearest(x * y, one));
    lemma_with_sign(true, nearest(x * y, one));
    if x * y == 0 {
        super::ranges::lemma_zero_is_not_rounded(one);
        lemma_units(with_sign(true, 0));
        lemma_units(with_sign(false, 0));
    }
}

/// A larger factor does not give a smaller product, where the other factor is not negative.
pub proof fn law_product_is_monotone(a: Binary64, b: Binary64, c: Binary64)
    requires
        a.finite(),
        b.finite(),
        c.finite(),
        a.at_most(b),
        c.nonnegative(),
    ensures
        a.times(c).at_most(b.times(c)),
        c.times(a).at_most(c.times(b)),
{
    lemma_product_is_rounded(a, c);
    lemma_product_is_rounded(b, c);
    lemma_product_is_rounded(c, a);
    lemma_product_is_rounded(c, b);
    lemma_one();
    let one = one_in_units();
    let (x, y, z) = (a.scaled(), b.scaled(), c.scaled());
    assert(x * z * one <= y * z * one) by (nonlinear_arith)
        requires
            x <= y,
            z >= 0,
            one > 0,
    ;
    assert(z * x == x * z && z * y == y * z) by (nonlinear_arith);
    law_signed_rounding_is_monotone(x * z, one, y * z, one);
}

pub(super) proof fn lemma_quotient_is_rounded(a: Binary64, b: Binary64)
    requires
        a.finite(),
        b.finite(),
        b.positive(),
    ensures
        a.over(b).scaled() == signed_nearest(a.scaled() * one_in_units(), b.units()).scaled(),
        !a.over(b).nan(),
        b.units() > 0,
{
    lemma_one();
    lemma_units(a);
    lemma_units(b);
    let one = one_in_units();
    let x = a.units();
    assert(a.scaled() * one == (if a.sign() {
        -(x * one)
    } else {
        x * one
    })) by (nonlinear_arith)
        requires
            a.scaled() == (if a.sign() {
                -x
            } else {
                x
            }),
    ;
    assert(x * one >= 0) by (nonlinear_arith)
        requires
            x >= 0,
            one > 0,
    ;
    lemma_nearest(x * one, b.units());
    lemma_with_sign(false, nearest(x * one, b.units()));
    lemma_with_sign(true, nearest(x * one, b.units()));
    if x * one == 0 {
        super::ranges::lemma_zero_is_not_rounded(b.units());
        lemma_units(with_sign(true, 0));
        lemma_units(with_sign(false, 0));
    }
}

/// A larger dividend does not give a smaller quotient, where the divisor is positive.
pub proof fn law_quotient_is_monotone(a: Binary64, b: Binary64, c: Binary64)
    requires
        a.finite(),
        b.finite(),
        c.finite(),
        a.at_most(b),
        c.positive(),
    ensures
        a.over(c).at_most(b.over(c)),
{
    lemma_quotient_is_rounded(a, c);
    lemma_quotient_is_rounded(b, c);
    lemma_one();
    let one = one_in_units();
    let (x, y, d) = (a.scaled(), b.scaled(), c.units());
    assert(x * one * d <= y * one * d) by (nonlinear_arith)
        requires
            x <= y,
            one > 0,
            d > 0,
    ;
    law_signed_rounding_is_monotone(x * one, d, y * one, d);
}

/// Restricting two numbers to a range keeps their order.
pub proof fn law_clamping_is_monotone(a: Binary64, b: Binary64, low: Binary64, high: Binary64)
    requires
        a.at_most(b),
        Binary64::is_range(low, high),
    ensures
        a.clamped(low, high).at_most(b.clamped(low, high)),
{
}

} // verus!
