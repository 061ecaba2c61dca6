//! Bounds of the results of arithmetic.
use super::arithmetic::{one_in_units, with_sign, UNIT_EXPONENT};
use super::rounding::{
    law_a_double_is_not_rounded, law_rounding_is_monotone, lemma_nearest, lemma_pattern_value,
    nearest, pattern,
};
use super::{
    lemma_scaled_magnitude_increases, one_value, scaled_magnitude, zero_value, Binary64,
    FRACTION_SPAN, INFINITE_BITS, ONE_BITS,
};
use super::numbers::D_100;
use vstd::arithmetic::power2::{
    lemma2_to64, lemma2_to64_rest, lemma_pow2_adds, lemma_pow2_pos, pow2,
};
use vstd::prelude::*;

verus! {

impl Binary64 {
    /// Whether the number is neither infinite nor missing.
    pub open spec fn finite(self) -> bool {
        self.magnitude() < INFINITE_BITS
    }

    /// Whether the number is zero or more.
    pub open spec fn nonnegative(self) -> bool {
        zero_value().at_most(self)
    }

    /// Whether the number is more than zero.
    pub open spec fn positive(self) -> bool {
        zero_value().less(self)
    }

    /// Whether the number lies between zero and one.
    pub open spec fn in_unit_range(self) -> bool {
        zero_value().at_most(self) && self.at_most(one_value())
    }
}

/// One is as many units as it has.
pub proof fn lemma_one()
    ensures
        scaled_magnitude(ONE_BITS as int) == one_in_units(),
        one_value().scaled() == one_in_units(),
        one_value().units() == one_in_units(),
        one_in_units() > 0,
        zero_value().scaled() == 0,
        nearest(one_in_units(), 1) == ONE_BITS,
{
    lemma_pattern_value(FRACTION_SPAN as int, 1022);
    assert(pattern(FRACTION_SPAN as int, 1022) == ONE_BITS);
    lemma2_to64();
    lemma2_to64_rest();
    lemma_pow2_adds(52, 1022);
    lemma_pow2_pos(UNIT_EXPONENT as nat);
    law_a_double_is_not_rounded(ONE_BITS as int);
}

/// The units of a number are its scaled value without the sign.
pub proof fn lemma_units(a: Binary64)
    ensures
        a.units() >= 0,
        a.units() == 0 <==> a.zero(),
        a.scaled() == (if a.sign() {
            -a.units()
        } else {
            a.units()
        }),
        a.nonnegative() ==> a.scaled() == a.units() && (a.sign() ==> a.zero()),
{
    lemma_scaled_magnitude_increases(0, 1);
    if a.magnitude() > 0 {
        lemma_scaled_magnitude_increases(0, a.magnitude());
    }
}

/// Patterns are in the order of the magnitudes that they stand for.
pub proof fn lemma_order_of_patterns(p: int, q: int)
    requires
        0 <= p,
        0 <= q,
    ensures
        p <= q <==> scaled_magnitude(p) <= scaled_magnitude(q),
        p < q <==> scaled_magnitude(p) < scaled_magnitude(q),
{
    if p < q {
        lemma_scaled_magnitude_increases(p, q);
    } else if q < p {
        lemma_scaled_magnitude_increases(q, p);
    }
}

/// The sign and the magnitude of a double that is put together from both.
pub proof fn lemma_with_sign(negative: bool, p: int)
    requires
        0 <= p <= INFINITE_BITS,
    ensures
        with_sign(negative, p).magnitude() == p,
        with_sign(negative, p).sign() == negative,
        !with_sign(negative, p).nan(),
        with_sign(negative, p).units() == scaled_magnitude(p),
{
}

/// The sum of two numbers is a number, unless they are opposite infinities. The sum of two
/// numbers that are not negative is not less than either.
pub proof fn law_sum_bounds(a: Binary64, b: Binary64)
    requires
        !a.nan(),
        !b.nan(),
    ensures
        !(a.infinite() && b.infinite()) ==> !a.plus(b).nan(),
        a.nonnegative() && b.nonnegative() ==> {
            &&& a.at_most(a.plus(b))
            &&& b.at_most(a.plus(b))
            &&& a.plus(b).nonnegative()
        },
{
    lemma_units(a);
    lemma_units(b);
    lemma_one();
    let sum = a.scaled() + b.scaled();
    lemma_nearest(sum, 1);
    lemma_nearest(-sum, 1);
    lemma_with_sign(false, nearest(sum, 1));
    lemma_with_sign(true, nearest(-sum, 1));
    if a.nonnegative() && b.nonnegative() {
        if a.finite() && b.finite() {
            law_rounding_is_monotone(a.units(), 1, sum, 1);
            law_rounding_is_monotone(b.units(), 1, sum, 1);
            law_a_double_is_not_rounded(a.magnitude());
            law_a_double_is_not_rounded(b.magnitude());
            lemma_order_of_patterns(a.magnitude(), nearest(sum, 1));
            lemma_order_of_patterns(b.magnitude(), nearest(sum, 1));
        } else {
            lemma_order_of_patterns(a.magnitude(), INFINITE_BITS as int);
            lemma_order_of_patterns(b.magnitude(), INFINITE_BITS as int);
        }
    }
}

/// The product of two finite numbers is a number. It is not negative where both are not, and
/// not larger than a factor where the other factor is at most one.
pub proof fn law_product_bounds(a: Binary64, b: Binary64)
    requires
        a.finite(),
        b.finite(),
    ensures
        !a.times(b).nan(),
        a.nonnegative() && b.nonnegative() ==> a.times(b).nonnegative(),
        b.units() <= one_in_units() ==> a.times(b).magnitude() <= a.magnitude(),
        a.units() <= one_in_units() ==> a.times(b).magnitude() <= b.magnitude(),
        a.nonnegative() && b.in_unit_range() ==> a.times(b).at_most(a),
{
    lemma_units(a);
    lemma_units(b);
    lemma_one();
    let one = one_in_units();
    let p = nearest(a.units() * b.units(), one);
    lemma_nearest(a.units() * b.units(), one);
    lemma_with_sign(a.sign() != b.sign(), p);
    lemma_units(a.times(b));
    if a.units() == 0 || b.units() == 0 {
        assert(a.units() * b.units() == 0) by (nonlinear_arith)
            requires
                a.units() == 0 || b.units() == 0,
        ;
        law_a_double_is_not_rounded(0);
        lemma_zero_is_not_rounded(one);
    }
    if b.units() <= one {
        let (x, y) = (a.units(), b.units());
        assert(x * y * 1 <= x * one) by (nonlinear_arith)
            requires
                x >= 0,
                y <= one,
        ;
        law_rounding_is_monotone(x * y, one, x, 1);
        law_a_double_is_not_rounded(a.magnitude());
        lemma_order_of_patterns(p, a.magnitude());
    }
    if a.units() <= one {
        let (x, y) = (a.units(), b.units());
        assert(x * y * 1 <= y * one) by (nonlinear_arith)
            requires
                y >= 0,
                x <= one,
        ;
        law_rounding_is_monotone(x * y, one, y, 1);
        law_a_double_is_not_rounded(b.magnitude());
    }
}

/// The product of two numbers that are not negative is a number that is not negative, unless
/// one is zero and the other infinite.
pub proof fn law_product_is_not_negative(a: Binary64, b: Binary64)
    requires
        a.nonnegative(),
        b.nonnegative(),
        !(a.zero() && b.infinite()),
        !(a.infinite() && b.zero()),
    ensures
        a.times(b).nonnegative(),
{
    if a.finite() && b.finite() {
        law_product_bounds(a, b);
    } else {
        lemma_units(a);
        lemma_units(b);
        lemma_one();
        lemma_order_of_patterns(0, INFINITE_BITS as int);
        lemma_with_sign(false, INFINITE_BITS as int);
    }
}

/// Zero is rounded to zero.
pub proof fn lemma_zero_is_not_rounded(d: int)
    requires
        d > 0,
    ensures
        nearest(0, d) == 0,
{
    lemma_scaled_magnitude_increases(0, 1);
    let middle = scaled_magnitude(0) + scaled_magnitude(1);
    assert(middle * d > 0) by (nonlinear_arith)
        requires
            middle > 0,
            d > 0,
    ;
    super::rounding::lemma_nearest_is(0, d, 0);
}

/// The quotient of a number that is not negative and one that is positive is a number that is
/// not negative; it is at most one where the dividend is at most the divisor.
pub proof fn law_quotient_bounds(a: Binary64, b: Binary64)
    requires
        a.finite(),
        a.nonnegative(),
        b.positive(),
    ensures
        !a.over(b).nan(),
        a.over(b).nonnegative(),
        a.at_most(b) ==> a.over(b).in_unit_range(),
        a.zero() ==> a.over(b).zero(),
{
    lemma_units(a);
    lemma_units(b);
    lemma_one();
    let one = one_in_units();
    lemma_order_of_patterns(0, ONE_BITS as int);
    if b.finite() {
        let p = nearest(a.units() * one, b.units());
        lemma_nearest(a.units() * one, b.units());
        lemma_with_sign(a.sign() != b.sign(), p);
        lemma_units(a.over(b));
        if a.zero() {
            assert(a.units() * one == 0) by (nonlinear_arith)
                requires
                    a.units() == 0,
            ;
            lemma_zero_is_not_rounded(b.units());
        }
        if a.at_most(b) {
            let (x, y) = (a.units(), b.units());
            assert(x * one * 1 <= one * y) by (nonlinear_arith)
                requires
                    x <= y,
                    one > 0,
            ;
            law_rounding_is_monotone(x * one, y, one, 1);
            lemma_order_of_patterns(p, ONE_BITS as int);
        }
    } else {
        lemma_with_sign(a.sign() != b.sign(), 0);
        lemma_units(a.over(b));
    }
}

/// The difference of two numbers between zero and one lies between minus one and one; one less
/// a number between zero and one lies between zero and one.
pub proof fn law_unit_difference_bounds(a: Binary64, b: Binary64)
    requires
        a.in_unit_range(),
        b.in_unit_range(),
    ensures
        a.finite(),
        b.finite(),
        !a.minus(b).nan(),
        a.minus(b).finite(),
        a.minus(b).units() <= one_in_units(),
        b.at_most(a) ==> a.minus(b).in_unit_range(),
{
    lemma_units(a);
    lemma_units(b);
    lemma_one();
    let one = one_in_units();
    lemma_order_of_patterns(a.magnitude(), ONE_BITS as int);
    lemma_order_of_patterns(b.magnitude(), ONE_BITS as int);
    let n = b.negated();
    assert(n.scaled() == -b.scaled() && n.magnitude() == b.magnitude());
    let d = a.scaled() - b.scaled();
    lemma_nearest(d, 1);
    lemma_nearest(-d, 1);
    lemma_with_sign(false, nearest(d, 1));
    lemma_with_sign(true, nearest(-d, 1));
    law_rounding_is_monotone(d, 1, one, 1);
    law_rounding_is_monotone(-d, 1, one, 1);
    lemma_order_of_patterns(nearest(d, 1), ONE_BITS as int);
    lemma_order_of_patterns(nearest(-d, 1), ONE_BITS as int);
    lemma_units(a.minus(b));
}

/// The difference of two finite numbers has the sign of their order.
pub proof fn law_difference_sign(a: Binary64, b: Binary64)
    requires
        a.finite(),
        b.finite(),
    ensures
        a.at_most(b) ==> a.minus(b).scaled() <= 0,
        b.at_most(a) ==> a.minus(b).scaled() >= 0,
{
    lemma_units(a);
    lemma_units(b);
    let n = b.negated();
    assert(n.scaled() == -b.scaled() && n.magnitude() == b.magnitude());
    let d = a.scaled() - b.scaled();
    lemma_nearest(d, 1);
    lemma_nearest(-d, 1);
    lemma_with_sign(false, nearest(d, 1));
    lemma_with_sign(true, nearest(-d, 1));
    lemma_units(a.minus(b));
    lemma_one();
}

/// The product of a finite number that is not negative and another finite number has the sign
/// of that number, or is zero.
pub proof fn law_product_sign(a: Binary64, b: Binary64)
    requires
        a.finite(),
        a.nonnegative(),
        b.finite(),
    ensures
        b.scaled() >= 0 ==> a.times(b).scaled() >= 0,
        b.scaled() <= 0 ==> a.times(b).scaled() <= 0,
{
    lemma_units(a);
    lemma_units(b);
    lemma_one();
    let one = one_in_units();
    lemma_nearest(a.units() * b.units(), one);
    lemma_with_sign(a.sign() != b.sign(), nearest(a.units() * b.units(), one));
    lemma_units(a.times(b));
    if a.units() == 0 || b.units() == 0 {
        assert(a.units() * b.units() == 0) by (nonlinear_arith)
            requires
                a.units() == 0 || b.units() == 0,
        ;
        lemma_zero_is_not_rounded(one);
    }
}

/// Adding what is not positive to what is not negative gives no more.
pub proof fn law_sum_with_negative(a: Binary64, b: Binary64)
    requires
        a.finite(),
        b.finite(),
        a.nonnegative(),
    ensures
        b.scaled() <= 0 ==> a.plus(b).at_most(a),
        b.scaled() >= 0 ==> a.at_most(a.plus(b)),
{
    lemma_units(a);
    lemma_units(b);
    lemma_one();
    let sum = a.scaled() + b.scaled();
    lemma_nearest(sum, 1);
    lemma_nearest(-sum, 1);
    lemma_with_sign(false, nearest(sum, 1));
    lemma_with_sign(true, nearest(-sum, 1));
    lemma_units(a.plus(b));
    law_a_double_is_not_rounded(a.magnitude());
    if b.scaled() <= 0 {
        law_rounding_is_monotone(sum, 1, a.units(), 1);
    } else {
        law_rounding_is_monotone(a.units(), 1, sum, 1);
    }
    lemma_order_of_patterns(nearest(sum, 1), a.magnitude());
}

/// A number between zero and a finite number is finite.
pub proof fn lemma_finite_between(a: Binary64, high: Binary64)
    requires
        a.nonnegative(),
        a.at_most(high),
        high.finite(),
    ensures
        a.finite(),
{
    lemma_units(a);
    lemma_units(high);
    lemma_order_of_patterns(a.magnitude(), high.magnitude());
}

/// A number between zero and one has at most the units of one.
pub proof fn lemma_units_in_unit_range(a: Binary64)
    requires
        a.in_unit_range(),
    ensures
        a.finite(),
        a.units() <= one_in_units(),
{
    lemma_units(a);
    lemma_one();
    lemma_order_of_patterns(a.magnitude(), ONE_BITS as int);
}

/// The product of two numbers between zero and one lies between zero and one.
pub proof fn lemma_product_in_unit_range(a: Binary64, b: Binary64)
    requires
        a.in_unit_range(),
        b.in_unit_range(),
    ensures
        a.times(b).in_unit_range(),
{
    lemma_units_in_unit_range(a);
    lemma_units_in_unit_range(b);
    law_product_bounds(a, b);
}

/// The sum of two numbers between zero and one is finite.
pub proof fn lemma_sum_of_unit_range_is_finite(a: Binary64, b: Binary64)
    requires
        a.in_unit_range(),
        b.in_unit_range(),
    ensures
        a.plus(b).finite(),
{
    lemma_units_in_unit_range(a);
    lemma_units_in_unit_range(b);
    lemma_small_sum_is_finite(a, b);
}

/// The sum of two numbers that are no larger than one is finite.
pub proof fn lemma_small_sum_is_finite(a: Binary64, b: Binary64)
    requires
        a.finite(),
        b.finite(),
        a.units() <= one_in_units(),
        b.units() <= one_in_units(),
    ensures
        a.plus(b).finite(),
{
    lemma_units(a);
    lemma_units(b);
    lemma_one();
    // Two is the pattern that follows one by a whole binary order.
    let two = ONE_BITS as int + FRACTION_SPAN as int;
    lemma_pattern_value(FRACTION_SPAN as int, 1023);
    assert(pattern(FRACTION_SPAN as int, 1023) == two);
    vstd::arithmetic::power2::lemma_pow2_unfold(1023);
    lemma2_to64();
    lemma2_to64_rest();
    lemma_pow2_adds(52, 1022);
    let sum = a.scaled() + b.scaled();
    assert(scaled_magnitude(two) == 2 * one_in_units()) by (nonlinear_arith)
        requires
            scaled_magnitude(two) == FRACTION_SPAN * pow2(1023),
            pow2(1023) == 2 * pow2(1022),
            one_in_units() == FRACTION_SPAN * pow2(1022),
    ;
    law_rounding_is_monotone(sum, 1, 2 * one_in_units(), 1);
    law_rounding_is_monotone(-sum, 1, 2 * one_in_units(), 1);
    law_a_double_is_not_rounded(two);
    lemma_nearest(sum, 1);
    lemma_nearest(-sum, 1);
    lemma_with_sign(false, nearest(sum, 1));
    lemma_with_sign(true, nearest(-sum, 1));
}

/// The product of two numbers that are not negative, where it is a number, is not negative.
pub proof fn law_product_of_nonnegatives_or_nan(a: Binary64, b: Binary64)
    requires
        a.nonnegative() || a.nan(),
        b.nonnegative(),
        !a.times(b).nan(),
    ensures
        a.times(b).nonnegative(),
{
    lemma_nan_has_no_product(a, b);
    law_product_is_not_negative(a, b);
}

proof fn lemma_nan_has_no_product(a: Binary64, b: Binary64)
    ensures
        a.nan() || b.nan() ==> a.times(b).nan(),
        a.zero() && b.infinite() ==> a.times(b).nan(),
        a.infinite() && b.zero() ==> a.times(b).nan(),
{
    assert(super::arithmetic::nan_value().nan());
}

/// One more than a finite number that is not negative is finite: next to the largest finite
/// number one is lost.
pub proof fn lemma_one_more_is_finite(a: Binary64)
    requires
        a.finite(),
        a.nonnegative(),
    ensures
        one_value().plus(a).finite(),
{
    lemma_one();
    lemma_units(a);
    let span = FRACTION_SPAN as int;
    let top = INFINITE_BITS - 1;
    lemma_pattern_value(2 * span - 1, 2045);
    assert(pattern(2 * span - 1, 2045) == top);
    let gap = pow2(2045) as int;
    assert((2 * span - 1 + 1) * gap == (2 * span - 1) * gap + gap) by (nonlinear_arith);
    lemma_pow2_adds(1074, 971);
    lemma_pow2_adds(2, 969);
    lemma2_to64();
    lemma_pow2_pos(969);
    assert(gap > 2 * one_in_units()) by (nonlinear_arith)
        requires
            gap == one_in_units() * pow2(971),
            pow2(971) >= 4,
            one_in_units() > 0,
    ;
    lemma_order_of_patterns(a.magnitude(), top);
    let sum = one_in_units() + a.scaled();
    lemma_nearest(sum, 1);
    assert(!super::rounding::reaches(sum, 1, INFINITE_BITS as int));
    lemma_with_sign(false, nearest(sum, 1));
}

/// A product by a factor of at least one is at least the other factor.
pub proof fn law_product_grows(a: Binary64, b: Binary64)
    requires
        a.nonnegative(),
        a.finite(),
        one_value().at_most(b),
        b.finite() || a.positive(),
    ensures
        a.at_most(a.times(b)),
{
    lemma_units(a);
    lemma_units(b);
    lemma_one();
    let one = one_in_units();
    if b.finite() {
        let (x, y) = (a.units(), b.units());
        let p = nearest(x * y, one);
        assert(x * one <= x * y * 1) by (nonlinear_arith)
            requires
                x >= 0,
                one <= y,
        ;
        law_rounding_is_monotone(x, 1, x * y, one);
        law_a_double_is_not_rounded(a.magnitude());
        lemma_nearest(x * y, one);
        lemma_with_sign(a.sign() != b.sign(), p);
        lemma_units(a.times(b));
        lemma_order_of_patterns(a.magnitude(), p);
        if x == 0 {
            assert(x * y == 0) by (nonlinear_arith)
                requires
                    x == 0,
            ;
            lemma_zero_is_not_rounded(one);
        }
    } else {
        lemma_with_sign(false, INFINITE_BITS as int);
        lemma_order_of_patterns(a.magnitude(), INFINITE_BITS as int);
    }
}

/// The doubles nearest to whole numbers of 64 bits are finite, and in the order of the numbers.
pub proof fn law_whole_numbers_keep_their_order(i: int, j: int)
    requires
        0 <= i <= j <= 0x1_0000_0000_0000_0000,
    ensures
        Binary64::of_int(i).finite(),
        Binary64::of_int(i).nonnegative(),
        Binary64::of_int(j).finite(),
        Binary64::of_int(j).nonnegative(),
        Binary64::of_int(i).at_most(Binary64::of_int(j)),
        i > 0 ==> Binary64::of_int(i).positive(),
        i == 0 ==> Binary64::of_int(i).zero(),
{
    let one = one_in_units();
    let limit: int = 0x1_0000_0000_0000_0000;
    lemma_one();
    lemma_pattern_value(FRACTION_SPAN as int, 1086);
    lemma2_to64();
    lemma2_to64_rest();
    lemma_pow2_adds(52, 1086);
    lemma_pow2_adds(64, UNIT_EXPONENT as nat);
    let high = pattern(FRACTION_SPAN as int, 1086);
    assert(high < INFINITE_BITS);
    assert(scaled_magnitude(high) == limit * one);
    law_a_double_is_not_rounded(high);
    assert(0 <= i * one <= j * one <= limit * one) by (nonlinear_arith)
        requires
            0 <= i <= j <= limit,
            one > 0,
    ;
    law_rounding_is_monotone(i * one, 1, j * one, 1);
    law_rounding_is_monotone(j * one, 1, limit * one, 1);
    let (p, q) = (nearest(i * one, 1), nearest(j * one, 1));
    lemma_nearest(i * one, 1);
    lemma_nearest(j * one, 1);
    lemma_with_sign(false, p);
    lemma_with_sign(false, q);
    lemma_order_of_patterns(p, q);
    lemma_order_of_patterns(0, p);
    lemma_order_of_patterns(0, q);
    if i > 0 {
        assert(one <= i * one) by (nonlinear_arith)
            requires
                i >= 1,
                one > 0,
        ;
        law_rounding_is_monotone(one, 1, i * one, 1);
        lemma_order_of_patterns(ONE_BITS as int, p);
    } else {
        lemma_zero_is_not_rounded(1);
    }
}

/// Adding nothing to a number leaves the number, unless it is the negative zero.
pub proof fn lemma_adding_nothing(a: Binary64, nothing: Binary64)
    requires
        a.finite(),
        !a.sign(),
        nothing.zero(),
    ensures
        a.plus(nothing) == a,
        zero_value().plus(a) == a,
{
    lemma_one();
    lemma_units(a);
    lemma_units(nothing);
    law_a_double_is_not_rounded(a.magnitude());
    lemma_with_sign(false, 0);
}

/// Taking nothing from one leaves one.
pub proof fn lemma_one_less_nothing()
    ensures
        one_value().minus(zero_value()) == one_value(),
{
    lemma_one();
    lemma_with_sign(true, 0);
    lemma_units(with_sign(true, 0));
}

/// A number times one is the number.
pub proof fn lemma_times_one(a: Binary64)
    requires
        a.finite(),
    ensures
        a.times(one_value()) == a,
{
    lemma_one();
    lemma_units(a);
    let one = one_in_units();
    law_rounding_is_monotone(a.units() * one, one, a.units(), 1);
    law_rounding_is_monotone(a.units(), 1, a.units() * one, one);
    law_a_double_is_not_rounded(a.magnitude());
}

/// The double nearest to a hundred is a hundred.
pub proof fn lemma_hundred()
    ensures
        Binary64::of_bits(D_100).scaled() == 100 * one_in_units(),
        nearest(100 * one_in_units(), 1) == D_100,
        Binary64::of_int(100) == Binary64::of_bits(D_100),
        Binary64::of_bits(D_100).finite(),
        Binary64::of_bits(D_100).positive(),
{
    lemma_one();
    lemma_pattern_value(0x19_0000_0000_0000, 1028);
    assert(pattern(0x19_0000_0000_0000, 1028) == D_100);
    lemma2_to64();
    lemma2_to64_rest();
    lemma_pow2_adds(46, 1028);
    assert(scaled_magnitude(D_100 as int) == 100 * one_in_units());
    law_a_double_is_not_rounded(D_100 as int);
    lemma_scaled_magnitude_increases(0, D_100 as int);
}

/// What is taken from a number that is not negative leaves at most the number, and at least
/// nothing where no more is taken than there is.
pub proof fn law_difference_bounds(a: Binary64, b: Binary64)
    requires
        a.finite(),
        b.finite(),
        b.nonnegative(),
        b.at_most(a),
    ensures
        a.minus(b).finite(),
        a.minus(b).nonnegative(),
        a.minus(b).at_most(a),
        a == b ==> a.minus(b).zero(),
{
    lemma_units(a);
    lemma_units(b);
    lemma_one();
    let n = b.negated();
    let d = a.scaled() - b.scaled();
    lemma_nearest(d, 1);
    lemma_with_sign(false, nearest(d, 1));
    lemma_units(a.minus(b));
    law_rounding_is_monotone(d, 1, a.units(), 1);
    law_a_double_is_not_rounded(a.magnitude());
    lemma_order_of_patterns(nearest(d, 1), a.magnitude());
    lemma_zero_is_not_rounded(1);
}

/// A share between nothing and everything, taken of a number that is not negative, is at most
/// the number.
pub proof fn law_share_bounds(share: Binary64, whole: Binary64)
    requires
        share.in_unit_range(),
        whole.finite(),
        whole.nonnegative(),
    ensures
        share.times(whole).nonnegative(),
        share.times(whole).at_most(whole),
        share.zero() ==> share.times(whole).zero(),
{
    lemma_units_in_unit_range(share);
    law_product_bounds(share, whole);
    lemma_units(share);
    lemma_units(whole);
    lemma_units(share.times(whole));
    lemma_order_of_patterns(share.times(whole).magnitude(), whole.magnitude());
    lemma_one();
    if share.zero() {
        lemma_order_of_patterns(share.times(whole).magnitude(), share.magnitude());
        assert(share.units() * whole.units() == 0) by (nonlinear_arith)
            requires
                share.units() == 0,
        ;
        lemma_zero_is_not_rounded(one_in_units());
    }
}

} // verus!
