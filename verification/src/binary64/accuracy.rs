//! How close the results of arithmetic are to the exact ones, relative to the exact ones.
use super::arithmetic::{one_in_units, UNIT_EXPONENT};
use super::errors::{
    lemma_difference_error, lemma_product_error, lemma_quotient_error, lemma_sum_error, size,
};
use super::numbers::{D_100, D_2};
use super::ranges::{lemma_one, lemma_units, lemma_with_sign};
use super::rounding::{law_a_double_is_not_rounded, lemma_pattern_value, nearest, pattern};
use super::{Binary64, FRACTION_SPAN};
use vstd::arithmetic::power2::{
    lemma2_to64, lemma2_to64_rest, lemma_pow2_adds, lemma_pow2_unfold, pow2,
};
use vstd::prelude::*;

verus! {

proof fn lemma_relative(value: int, exact: int)
    requires
        2 * FRACTION_SPAN * size(value - exact) <= size(value) + FRACTION_SPAN,
    ensures
        FRACTION_SPAN * size(value - exact) <= 2 * size(exact),
{
    let span = FRACTION_SPAN as int;
    let miss = size(value - exact);
    if miss > 0 {
        assert(span * miss <= 2 * size(exact)) by (nonlinear_arith)
            requires
                2 * span * miss <= size(exact) + miss + span,
                miss >= 1,
                span >= 2,
        ;
    }
}

/// A finite sum is missed by at most two parts in as many as there are fractions.
pub proof fn lemma_sum_accuracy(a: Binary64, b: Binary64)
    requires
        a.finite(),
        b.finite(),
        a.plus(b).finite(),
    ensures
        ({
            let exact = a.scaled() + b.scaled();
            FRACTION_SPAN * size(a.plus(b).scaled() - exact) <= 2 * size(exact)
        }),
{
    lemma_sum_error(a, b);
    lemma_relative(a.plus(b).scaled(), a.scaled() + b.scaled());
}

/// A finite difference is missed by at most two parts in as many as there are fractions.
pub proof fn lemma_difference_accuracy(a: Binary64, b: Binary64)
    requires
        a.finite(),
        b.finite(),
        a.minus(b).finite(),
    ensures
        ({
            let exact = a.scaled() - b.scaled();
            FRACTION_SPAN * size(a.minus(b).scaled() - exact) <= 2 * size(exact)
        }),
{
    lemma_difference_error(a, b);
    lemma_relative(a.minus(b).scaled(), a.scaled() - b.scaled());
}

/// An error of half the last bit, of a value that is counted in parts of `d`.
proof fn lemma_relative_in_parts(value: int, exact: int, d: int)
    requires
        d > 0,
        2 * FRACTION_SPAN * size(value * d - exact) <= size(value) * d + FRACTION_SPAN * d,
    ensures
        FRACTION_SPAN * size(value * d - exact) <= size(exact) + FRACTION_SPAN * d,
{
    let span = FRACTION_SPAN as int;
    let vd = value * d;
    assert(size(value) * d == size(vd)) by (nonlinear_arith)
        requires
            vd == value * d,
            d > 0,
            size(value) == (if value < 0 {
                -value
            } else {
                value
            }),
            size(vd) == (if vd < 0 {
                -vd
            } else {
                vd
            }),
    ;
    let miss = size(vd - exact);
    let sd = span * d;
    assert(sd > 0) by (nonlinear_arith)
        requires
            sd == span * d,
            span > 0,
            d > 0,
    ;
    assert(span * miss <= size(exact) + sd) by (nonlinear_arith)
        requires
            2 * span * miss <= size(exact) + miss + sd,
            span >= 2,
            miss >= 0,
    ;
}

/// A finite product is missed by at most one part in as many as there are fractions, and one unit.
pub proof fn lemma_product_accuracy(a: Binary64, b: Binary64)
    requires
        a.finite(),
        b.finite(),
        a.times(b).finite(),
    ensures
        ({
            let (u, exact) = (one_in_units(), a.scaled() * b.scaled());
            FRACTION_SPAN * size(a.times(b).scaled() * u - exact) <= size(exact) + FRACTION_SPAN * u
        }),
{
    lemma_one();
    lemma_product_error(a, b);
    lemma_relative_in_parts(a.times(b).scaled(), a.scaled() * b.scaled(), one_in_units());
}

/// A finite quotient by a positive number is missed by at most one part in as many as there are
/// fractions, and one unit.
pub proof fn lemma_quotient_accuracy(a: Binary64, b: Binary64)
    requires
        a.finite(),
        b.finite(),
        b.positive(),
        a.over(b).finite(),
    ensures
        b.scaled() > 0,
        ({
            let (d, exact) = (b.scaled(), a.scaled() * one_in_units());
            FRACTION_SPAN * size(a.over(b).scaled() * d - exact) <= size(exact) + FRACTION_SPAN * d
        }),
{
    lemma_quotient_error(a, b);
    lemma_relative_in_parts(
        a.over(b).scaled(),
        a.scaled() * one_in_units(),
        b.scaled(),
    );
}

/// A whole number that is doubled until it has 53 bits.
proof fn lemma_doubled(i: int, m: int, k: nat) -> (r: (int, nat))
    requires
        0 < i,
        m == i * pow2(k),
        0 < m < 2 * FRACTION_SPAN,
        k <= 53,
    ensures
        FRACTION_SPAN <= r.0 < 2 * FRACTION_SPAN,
        r.0 == i * pow2(r.1),
        r.1 <= 53,
    decreases 2 * FRACTION_SPAN - m,
{
    lemma2_to64();
    lemma2_to64_rest();
    if m >= FRACTION_SPAN {
        (m, k)
    } else {
        lemma_pow2_unfold((k + 1) as nat);
        assert(2 * m == i * pow2((k + 1) as nat)) by (nonlinear_arith)
            requires
                m == i * pow2(k),
                pow2((k + 1) as nat) == 2 * pow2(k),
        ;
        if k == 53 {
            assert(m >= pow2(53)) by (nonlinear_arith)
                requires
                    m == i * pow2(53),
                    i >= 1,
            ;
        }
        lemma_doubled(i, 2 * m, (k + 1) as nat)
    }
}

/// A whole number below `2^53` is a double.
pub proof fn lemma_whole_number(i: int)
    requires
        0 <= i < 2 * FRACTION_SPAN,
    ensures
        Binary64::of_int(i).scaled() == i * one_in_units(),
        Binary64::of_int(i).finite(),
        Binary64::of_int(i).nonnegative(),
        i > 0 ==> Binary64::of_int(i).positive(),
        !Binary64::of_int(i).sign(),
{
    let u = one_in_units();
    lemma_one();
    lemma2_to64();
    if i == 0 {
        assert(0 * u == 0);
        super::ranges::lemma_zero_is_not_rounded(1);
        lemma_with_sign(false, 0);
        lemma_units(Binary64::of_int(0));
    } else {
        assert(i * pow2(0) == i);
        let (m, k) = lemma_doubled(i, i, 0);
        let e = UNIT_EXPONENT - k;
        lemma_pattern_value(m, e);
        lemma_pow2_adds(k, e as nat);
        assert(m * pow2(e as nat) == i * u) by (nonlinear_arith)
            requires
                m == i * pow2(k),
                pow2(k) * pow2(e as nat) == u,
        ;
        let p = pattern(m, e);
        assert(0 < p < super::INFINITE_BITS);
        law_a_double_is_not_rounded(p);
        lemma_with_sign(false, p);
        lemma_units(Binary64::of_int(i));
        assert(i * u > 0) by (nonlinear_arith)
            requires
                i > 0,
                u > 0,
        ;
    }
}

/// The difference of two whole numbers below `2^53` is that whole number.
pub proof fn lemma_whole_difference(a: int, b: int)
    requires
        0 <= b <= a < 2 * FRACTION_SPAN,
    ensures
        ({
            let r = Binary64::of_int(a).minus(Binary64::of_int(b));
            &&& r.scaled() == (a - b) * one_in_units()
            &&& r.finite()
            &&& r.nonnegative()
            &&& r.magnitude() == Binary64::of_int(a - b).magnitude()
        }),
{
    let u = one_in_units();
    lemma_one();
    lemma_whole_number(a);
    lemma_whole_number(b);
    lemma_whole_number(a - b);
    let (x, y, d) = (Binary64::of_int(a), Binary64::of_int(b), Binary64::of_int(a - b));
    assert((a - b) * u == a * u - b * u) by (nonlinear_arith);
    assert((a - b) * u >= 0) by (nonlinear_arith)
        requires
            a >= b,
            u > 0,
    ;
    super::monotone::lemma_difference_is_rounded(x, y);
    lemma_units(d);
    law_a_double_is_not_rounded(d.magnitude());
    lemma_units(x.minus(y));
    lemma_with_sign(false, d.magnitude());
}

/// Two.
pub proof fn lemma_two()
    ensures
        Binary64::of_bits(D_2).scaled() == 2 * one_in_units(),
        Binary64::of_bits(D_2).finite(),
        Binary64::of_bits(D_2).positive(),
{
    lemma_one();
    lemma_pattern_value(FRACTION_SPAN as int, 1023);
    assert(pattern(FRACTION_SPAN as int, 1023) == D_2);
    lemma2_to64();
    lemma2_to64_rest();
    lemma_pow2_unfold(1023);
    lemma_pow2_adds(52, 1022);
    lemma_units(Binary64::of_bits(D_2));
}

/// A finite quotient by a whole number.
pub proof fn lemma_quotient_by_whole_number(a: Binary64, b: Binary64, k: int)
    requires
        a.finite(),
        b.finite(),
        k > 0,
        b.scaled() == k * one_in_units(),
        a.over(b).finite(),
    ensures
        FRACTION_SPAN * size(k * a.over(b).scaled() - a.scaled()) <= size(a.scaled())
            + FRACTION_SPAN * k,
{
    lemma_one();
    lemma_units(b);
    let (u, span) = (one_in_units(), FRACTION_SPAN as int);
    assert(k * u > 0) by (nonlinear_arith)
        requires
            k > 0,
            u > 0,
    ;
    lemma_quotient_accuracy(a, b);
    let (r, x) = (a.over(b).scaled(), a.scaled());
    let off = k * r - x;
    let exact = r * (k * u) - x * u;
    assert(exact == off * u) by (nonlinear_arith)
        requires
            off == k * r - x,
            exact == r * (k * u) - x * u,
    ;
    lemma_size_of_product(off, u);
    lemma_size_of_product(x, u);
    let (m, y) = (size(off), size(x));
    assert(span * m <= y + span * k) by (nonlinear_arith)
        requires
            span * (m * u) <= y * u + span * (k * u),
            u > 0,
    ;
}

/// The size of a product with a positive number.
pub proof fn lemma_size_of_product(x: int, d: int)
    requires
        d > 0,
    ensures
        size(x * d) == size(x) * d,
{
    let y = x * d;
    assert(size(y) == size(x) * d) by (nonlinear_arith)
        requires
            y == x * d,
            d > 0,
            size(y) == (if y < 0 {
                -y
            } else {
                y
            }),
            size(x) == (if x < 0 {
                -x
            } else {
                x
            }),
    ;
}

/// A product whose exact value is at most a whole number is finite.
pub proof fn lemma_moderate_product(a: Binary64, b: Binary64, most: int)
    requires
        a.finite(),
        b.finite(),
        0 <= most < 2 * FRACTION_SPAN,
        a.units() * b.units() <= (most * one_in_units()) * one_in_units(),
    ensures
        a.times(b).finite(),
{
    let u = one_in_units();
    lemma_one();
    lemma_units(a);
    lemma_units(b);
    lemma_whole_number(most);
    let n = a.units() * b.units();
    assert(n >= 0) by (nonlinear_arith)
        requires
            n == a.units() * b.units(),
            a.units() >= 0,
            b.units() >= 0,
    ;
    super::rounding::law_rounding_is_monotone(n, u, most * u, 1);
    super::rounding::lemma_nearest(n, u);
    super::rounding::lemma_nearest(most * u, 1);
    lemma_with_sign(false, nearest(most * u, 1));
    lemma_with_sign(a.sign() != b.sign(), nearest(n, u));
}

/// A part of a whole in percent, computed as the quotient times a hundred, is a hundred times the
/// exact quotient, up to rounding.
pub proof fn lemma_percentage(part: Binary64, whole: Binary64)
    requires
        part.finite(),
        whole.finite(),
        whole.positive(),
        part.over(whole).finite(),
        part.over(whole).times(Binary64::of_bits(D_100)).finite(),
    ensures
        ({
            let r = part.over(whole).times(Binary64::of_bits(D_100)).scaled();
            let (w, exact) = (whole.scaled(), part.scaled() * one_in_units());
            FRACTION_SPAN * size(r * w - 100 * exact) <= 300 * size(exact) + 200 * (FRACTION_SPAN
                * w)
        }),
{
    lemma_one();
    super::ranges::lemma_hundred();
    lemma_quotient_accuracy(part, whole);
    let (quotient, hundred) = (part.over(whole), Binary64::of_bits(D_100));
    lemma_product_accuracy(quotient, hundred);
    let (u, span) = (one_in_units(), FRACTION_SPAN as int);
    let (q, r, w) = (quotient.scaled(), quotient.times(hundred).scaled(), whole.scaled());
    let exact = part.scaled() * u;
    // The product with a hundred.
    let d = r - 100 * q;
    assert(r * u - q * (100 * u) == d * u) by (nonlinear_arith)
        requires
            d == r - 100 * q,
    ;
    assert(q * (100 * u) == (100 * q) * u) by (nonlinear_arith);
    lemma_size_of_product(d, u);
    lemma_size_of_product(100 * q, u);
    let (md, mq) = (size(d), size(q));
    assert(size(100 * q) == 100 * mq);
    assert(span * md <= 100 * mq + span) by (nonlinear_arith)
        requires
            span * (md * u) <= (100 * mq) * u + span * u,
            u > 0,
    ;
    // The quotient, times the whole.
    lemma_size_of_product(q, w);
    lemma_size_of_product(d, w);
    let (qw, dw) = (q * w, d * w);
    let miss = size(qw - exact);
    let sw = span * w;
    assert(sw > 0) by (nonlinear_arith)
        requires
            sw == span * w,
            span > 0,
            w > 0,
    ;
    assert(span * miss <= size(exact) + sw);
    assert(size(qw) <= size(exact) + miss);
    assert(size(qw) == mq * w);
    assert(span * size(dw) <= 100 * size(qw) + sw) by (nonlinear_arith)
        requires
            span * md <= 100 * mq + span,
            size(dw) == md * w,
            size(qw) == mq * w,
            sw == span * w,
            w > 0,
    ;
    assert(miss <= size(exact) + w) by (nonlinear_arith)
        requires
            span * miss <= size(exact) + span * w,
            span >= 1,
            size(exact) >= 0,
            miss >= 0,
    ;
    let total = r * w - 100 * exact;
    assert(total == dw + 100 * (qw - exact)) by (nonlinear_arith)
        requires
            total == r * w - 100 * exact,
            dw == d * w,
            d == r - 100 * q,
            qw == q * w,
    ;
    assert(size(total) <= size(dw) + 100 * miss);
    assert(span * size(total) <= span * size(dw) + 100 * (span * miss)) by (nonlinear_arith)
        requires
            size(total) <= size(dw) + 100 * miss,
            span > 0,
    ;
    assert(100 * w <= sw) by (nonlinear_arith)
        requires
            sw == span * w,
            span >= 100,
            w > 0,
    ;
}

// ---------------------------------------------------------------------------
// Whole numbers next to a double
// ---------------------------------------------------------------------------

/// Cut off towards zero a number loses less than one, and no more than it has.
pub proof fn law_truncation_goes_towards_zero(a: Binary64)
    requires
        !a.nan(),
    ensures
        ({
            let (u, n) = (one_in_units(), a.truncated() * one_in_units());
            &&& a.scaled() >= 0 ==> n <= a.scaled() < n + u
            &&& a.scaled() <= 0 ==> n - u < a.scaled() <= n
        }),
{
    lemma_one();
    lemma_units(a);
    lemma_whole_and_fraction(a);
    let (u, w) = (one_in_units(), a.whole_part());
    assert((-w) * u == -(w * u)) by (nonlinear_arith);
}

/// The whole number downwards is the largest that is not above the number.
pub proof fn law_floor_is_below(a: Binary64)
    requires
        !a.nan(),
    ensures
        a.floored() * one_in_units() <= a.scaled() < (a.floored() + 1) * one_in_units(),
{
    lemma_one();
    lemma_units(a);
    lemma_whole_and_fraction(a);
    let (u, w) = (one_in_units(), a.whole_part());
    assert((-w) * u == -(w * u)) by (nonlinear_arith);
    assert((-w - 1) * u == -(w * u) - u) by (nonlinear_arith);
    assert((-w + 1) * u == -(w * u) + u) by (nonlinear_arith);
    assert((w + 1) * u == w * u + u) by (nonlinear_arith);
}

/// Rounded, a number changes by at most a half, and by less in the direction towards zero.
pub proof fn law_rounding_goes_to_the_nearest(a: Binary64)
    requires
        !a.nan(),
    ensures
        ({
            let (u, n) = (one_in_units(), a.rounded() * one_in_units());
            &&& 2 * size(n - a.scaled()) <= u
            &&& 2 * size(n - a.scaled()) == u ==> size(n) >= size(a.scaled())
        }),
{
    lemma_one();
    lemma_units(a);
    lemma_whole_and_fraction(a);
    let (u, w) = (one_in_units(), a.whole_part());
    assert((-w) * u == -(w * u)) by (nonlinear_arith);
    assert((-w - 1) * u == -(w * u) - u) by (nonlinear_arith);
    assert((w + 1) * u == w * u + u) by (nonlinear_arith);
}

proof fn lemma_whole_and_fraction(a: Binary64)
    ensures
        a.units() == a.whole_part() * one_in_units() + a.fraction_part(),
        0 <= a.fraction_part() < one_in_units(),
        a.whole_part() >= 0,
        a.whole_part() * one_in_units() >= 0,
{
    lemma_one();
    lemma_units(a);
    let (n, u) = (a.units(), one_in_units());
    assert(n == (n / u) * u + n % u && 0 <= n % u < u && n / u >= 0 && (n / u) * u >= 0)
        by (nonlinear_arith)
        requires
            n >= 0,
            u > 0,
    ;
}

} // verus!
