//! What the rules of the strategy compute, in exact arithmetic: thresholds, required values, fees,
//! expected values and the share of the capital. Numbers stand for their values in units.
use super::config::{GrindingConfig, KellyConfig};
use super::sizing::{
    expected, kalshi_fee, kelly, kelly_fraction, odds, strictly_between,
};
use crate::binary64::arithmetic::one_in_units;
use crate::binary64::errors::{
    epsilon, lemma_difference_error, lemma_epsilon, lemma_product_error,
    lemma_product_up_to_a_hundred, lemma_quotient_error, lemma_quotient_up_to_a_hundred,
    lemma_sum_error, size,
};
use crate::binary64::numbers::D_0_07;
use crate::binary64::ranges::{
    law_product_bounds, law_quotient_bounds, law_sum_bounds, law_unit_difference_bounds,
    lemma_finite_between, lemma_one, lemma_product_in_unit_range,
    lemma_sum_of_unit_range_is_finite, lemma_units, lemma_units_in_unit_range,
};
use crate::binary64::rounding::{lemma_pattern_value, pattern};
use crate::binary64::{one_value, zero_value, Binary64, FRACTION_SPAN};
use crate::kalman::filter::lemma_zero_and_one;
use crate::market::{law_cents_are_hundredths, price_of_cents, PriceCents};
use vstd::arithmetic::power2::{lemma2_to64, lemma2_to64_rest, lemma_pow2_adds, lemma_pow2_pos};
use vstd::prelude::*;

verus! {

// ---------------------------------------------------------------------------
// Errors of single operations
// ---------------------------------------------------------------------------

/// An error of half the last bit of a value that is at most so many times one.
proof fn lemma_miss(miss: int, value: int, most: int)
    requires
        0 < most <= 100,
        size(value) <= most * one_in_units(),
        2 * FRACTION_SPAN * size(miss) <= size(value) + FRACTION_SPAN,
    ensures
        -(most * epsilon()) <= miss <= most * epsilon(),
{
    lemma_epsilon();
    lemma_one();
    let (u, e, span) = (one_in_units(), epsilon(), FRACTION_SPAN as int);
    let m = size(miss);
    assert(m <= most * e) by (nonlinear_arith)
        requires
            2 * span * m <= most * u + span,
            u == span * e,
            e >= span,
            span >= 1,
            most >= 1,
    ;
}

/// The same of a value that is counted in parts of `d`.
proof fn lemma_miss_in_parts(miss: int, value: int, d: int, most: int)
    requires
        d > 0,
        0 < most <= 100,
        size(value) <= most * one_in_units(),
        2 * FRACTION_SPAN * size(miss) <= size(value) * d + FRACTION_SPAN * d,
    ensures
        -(most * (epsilon() * d)) <= miss <= most * (epsilon() * d),
{
    lemma_epsilon();
    lemma_one();
    let (u, e, span) = (one_in_units(), epsilon(), FRACTION_SPAN as int);
    let m = size(miss);
    let v = size(value);
    assert(v * d + span * d <= 2 * span * (most * (e * d))) by (nonlinear_arith)
        requires
            0 <= v <= most * u,
            u == span * e,
            e >= span,
            span >= 1,
            most >= 1,
            d > 0,
    ;
    assert(m <= most * (e * d)) by (nonlinear_arith)
        requires
            2 * span * m <= 2 * span * (most * (e * d)),
            span > 0,
    ;
}

// ---------------------------------------------------------------------------
// Thresholds
// ---------------------------------------------------------------------------

/// The threshold is a straight line between the base, at the largest number of hours, and one, at
/// none: `base + (1 - base) * (1 - hours / max_hours)`, up to rounding. More hours than the
/// largest number, and fewer than none, count as those bounds.
pub proof fn law_threshold_is_a_straight_line(config: GrindingConfig, hours: Binary64)
    requires
        config.sound(),
        !hours.nan(),
    ensures
        ({
            let (u, b) = (one_in_units(), config.base_probability_threshold.scaled());
            let most = config.max_hours_to_expiry.scaled();
            let h = if hours.scaled() < 0 {
                0
            } else if hours.scaled() > most {
                most
            } else {
                hours.scaled()
            };
            let t = config.threshold(hours).scaled();
            &&& config.threshold(hours).finite()
            &&& most > 0
            &&& size(t * most - (b * most + (u - b) * (most - h))) <= 8 * (epsilon() * most)
        }),
{
    lemma_one();
    lemma_zero_and_one();
    lemma_epsilon();
    let base = config.base_probability_threshold;
    let max = config.max_hours_to_expiry;
    let clamped = hours.clamped(zero_value(), max);
    lemma_finite_between(clamped, max);
    law_quotient_bounds(clamped, max);
    let share = clamped.over(max);
    law_unit_difference_bounds(one_value(), share);
    law_unit_difference_bounds(one_value(), base);
    let (factor, room) = (one_value().minus(share), one_value().minus(base));
    lemma_product_in_unit_range(room, factor);
    let part = room.times(factor);
    lemma_units_in_unit_range(part);
    lemma_units_in_unit_range(base);
    lemma_units_in_unit_range(share);
    lemma_units_in_unit_range(factor);
    lemma_units_in_unit_range(room);
    lemma_sum_of_unit_range_is_finite(base, part);
    lemma_units(clamped);
    lemma_units(max);
    lemma_units(base);
    lemma_units(share);
    lemma_units(factor);
    lemma_units(room);
    lemma_units(part);
    lemma_quotient_error(clamped, max);
    lemma_difference_error(one_value(), share);
    lemma_difference_error(one_value(), base);
    lemma_product_error(room, factor);
    lemma_sum_error(base, part);
    let (u, e) = (one_in_units(), epsilon());
    let (b, most, h) = (base.scaled(), max.scaled(), clamped.scaled());
    let (q, f, g, m) = (share.scaled(), factor.scaled(), room.scaled(), part.scaled());
    let t = base.plus(part).scaled();
    law_sum_bounds(base, part);
    lemma_units(base.plus(part));
    lemma_miss_in_parts(q * most - h * u, q, most, 1);
    lemma_miss(f - (u - q), f, 1);
    lemma_miss(g - (u - b), g, 1);
    lemma_miss_in_parts(m * u - g * f, m, u, 1);
    lemma_sum_of_two(t, b, m);
    lemma_threshold_errors(b, most, h, (q, f, g, m), t);
}

/// The rounded sum of two numbers between zero and one.
proof fn lemma_sum_of_two(sum: int, a: int, b: int)
    requires
        0 <= a <= one_in_units(),
        0 <= b <= one_in_units(),
        2 * FRACTION_SPAN * size(sum - (a + b)) <= size(sum) + FRACTION_SPAN,
    ensures
        -(2 * epsilon()) <= sum - (a + b) <= 2 * epsilon(),
        size(sum) <= 3 * one_in_units(),
{
    lemma_epsilon();
    let (u, e, span) = (one_in_units(), epsilon(), FRACTION_SPAN as int);
    let m = size(sum - (a + b));
    assert(size(sum) <= m + 2 * u);
    assert(m <= 2 * e) by (nonlinear_arith)
        requires
            2 * span * m <= m + 2 * u + span,
            u == span * e,
            e >= span,
            span >= 2,
            m >= 0,
    ;
    assert(2 * e <= u) by (nonlinear_arith)
        requires
            u == span * e,
            span >= 2,
            e > 0,
    ;
}

proof fn lemma_threshold_errors(b: int, most: int, h: int, steps: (int, int, int, int), t: int)
    requires
        most > 0,
        0 <= b <= one_in_units(),
        0 <= steps.1 <= one_in_units(),
        -(epsilon() * most) <= steps.0 * most - h * one_in_units() <= epsilon() * most,
        -epsilon() <= steps.1 - (one_in_units() - steps.0) <= epsilon(),
        -epsilon() <= steps.2 - (one_in_units() - b) <= epsilon(),
        -(epsilon() * one_in_units()) <= steps.3 * one_in_units() - steps.2 * steps.1
            <= epsilon() * one_in_units(),
        -(2 * epsilon()) <= t - (b + steps.3) <= 2 * epsilon(),
    ensures
        size(t * most - (b * most + (one_in_units() - b) * (most - h))) <= 8 * (epsilon() * most),
{
    lemma_one();
    lemma_epsilon();
    let (u, e) = (one_in_units(), epsilon());
    let (q, f, g, m) = steps;
    let r = u - b;
    let (a, k, c, d, s) = (
        t - (b + m),
        m * u - g * f,
        g - r,
        f - (u - q),
        q * most - h * u,
    );
    let off = t * most - (b * most + r * (most - h));
    let um = u * most;
    let eum = e * um;
    // `off * u` is the sum of five errors.
    let (mf, mr) = (most * f, most * r);
    assert(um * a == (t * most) * u - (b * most) * u - most * (m * u)) by (nonlinear_arith)
        requires
            a == t - (b + m),
            um == u * most,
    ;
    assert(most * k == most * (m * u) - most * (g * f)) by (nonlinear_arith)
        requires
            k == m * u - g * f,
    ;
    assert(mf * c == most * (g * f) - mr * f) by (nonlinear_arith)
        requires
            c == g - r,
            mf == most * f,
            mr == most * r,
    ;
    assert(mr * d == mr * f - mr * u + r * (q * most)) by (nonlinear_arith)
        requires
            d == f - (u - q),
            mr == most * r,
    ;
    assert(r * s == r * (q * most) - r * (h * u)) by (nonlinear_arith)
        requires
            s == q * most - h * u,
    ;
    assert(off * u == (t * most) * u - (b * most) * u - mr * u + r * (h * u)) by (nonlinear_arith)
        requires
            off == t * most - (b * most + r * (most - h)),
            mr == most * r,
    ;
    assert(off * u == um * a + most * k + mf * c + mr * d - r * s);
    assert(um > 0) by (nonlinear_arith)
        requires
            um == u * most,
            u > 0,
            most > 0,
    ;
    assert(-(2 * eum) <= um * a <= 2 * eum) by (nonlinear_arith)
        requires
            -(2 * e) <= a <= 2 * e,
            um > 0,
            eum == e * um,
    ;
    assert(-eum <= most * k <= eum) by (nonlinear_arith)
        requires
            -(e * u) <= k <= e * u,
            most > 0,
            um == u * most,
            eum == e * um,
    ;
    assert(0 <= mf <= um && 0 <= mr <= um) by (nonlinear_arith)
        requires
            mf == most * f,
            mr == most * r,
            0 <= f <= u,
            0 <= r <= u,
            um == u * most,
            most > 0,
    ;
    assert(-eum <= mf * c <= eum) by (nonlinear_arith)
        requires
            -e <= c <= e,
            0 <= mf <= um,
            eum == e * um,
    ;
    assert(-eum <= mr * d <= eum) by (nonlinear_arith)
        requires
            -e <= d <= e,
            0 <= mr <= um,
            eum == e * um,
    ;
    assert(-eum <= r * s <= eum) by (nonlinear_arith)
        requires
            -(e * most) <= s <= e * most,
            0 <= r <= u,
            um == u * most,
            eum == e * um,
            e > 0,
            most > 0,
    ;
    let em = e * most;
    assert(eum == em * u) by (nonlinear_arith)
        requires
            eum == e * um,
            um == u * most,
            em == e * most,
    ;
    assert(em > 0) by (nonlinear_arith)
        requires
            em == e * most,
            e > 0,
            most > 0,
    ;
    assert(-(8 * em) <= off <= 8 * em) by (nonlinear_arith)
        requires
            -(6 * (em * u)) <= off * u <= 6 * (em * u),
            u > 0,
            em > 0,
    ;
}

/// A position needs the base value, and once more its share of the capital:
/// `base * (1 + size / capital)`, up to rounding.
pub proof fn law_required_value_grows_with_the_share(
    config: GrindingConfig,
    position: Binary64,
    capital: Binary64,
)
    requires
        config.base_min_ev_pct.finite(),
        config.base_min_ev_pct.nonnegative(),
        position.nonnegative(),
        position.at_most(capital),
        capital.finite(),
        capital.positive(),
        config.min_ev(position, capital).finite(),
    ensures
        ({
            let (b, p, c) = (config.base_min_ev_pct.scaled(), position.scaled(), capital.scaled());
            let r = config.min_ev(position, capital).scaled();
            FRACTION_SPAN * size(r * c - b * (c + p)) <= c * (6 * b + FRACTION_SPAN)
        }),
{
    lemma_one();
    lemma_zero_and_one();
    lemma_epsilon();
    let base = config.base_min_ev_pct;
    lemma_finite_between(position, capital);
    law_quotient_bounds(position, capital);
    let share = position.over(capital);
    lemma_units_in_unit_range(share);
    lemma_sum_of_unit_range_is_finite(one_value(), share);
    let factor = one_value().plus(share);
    law_sum_bounds(one_value(), share);
    lemma_units(position);
    lemma_units(capital);
    lemma_units(share);
    lemma_units(factor);
    lemma_units(base);
    law_product_bounds(base, factor);
    lemma_units(base.times(factor));
    lemma_quotient_error(position, capital);
    lemma_sum_error(one_value(), share);
    lemma_product_error(base, factor);
    let (u, e, span) = (one_in_units(), epsilon(), FRACTION_SPAN as int);
    let (b, p, c) = (base.scaled(), position.scaled(), capital.scaled());
    let (q, k, r) = (share.scaled(), factor.scaled(), base.times(factor).scaled());
    lemma_miss_in_parts(q * c - p * u, q, c, 1);
    lemma_sum_of_two(k, u, q);
    // The factor, times the capital.
    let ec = e * c;
    let x = k * c - u * (c + p);
    let (s, d) = (q * c - p * u, k - (u + q));
    assert(x == d * c + s) by (nonlinear_arith)
        requires
            x == k * c - u * (c + p),
            s == q * c - p * u,
            d == k - (u + q),
    ;
    assert(-(2 * ec) <= d * c <= 2 * ec) by (nonlinear_arith)
        requires
            -(2 * e) <= d <= 2 * e,
            c > 0,
            ec == e * c,
    ;
    let y = r * u - b * k;
    let my = size(y);
    let bk = b * k;
    let bu = b * u;
    assert(0 <= bk <= 3 * bu && bu >= 0) by (nonlinear_arith)
        requires
            bk == b * k,
            bu == b * u,
            0 <= k <= 3 * u,
            b >= 0,
            u > 0,
    ;
    let su = span * u;
    assert(span * my <= bk + su) by (nonlinear_arith)
        requires
            2 * span * my <= r * u + su,
            r * u <= bk + my,
            my >= 0,
            bk >= 0,
            span >= 2,
            su > 0,
    ;
    let total = r * c - b * (c + p);
    let (cy, bx) = (c * y, b * x);
    assert(total * u == cy + bx) by (nonlinear_arith)
        requires
            total == r * c - b * (c + p),
            cy == c * y,
            bx == b * x,
            y == r * u - b * k,
            x == k * c - u * (c + p),
    ;
    let cbu = c * bu;
    assert(-(3 * cbu + c * su) <= span * cy <= 3 * cbu + c * su) by (nonlinear_arith)
        requires
            span * my <= 3 * bu + su,
            -my <= y <= my,
            cy == c * y,
            cbu == c * bu,
            c > 0,
            span > 0,
    ;
    assert(-(3 * cbu) <= span * bx <= 3 * cbu) by (nonlinear_arith)
        requires
            -(3 * ec) <= x <= 3 * ec,
            ec == e * c,
            bx == b * x,
            cbu == c * bu,
            bu == b * u,
            u == span * e,
            b >= 0,
            span > 0,
    ;
    let most = c * (6 * b + span);
    assert(6 * cbu + c * su == most * u) by (nonlinear_arith)
        requires
            cbu == c * bu,
            bu == b * u,
            su == span * u,
            most == c * (6 * b + span),
    ;
    let tu = total * u;
    assert(span * tu == span * cy + span * bx) by (nonlinear_arith)
        requires
            tu == cy + bx,
    ;
    assert(-most <= span * total <= most) by (nonlinear_arith)
        requires
            -(most * u) <= span * tu <= most * u,
            tu == total * u,
            u > 0,
    ;
    let mt = size(total);
    assert(span * mt <= most) by (nonlinear_arith)
        requires
            -most <= span * total <= most,
            mt == total || mt == -total,
    ;
}

// ---------------------------------------------------------------------------
// Fees
// ---------------------------------------------------------------------------

/// Seven hundredths.
proof fn lemma_seven_hundredths()
    ensures
        Binary64::of_bits(D_0_07).in_unit_range(),
        Binary64::of_bits(D_0_07).finite(),
        size(100 * Binary64::of_bits(D_0_07).scaled() - 7 * one_in_units()) <= 100 * epsilon(),
        100 * Binary64::of_bits(D_0_07).scaled() <= 8 * one_in_units(),
{
    lemma_one();
    lemma_epsilon();
    lemma_pattern_value(0x11_EB85_1EB8_51EC, 1018);
    assert(pattern(0x11_EB85_1EB8_51EC, 1018) == D_0_07);
    lemma2_to64();
    lemma2_to64_rest();
    lemma_pow2_adds(4, 1018);
    lemma_pow2_adds(56, 1018);
    lemma_pow2_pos(1018);
    lemma_units(Binary64::of_bits(D_0_07));
}

/// The Kalshi fee is seven hundredths of the price times what the price leaves to a dollar:
/// `0.07 * P * (1 - P)`, up to rounding. So both sides of a market pay the same fee.
pub proof fn law_kalshi_fee_is_a_parabola(cents: PriceCents)
    requires
        cents <= 100,
    ensures
        kalshi_fee(cents).finite(),
        size(1_000_000 * kalshi_fee(cents).scaled() - 7 * cents * (100 - cents) * one_in_units())
            <= 4_000_000 * epsilon(),
        size(kalshi_fee(cents).scaled() - kalshi_fee((100 - cents) as u16).scaled())
            <= 8 * epsilon(),
{
    lemma_one();
    lemma_epsilon();
    lemma_fee(cents as int);
    lemma_fee(100 - cents);
    let n = cents as int;
    assert(7 * (100 - n) * (100 - (100 - n)) == 7 * n * (100 - n)) by (nonlinear_arith);
}

proof fn lemma_fee(n: int)
    requires
        0 <= n <= 100,
    ensures
        kalshi_fee(n as u16).finite(),
        size(1_000_000 * kalshi_fee(n as u16).scaled() - 7 * n * (100 - n) * one_in_units())
            <= 4_000_000 * epsilon(),
{
    lemma_one();
    lemma_epsilon();
    if n == 0 || n == 100 {
        assert(7 * n * (100 - n) * one_in_units() == 0) by (nonlinear_arith)
            requires
                n == 0 || n == 100,
        ;
    } else {
        let (rate, price) = (Binary64::of_bits(D_0_07), price_of_cents(n));
        lemma_seven_hundredths();
        law_cents_are_hundredths(n);
        law_unit_difference_bounds(one_value(), price);
        let rest = one_value().minus(price);
        lemma_product_in_unit_range(rate, price);
        let part = rate.times(price);
        lemma_product_in_unit_range(part, rest);
        let fee = part.times(rest);
        lemma_units_in_unit_range(rate);
        lemma_units_in_unit_range(price);
        lemma_units_in_unit_range(rest);
        lemma_units_in_unit_range(part);
        lemma_units_in_unit_range(fee);
        lemma_units(rate);
        lemma_units(price);
        lemma_units(rest);
        lemma_units(part);
        lemma_units(fee);
        lemma_difference_error(one_value(), price);
        lemma_product_error(rate, price);
        lemma_product_error(part, rest);
        let (u, e, span) = (one_in_units(), epsilon(), FRACTION_SPAN as int);
        let (c, p, a, m, f) = (
            rate.scaled(),
            price.scaled(),
            rest.scaled(),
            part.scaled(),
            fee.scaled(),
        );
        lemma_miss(a - (u - p), a, 1);
        lemma_miss_in_parts(m * u - c * p, m, u, 1);
        lemma_miss_in_parts(f * u - m * a, f, u, 1);
        let nu = n * u;
        let p1 = 100 * p - nu;
        assert(-(101 * e) <= p1 <= 101 * e) by (nonlinear_arith)
            requires
                span * size(p1) <= nu + 100 * span,
                size(p1) == (if p1 < 0 {
                    -p1
                } else {
                    p1
                }),
                nu == n * u,
                n <= 99,
                u == span * e,
                e >= span,
                span >= 100,
        ;
        lemma_fee_errors(n, c, p, a, m, f);
    }
}

proof fn lemma_fee_errors(n: int, c: int, p: int, a: int, m: int, f: int)
    requires
        0 < n < 100,
        0 <= a <= one_in_units(),
        0 <= p <= one_in_units(),
        -(100 * epsilon()) <= 100 * c - 7 * one_in_units() <= 100 * epsilon(),
        -(101 * epsilon()) <= 100 * p - n * one_in_units() <= 101 * epsilon(),
        -epsilon() <= a - (one_in_units() - p) <= epsilon(),
        -(epsilon() * one_in_units()) <= m * one_in_units() - c * p <= epsilon() * one_in_units(),
        -(epsilon() * one_in_units()) <= f * one_in_units() - m * a <= epsilon() * one_in_units(),
    ensures
        size(1_000_000 * f - 7 * n * (100 - n) * one_in_units()) <= 4_000_000 * epsilon(),
{
    lemma_one();
    lemma_epsilon();
    let (u, e) = (one_in_units(), epsilon());
    let k = 100 - n;
    let (nu, ku) = (n * u, k * u);
    let (c1, p1, a1) = (100 * c - 7 * u, 100 * p - nu, 100 * a - ku);
    assert(ku == 100 * u - nu) by (nonlinear_arith)
        requires
            ku == k * u,
            nu == n * u,
            k == 100 - n,
    ;
    assert(-(201 * e) <= a1 <= 201 * e);
    assert(0 < nu <= 100 * u && 0 < ku <= 100 * u) by (nonlinear_arith)
        requires
            nu == n * u,
            ku == k * u,
            0 < n < 100,
            0 < k < 100,
            u > 0,
    ;
    let uu = u * u;
    let euu = e * uu;
    let (s, t) = (f * u - m * a, m * u - c * p);
    // The product of the three factors, each a hundred times as large.
    let (y, z) = (100 * p, 100 * a);
    let (yz, xz) = (y * z, 7 * u);
    assert(0 <= yz <= 10_000 * uu) by (nonlinear_arith)
        requires
            yz == y * z,
            0 <= y <= 100 * u,
            0 <= z <= 100 * u,
            uu == u * u,
    ;
    assert(-(1_000_000 * euu) <= c1 * yz <= 1_000_000 * euu) by (nonlinear_arith)
        requires
            -(100 * e) <= c1 <= 100 * e,
            0 <= yz <= 10_000 * uu,
            euu == e * uu,
    ;
    let uz = u * z;
    assert(0 <= uz <= 100 * uu) by (nonlinear_arith)
        requires
            uz == u * z,
            0 <= z <= 100 * u,
            uu == u * u,
            u > 0,
    ;
    assert(-(10_100 * euu) <= p1 * uz <= 10_100 * euu) by (nonlinear_arith)
        requires
            -(101 * e) <= p1 <= 101 * e,
            0 <= uz <= 100 * uu,
            euu == e * uu,
    ;
    let unu = u * nu;
    assert(0 <= unu <= 100 * uu) by (nonlinear_arith)
        requires
            unu == u * nu,
            0 <= nu <= 100 * u,
            uu == u * u,
            u > 0,
    ;
    assert(-(20_100 * euu) <= a1 * unu <= 20_100 * euu) by (nonlinear_arith)
        requires
            -(201 * e) <= a1 <= 201 * e,
            0 <= unu <= 100 * uu,
            euu == e * uu,
    ;
    let cyz = (100 * c) * yz;
    let ideal = 7 * (unu * ku);
    assert(cyz == c1 * yz + 7 * (u * yz)) by (nonlinear_arith)
        requires
            cyz == (100 * c) * yz,
            c1 == 100 * c - 7 * u,
    ;
    assert(u * yz == p1 * uz + nu * uz) by (nonlinear_arith)
        requires
            yz == y * z,
            uz == u * z,
            y == p1 + nu,
    ;
    assert(nu * uz == a1 * unu + unu * ku) by (nonlinear_arith)
        requires
            uz == u * z,
            unu == u * nu,
            z == a1 + ku,
    ;
    assert(cyz == ideal + c1 * yz + 7 * (p1 * uz) + 7 * (a1 * unu));
    // The fee itself.
    let ta = t * a;
    assert(-euu <= ta <= euu && -euu <= s * u <= euu) by (nonlinear_arith)
        requires
            ta == t * a,
            -(e * u) <= t <= e * u,
            -(e * u) <= s <= e * u,
            0 <= a <= u,
            uu == u * u,
            euu == e * uu,
            e > 0,
            u > 0,
    ;
    let fuu = f * uu;
    assert(fuu == s * u + (m * a) * u) by (nonlinear_arith)
        requires
            fuu == f * uu,
            uu == u * u,
            s == f * u - m * a,
    ;
    assert((m * a) * u == ta + (c * p) * a) by (nonlinear_arith)
        requires
            ta == t * a,
            t == m * u - c * p,
    ;
    assert(1_000_000 * ((c * p) * a) == cyz) by (nonlinear_arith)
        requires
            cyz == (100 * c) * yz,
            yz == y * z,
            y == 100 * p,
            z == 100 * a,
    ;
    let w = 7 * n * (100 - n) * u;
    assert(ideal == w * uu) by (nonlinear_arith)
        requires
            ideal == 7 * (unu * ku),
            unu == u * nu,
            nu == n * u,
            ku == k * u,
            k == 100 - n,
            uu == u * u,
            w == 7 * n * (100 - n) * u,
    ;
    let d = 1_000_000 * f - w;
    assert(d * uu == 1_000_000 * fuu - ideal) by (nonlinear_arith)
        requires
            d == 1_000_000 * f - w,
            fuu == f * uu,
            ideal == w * uu,
    ;
    assert(uu > 0) by (nonlinear_arith)
        requires
            uu == u * u,
            u > 0,
    ;
    assert(-(4_000_000 * e) <= d <= 4_000_000 * e) by (nonlinear_arith)
        requires
            -(4_000_000 * (e * uu)) <= d * uu <= 4_000_000 * (e * uu),
            uu > 0,
    ;
}

// ---------------------------------------------------------------------------
// Expected values
// ---------------------------------------------------------------------------

/// The expected value per dollar: with the probability `p` a contract at the price `P` earns what
/// the price leaves to a dollar, less the fee, and otherwise it loses the price. The value is
/// `(p * (1 - P) * (1 - fee) - (1 - p) * P) / P`, up to `1e-9`, for prices of a cent or more.
pub proof fn law_value_is_gain_less_loss(p: Binary64, price: Binary64, fee: Binary64)
    requires
        p.in_unit_range(),
        fee.in_unit_range(),
        strictly_between(price),
        one_in_units() <= 100 * price.scaled(),
    ensures
        ({
            let (u, v) = (one_in_units(), expected(p, price, fee).scaled());
            let (x, c, f) = (p.scaled(), price.scaled(), fee.scaled());
            &&& expected(p, price, fee).finite()
            &&& 1_000_000_000 * size(
                (v * c) * u - ((x * (u - c)) * (u - f) - ((u - x) * c) * u),
            ) <= (c * u) * u
        }),
{
    lemma_one();
    lemma_zero_and_one();
    lemma_epsilon();
    lemma_units_in_unit_range(p);
    lemma_units_in_unit_range(price);
    lemma_units_in_unit_range(fee);
    law_unit_difference_bounds(one_value(), price);
    law_unit_difference_bounds(one_value(), fee);
    law_unit_difference_bounds(one_value(), p);
    let (rest, kept, other) = (
        one_value().minus(price),
        one_value().minus(fee),
        one_value().minus(p),
    );
    lemma_product_in_unit_range(rest, kept);
    let profit = rest.times(kept);
    lemma_product_in_unit_range(p, profit);
    lemma_product_in_unit_range(other, price);
    let (gain, loss) = (p.times(profit), other.times(price));
    law_unit_difference_bounds(gain, loss);
    let net = gain.minus(loss);
    lemma_units_in_unit_range(rest);
    lemma_units_in_unit_range(kept);
    lemma_units_in_unit_range(other);
    lemma_units_in_unit_range(profit);
    lemma_units(p);
    lemma_units(price);
    lemma_units(fee);
    lemma_units(rest);
    lemma_units(kept);
    lemma_units(other);
    lemma_units(profit);
    lemma_units(gain);
    lemma_units(loss);
    lemma_units(net);
    lemma_quotient_up_to_a_hundred(net, price);
    lemma_difference_error(one_value(), price);
    lemma_difference_error(one_value(), fee);
    lemma_difference_error(one_value(), p);
    lemma_product_error(rest, kept);
    lemma_product_error(p, profit);
    lemma_product_error(other, price);
    lemma_difference_error(gain, loss);
    lemma_quotient_error(net, price);
    let (u, e, span) = (one_in_units(), epsilon(), FRACTION_SPAN as int);
    let (x, c, f) = (p.scaled(), price.scaled(), fee.scaled());
    let (a, k, q, w) = (rest.scaled(), kept.scaled(), other.scaled(), profit.scaled());
    let (g, l, n, v) = (gain.scaled(), loss.scaled(), net.scaled(), net.over(price).scaled());
    lemma_miss(a - (u - c), a, 1);
    lemma_miss(k - (u - f), k, 1);
    lemma_miss(q - (u - x), q, 1);
    lemma_miss_in_parts(w * u - a * k, w, u, 1);
    lemma_miss_in_parts(g * u - x * w, g, u, 1);
    lemma_miss_in_parts(l * u - q * c, l, u, 1);
    lemma_miss(n - (g - l), n, 1);
    lemma_miss_in_parts(v * c - n * u, v, c, 100);
    let ideal = (x * (u - c)) * (u - f) - ((u - x) * c) * u;
    lemma_net_errors(x, c, f, (a, k, q, w), (g, l, n), ideal);
    // The quotient by the price.
    let uu = u * u;
    let s = v * c - n * u;
    let off = (v * c) * u - ideal;
    assert(off == s * u + (n * uu - ideal)) by (nonlinear_arith)
        requires
            off == (v * c) * u - ideal,
            s == v * c - n * u,
            uu == u * u,
    ;
    let ecu = e * (c * u);
    assert(-(100 * ecu) <= s * u <= 100 * ecu) by (nonlinear_arith)
        requires
            -(100 * (e * c)) <= s <= 100 * (e * c),
            u > 0,
            ecu == e * (c * u),
    ;
    assert(e * uu <= 100 * ecu) by (nonlinear_arith)
        requires
            uu == u * u,
            u <= 100 * c,
            u > 0,
            e > 0,
            ecu == e * (c * u),
    ;
    assert(-(1000 * ecu) <= off <= 1000 * ecu);
    assert((c * u) * u == span * ecu) by (nonlinear_arith)
        requires
            u == span * e,
            ecu == e * (c * u),
    ;
    assert(ecu > 0) by (nonlinear_arith)
        requires
            ecu == e * (c * u),
            e > 0,
            c > 0,
            u > 0,
    ;
    assert(1_000_000_000 * size(off) <= span * ecu);
}

proof fn lemma_net_errors(
    x: int,
    c: int,
    f: int,
    parts: (int, int, int, int),
    sums: (int, int, int),
    ideal: int,
)
    requires
        0 <= x <= one_in_units(),
        0 <= c <= one_in_units(),
        0 <= parts.1 <= one_in_units(),
        -epsilon() <= parts.0 - (one_in_units() - c) <= epsilon(),
        -epsilon() <= parts.1 - (one_in_units() - f) <= epsilon(),
        -epsilon() <= parts.2 - (one_in_units() - x) <= epsilon(),
        -(epsilon() * one_in_units()) <= parts.3 * one_in_units() - parts.0 * parts.1
            <= epsilon() * one_in_units(),
        -(epsilon() * one_in_units()) <= sums.0 * one_in_units() - x * parts.3 <= epsilon()
            * one_in_units(),
        -(epsilon() * one_in_units()) <= sums.1 * one_in_units() - parts.2 * c <= epsilon()
            * one_in_units(),
        -epsilon() <= sums.2 - (sums.0 - sums.1) <= epsilon(),
        ideal == (x * (one_in_units() - c)) * (one_in_units() - f) - ((one_in_units() - x) * c)
            * one_in_units(),
    ensures
        ({
            let (uu, e) = (one_in_units() * one_in_units(), epsilon());
            -(8 * (e * uu)) <= sums.2 * uu - ideal <= 8 * (e * uu)
        }),
{
    lemma_one();
    lemma_epsilon();
    let (u, e) = (one_in_units(), epsilon());
    let (a, k, q, w) = parts;
    let (g, l, n) = sums;
    let uu = u * u;
    let euu = e * uu;
    let (a0, k0, q0) = (u - c, u - f, u - x);
    let (ea, ek, eq) = (a - a0, k - k0, q - q0);
    let (ew, eg, el, en) = (w * u - a * k, g * u - x * w, l * u - q * c, n - (g - l));
    assert(uu > 0) by (nonlinear_arith)
        requires
            uu == u * u,
            u > 0,
    ;
    // The gain.
    let guu = g * uu;
    assert(guu == eg * u + x * (w * u)) by (nonlinear_arith)
        requires
            guu == g * uu,
            uu == u * u,
            eg == g * u - x * w,
    ;
    let xk = x * k;
    assert(x * (w * u) == x * ew + xk * a) by (nonlinear_arith)
        requires
            ew == w * u - a * k,
            xk == x * k,
    ;
    let xa = x * a0;
    assert(xk * a == xk * ea + xa * k) by (nonlinear_arith)
        requires
            ea == a - a0,
            xk == x * k,
            xa == x * a0,
    ;
    assert(xa * k == xa * ek + xa * k0) by (nonlinear_arith)
        requires
            ek == k - k0,
    ;
    assert(0 <= xk <= uu && 0 <= xa <= uu) by (nonlinear_arith)
        requires
            xk == x * k,
            xa == x * a0,
            0 <= x <= u,
            0 <= k <= u,
            0 <= a0 <= u,
            uu == u * u,
    ;
    assert(-euu <= eg * u <= euu && -euu <= x * ew <= euu) by (nonlinear_arith)
        requires
            -(e * u) <= eg <= e * u,
            -(e * u) <= ew <= e * u,
            0 <= x <= u,
            uu == u * u,
            euu == e * uu,
            e > 0,
            u > 0,
    ;
    assert(-euu <= xk * ea <= euu && -euu <= xa * ek <= euu) by (nonlinear_arith)
        requires
            -e <= ea <= e,
            -e <= ek <= e,
            0 <= xk <= uu,
            0 <= xa <= uu,
            euu == e * uu,
    ;
    // The loss.
    let luu = l * uu;
    assert(luu == el * u + (q * c) * u) by (nonlinear_arith)
        requires
            luu == l * uu,
            uu == u * u,
            el == l * u - q * c,
    ;
    let cu = c * u;
    assert((q * c) * u == eq * cu + (q0 * c) * u) by (nonlinear_arith)
        requires
            eq == q - q0,
            cu == c * u,
    ;
    assert(0 <= cu <= uu) by (nonlinear_arith)
        requires
            cu == c * u,
            0 <= c <= u,
            uu == u * u,
            u > 0,
    ;
    assert(-euu <= el * u <= euu && -euu <= eq * cu <= euu && -euu <= en * uu <= euu)
        by (nonlinear_arith)
        requires
            -(e * u) <= el <= e * u,
            -e <= eq <= e,
            -e <= en <= e,
            0 <= cu <= uu,
            uu == u * u,
            euu == e * uu,
            e > 0,
            u > 0,
            uu > 0,
    ;
    assert(n * uu == en * uu + guu - luu) by (nonlinear_arith)
        requires
            en == n - (g - l),
            guu == g * uu,
            luu == l * uu,
    ;
    assert(ideal == xa * k0 - (q0 * c) * u);
}

// ---------------------------------------------------------------------------
// The Kelly fraction
// ---------------------------------------------------------------------------

/// The Kelly fraction is the edge over what the price leaves to a dollar: `(p - P) / (1 - P)`, up
/// to rounding, for prices of a cent or more that leave a cent or more.
pub proof fn law_kelly_fraction_is_the_edge_over_the_rest(p: Binary64, price: Binary64)
    requires
        strictly_between(p),
        strictly_between(price),
        one_in_units() <= 100 * price.scaled(),
        one_in_units() <= 99 * (one_in_units() - price.scaled()),
    ensures
        ({
            let (u, f) = (one_in_units(), kelly_fraction(p, price).scaled());
            let (x, c) = (p.scaled(), price.scaled());
            &&& kelly_fraction(p, price).finite()
            &&& size(f * (u - c) - (x - c) * u) <= 20_000 * (epsilon() * u)
        }),
{
    lemma_one();
    lemma_zero_and_one();
    lemma_epsilon();
    lemma_units_in_unit_range(p);
    lemma_units_in_unit_range(price);
    law_unit_difference_bounds(one_value(), price);
    law_unit_difference_bounds(one_value(), p);
    let (rest, other) = (one_value().minus(price), one_value().minus(p));
    lemma_units_in_unit_range(rest);
    lemma_units_in_unit_range(other);
    lemma_units(p);
    lemma_units(price);
    lemma_units(rest);
    lemma_units(other);
    lemma_difference_error(one_value(), price);
    lemma_difference_error(one_value(), p);
    lemma_quotient_up_to_a_hundred(rest, price);
    lemma_quotient_error(rest, price);
    let b = odds(price);
    law_quotient_bounds(rest, price);
    lemma_units(b);
    let (u, e, span) = (one_in_units(), epsilon(), FRACTION_SPAN as int);
    let (x, c, a, q, o) = (p.scaled(), price.scaled(), rest.scaled(), other.scaled(), b.scaled());
    lemma_miss(a - (u - c), a, 1);
    lemma_miss(q - (u - x), q, 1);
    lemma_miss_in_parts(o * c - a * u, o, c, 100);
    assert(u <= 100 * o) by (nonlinear_arith)
        requires
            o * c - a * u >= -(100 * (e * c)),
            u <= 99 * (u - c),
            a - (u - c) >= -e,
            u == span * e,
            span >= 1_000_000_000_000,
            0 < c < u,
            e > 0,
    ;
    assert(0 <= x * o <= 100 * u * u) by (nonlinear_arith)
        requires
            0 <= x <= u,
            0 <= o <= 100 * u,
    ;
    lemma_product_up_to_a_hundred(p, b);
    law_product_bounds(p, b);
    lemma_product_error(p, b);
    let part = p.times(b);
    lemma_units(part);
    let m = part.scaled();
    lemma_miss_in_parts(m * u - x * o, m, u, 100);
    lemma_order_of_products(part, b);
    let net = part.minus(other);
    lemma_net_is_finite(part, other);
    lemma_difference_error(part, other);
    lemma_units(net);
    let n = net.scaled();
    assert(b.positive());
    lemma_miss(n - (m - q), n, 100);
    assert(size(n) <= 100 * o);
    lemma_quotient_up_to_a_hundred(net, b);
    lemma_quotient_error(net, b);
    let f = net.over(b).scaled();
    lemma_miss_in_parts(f * o - n * u, f, o, 100);
    lemma_fraction_errors(x, c, (a, q, o), (m, n, f));
}

/// A product with a probability is no larger than the other factor.
proof fn lemma_order_of_products(part: Binary64, b: Binary64)
    requires
        part.magnitude() <= b.magnitude(),
        part.nonnegative(),
        b.nonnegative(),
    ensures
        part.scaled() <= b.scaled(),
{
    lemma_units(part);
    lemma_units(b);
    crate::binary64::ranges::lemma_order_of_patterns(part.magnitude(), b.magnitude());
}

/// The difference of two numbers that are not negative is no larger than the larger of them.
proof fn lemma_net_is_finite(a: Binary64, b: Binary64)
    requires
        a.finite(),
        b.finite(),
        a.nonnegative(),
        b.nonnegative(),
    ensures
        a.minus(b).finite(),
        size(a.minus(b).scaled()) <= a.scaled() || size(a.minus(b).scaled()) <= b.scaled(),
{
    lemma_units(a);
    lemma_units(b);
    crate::binary64::arithmetic::lemma_minus_mirrors(a, b);
    if b.at_most(a) {
        crate::binary64::ranges::law_difference_bounds(a, b);
    } else {
        crate::binary64::ranges::law_difference_bounds(b, a);
    }
    lemma_units(a.minus(b));
    lemma_units(b.minus(a));
}

proof fn lemma_fraction_errors(x: int, c: int, parts: (int, int, int), steps: (int, int, int))
    requires
        0 <= x <= one_in_units(),
        0 < c <= one_in_units(),
        0 <= parts.0 <= one_in_units(),
        0 < parts.2 <= 100 * one_in_units(),
        size(steps.2) <= 100 * one_in_units(),
        -epsilon() <= parts.0 - (one_in_units() - c) <= epsilon(),
        -epsilon() <= parts.1 - (one_in_units() - x) <= epsilon(),
        -(100 * (epsilon() * c)) <= parts.2 * c - parts.0 * one_in_units() <= 100 * (epsilon()
            * c),
        -(100 * (epsilon() * one_in_units())) <= steps.0 * one_in_units() - x * parts.2 <= 100 * (
        epsilon() * one_in_units()),
        -(100 * epsilon()) <= steps.1 - (steps.0 - parts.1) <= 100 * epsilon(),
        -(100 * (epsilon() * parts.2)) <= steps.2 * parts.2 - steps.1 * one_in_units() <= 100 * (
        epsilon() * parts.2),
    ensures
        size(steps.2 * (one_in_units() - c) - (x - c) * one_in_units()) <= 20_000 * (epsilon()
            * one_in_units()),
{
    lemma_one();
    lemma_epsilon();
    let (u, e, span) = (one_in_units(), epsilon(), FRACTION_SPAN as int);
    let (a, q, o) = parts;
    let (m, n, f) = steps;
    let (e1, e2, e3, e4, e5, e6) = (
        o * c - a * u,
        m * u - x * o,
        q - (u - x),
        a - (u - c),
        n - (m - q),
        f * o - n * u,
    );
    let uu = u * u;
    let eu = e * u;
    let euu = e * uu;
    // The odds times the price.
    let oc = o * c;
    assert(0 <= oc <= 2 * uu) by (nonlinear_arith)
        requires
            oc == o * c,
            oc - a * u <= 100 * (e * c),
            0 <= a <= u,
            0 < c <= u,
            o > 0,
            u == span * e,
            span >= 100,
            e > 0,
            uu == u * u,
    ;
    // `f * a * u`, in terms of the errors.
    let fau = (f * a) * u;
    assert(fau == c * (f * o) - f * e1) by (nonlinear_arith)
        requires
            fau == (f * a) * u,
            e1 == o * c - a * u,
    ;
    assert(c * (f * o) == c * e6 + c * (n * u)) by (nonlinear_arith)
        requires
            e6 == f * o - n * u,
    ;
    assert(n * u == e5 * u + m * u - q * u) by (nonlinear_arith)
        requires
            e5 == n - (m - q),
    ;
    assert(m * u == e2 + x * o);
    let nu = n * u;
    assert(c * nu == c * (e5 * u) + c * e2 + x * oc - c * (q * u)) by (nonlinear_arith)
        requires
            nu == e5 * u + (e2 + x * o) - q * u,
            oc == o * c,
    ;
    assert(x * oc == x * e1 + x * (a * u)) by (nonlinear_arith)
        requires
            e1 == oc - a * u,
    ;
    assert(x * (a * u) == (x * e4) * u + (x * (u - c)) * u) by (nonlinear_arith)
        requires
            e4 == a - (u - c),
    ;
    assert(c * (q * u) == (c * e3) * u + (c * (u - x)) * u) by (nonlinear_arith)
        requires
            e3 == q - (u - x),
    ;
    assert((x * (u - c)) * u - (c * (u - x)) * u == (x - c) * uu) by (nonlinear_arith)
        requires
            uu == u * u,
    ;
    let sum = c * e6 - f * e1 + c * (e5 * u) + c * e2 + x * e1 + (x * e4) * u - (c * e3) * u;
    assert(fau == sum + (x - c) * uu);
    assert(-(200 * euu) <= c * e6 <= 200 * euu) by (nonlinear_arith)
        requires
            -(100 * (e * o)) <= e6 <= 100 * (e * o),
            oc == o * c,
            0 <= oc <= 2 * uu,
            c > 0,
            e > 0,
            euu == e * uu,
    ;
    assert(-(100 * eu) <= e1 <= 100 * eu) by (nonlinear_arith)
        requires
            -(100 * (e * c)) <= e1 <= 100 * (e * c),
            0 < c <= u,
            e > 0,
            eu == e * u,
    ;
    assert(euu == eu * u) by (nonlinear_arith)
        requires
            euu == e * uu,
            uu == u * u,
            eu == e * u,
    ;
    assert(-(10_000 * euu) <= f * e1 <= 10_000 * euu) by (nonlinear_arith)
        requires
            -(100 * eu) <= e1 <= 100 * eu,
            -(100 * u) <= f <= 100 * u,
            euu == eu * u,
            u > 0,
    ;
    assert(-(100 * euu) <= c * (e5 * u) <= 100 * euu) by (nonlinear_arith)
        requires
            -(100 * e) <= e5 <= 100 * e,
            0 < c <= u,
            u > 0,
            uu == u * u,
            euu == e * uu,
    ;
    assert(-(100 * euu) <= c * e2 <= 100 * euu && -(100 * euu) <= x * e1 <= 100 * euu)
        by (nonlinear_arith)
        requires
            -(100 * eu) <= e2 <= 100 * eu,
            -(100 * eu) <= e1 <= 100 * eu,
            0 <= x <= u,
            0 < c <= u,
            euu == eu * u,
            u > 0,
    ;
    assert(-euu <= (x * e4) * u <= euu && -euu <= (c * e3) * u <= euu) by (nonlinear_arith)
        requires
            -e <= e4 <= e,
            -e <= e3 <= e,
            0 <= x <= u,
            0 < c <= u,
            uu == u * u,
            euu == e * uu,
            u > 0,
    ;
    // What the price leaves to one in place of its rounded value.
    let fcu = (f * (u - c)) * u;
    assert(fcu == fau - (f * e4) * u) by (nonlinear_arith)
        requires
            fcu == (f * (u - c)) * u,
            fau == (f * a) * u,
            e4 == a - (u - c),
    ;
    assert(-(100 * euu) <= (f * e4) * u <= 100 * euu) by (nonlinear_arith)
        requires
            -e <= e4 <= e,
            -(100 * u) <= f <= 100 * u,
            uu == u * u,
            euu == e * uu,
            u > 0,
            e > 0,
    ;
    let off = f * (u - c) - (x - c) * u;
    assert(off * u == fcu - (x - c) * uu) by (nonlinear_arith)
        requires
            off == f * (u - c) - (x - c) * u,
            fcu == (f * (u - c)) * u,
            uu == u * u,
    ;
    assert(-(20_000 * eu) <= off <= 20_000 * eu) by (nonlinear_arith)
        requires
            -(20_000 * (eu * u)) <= off * u <= 20_000 * (eu * u),
            u > 0,
    ;
}

/// A position takes the Kelly fraction, times the multiplier and at most the largest share, of
/// the capital; where that is less than the smallest position, there is none.
pub proof fn law_a_position_is_a_share_of_the_capital(
    p: Binary64,
    price: Binary64,
    capital: Binary64,
    config: KellyConfig,
)
    requires
        strictly_between(p),
        strictly_between(price),
        capital.positive(),
        odds(price).positive(),
        kelly_fraction(p, price).positive(),
    ensures
        ({
            let wanted = kelly_fraction(p, price).times(config.kelly_multiplier);
            let most = config.max_position_pct;
            let position = kelly(p, price, capital, config);
            let cut = |share: Binary64|
                if capital.times(share).less(config.min_position_usd) {
                    zero_value()
                } else {
                    capital.times(share)
                };
            &&& wanted.at_most(most) ==> position == cut(wanted)
            &&& most.less(wanted) ==> position == cut(most)
        }),
{
    lemma_zero_and_one();
    lemma_one();
}

} // verus!
