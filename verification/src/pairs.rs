//! What a pair of opposite contracts costs, earns and pays. Numbers stand for their values in
//! units.
use crate::binary64::accuracy::{
    lemma_moderate_product, lemma_percentage, lemma_quotient_by_whole_number, lemma_size_of_product,
    lemma_two, lemma_whole_difference, lemma_whole_number,
};
use crate::binary64::arithmetic::one_in_units;
use crate::binary64::errors::{lemma_quotient_shrinks, size};
use crate::binary64::monotone::lemma_sum_keeps_bounds;
use crate::binary64::numbers::{D_100, D_2};
use crate::binary64::ranges::{
    law_quotient_bounds, law_sum_bounds, lemma_finite_between, lemma_hundred, lemma_one,
    lemma_units,
};
use crate::binary64::{Binary64, FRACTION_SPAN};
use crate::heartbeat::{middle, value_of_cost, BestArb, MarketTick};
use crate::market::{law_cents_are_hundredths, Quote};
use vstd::prelude::*;

verus! {

/// The best pair of a market buys both outcomes, one on each platform, at the prices that are
/// asked there, and pays the fee of the side that it buys on Kalshi. Neither way to buy both
/// outcomes costs less.
pub proof fn law_a_pair_buys_both_outcomes(best: BestArb, tick: MarketTick, now_secs: i64)
    requires
        best.is_of(tick),
    ensures
        best.cost == best.fee + (if best.is_poly_yes {
            best.poly_yes + best.kalshi_no
        } else {
            best.kalshi_yes + best.poly_no
        }),
        best.fee == (if best.is_poly_yes {
            tick.no_fee
        } else {
            tick.yes_fee
        }),
        best.poly_yes == tick.poly.yes_ask && best.poly_no == tick.poly.no_ask,
        best.kalshi_yes == tick.kalshi.yes_ask && best.kalshi_no == tick.kalshi.no_ask,
        best.cost <= tick.poly.yes_ask + tick.kalshi.no_ask + tick.no_fee,
        best.cost <= tick.kalshi.yes_ask + tick.poly.no_ask + tick.yes_fee,
        best.market_id == tick.market_id,
        best.shown(now_secs) == tick.opportunity(now_secs),
{
}

/// The probability that is shown of a pair is the price of its yes contract, a hundredth of a
/// dollar per cent, up to rounding, and its value is that of its cost.
pub proof fn law_a_pair_shows_the_price_of_its_yes_contract(best: BestArb, now_secs: i64)
    ensures
        ({
            let (u, o) = (one_in_units(), best.shown(now_secs));
            let yes = if best.is_poly_yes {
                best.poly_yes
            } else {
                best.kalshi_yes
            };
            &&& FRACTION_SPAN * size(100 * o.probability.scaled() - yes * u) <= yes * u + 100
                * FRACTION_SPAN
            &&& o.expected_value == value_of_cost(best.cost as int)
            &&& o.platform == (if best.is_poly_yes {
                "Poly→Kalshi"@
            } else {
                "Kalshi→Poly"@
            })
            &&& o.market_title == best.description@
            &&& o.timestamp == now_secs
        }),
{
    law_cents_are_hundredths(best.poly_yes as int);
    law_cents_are_hundredths(best.kalshi_yes as int);
}

/// The value of a pair in percent. One that costs less than a dollar earns what the cost leaves
/// to a dollar, per dollar of the cost: `100 * (100 - cost) / cost` for a cost in cents. One that
/// costs more loses what it costs above a dollar, per dollar. Both up to rounding.
pub proof fn law_value_of_a_pair_is_what_it_earns(cost: int)
    requires
        0 < cost <= u16::MAX,
    ensures
        ({
            let (u, span) = (one_in_units(), FRACTION_SPAN as int);
            let v = value_of_cost(cost).scaled();
            &&& value_of_cost(cost).finite()
            &&& cost < 100 ==> span * size(v * cost - 100 * ((100 - cost) * u)) <= 300 * ((100
                - cost) * u) + 200 * (span * cost)
            &&& cost >= 100 ==> span * size(v + (cost - 100) * u) <= 3 * ((cost - 100) * u) + 200
                * span
        }),
{
    let (u, span) = (one_in_units(), FRACTION_SPAN as int);
    lemma_one();
    lemma_hundred();
    let hundred = Binary64::of_bits(D_100);
    lemma_whole_number(cost);
    lemma_whole_number(100);
    lemma_units(hundred);
    let paid = Binary64::of_int(cost);
    lemma_units(paid);
    let d = if cost < 100 {
        100 - cost
    } else {
        cost - 100
    };
    assert(0 <= d * u <= 0x1_0000 * u) by (nonlinear_arith)
        requires
            0 <= d <= 0x1_0000,
            u > 0,
    ;
    if cost < 100 {
        lemma_whole_difference(100, cost);
        let part = hundred.minus(paid);
        lemma_units(part);
        assert(cost * u >= u) by (nonlinear_arith)
            requires
                cost >= 1,
                u > 0,
        ;
        lemma_quotient_shrinks(part, paid);
        let q = part.over(paid);
        lemma_units(q);
        lemma_finite_product(q, hundred, part);
        lemma_percentage(part, paid);
        let (x, v) = ((100 - cost) * u, value_of_cost(cost).scaled());
        lemma_divided(v, cost, x, u);
    } else {
        lemma_whole_difference(cost, 100);
        let part = paid.minus(hundred).negated();
        lemma_units(paid.minus(hundred));
        lemma_units(part);
        lemma_quotient_shrinks(part, hundred);
        let q = part.over(hundred);
        lemma_units(q);
        lemma_finite_product(q, hundred, part);
        lemma_percentage(part, hundred);
        let (x, v) = ((cost - 100) * u, value_of_cost(cost).scaled());
        assert(part.scaled() == -x);
        lemma_divided(v, 100, -x, u);
        assert(v * 100 - 100 * (-x) == 100 * (v + x));
        assert(size(100 * (v + x)) == 100 * size(v + x));
        assert(size(-x) == x);
    }
}

/// A hundred times a quotient that is no larger than a whole number below `2^16`.
proof fn lemma_finite_product(q: Binary64, hundred: Binary64, part: Binary64)
    requires
        q.finite(),
        part.finite(),
        hundred == Binary64::of_bits(D_100),
        q.magnitude() <= part.magnitude(),
        size(part.scaled()) <= 0x1_0000 * one_in_units(),
    ensures
        q.times(hundred).finite(),
{
    let u = one_in_units();
    lemma_one();
    lemma_hundred();
    lemma_units(q);
    lemma_units(part);
    lemma_units(hundred);
    crate::binary64::ranges::lemma_order_of_patterns(q.magnitude(), part.magnitude());
    let (x, y) = (q.units(), hundred.units());
    assert(x * y <= (6_553_600 * u) * u) by (nonlinear_arith)
        requires
            0 <= x <= 0x1_0000 * u,
            y == 100 * u,
            u > 0,
    ;
    lemma_moderate_product(q, hundred, 6_553_600);
}

/// The error of a percentage of a whole number of units, without the common factor.
proof fn lemma_divided(v: int, k: int, x: int, u: int)
    requires
        u > 0,
        k > 0,
        FRACTION_SPAN * size(v * (k * u) - 100 * (x * u)) <= 300 * size(x * u) + 200 * (
        FRACTION_SPAN * (k * u)),
    ensures
        FRACTION_SPAN * size(v * k - 100 * x) <= 300 * size(x) + 200 * (FRACTION_SPAN * k),
{
    let span = FRACTION_SPAN as int;
    let off = v * k - 100 * x;
    assert(v * (k * u) - 100 * (x * u) == off * u) by (nonlinear_arith)
        requires
            off == v * k - 100 * x,
    ;
    lemma_size_of_product(off, u);
    lemma_size_of_product(x, u);
    let (m, y) = (size(off), size(x));
    assert(span * m <= 300 * y + 200 * (span * k)) by (nonlinear_arith)
        requires
            span * (m * u) <= 300 * (y * u) + 200 * (span * (k * u)),
            u > 0,
    ;
}

/// The probability in the middle of a quote lies halfway between the ask of the yes side and what
/// the ask of the no side leaves to a dollar, up to rounding.
pub proof fn law_the_middle_of_a_quote_is_halfway(quote: Quote)
    requires
        quote.no_ask <= 100,
    ensures
        ({
            let (u, span) = (one_in_units(), FRACTION_SPAN as int);
            let both = quote.yes_ask + (100 - quote.no_ask);
            &&& middle(quote).finite()
            &&& middle(quote).nonnegative()
            &&& span * size(200 * middle(quote).scaled() - both * u) <= 6 * (both * u) + 300 * span
        }),
{
    let (u, span) = (one_in_units(), FRACTION_SPAN as int);
    let (a, b) = (quote.yes_ask as int, 100 - quote.no_ask);
    let (x, y, t) = (Binary64::of_int(a), Binary64::of_int(b), Binary64::of_int(a + b));
    lemma_one();
    lemma_two();
    lemma_hundred();
    lemma_whole_number(a);
    lemma_whole_number(b);
    lemma_whole_number(a + b);
    assert((a + b) * u == a * u + b * u) by (nonlinear_arith);
    lemma_sum_keeps_bounds(x, y, t, t);
    let sum = x.plus(y);
    law_sum_bounds(x, y);
    lemma_units(sum);
    lemma_units(t);
    lemma_finite_between(sum, t);
    let (two, hundred) = (Binary64::of_bits(D_2), Binary64::of_bits(D_100));
    lemma_units(two);
    lemma_units(hundred);
    lemma_quotient_shrinks(sum, two);
    law_quotient_bounds(sum, two);
    let half = sum.over(two);
    lemma_units(half);
    lemma_quotient_by_whole_number(sum, two, 2);
    lemma_quotient_shrinks(half, hundred);
    law_quotient_bounds(half, hundred);
    lemma_quotient_by_whole_number(half, hundred, 100);
    let n = (a + b) * u;
    assert(n >= 0) by (nonlinear_arith)
        requires
            n == (a + b) * u,
            a + b >= 0,
            u > 0,
    ;
    let (h, m) = (half.scaled(), middle(quote).scaled());
    let (e1, e2) = (2 * h - n, 100 * m - h);
    assert(200 * m - n == 2 * e2 + e1);
    assert(span * size(e1) <= n + span * 2);
    assert(span * size(e2) <= h + span * 100);
}

} // verus!
