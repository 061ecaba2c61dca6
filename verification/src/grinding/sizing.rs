//! Position sizes, expected values and fees.
use super::config::KellyConfig;
use crate::binary64::arithmetic::{lemma_minus_mirrors, lemma_times_commutes, one_in_units};
use crate::binary64::errors::{
    epsilon, lemma_below_one, lemma_difference_error, lemma_epsilon, lemma_product_error,
    lemma_product_up_to_a_hundred, lemma_quotient_error, lemma_quotient_up_to_a_hundred, size,
};
use crate::binary64::monotone::{
    law_difference_is_monotone, law_product_is_monotone, law_quotient_is_monotone,
};
use crate::binary64::numbers::{D_0_01, D_0_07};
use crate::binary64::ranges::{
    law_difference_bounds, law_difference_sign, law_product_bounds, law_product_of_nonnegatives_or_nan,
    law_quotient_bounds, law_unit_difference_bounds, lemma_finite_between, lemma_one,
    lemma_one_less_nothing, lemma_product_in_unit_range, lemma_times_one, lemma_units,
    lemma_units_in_unit_range,
};
use crate::binary64::rounding::{lemma_pattern_value, pattern};
use crate::binary64::{one, one_value, zero, zero_value, Binary64, FRACTION_SPAN};
use crate::market::{cents_to_price, price_of_cents, PriceCents};
use vstd::arithmetic::power2::{lemma2_to64, lemma2_to64_rest, lemma_pow2_adds, lemma_pow2_pos};
use vstd::prelude::*;

verus! {

/// Whether a number lies strictly between zero and one.
pub open spec fn strictly_between(x: Binary64) -> bool {
    zero_value().less(x) && x.less(one_value())
}

/// The odds of a price: the profit per dollar that is risked.
pub open spec fn odds(price: Binary64) -> Binary64 {
    one_value().minus(price).over(price)
}

/// The Kelly fraction `(p * b - q) / b`.
pub open spec fn kelly_fraction(p: Binary64, price: Binary64) -> Binary64 {
    let b = odds(price);
    p.times(b).minus(one_value().minus(p)).over(b)
}

/// The size before the minimum is asked for: the fraction times the multiplier, capped, of the
/// capital.
pub open spec fn uncut_size(
    p: Binary64,
    price: Binary64,
    capital: Binary64,
    config: KellyConfig,
) -> Binary64 {
    capital.times(
        kelly_fraction(p, price).times(config.kelly_multiplier).smaller(config.max_position_pct),
    )
}

/// The position size: nothing where there is no edge or too little of it.
pub open spec fn kelly(
    p: Binary64,
    price: Binary64,
    capital: Binary64,
    config: KellyConfig,
) -> Binary64 {
    if p.at_most(zero_value()) || one_value().at_most(p) {
        zero_value()
    } else if price.at_most(zero_value()) || one_value().at_most(price) {
        zero_value()
    } else if capital.at_most(zero_value()) {
        zero_value()
    } else if odds(price).at_most(zero_value()) {
        zero_value()
    } else if kelly_fraction(p, price).at_most(zero_value()) {
        zero_value()
    } else if uncut_size(p, price, capital, config).less(config.min_position_usd) {
        zero_value()
    } else {
        uncut_size(p, price, capital, config)
    }
}

/// Calculate optimal position size using Kelly Criterion.
pub fn kelly_size(
    true_probability: &Binary64,
    market_price: &Binary64,
    capital: &Binary64,
    config: &KellyConfig,
) -> (r: Binary64)
    ensures
        r == kelly(*true_probability, *market_price, *capital, *config),
{
    if true_probability.le(&zero()) || true_probability.ge(&one()) {
        return zero();
    }
    if market_price.le(&zero()) || market_price.ge(&one()) {
        return zero();
    }
    if capital.le(&zero()) {
        return zero();
    }
    let q = one().sub(true_probability);
    let b = one().sub(market_price).div(market_price);
    if b.le(&zero()) {
        return zero();
    }
    let fraction = true_probability.mul(&b).sub(&q).div(&b);
    if fraction.le(&zero()) {
        return zero();
    }
    let adjusted = fraction.mul(&config.kelly_multiplier);
    let capped = adjusted.min(&config.max_position_pct);
    let size = capital.mul(&capped);
    if size.lt(&config.min_position_usd) {
        return zero();
    }
    size
}

/// A position never takes more of the capital than the maximum allows.
pub proof fn law_kelly_size_respects_the_maximum(
    p: Binary64,
    price: Binary64,
    capital: Binary64,
    config: KellyConfig,
)
    requires
        capital.finite(),
        capital.positive(),
        config.max_position_pct.finite(),
        config.max_position_pct.nonnegative(),
        config.kelly_multiplier.nonnegative(),
    ensures
        kelly(p, price, capital, config).at_most(capital.times(config.max_position_pct)),
{
    lemma_one();
    let most = config.max_position_pct;
    law_product_bounds(capital, most);
    let fraction = kelly_fraction(p, price);
    let adjusted = fraction.times(config.kelly_multiplier);
    let capped = adjusted.smaller(most);
    if !fraction.at_most(zero_value()) {
        if !adjusted.nan() {
            law_product_of_nonnegatives_or_nan(fraction, config.kelly_multiplier);
        }
        lemma_finite_between(capped, most);
        law_product_is_monotone(capped, most, capital);
    }
}

/// A position is nothing, or at least the minimum.
pub proof fn law_kelly_size_respects_the_minimum(
    p: Binary64,
    price: Binary64,
    capital: Binary64,
    config: KellyConfig,
)
    ensures
        kelly(p, price, capital, config) == zero_value() || !kelly(p, price, capital, config).less(
            config.min_position_usd,
        ),
{
}

/// Without an edge the Kelly fraction is not positive, but for rounding: it is less than
/// thirty-two times the distance from one to the next double.
proof fn lemma_no_edge_gives_no_fraction(p: Binary64, price: Binary64)
    requires
        strictly_between(p),
        strictly_between(price),
        p.at_most(price),
        odds(price).finite(),
        odds(price).positive(),
    ensures
        kelly_fraction(p, price).at_most(zero_value()) || {
            &&& kelly_fraction(p, price).finite()
            &&& kelly_fraction(p, price).nonnegative()
            &&& kelly_fraction(p, price).scaled() <= 32 * epsilon()
        },
{
    lemma_one();
    lemma_epsilon();
    lemma_units_in_unit_range(p);
    lemma_units_in_unit_range(price);
    law_unit_difference_bounds(one_value(), price);
    law_unit_difference_bounds(one_value(), p);
    law_difference_is_monotone(p, price, one_value());
    let (a, b, q) = (one_value().minus(price), odds(price), one_value().minus(p));
    lemma_units(p);
    lemma_units(price);
    lemma_units(a);
    lemma_units(b);
    lemma_units(q);
    lemma_below_one(price);
    lemma_difference_error(one_value(), price);
    lemma_quotient_error(a, price);
    let (u, e, span) = (one_in_units(), epsilon(), FRACTION_SPAN as int);
    let (pv, rv, av, bv, qv) = (
        p.scaled(),
        price.scaled(),
        a.scaled(),
        b.scaled(),
        q.scaled(),
    );
    assert(4 * av >= e);
    let br = bv * rv;
    assert(0 <= br) by (nonlinear_arith)
        requires
            br == bv * rv,
            bv > 0,
            rv > 0,
    ;
    let au = av * u;
    // The odds times the price are the profit, within rounding.
    assert(2 * span * size(br - au) <= br + span * rv);
    assert(br <= 2 * au + rv && au <= 2 * br + rv && 2 * span * br <= 2 * span * au + br + span
        * rv) by (nonlinear_arith)
        requires
            2 * span * size(br - au) <= br + span * rv,
            size(br - au) == (if br - au < 0 {
                -(br - au)
            } else {
                br - au
            }),
            span >= 2,
            br >= 0,
            au >= 0,
            rv > 0,
    ;
    // What is won on average.
    let pb = pv * bv;
    assert(0 <= pb <= br) by (nonlinear_arith)
        requires
            pb == pv * bv,
            br == bv * rv,
            0 <= pv <= rv,
            bv > 0,
    ;
    assert(au <= u * u) by (nonlinear_arith)
        requires
            au == av * u,
            av <= u,
            u > 0,
    ;
    assert(u <= u * u) by (nonlinear_arith)
        requires
            u >= 1,
    ;
    assert(pb <= 100 * u * u) by (nonlinear_arith)
        requires
            pb <= 2 * au + rv,
            au <= u * u,
            rv <= u <= u * u,
    ;
    lemma_product_up_to_a_hundred(p, b);
    lemma_product_error(p, b);
    let m = p.times(b);
    law_product_bounds(p, b);
    lemma_units(m);
    let mv = m.scaled();
    let mu = mv * u;
    assert(mu <= 2 * pb + u && 2 * span * mu <= 2 * span * pb + mu + span * u)
        by (nonlinear_arith)
        requires
            2 * span * size(mu - pb) <= mu + span * u,
            size(mu - pb) == (if mu - pb < 0 {
                -(mu - pb)
            } else {
                mu - pb
            }),
            span >= 2,
            pb >= 0,
            u > 0,
    ;
    assert(span * pb <= span * br) by (nonlinear_arith)
        requires
            pb <= br,
            span > 0,
    ;
    assert(span * (mv - av) <= 3 * av + 2 * span) by (nonlinear_arith)
        requires
            2 * span * mu <= 2 * span * au + (2 * au + rv) + span * rv + (4 * au + 3 * u) + span
                * u,
            mu == mv * u,
            au == av * u,
            rv <= u,
            u > 0,
            span >= 4,
    ;
    // What is won less what is lost, and the fraction.
    let x = m.minus(q);
    lemma_minus_mirrors(m, q);
    if q.at_most(m) {
        law_difference_bounds(m, q);
    } else {
        law_difference_bounds(q, m);
    }
    law_difference_sign(m, q);
    lemma_difference_error(m, q);
    lemma_units(x);
    let xv = x.scaled();
    if xv <= 0 {
        assert(x.at_most(zero_value()));
        law_quotient_is_monotone(x, zero_value(), b);
        law_quotient_bounds(zero_value(), b);
        lemma_units(zero_value().over(b));
    } else {
        assert(span * xv <= 6 * av + 5 * span) by (nonlinear_arith)
            requires
                2 * span * size(xv - (mv - qv)) <= xv + span,
                size(xv - (mv - qv)) == (if xv - (mv - qv) < 0 {
                    -(xv - (mv - qv))
                } else {
                    xv - (mv - qv)
                }),
                span * (mv - av) <= 3 * av + 2 * span,
                qv >= av,
                xv > 0,
                span >= 2,
        ;
        assert(av <= 2 * bv + 1) by (nonlinear_arith)
            requires
                au <= 2 * br + rv,
                au == av * u,
                br == bv * rv,
                0 < rv <= u,
                bv > 0,
        ;
        assert(xv <= 100 * bv) by (nonlinear_arith)
            requires
                span * xv <= 6 * av + 5 * span,
                av <= 2 * bv + 1,
                span >= 100,
                bv >= 100,
        ;
        lemma_quotient_up_to_a_hundred(x, b);
        lemma_quotient_error(x, b);
        let f = x.over(b);
        law_quotient_bounds(x, b);
        let fv = f.scaled();
        lemma_fraction_bound(fv, bv, xv, av, u, e);
    }
}

proof fn lemma_fraction_bound(f: int, b: int, x: int, a: int, u: int, e: int)
    requires
        f >= 0,
        x >= 0,
        a <= 2 * b + 1,
        u == FRACTION_SPAN * e,
        e >= FRACTION_SPAN,
        b >= 100 * FRACTION_SPAN,
        FRACTION_SPAN * x <= 6 * a + 5 * FRACTION_SPAN,
        2 * FRACTION_SPAN * size(f * b - x * u) <= f * b + FRACTION_SPAN * b,
    ensures
        f <= 32 * e,
{
    let span = FRACTION_SPAN as int;
    let fb = f * b;
    let xu = x * u;
    assert(fb >= 0 && xu >= 0) by (nonlinear_arith)
        requires
            fb == f * b,
            xu == x * u,
            f >= 0,
            b >= 0,
            x >= 0,
            u >= 0,
    ;
    assert(fb <= 2 * xu + b) by (nonlinear_arith)
        requires
            2 * span * size(fb - xu) <= fb + span * b,
            size(fb - xu) == (if fb - xu < 0 {
                -(fb - xu)
            } else {
                fb - xu
            }),
            span >= 2,
            fb >= 0,
            xu >= 0,
            b > 0,
    ;
    let bu = b * u;
    assert(span * xu <= 13 * bu) by (nonlinear_arith)
        requires
            xu == x * u,
            span * x <= 6 * a + 5 * span,
            a <= 2 * b + 1,
            b >= 100 * span,
            span >= 100,
            u > 0,
            bu == b * u,
    ;
    assert(span * b <= bu) by (nonlinear_arith)
        requires
            bu == b * u,
            u >= span,
            b > 0,
    ;
    assert(span * fb <= 2 * (span * xu) + span * b) by (nonlinear_arith)
        requires
            fb <= 2 * xu + b,
            span > 0,
    ;
    assert(bu > 0) by (nonlinear_arith)
        requires
            bu == b * u,
            b > 0,
            u > 0,
    ;
    assert(f <= 32 * e) by (nonlinear_arith)
        requires
            span * fb <= 32 * bu,
            fb == f * b,
            bu == b * u,
            u == span * e,
            b > 0,
            span > 0,
    ;
}

/// Without an edge there is no position: what rounding can leave of the fraction is too little
/// for the minimum, as long as the capital is at most ten trillion times the minimum.
pub proof fn law_no_edge_gives_no_position(
    p: Binary64,
    price: Binary64,
    capital: Binary64,
    config: KellyConfig,
)
    requires
        p.at_most(price),
        odds(price).finite(),
        capital.finite(),
        config.kelly_multiplier.in_unit_range(),
        config.max_position_pct.finite(),
        config.max_position_pct.nonnegative(),
        config.min_position_usd.finite(),
        config.min_position_usd.scaled() > 1,
        capital.scaled() <= 10_000_000_000_000 * config.min_position_usd.scaled(),
    ensures
        kelly(p, price, capital, config) == zero_value(),
{
    lemma_one();
    lemma_epsilon();
    if strictly_between(p) && strictly_between(price) && capital.positive()
        && odds(price).positive() {
        lemma_no_edge_gives_no_fraction(p, price);
        let f = kelly_fraction(p, price);
        if !f.at_most(zero_value()) {
            let adjusted = f.times(config.kelly_multiplier);
            let capped = adjusted.smaller(config.max_position_pct);
            lemma_units_in_unit_range(config.kelly_multiplier);
            law_product_bounds(f, config.kelly_multiplier);
            lemma_finite_between(adjusted, f);
            lemma_finite_between(capped, f);
            law_product_is_monotone(capped, f, capital);
            lemma_units(f);
            lemma_units(capital);
            let w = capital.times(f);
            law_product_bounds(capital, f);
            lemma_units(w);
            lemma_product_error(capital, f);
            let (u, e, span) = (one_in_units(), epsilon(), FRACTION_SPAN as int);
            let (wv, cv, fv) = (w.scaled(), capital.scaled(), f.scaled());
            let (wu, cf) = (wv * u, cv * fv);
            assert(wu <= 2 * cf + u) by (nonlinear_arith)
                requires
                    2 * span * size(wu - cf) <= wu + span * u,
                    size(wu - cf) == (if wu - cf < 0 {
                        -(wu - cf)
                    } else {
                        wu - cf
                    }),
                    span >= 2,
                    cf >= 0,
                    u > 0,
            ;
            assert(span * wv <= 64 * cv + span) by (nonlinear_arith)
                requires
                    wu <= 2 * cf + u,
                    wu == wv * u,
                    cf == cv * fv,
                    fv <= 32 * e,
                    u == span * e,
                    cv >= 0,
                    e > 0,
                    span > 0,
            ;
            assert(wv < config.min_position_usd.scaled());
        }
    }
}

/// The expected value per dollar of a contract at a price, with a fee on the profit.
pub open spec fn value_per_dollar(p: Binary64, price: Binary64, fee_pct: Binary64) -> Binary64 {
    let profit_if_win = one_value().minus(price).times(one_value().minus(fee_pct));
    p.times(profit_if_win).minus(one_value().minus(p).times(price)).over(price)
}

/// The expected value of a grinding trade: none at a price that nobody can pay or profit from.
pub open spec fn expected(p: Binary64, price: Binary64, fee_pct: Binary64) -> Binary64 {
    if price.at_most(zero_value()) || one_value().at_most(price) {
        zero_value()
    } else {
        value_per_dollar(p, price, fee_pct)
    }
}

/// Calculate expected value of a grinding trade.
pub fn expected_value(
    true_probability: &Binary64,
    market_price: &Binary64,
    fee_pct: &Binary64,
) -> (r: Binary64)
    ensures
        r == expected(*true_probability, *market_price, *fee_pct),
{
    if market_price.le(&zero()) || market_price.ge(&one()) {
        return zero();
    }
    let q = one().sub(true_probability);
    let profit_if_win = one().sub(market_price).mul(&one().sub(fee_pct));
    true_probability.mul(&profit_if_win).sub(&q.mul(market_price)).div(market_price)
}

/// A higher fee does not give a higher expected value.
pub proof fn law_fees_lower_the_expected_value(
    p: Binary64,
    price: Binary64,
    low_fee: Binary64,
    high_fee: Binary64,
)
    requires
        p.in_unit_range(),
        strictly_between(price),
        low_fee.in_unit_range(),
        high_fee.in_unit_range(),
        low_fee.at_most(high_fee),
    ensures
        expected(p, price, high_fee).at_most(expected(p, price, low_fee)),
{
    lemma_one();
    lemma_units_in_unit_range(p);
    lemma_units_in_unit_range(price);
    lemma_units_in_unit_range(low_fee);
    lemma_units_in_unit_range(high_fee);
    law_unit_difference_bounds(one_value(), price);
    law_unit_difference_bounds(one_value(), low_fee);
    law_unit_difference_bounds(one_value(), high_fee);
    law_unit_difference_bounds(one_value(), p);
    law_difference_is_monotone(low_fee, high_fee, one_value());
    let profit = one_value().minus(price);
    let (k1, k2) = (one_value().minus(low_fee), one_value().minus(high_fee));
    law_product_is_monotone(k2, k1, profit);
    law_product_bounds(profit, k1);
    law_product_bounds(profit, k2);
    let (w1, w2) = (profit.times(k1), profit.times(k2));
    lemma_finite_between(w1, profit);
    lemma_finite_between(w2, profit);
    law_product_is_monotone(w2, w1, p);
    law_product_bounds(p, w1);
    law_product_bounds(p, w2);
    law_product_bounds(w1, p);
    law_product_bounds(w2, p);
    let loss = one_value().minus(p).times(price);
    law_product_bounds(one_value().minus(p), price);
    let (g1, g2) = (p.times(w1), p.times(w2));
    lemma_product_in_unit_range(p, w1);
    lemma_product_in_unit_range(p, w2);
    lemma_product_in_unit_range(one_value().minus(p), price);
    law_difference_is_monotone(g2, g1, loss);
    law_unit_difference_bounds(g1, loss);
    law_unit_difference_bounds(g2, loss);
    law_quotient_is_monotone(g2.minus(loss), g1.minus(loss), price);
}

/// What a trade without a fee is made of: what it wins, what it loses and the difference, all
/// between minus one and one.
proof fn lemma_gain_and_loss(p: Binary64, price: Binary64)
    requires
        p.in_unit_range(),
        strictly_between(price),
    ensures
        ({
            let (a, q) = (one_value().minus(price), one_value().minus(p));
            let (g, l) = (p.times(a), q.times(price));
            &&& p.finite() && price.finite() && a.finite() && q.finite()
            &&& a.in_unit_range() && q.in_unit_range() && g.in_unit_range() && l.in_unit_range()
            &&& g.finite() && l.finite() && g.minus(l).finite()
            &&& g.minus(l).units() <= one_in_units()
            &&& expected(p, price, zero_value()) == g.minus(l).over(price)
        }),
{
    lemma_one();
    lemma_one_less_nothing();
    lemma_units_in_unit_range(p);
    lemma_units_in_unit_range(price);
    law_unit_difference_bounds(one_value(), price);
    law_unit_difference_bounds(one_value(), p);
    let (a, q) = (one_value().minus(price), one_value().minus(p));
    lemma_times_one(a);
    lemma_product_in_unit_range(p, a);
    lemma_product_in_unit_range(q, price);
    law_unit_difference_bounds(p.times(a), q.times(price));
}

/// Without a fee the expected value never has the opposite sign of the edge, and there is none
/// where there is no edge.
pub proof fn law_value_has_the_sign_of_the_edge(p: Binary64, price: Binary64)
    requires
        p.in_unit_range(),
        strictly_between(price),
    ensures
        price.at_most(p) ==> zero_value().at_most(expected(p, price, zero_value())),
        p.at_most(price) ==> expected(p, price, zero_value()).at_most(zero_value()),
{
    lemma_gain_and_loss(p, price);
    let (a, q) = (one_value().minus(price), one_value().minus(p));
    let (g, l) = (p.times(a), q.times(price));
    lemma_times_commutes(a, p);
    law_quotient_bounds(zero_value(), price);
    lemma_units(zero_value().over(price));
    lemma_one();
    lemma_units(g.minus(l));
    law_difference_sign(g, l);
    if price.at_most(p) {
        law_difference_is_monotone(price, p, one_value());
        law_product_is_monotone(q, a, price);
        law_product_is_monotone(price, p, a);
        law_quotient_is_monotone(zero_value(), g.minus(l), price);
    }
    if p.at_most(price) {
        law_difference_is_monotone(p, price, one_value());
        law_product_is_monotone(a, q, price);
        law_product_is_monotone(p, price, a);
        law_quotient_is_monotone(g.minus(l), zero_value(), price);
    }
}

/// What is won less what is lost is the edge, up to five times the distance from one to the next
/// double.
proof fn lemma_gain_less_loss_is_the_edge(p: Binary64, price: Binary64)
    requires
        p.in_unit_range(),
        strictly_between(price),
    ensures
        ({
            let x = p.times(one_value().minus(price)).minus(one_value().minus(p).times(price));
            size(x.scaled() - (p.scaled() - price.scaled())) <= 5 * epsilon()
        }),
{
    lemma_gain_and_loss(p, price);
    lemma_one();
    lemma_epsilon();
    let (a, q) = (one_value().minus(price), one_value().minus(p));
    let (g, l) = (p.times(a), q.times(price));
    let x = g.minus(l);
    lemma_units(x);
    lemma_units(p);
    lemma_units(price);
    lemma_difference_error(one_value(), price);
    lemma_difference_error(one_value(), p);
    lemma_product_error(p, a);
    lemma_product_error(q, price);
    lemma_difference_error(g, l);
    let (u, e) = (one_in_units(), epsilon());
    let (pv, rv) = (p.scaled(), price.scaled());
    let (av, qv, gv, lv, xv) = (a.scaled(), q.scaled(), g.scaled(), l.scaled(), x.scaled());
    let ea = av - (u - rv);
    let eq = qv - (u - pv);
    let eg = gv * u - pv * av;
    let el = lv * u - qv * rv;
    let ex = xv - (gv - lv);
    let span = FRACTION_SPAN as int;
    assert(size(ea) <= e && size(eq) <= e && size(ex) <= e);
    lemma_product_error_in_one(gv, u, e, eg);
    lemma_product_error_in_one(lv, u, e, el);
    assert(u * (xv - (pv - rv)) == u * ex + eg - el + pv * ea - rv * eq) by (nonlinear_arith)
        requires
            ea == av - (u - rv),
            eq == qv - (u - pv),
            eg == gv * u - pv * av,
            el == lv * u - qv * rv,
            ex == xv - (gv - lv),
    ;
    lemma_scaled_bound(u, ex, e, u);
    lemma_scaled_bound(pv, ea, e, u);
    lemma_scaled_bound(rv, eq, e, u);
    let d = xv - (pv - rv);
    assert(size(d) <= 5 * e) by (nonlinear_arith)
        requires
            -(5 * (e * u)) <= u * d <= 5 * (e * u),
            u > 0,
            size(d) == (if d < 0 {
                -d
            } else {
                d
            }),
    ;
}

proof fn lemma_product_error_in_one(v: int, u: int, e: int, err: int)
    requires
        0 <= v <= u,
        u == FRACTION_SPAN * e,
        e >= FRACTION_SPAN,
        2 * FRACTION_SPAN * size(err) <= size(v) * u + FRACTION_SPAN * u,
    ensures
        -(e * u) <= err <= e * u,
{
    let span = FRACTION_SPAN as int;
    assert(v * u + span * u <= 2 * span * (e * u)) by (nonlinear_arith)
        requires
            0 <= v <= u,
            u == span * e,
            e >= span,
            span >= 1,
    ;
    assert(size(err) <= e * u) by (nonlinear_arith)
        requires
            2 * span * size(err) <= 2 * span * (e * u),
            span > 0,
    ;
}

proof fn lemma_scaled_bound(factor: int, err: int, e: int, u: int)
    requires
        0 <= factor <= u,
        -e <= err <= e,
    ensures
        -(e * u) <= factor * err <= e * u,
{
    assert(-(e * u) <= factor * err <= e * u) by (nonlinear_arith)
        requires
            0 <= factor <= u,
            -e <= err <= e,
    ;
}

/// Without a fee the expected value is the edge per dollar of the price, up to `1e-9`: it is
/// `(p - P) / P` for a probability `p` and a price `P` of a cent or more. It has the sign of the
/// edge wherever the edge is not a matter of rounding.
pub proof fn law_value_without_a_fee_is_the_edge_over_the_price(p: Binary64, price: Binary64)
    requires
        p.in_unit_range(),
        Binary64::of_bits(D_0_01).at_most(price),
        price.less(one_value()),
    ensures
        ({
            let r = expected(p, price, zero_value());
            let edge = p.scaled() - price.scaled();
            &&& r.finite()
            &&& 1_000_000_000 * size(r.scaled() * price.scaled() - edge * one_in_units())
                <= price.scaled() * one_in_units()
            &&& 1_000_000_000_000 * edge >= one_in_units() ==> r.positive()
            &&& 1_000_000_000_000 * edge <= -one_in_units() ==> r.less(zero_value())
        }),
{
    lemma_one();
    lemma_epsilon();
    lemma_a_cent();
    lemma_gain_and_loss(p, price);
    lemma_gain_less_loss_is_the_edge(p, price);
    let x = p.times(one_value().minus(price)).minus(one_value().minus(p).times(price));
    lemma_units(price);
    lemma_units(x);
    lemma_quotient_up_to_a_hundred(x, price);
    lemma_quotient_error(x, price);
    let r = x.over(price);
    let (u, e) = (one_in_units(), epsilon());
    let (rv, xv, pv) = (r.scaled(), x.scaled(), price.scaled());
    let edge = p.scaled() - pv;
    let err = rv * pv - xv * u;
    let span = FRACTION_SPAN as int;
    assert(size(rv) * pv + span * pv <= 2 * span * (51 * (e * pv))) by (nonlinear_arith)
        requires
            size(rv) <= 100 * u,
            u == span * e,
            e >= span,
            span >= 1,
            pv > 0,
    ;
    assert(size(err) <= 51 * (e * pv)) by (nonlinear_arith)
        requires
            2 * span * size(err) <= 2 * span * (51 * (e * pv)),
            span > 0,
    ;
    let d = xv - edge;
    assert(-(500 * (e * pv)) <= d * u <= 500 * (e * pv)) by (nonlinear_arith)
        requires
            -(5 * e) <= d <= 5 * e,
            0 < u <= 100 * pv,
    ;
    let total = rv * pv - edge * u;
    assert(total == err + d * u) by (nonlinear_arith)
        requires
            err == rv * pv - xv * u,
            d == xv - edge,
            total == rv * pv - edge * u,
    ;
    assert(pv * u == span * (e * pv)) by (nonlinear_arith)
        requires
            u == span * e,
    ;
    assert(e * pv > 0) by (nonlinear_arith)
        requires
            e > 0,
            pv > 0,
    ;
    if 1_000_000_000_000 * edge >= u {
        assert(4000 * (e * pv) <= edge * u && rv > 0) by (nonlinear_arith)
            requires
                edge >= 4000 * e,
                u >= pv > 0,
                e > 0,
                rv * pv - edge * u >= -(551 * (e * pv)),
        ;
    }
    if 1_000_000_000_000 * edge <= -u {
        assert(edge * u <= -(4000 * (e * pv)) && rv < 0) by (nonlinear_arith)
            requires
                edge <= -(4000 * e),
                u >= pv > 0,
                e > 0,
                rv * pv - edge * u <= 551 * (e * pv),
        ;
    }
}

/// A hundred times a cent is a dollar or a little more.
proof fn lemma_a_cent()
    ensures
        100 * Binary64::of_bits(D_0_01).scaled() >= one_in_units(),
        Binary64::of_bits(D_0_01).positive(),
{
    lemma_pattern_value(0x14_7AE1_47AE_147B, 1015);
    assert(pattern(0x14_7AE1_47AE_147B, 1015) == D_0_01);
    lemma2_to64();
    lemma2_to64_rest();
    lemma_pow2_adds(59, 1015);
    lemma_pow2_pos(1015);
    lemma_one();
}

/// A contract at a price that nobody can pay or profit from has no expected value.
pub proof fn law_impossible_prices_have_no_value(p: Binary64, price: Binary64, fee_pct: Binary64)
    requires
        price.at_most(zero_value()) || one_value().at_most(price),
    ensures
        expected(p, price, fee_pct) == zero_value(),
{
}

/// The Kalshi fee at a price: `0.07 * P * (1 - P)`, and none at the ends.
pub open spec fn kalshi_fee(price_cents: PriceCents) -> Binary64 {
    if price_cents == 0 || price_cents >= 100 {
        zero_value()
    } else {
        let p = price_of_cents(price_cents as int);
        Binary64::of_bits(D_0_07).times(p).times(one_value().minus(p))
    }
}

/// Calculate Kalshi fee percentage for a given price.
pub fn kalshi_fee_pct(price_cents: PriceCents) -> (r: Binary64)
    ensures
        r == kalshi_fee(price_cents),
{
    if price_cents == 0 || price_cents >= 100 {
        return zero();
    }
    let p = cents_to_price(price_cents);
    Binary64::from_bits(D_0_07).mul(&p).mul(&one().sub(&p))
}

} // verus!
