//! The two outcomes of a market: how likely each is, and which contract pays if it comes.
use super::config::{GrindingConfig, Platform, Side};
use super::ranking::GrindingOpportunity;
use super::sizing::{expected, kelly};
use super::strategy::{
    counted_hours, sides_of_market, Candidate, GrindingExecutionRequest, Setting,
};
use crate::binary64::accuracy::lemma_quotient_accuracy;
use crate::binary64::arithmetic::one_in_units;
use crate::binary64::errors::{
    epsilon, lemma_difference_error, lemma_epsilon, lemma_product_error, lemma_quotient_error, size,
};
use crate::binary64::monotone::law_difference_is_monotone;
use crate::binary64::numbers::{D_0_5, D_1_005};
use crate::binary64::ranges::{
    law_product_grows, law_unit_difference_bounds, lemma_one, lemma_units,
    lemma_units_in_unit_range,
};
use crate::binary64::rounding::{law_a_double_is_not_rounded, lemma_pattern_value, pattern};
use crate::binary64::{one_value, zero_value, Binary64, FRACTION_SPAN};
use crate::kalman::{KalmanFilter, KalmanState};
use crate::market::{
    law_cents_are_hundredths, price_of_cents, MarketPair, MarketSnapshot, Quote,
};
use crate::time::Timestamp;
use vstd::arithmetic::power2::{
    lemma2_to64, lemma2_to64_rest, lemma_pow2_adds, lemma_pow2_unfold,
};
use vstd::prelude::*;

verus! {

impl Side {
    /// Whether the side wins once the market is resolved.
    pub open spec fn wins(self, yes_won: bool) -> bool {
        self == (if yes_won {
            Side::Yes
        } else {
            Side::No
        })
    }
}

impl MarketPair {
    /// The dollars that a contract under a Polymarket token pays once the market is resolved.
    pub open spec fn token_pays(self, token: Seq<char>, yes_won: bool) -> int {
        if token == (if yes_won {
            self.poly_yes_token@
        } else {
            self.poly_no_token@
        }) {
            1
        } else {
            0
        }
    }

    /// The dollars that a contract on a side of a Kalshi market pays once the market is resolved.
    pub open spec fn contract_pays(self, ticker: Seq<char>, side: Side, yes_won: bool) -> int {
        if ticker == self.kalshi_market_ticker@ && side.wins(yes_won) {
            1
        } else {
            0
        }
    }
}

impl GrindingExecutionRequest {
    /// The dollars that each contract of the request pays once the market is resolved.
    pub open spec fn pays(self, pair: MarketPair, yes_won: bool) -> int {
        match self.platform {
            Platform::Polymarket => pair.token_pays(self.token_address->0@, yes_won),
            Platform::Kalshi => pair.contract_pays(self.market_ticker->0@, self.side, yes_won),
        }
    }
}

/// A request pays a dollar per contract exactly where the side of the opportunity wins, as long
/// as the two tokens of the market differ; and it names a token on Polymarket only and a ticker
/// on Kalshi only.
pub proof fn law_a_request_pays_if_its_side_wins(
    request: GrindingExecutionRequest,
    opportunity: GrindingOpportunity,
    market: MarketSnapshot,
    now: Timestamp,
    yes_won: bool,
)
    requires
        request.buys(opportunity, market, now),
        market.pair is Some,
        market.pair->0.poly_yes_token@ != market.pair->0.poly_no_token@,
    ensures
        request.pays(market.pair->0, yes_won) == (if opportunity.side.wins(yes_won) {
            1int
        } else {
            0
        }),
        request.pays(market.pair->0, true) + request.pays(market.pair->0, false) == 1,
        request.token_address is Some <==> opportunity.platform == Platform::Polymarket,
        request.market_ticker is Some <==> opportunity.platform == Platform::Kalshi,
{
}

/// A number above one by half a percent.
proof fn lemma_half_a_percent_more()
    ensures
        ({
            let m = Binary64::of_bits(D_1_005);
            &&& m.finite() && m.positive()
            &&& one_value().at_most(m)
            &&& size(200 * m.scaled() - 201 * one_in_units()) <= 100 * epsilon()
        }),
{
    lemma_one();
    lemma_epsilon();
    lemma_pattern_value(0x10_147A_E147_AE14, 1022);
    assert(pattern(0x10_147A_E147_AE14, 1022) == D_1_005);
    lemma_units(Binary64::of_bits(D_1_005));
}

/// A request spends the recommended size, up to rounding: its contracts at the price of the
/// opportunity cost as much. And it pays up to half a percent more than that price, up to
/// rounding, and no less.
pub proof fn law_a_request_spends_the_recommended_size(
    request: GrindingExecutionRequest,
    opportunity: GrindingOpportunity,
    market: MarketSnapshot,
    now: Timestamp,
)
    requires
        request.buys(opportunity, market, now),
        opportunity.market_price.finite(),
        opportunity.market_price.positive(),
        opportunity.recommended_size_usd.finite(),
        request.contracts.finite(),
        request.max_price.finite(),
    ensures
        ({
            let (u, span) = (one_in_units(), FRACTION_SPAN as int);
            let (price, most) = (opportunity.market_price.scaled(), request.max_price.scaled());
            let (n, usd) = (request.contracts.scaled(), opportunity.recommended_size_usd.scaled());
            &&& price > 0
            &&& span * size(n * price - usd * u) <= size(n) * price + span * price
            &&& price <= most
            &&& span * size(200 * most - 201 * price) <= 200 * most + 200 * span + 100 * price
        }),
{
    lemma_one();
    lemma_epsilon();
    lemma_half_a_percent_more();
    let factor = Binary64::of_bits(D_1_005);
    let price = opportunity.market_price;
    lemma_units(price);
    lemma_units(factor);
    lemma_units(request.max_price);
    lemma_units(request.contracts);
    lemma_quotient_error(opportunity.recommended_size_usd, price);
    law_product_grows(price, factor);
    lemma_product_error(price, factor);
    let (u, e, span) = (one_in_units(), epsilon(), FRACTION_SPAN as int);
    let (p, f, m) = (price.scaled(), factor.scaled(), request.max_price.scaled());
    let n = request.contracts.scaled();
    let np = size(n) * p;
    assert(np >= 0 && span * p >= 0) by (nonlinear_arith)
        requires
            np == size(n) * p,
            size(n) >= 0,
            p > 0,
            span > 0,
    ;
    let miss = size(n * p - opportunity.recommended_size_usd.scaled() * u);
    assert(span * miss <= np + span * p) by (nonlinear_arith)
        requires
            2 * span * miss <= np + span * p,
            span > 0,
            miss >= 0,
    ;
    // The limit, times one, is the price times the factor.
    let mu = m * u;
    let off = mu - p * f;
    let short = 200 * f - 201 * u;
    assert(p * short == 200 * (p * f) - 201 * (p * u)) by (nonlinear_arith)
        requires
            short == 200 * f - 201 * u,
    ;
    let pu = p * u;
    assert(-(100 * pu) <= span * (p * short) <= 100 * pu) by (nonlinear_arith)
        requires
            -(100 * e) <= short <= 100 * e,
            u == span * e,
            pu == p * u,
            p > 0,
            span > 0,
    ;
    assert(2 * span * size(off) <= mu + span * u);
    let su = span * u;
    let so = span * off;
    assert(-(mu + su) <= so <= mu + su) by (nonlinear_arith)
        requires
            2 * span * size(off) <= mu + su,
            size(off) == (if off < 0 {
                -off
            } else {
                off
            }),
            so == span * off,
            span > 0,
    ;
    let d = 200 * m - 201 * p;
    let du = span * (d * u);
    assert(du == 200 * so + span * (p * short)) by (nonlinear_arith)
        requires
            du == span * (d * u),
            d == 200 * m - 201 * p,
            so == span * off,
            off == mu - p * f,
            mu == m * u,
            p * short == 200 * (p * f) - 201 * (p * u),
    ;
    let most = 200 * m + 200 * span + 100 * p;
    assert(most * u == 200 * mu + 200 * su + 100 * pu) by (nonlinear_arith)
        requires
            most == 200 * m + 200 * span + 100 * p,
            mu == m * u,
            su == span * u,
            pu == p * u,
    ;
    assert(-most <= span * d <= most) by (nonlinear_arith)
        requires
            -(most * u) <= du <= most * u,
            du == span * (d * u),
            u > 0,
    ;
    let md = size(d);
    assert(span * md <= most) by (nonlinear_arith)
        requires
            -most <= span * d <= most,
            md == d || md == -d,
    ;
}

/// A half.
proof fn lemma_a_half()
    ensures
        2 * Binary64::of_bits(D_0_5).scaled() == one_in_units(),
        Binary64::of_bits(D_0_5).finite(),
        one_value().minus(Binary64::of_bits(D_0_5)).scaled() == Binary64::of_bits(D_0_5).scaled(),
{
    lemma_one();
    lemma_pattern_value(FRACTION_SPAN as int, 1021);
    assert(pattern(FRACTION_SPAN as int, 1021) == D_0_5);
    lemma_pow2_unfold(1022);
    lemma2_to64();
    lemma2_to64_rest();
    lemma_pow2_adds(52, 1022);
    lemma_pow2_adds(52, 1021);
    let half = Binary64::of_bits(D_0_5);
    lemma_units(half);
    crate::binary64::monotone::lemma_difference_is_rounded(one_value(), half);
    law_a_double_is_not_rounded(half.magnitude());
    crate::binary64::ranges::lemma_with_sign(false, half.magnitude());
    lemma_units(one_value().minus(half));
}

/// One estimate speaks for both sides of a market. An opportunity on the yes side is as likely as
/// the estimate says; one on the no side is likely by what the estimate leaves to one, up to
/// rounding. So a side is an opportunity only where the estimate reaches its threshold, or leaves
/// as much; and where both thresholds are above one half, the two sides are never opportunities
/// at once.
pub proof fn law_one_estimate_speaks_for_both_sides(
    setting: Setting,
    description: Seq<char>,
    yes: Candidate,
    no: Candidate,
    state: KalmanState,
)
    requires
        state.estimate.in_unit_range(),
        yes.side == Side::Yes,
        no.side == Side::No,
        !yes.threshold.nan(),
        !no.threshold.nan(),
    ensures
        ({
            let (u, e) = (one_in_units(), state.estimate.scaled());
            let (on_yes, on_no) = (
                setting.opportunity(description, yes, state),
                setting.opportunity(description, no, state),
            );
            &&& on_yes matches Some(o) ==> {
                &&& o.estimated_probability == state.estimate
                &&& o.side == Side::Yes
                &&& yes.threshold.scaled() <= e
            }
            &&& on_no matches Some(o) ==> {
                &&& size(o.estimated_probability.scaled() + e - u) <= epsilon()
                &&& o.estimated_probability.in_unit_range()
                &&& o.side == Side::No
                &&& no.threshold.scaled() + e <= u + epsilon()
            }
            &&& Binary64::of_bits(D_0_5).less(yes.threshold) && Binary64::of_bits(D_0_5).less(
                no.threshold,
            ) ==> on_yes is None || on_no is None
        }),
{
    lemma_one();
    lemma_epsilon();
    lemma_a_half();
    let estimate = state.estimate;
    let half = Binary64::of_bits(D_0_5);
    lemma_units_in_unit_range(estimate);
    lemma_units(estimate);
    law_unit_difference_bounds(one_value(), estimate);
    let rest = one_value().minus(estimate);
    lemma_units(rest);
    lemma_difference_error(one_value(), estimate);
    if half.at_most(estimate) {
        law_difference_is_monotone(half, estimate, one_value());
    }
}

/// The same of two sides that are looked at one after the other: the first may start the filter
/// of the market, and the second is judged by it.
pub proof fn law_sides_of_one_market_exclude_each_other(
    setting: Setting,
    filters: Map<u16, KalmanFilter>,
    description: Seq<char>,
    first: Candidate,
    second: Candidate,
)
    requires
        first.market_id == second.market_id,
        first.side != second.side,
        setting.liquid(first),
        Binary64::of_bits(D_0_5).less(first.threshold),
        Binary64::of_bits(D_0_5).less(second.threshold),
        setting.filters_after(filters, first)[first.market_id].state.estimate.in_unit_range(),
    ensures
        setting.evaluation(filters, description, first) is None || setting.evaluation(
            setting.filters_after(filters, first),
            description,
            second,
        ) is None,
{
    let after = setting.filters_after(filters, first);
    let state = after[first.market_id].state;
    assert(after.contains_key(first.market_id));
    if first.side == Side::Yes {
        law_one_estimate_speaks_for_both_sides(setting, description, first, second, state);
    } else {
        law_one_estimate_speaks_for_both_sides(setting, description, second, first, state);
    }
}

/// An opportunity is about the side that was looked at: its price and its liquidity are the ask
/// and the size that are on offer there, a hundredth of a dollar per cent; its expected value and
/// its size follow from its own probability, price and fee; there is no fee on Polymarket; and its
/// confidence is the inverse of the variance.
pub proof fn law_an_opportunity_is_about_its_side(
    setting: Setting,
    description: Seq<char>,
    c: Candidate,
    state: KalmanState,
)
    requires
        setting.opportunity(description, c, state) is Some,
        state.variance.finite(),
        state.variance.positive(),
    ensures
        ({
            let o = setting.opportunity(description, c, state)->0;
            let (u, span) = (one_in_units(), FRACTION_SPAN as int);
            &&& o.market_id == c.market_id
            &&& o.description == description
            &&& o.platform == c.platform
            &&& o.side == c.side
            &&& o.hours_to_expiry == c.hours_to_expiry
            &&& o.threshold == c.threshold
            &&& o.expiry_time == c.expiry_time
            &&& span * size(100 * o.market_price.scaled() - c.ask_cents * u) <= c.ask_cents * u
                + 100 * span
            &&& span * size(100 * o.liquidity_usd.scaled() - c.size_cents * u) <= c.size_cents * u
                + 100 * span
            &&& o.ev_pct == expected(o.estimated_probability, o.market_price, o.fee_pct)
            &&& o.kelly_size_usd == kelly(
                o.estimated_probability,
                o.market_price,
                setting.capital,
                setting.kelly,
            )
            &&& o.recommended_size_usd == o.kelly_size_usd || o.recommended_size_usd
                == o.liquidity_usd
            &&& c.platform == Platform::Polymarket ==> o.fee_pct == zero_value()
            &&& o.confidence.finite() ==> span * size(
                o.confidence.scaled() * state.variance.scaled() - u * u,
            ) <= u * u + span * state.variance.scaled()
        }),
{
    lemma_one();
    law_cents_are_hundredths(c.ask_cents as int);
    law_cents_are_hundredths(c.size_cents as int);
    let o = setting.opportunity(description, c, state)->0;
    if o.confidence.finite() {
        lemma_quotient_accuracy(one_value(), state.variance);
        let u = one_in_units();
        assert(u * u > 0) by (nonlinear_arith)
            requires
                u > 0,
        ;
    }
}

/// A side on Polymarket that is no opportunity falls short of a rule: it is not likely enough, or
/// its expected value is too low, or fees below none are asked for. On Kalshi the fee may also be
/// too high.
pub proof fn law_a_side_is_passed_over_for_a_reason(
    setting: Setting,
    description: Seq<char>,
    c: Candidate,
    state: KalmanState,
    probability: Binary64,
    fee: Binary64,
)
    requires
        setting.opportunity(description, c, state) is None,
        c.side == Side::Yes ==> probability == state.estimate,
        c.side == Side::No ==> probability == one_value().minus(state.estimate),
        c.platform == Platform::Kalshi ==> fee == super::sizing::kalshi_fee(c.ask_cents),
        c.platform == Platform::Polymarket ==> fee == zero_value(),
    ensures
        ({
            let price = price_of_cents(c.ask_cents as int);
            let size_usd = kelly(probability, price, setting.capital, setting.kelly);
            ||| probability.less(c.threshold)
            ||| setting.config.max_kalshi_fee_pct.less(fee)
            ||| expected(probability, price, fee).less(
                setting.config.min_ev(size_usd, setting.capital),
            )
        }),
{
}

/// What a platform asks for a side, and how much of it there is.
pub open spec fn quote_of(market: MarketSnapshot, platform: Platform) -> Quote {
    match platform {
        Platform::Kalshi => market.kalshi,
        Platform::Polymarket => market.poly,
    }
}

/// Whether a side of a market is on offer on a platform that is enabled.
pub open spec fn is_offered(
    config: GrindingConfig,
    market: MarketSnapshot,
    platform: Platform,
    side: Side,
) -> bool {
    let quote = quote_of(market, platform);
    &&& match platform {
        Platform::Kalshi => config.enable_kalshi,
        Platform::Polymarket => config.enable_polymarket,
    }
    &&& match side {
        Side::Yes => quote.yes_ask > 0 && quote.yes_size > 0,
        Side::No => quote.no_ask > 0 && quote.no_size > 0,
    }
}

/// A side that is looked at carries the ask and the size of its own platform and side, and the
/// threshold of the hours that are left to its market; and it is on offer on a platform that is
/// enabled.
pub proof fn law_sides_carry_their_own_quotes(
    config: GrindingConfig,
    market_id: u16,
    market: MarketSnapshot,
    expiry: Option<Timestamp>,
    now: Timestamp,
    i: int,
)
    requires
        0 <= i < sides_of_market(config, market_id, market, expiry, now).len(),
    ensures
        ({
            let c = sides_of_market(config, market_id, market, expiry, now)[i];
            let quote = quote_of(market, c.platform);
            &&& c.market_id == market_id
            &&& c.expiry_time == expiry
            &&& is_offered(config, market, c.platform, c.side)
            &&& c.side == Side::Yes ==> c.ask_cents == quote.yes_ask && c.size_cents
                == quote.yes_size
            &&& c.side == Side::No ==> c.ask_cents == quote.no_ask && c.size_cents == quote.no_size
            &&& counted_hours(config, expiry, now) == Some(c.hours_to_expiry)
            &&& c.threshold == config.threshold(c.hours_to_expiry)
        }),
{
}

/// Every side of a market that is on offer is looked at, once, as long as the market is a pair
/// that expires soon enough.
pub proof fn law_every_side_on_offer_is_looked_at(
    config: GrindingConfig,
    market_id: u16,
    market: MarketSnapshot,
    expiry: Option<Timestamp>,
    now: Timestamp,
    platform: Platform,
    side: Side,
) -> (i: int)
    requires
        market.pair is Some,
        counted_hours(config, expiry, now) is Some,
        is_offered(config, market, platform, side),
    ensures
        ({
            let sides = sides_of_market(config, market_id, market, expiry, now);
            &&& 0 <= i < sides.len()
            &&& sides[i].platform == platform
            &&& sides[i].side == side
            &&& forall|k: int|
                0 <= k < sides.len() && k != i ==> (#[trigger] sides[k]).platform != platform
                    || sides[k].side != side
        }),
{
    let before: int = if platform == Platform::Polymarket && config.enable_kalshi {
        (if is_offered(config, market, Platform::Kalshi, Side::Yes) {
            1int
        } else {
            0
        }) + (if is_offered(config, market, Platform::Kalshi, Side::No) {
            1int
        } else {
            0
        })
    } else {
        0
    };
    let own: int = if side == Side::No && is_offered(config, market, platform, Side::Yes) {
        1
    } else {
        0
    };
    before + own
}

/// An opportunity is found only where the liquidity that it shows is as much as is asked for.
pub proof fn law_opportunities_are_liquid(
    setting: Setting,
    filters: Map<u16, KalmanFilter>,
    description: Seq<char>,
    c: Candidate,
)
    requires
        !setting.config.min_liquidity_usd.nan(),
    ensures
        setting.evaluation(filters, description, c) matches Some(o) ==> o.liquidity_usd.scaled()
            >= setting.config.min_liquidity_usd.scaled(),
        price_of_cents(c.size_cents as int).scaled() < setting.config.min_liquidity_usd.scaled()
            ==> setting.evaluation(filters, description, c) is None && setting.filters_after(
            filters,
            c,
        ) == filters,
        price_of_cents(c.size_cents as int).scaled() >= setting.config.min_liquidity_usd.scaled()
            ==> setting.filters_after(filters, c).contains_key(c.market_id),
{
    law_cents_are_hundredths(c.size_cents as int);
}

} // verus!
