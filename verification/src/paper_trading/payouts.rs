//! What fills and resolutions amount to, in exact arithmetic: which leg a fill goes to, what it
//! costs, what it pays, and what it does to the statistics. Numbers stand for their values in
//! units.
use super::executor::PaperOrder;
use super::position::{
    law_guaranteed_profit_is_guaranteed, Leg, PaperPositionLeg, PositionView,
};
use super::simulation::{
    filled_quantity, law_fills_stay_between_the_bounds, slipped_price, Draw, ExecutionFill,
    SimulatedOrderbook, SimulationConfig, Slippage,
};
use super::tracker::{lemma_a_fill_costs_what_it_takes, open_summary, stats_after, PaperStats};
use crate::binary64::accuracy::{
    law_floor_is_below, law_rounding_goes_to_the_nearest, lemma_difference_accuracy,
    lemma_moderate_product, lemma_product_accuracy, lemma_quotient_accuracy, lemma_size_of_product,
    lemma_sum_accuracy, lemma_two, lemma_whole_number,
};
use crate::binary64::arithmetic::one_in_units;
use crate::binary64::errors::{lemma_epsilon, size};
use crate::binary64::monotone::lemma_sum_keeps_bounds;
use crate::binary64::numbers::{D_2, D_99};
use crate::binary64::ranges::{
    law_product_bounds, law_sum_bounds, law_unit_difference_bounds, lemma_adding_nothing,
    lemma_finite_between, lemma_one, lemma_one_more_is_finite, lemma_units,
    lemma_units_in_unit_range,
};
use crate::binary64::rounding::{lemma_pattern_value, pattern};
use crate::binary64::{one_value, zero_value, Binary64, FRACTION_SPAN, ONE_BITS};
use vstd::arithmetic::power2::{lemma2_to64, lemma2_to64_rest, lemma_pow2_adds};
use vstd::prelude::*;

verus! {

impl PositionView {
    /// The leg of a position.
    pub open spec fn leg(self, leg: Leg) -> PaperPositionLeg {
        match leg {
            Leg::KalshiYes => self.kalshi_yes,
            Leg::KalshiNo => self.kalshi_no,
            Leg::PolyYes => self.poly_yes,
            Leg::PolyNo => self.poly_no,
        }
    }

    /// Whether the contracts and the costs of all legs are numbers that are not negative.
    pub open spec fn sound(self) -> bool {
        &&& forall|leg: Leg|
            (#[trigger] self.leg(leg)).contracts.nonnegative() && self.leg(leg).contracts.finite()
                && self.leg(leg).cost_basis.nonnegative() && self.leg(leg).cost_basis.finite()
        &&& self.total_fees.nonnegative() && self.total_fees.finite()
    }
}

impl Leg {
    /// Whether the contracts of the leg pay once the market is resolved.
    pub open spec fn wins(self, yes_won: bool) -> bool {
        match self {
            Leg::KalshiYes | Leg::PolyYes => yes_won,
            Leg::KalshiNo | Leg::PolyNo => !yes_won,
        }
    }
}

/// A fill goes to its own leg: the contracts and the costs of that leg grow, the other legs stay
/// as they were, and the fees are added up. A fill without a leg only costs its fees.
pub proof fn law_a_fill_goes_to_its_leg(
    position: PositionView,
    leg: Option<Leg>,
    other: Leg,
    contracts: Binary64,
    price: Binary64,
    fees: Binary64,
)
    ensures
        ({
            let after = position.filled(leg, contracts, price, fees);
            &&& leg == Some(other) ==> {
                &&& after.leg(other).contracts == position.leg(other).contracts.plus(contracts)
                &&& after.leg(other).cost_basis == position.leg(other).cost_basis.plus(
                    contracts.times(price),
                )
            }
            &&& leg != Some(other) ==> after.leg(other) == position.leg(other)
            &&& after.total_fees == position.total_fees.plus(fees)
            &&& after.market_id == position.market_id
            &&& after.status == position.status
            &&& after.opened_at_secs == position.opened_at_secs
        }),
{
}

/// The words for a platform and a side name the leg of that platform and side, and no two pairs
/// of words name the same leg.
pub proof fn law_words_name_their_leg()
    ensures
        Leg::of("kalshi"@, "yes"@) == Some(Leg::KalshiYes),
        Leg::of("kalshi"@, "no"@) == Some(Leg::KalshiNo),
        Leg::of("polymarket"@, "yes"@) == Some(Leg::PolyYes),
        Leg::of("polymarket"@, "no"@) == Some(Leg::PolyNo),
{
    reveal_strlit("kalshi");
    reveal_strlit("polymarket");
    reveal_strlit("yes");
    reveal_strlit("no");
    assert("kalshi"@.len() != "polymarket"@.len());
    assert("yes"@.len() != "no"@.len());
}

/// A contract pays a dollar where its side wins, and nothing otherwise: the profit of a position
/// after one fill is the contracts less their cost, or the cost alone.
pub proof fn law_a_contract_pays_a_dollar_if_its_side_wins(
    market_id: Seq<char>,
    description: Seq<char>,
    platform: Seq<char>,
    side: Seq<char>,
    contracts: Binary64,
    price: Binary64,
    fees: Binary64,
    now_secs: i64,
    yes_won: bool,
)
    requires
        platform == "kalshi"@ || platform == "polymarket"@,
        side == "yes"@ || side == "no"@,
        contracts.positive(),
        contracts.finite(),
        price.positive(),
        contracts.times(price).finite(),
        fees.finite(),
        fees.nonnegative(),
    ensures
        ({
            let position = PositionView::opened(market_id, description, now_secs).filled(
                Leg::of(platform, side),
                contracts,
                price,
                fees,
            );
            let spent = contracts.times(price).plus(fees);
            let won = side == (if yes_won {
                "yes"@
            } else {
                "no"@
            });
            position.resolved(yes_won).realized_pnl == Some(
                if won {
                    contracts.minus(spent)
                } else {
                    zero_value().minus(spent)
                },
            )
        }),
{
    law_words_name_their_leg();
    reveal_strlit("yes");
    reveal_strlit("no");
    assert("yes"@.len() != "no"@.len());
    lemma_one();
    lemma_units(contracts);
    lemma_a_fill_costs_what_it_takes(
        market_id,
        description,
        Leg::of(platform, side)->0,
        contracts,
        price,
        fees,
        now_secs,
    );
    lemma_adding_nothing(contracts, zero_value());
    lemma_adding_nothing(zero_value(), zero_value());
}

// ---------------------------------------------------------------------------
// Costs and payouts
// ---------------------------------------------------------------------------

/// One more summand in a sum of numbers that are not negative.
proof fn lemma_one_more_summand(a: Binary64, b: Binary64, exact: int, total: int, k: int)
    requires
        a.finite(),
        b.finite(),
        b.nonnegative(),
        a.plus(b).finite(),
        0 <= exact,
        exact + b.scaled() <= total,
        0 <= k <= 16,
        FRACTION_SPAN * size(a.scaled() - exact) <= k * total,
    ensures
        FRACTION_SPAN * size(a.plus(b).scaled() - (exact + b.scaled())) <= (k + 4) * total,
{
    lemma_sum_accuracy(a, b);
    lemma_units(b);
    let span = FRACTION_SPAN as int;
    let (x, y, r) = (a.scaled(), b.scaled(), a.plus(b).scaled());
    let (m, n) = (size(x - exact), size(r - (x + y)));
    assert(k * total <= 16 * total) by (nonlinear_arith)
        requires
            k <= 16,
            total >= 0,
    ;
    assert(m <= total);
    assert(size(x + y) <= 2 * total);
    assert((k + 4) * total == k * total + 4 * total) by (nonlinear_arith);
}

/// What a position cost is the sum of what its four legs cost and of the fees, up to rounding.
pub proof fn law_cost_is_the_sum_of_the_legs(position: PositionView)
    requires
        position.sound(),
        position.cost().finite(),
    ensures
        ({
            let exact = position.leg(Leg::KalshiYes).cost_basis.scaled() + position.leg(
                Leg::KalshiNo,
            ).cost_basis.scaled() + position.leg(Leg::PolyYes).cost_basis.scaled()
                + position.leg(Leg::PolyNo).cost_basis.scaled() + position.total_fees.scaled();
            &&& exact >= 0
            &&& position.cost().nonnegative()
            &&& FRACTION_SPAN * size(position.cost().scaled() - exact) <= 16 * exact
        }),
{
    let (a, b, c, d) = (
        position.leg(Leg::KalshiYes).cost_basis,
        position.leg(Leg::KalshiNo).cost_basis,
        position.leg(Leg::PolyYes).cost_basis,
        position.leg(Leg::PolyNo).cost_basis,
    );
    let f = position.total_fees;
    lemma_one();
    lemma_units(a);
    lemma_units(b);
    lemma_units(c);
    lemma_units(d);
    lemma_units(f);
    let (s1, s2, s3, s4) = (
        a.plus(b),
        a.plus(b).plus(c),
        a.plus(b).plus(c).plus(d),
        position.cost(),
    );
    law_sum_bounds(a, b);
    law_sum_bounds(s1, c);
    law_sum_bounds(s2, d);
    law_sum_bounds(s3, f);
    lemma_finite_between(s3, s4);
    lemma_finite_between(s2, s3);
    lemma_finite_between(s1, s2);
    let total = a.scaled() + b.scaled() + c.scaled() + d.scaled() + f.scaled();
    lemma_one_more_summand(a, b, a.scaled(), total, 0);
    lemma_one_more_summand(s1, c, a.scaled() + b.scaled(), total, 4);
    lemma_one_more_summand(s2, d, a.scaled() + b.scaled() + c.scaled(), total, 8);
    lemma_one_more_summand(s3, f, total - f.scaled(), total, 12);
}

/// The contracts of the legs that win.
pub open spec fn winning_contracts(position: PositionView, yes_won: bool) -> int {
    let of = |leg: Leg|
        if leg.wins(yes_won) {
            position.leg(leg).contracts.scaled()
        } else {
            0
        };
    of(Leg::KalshiYes) + of(Leg::KalshiNo) + of(Leg::PolyYes) + of(Leg::PolyNo)
}

/// A resolved position has earned a dollar for each contract of the legs that win, less what all
/// its legs cost and the fees, up to rounding.
pub proof fn law_a_resolution_pays_the_winning_legs(position: PositionView, yes_won: bool)
    requires
        position.sound(),
        position.cost().finite(),
        position.yes_contracts().finite(),
        position.no_contracts().finite(),
        position.resolved(yes_won).realized_pnl->0.finite(),
    ensures
        ({
            let won = winning_contracts(position, yes_won);
            let cost = position.cost().scaled();
            let pnl = position.resolved(yes_won).realized_pnl->0.scaled();
            &&& position.resolved(yes_won).realized_pnl is Some
            &&& FRACTION_SPAN * size(pnl - (won - cost)) <= 8 * (won + cost)
            &&& position.resolved(yes_won).status == "resolved"@
            &&& position.resolved(yes_won).cost() == position.cost()
        }),
{
    lemma_one();
    law_cost_is_the_sum_of_the_legs(position);
    let cost = position.cost();
    let payout = if yes_won {
        position.yes_contracts()
    } else {
        position.no_contracts()
    };
    let (a, b) = if yes_won {
        (position.leg(Leg::KalshiYes).contracts, position.leg(Leg::PolyYes).contracts)
    } else {
        (position.leg(Leg::KalshiNo).contracts, position.leg(Leg::PolyNo).contracts)
    };
    lemma_units(a);
    lemma_units(b);
    lemma_units(cost);
    lemma_sum_accuracy(a, b);
    lemma_difference_accuracy(payout, cost);
}

// ---------------------------------------------------------------------------
// Legs
// ---------------------------------------------------------------------------

/// The average price of a leg is its cost per contract, up to rounding.
pub proof fn law_the_average_is_the_cost_per_contract(
    leg: PaperPositionLeg,
    contracts: Binary64,
    price: Binary64,
)
    requires
        leg.added(contracts, price).contracts.positive(),
        leg.added(contracts, price).contracts.finite(),
        leg.added(contracts, price).cost_basis.finite(),
        leg.added(contracts, price).avg_price.finite(),
    ensures
        ({
            let after = leg.added(contracts, price);
            let (n, cost, average) = (
                after.contracts.scaled(),
                after.cost_basis.scaled(),
                after.avg_price.scaled(),
            );
            FRACTION_SPAN * size(average * n - cost * one_in_units()) <= size(
                cost * one_in_units(),
            ) + FRACTION_SPAN * n
        }),
{
    lemma_one();
    let after = leg.added(contracts, price);
    lemma_quotient_accuracy(after.cost_basis, after.contracts);
}

/// Contracts that are taken out of a leg take their share of the cost with them: what is taken
/// out and what is left make up what there was, up to rounding, and the average stays.
pub proof fn law_removed_contracts_take_their_cost(leg: PaperPositionLeg, contracts: Binary64)
    requires
        leg.contracts.finite(),
        leg.cost_basis.finite(),
        contracts.positive(),
        contracts.at_most(leg.contracts),
        leg.removed(contracts).1.finite(),
        leg.removed(contracts).0.contracts.finite(),
        leg.removed(contracts).0.cost_basis.finite(),
        leg.avg_price.finite(),
        contracts.finite(),
    ensures
        ({
            let (after, cost) = leg.removed(contracts);
            let (left, spent) = (
                leg.contracts.scaled() - contracts.scaled(),
                leg.cost_basis.scaled() - cost.scaled(),
            );
            let exact = contracts.scaled() * leg.avg_price.scaled();
            &&& FRACTION_SPAN * size(after.contracts.scaled() - left) <= 2 * size(left)
            &&& FRACTION_SPAN * size(after.cost_basis.scaled() - spent) <= 2 * size(spent)
            &&& FRACTION_SPAN * size(cost.scaled() * one_in_units() - exact) <= size(exact)
                + FRACTION_SPAN * one_in_units()
            &&& after.avg_price == leg.avg_price
        }),
{
    lemma_one();
    let cost = leg.removed(contracts).1;
    assert(contracts.smaller(leg.contracts) == contracts);
    assert(!contracts.at_most(zero_value()));
    lemma_difference_accuracy(leg.contracts, contracts);
    lemma_product_accuracy(contracts, leg.avg_price);
    lemma_difference_accuracy(leg.cost_basis, cost);
}

// ---------------------------------------------------------------------------
// Statistics
// ---------------------------------------------------------------------------

/// A trade counts as won where it lost nothing, and as lost otherwise; the profits less the
/// losses change by what the trade earned, up to one rounding; and the peak is the larger of the
/// old peak and the capital.
pub proof fn law_statistics_follow_the_profit(stats: PaperStats, pnl: Binary64, capital: Binary64)
    requires
        stats.winning_trades < u64::MAX,
        stats.losing_trades < u64::MAX,
        pnl.finite(),
        capital.finite(),
        stats.realized_profit.finite(),
        stats.realized_loss.finite(),
        stats_after(stats, pnl, capital).realized_profit.finite(),
        stats_after(stats, pnl, capital).realized_loss.finite(),
        stats.peak_capital.finite(),
    ensures
        ({
            let after = stats_after(stats, pnl, capital);
            let grown = (after.realized_profit.scaled() - stats.realized_profit.scaled()) - (
            after.realized_loss.scaled() - stats.realized_loss.scaled());
            &&& pnl.scaled() >= 0 ==> after.winning_trades == stats.winning_trades + 1
                && after.losing_trades == stats.losing_trades && after.realized_loss
                == stats.realized_loss
            &&& pnl.scaled() < 0 ==> after.losing_trades == stats.losing_trades + 1
                && after.winning_trades == stats.winning_trades && after.realized_profit
                == stats.realized_profit
            &&& FRACTION_SPAN * size(grown - pnl.scaled()) <= 2 * (size(
                stats.realized_profit.scaled(),
            ) + size(stats.realized_loss.scaled()) + size(pnl.scaled()))
            &&& after.peak_capital.scaled() >= stats.peak_capital.scaled()
            &&& after.peak_capital.scaled() >= capital.scaled()
            &&& after.peak_capital == stats.peak_capital || after.peak_capital == capital
            &&& after.started_at_secs == stats.started_at_secs
        }),
{
    lemma_one();
    lemma_units(pnl);
    if pnl.scaled() >= 0 {
        lemma_sum_accuracy(stats.realized_profit, pnl);
    } else {
        let lost = pnl.absolute();
        lemma_units(lost);
        assert(lost.scaled() == -pnl.scaled() && lost.finite());
        lemma_sum_accuracy(stats.realized_loss, lost);
    }
}

/// The largest drawdown is the old one, or the share of the peak that is missing now, whichever
/// is larger. The share is `(peak - capital) / peak`, up to rounding.
pub proof fn law_drawdown_is_the_missing_share_of_the_peak(
    stats: PaperStats,
    pnl: Binary64,
    capital: Binary64,
)
    requires
        capital.finite(),
        capital.nonnegative(),
        stats.peak_capital.finite(),
        stats.peak_capital.positive(),
        !stats.max_drawdown.nan(),
    ensures
        ({
            let after = stats_after(stats, pnl, capital);
            let (peak, c, d) = (
                after.peak_capital.scaled(),
                capital.scaled(),
                after.max_drawdown.scaled(),
            );
            let u = one_in_units();
            &&& d >= stats.max_drawdown.scaled()
            &&& FRACTION_SPAN * (d * peak) >= FRACTION_SPAN * ((peak - c) * u) - 4 * ((peak - c)
                * u) - 2 * FRACTION_SPAN * peak
            &&& after.max_drawdown == stats.max_drawdown || FRACTION_SPAN * (d * peak)
                <= FRACTION_SPAN * ((peak - c) * u) + 4 * ((peak - c) * u) + 2 * FRACTION_SPAN
                * peak
        }),
{
    lemma_one();
    let after = stats_after(stats, pnl, capital);
    let peak = after.peak_capital;
    lemma_units(capital);
    lemma_units(peak);
    crate::binary64::ranges::law_difference_bounds(peak, capital);
    let missing = peak.minus(capital);
    lemma_units(missing);
    lemma_difference_accuracy(peak, capital);
    crate::binary64::ranges::law_quotient_bounds(missing, peak);
    let share = missing.over(peak);
    lemma_units_in_unit_range(share);
    lemma_units(share);
    lemma_quotient_accuracy(missing, peak);
    let (u, span) = (one_in_units(), FRACTION_SPAN as int);
    let (p, c, m, s) = (peak.scaled(), capital.scaled(), missing.scaled(), share.scaled());
    let d = after.max_drawdown.scaled();
    let gap = p - c;
    let (sp, mu, gu) = (s * p, m * u, gap * u);
    assert(mu >= 0 && gu >= 0) by (nonlinear_arith)
        requires
            mu == m * u,
            gu == gap * u,
            m >= 0,
            gap >= 0,
            u > 0,
    ;
    let x = m - gap;
    assert(-(2 * gap) <= span * x <= 2 * gap);
    assert(-(2 * gu) <= span * (x * u) <= 2 * gu) by (nonlinear_arith)
        requires
            -(2 * gap) <= span * x <= 2 * gap,
            gu == gap * u,
            u > 0,
    ;
    assert(mu == gu + x * u) by (nonlinear_arith)
        requires
            mu == m * u,
            gu == gap * u,
            x == m - gap,
    ;
    assert(span * size(sp - mu) <= mu + span * p);
    assert(span * mu <= span * gu + 2 * gu && span * mu >= span * gu - 2 * gu) by (nonlinear_arith)
        requires
            -(2 * gu) <= span * (x * u) <= 2 * gu,
            mu == gu + x * u,
    ;
    assert(mu <= 2 * gu) by (nonlinear_arith)
        requires
            span * mu <= span * gu + 2 * gu,
            span >= 2,
            gu >= 0,
    ;
    assert(span * sp >= span * mu - mu - span * p && span * sp <= span * mu + mu + span * p);
    let sgu = span * gu;
    assert(sgu == span * (gap * u));
    assert(span * p > 0) by (nonlinear_arith)
        requires
            span > 0,
            p > 0,
    ;
    let dp = d * p;
    assert(dp >= sp) by (nonlinear_arith)
        requires
            dp == d * p,
            sp == s * p,
            d >= s,
            p > 0,
    ;
    assert(span * dp >= span * sp) by (nonlinear_arith)
        requires
            dp >= sp,
            span > 0,
    ;
}

// ---------------------------------------------------------------------------
// Simulated prices
// ---------------------------------------------------------------------------

/// Twice the middle price is the bid and the ask together, up to rounding.
pub proof fn law_the_middle_is_halfway(book: SimulatedOrderbook)
    ensures
        ({
            let both = book.best_bid + book.best_ask;
            &&& book.mid().finite()
            &&& book.mid().nonnegative()
            &&& FRACTION_SPAN * size(2 * book.mid().scaled() - both * one_in_units()) <= both
                * one_in_units() + 2 * FRACTION_SPAN
        }),
{
    let (u, span) = (one_in_units(), FRACTION_SPAN as int);
    let (bid, ask) = (book.best_bid as int, book.best_ask as int);
    let (b, a, t) = (Binary64::of_int(bid), Binary64::of_int(ask), Binary64::of_int(bid + ask));
    lemma_one();
    lemma_two();
    lemma_whole_number(bid);
    lemma_whole_number(ask);
    lemma_whole_number(bid + ask);
    assert((bid + ask) * u == bid * u + ask * u) by (nonlinear_arith);
    lemma_sum_keeps_bounds(b, a, t, t);
    let sum = b.plus(a);
    law_sum_bounds(b, a);
    lemma_units(sum);
    lemma_units(t);
    lemma_finite_between(sum, t);
    let two = Binary64::of_bits(D_2);
    lemma_units(two);
    crate::binary64::errors::lemma_quotient_shrinks(sum, two);
    crate::binary64::ranges::law_quotient_bounds(sum, two);
    lemma_quotient_accuracy(sum, two);
    let r = book.mid().scaled();
    let nu = (bid + ask) * u;
    assert(nu >= 0) by (nonlinear_arith)
        requires
            nu == (bid + ask) * u,
            bid + ask >= 0,
            u > 0,
    ;
    let off = 2 * r - nu;
    let exact = r * (2 * u) - nu * u;
    assert(exact == off * u) by (nonlinear_arith)
        requires
            off == 2 * r - nu,
            exact == r * (2 * u) - nu * u,
    ;
    let m = size(off);
    assert(size(exact) == m * u) by (nonlinear_arith)
        requires
            exact == off * u,
            u > 0,
            size(exact) == (if exact < 0 {
                -exact
            } else {
                exact
            }),
            m == (if off < 0 {
                -off
            } else {
                off
            }),
    ;
    assert(nu * u >= 0) by (nonlinear_arith)
        requires
            nu >= 0,
            u > 0,
    ;
    assert(span * m <= nu + 2 * span) by (nonlinear_arith)
        requires
            span * (m * u) <= nu * u + span * (2 * u),
            u > 0,
    ;
}

/// The orderbook around a limit price has it in the middle, with the bid a cent below and the ask
/// a cent above; at the ends it stays between 1 and 99 cents.
pub proof fn law_the_limit_price_is_in_the_middle(price_cents: u16, contracts: i64)
    requires
        price_cents <= 100,
    ensures
        ({
            let book = SimulatedOrderbook::around(price_cents, contracts);
            &&& 2 <= price_cents <= 98 ==> book.best_bid + 1 == price_cents && price_cents + 1
                == book.best_ask
            &&& 1 <= book.best_bid <= 99
            &&& 1 <= book.best_ask <= 99
            &&& book.best_bid <= book.best_ask
            &&& book.bid_size == book.ask_size
            &&& 0 <= contracts <= 655 ==> book.ask_size == 100 * contracts
        }),
{
}

/// Slippage moves a price by that share of it, up for a buyer and down for a seller, up to
/// rounding, as long as the result stays between 1 and 99 cents.
pub proof fn law_slippage_moves_the_price_by_its_share(base: Binary64, slippage: Binary64)
    requires
        base.finite(),
        one_value().at_most(base),
        base.at_most(Binary64::of_bits(D_99)),
        slippage.in_unit_range(),
    ensures
        ({
            let (u, span) = (one_in_units(), FRACTION_SPAN as int);
            let (b, s) = (base.scaled(), slippage.scaled());
            let up = slipped_price(Slippage::Up, base, slippage).scaled();
            let down = slipped_price(Slippage::Down, base, slippage).scaled();
            let top = Binary64::of_bits(D_99).scaled();
            &&& b * (u + s) <= top * u ==> span * size(up * u - b * (u + s)) <= 8 * (b * u) + span
                * u
            &&& u * u <= b * (u - s) ==> span * size(down * u - b * (u - s)) <= 8 * (b * u) + span
                * u
        }),
{
    crate::kalman::filter::lemma_zero_and_one();
    lemma_one();
    lemma_epsilon();
    crate::binary64::lemma_scaled_magnitude_increases(ONE_BITS as int, D_99 as int);
    lemma_units_in_unit_range(slippage);
    lemma_units(slippage);
    lemma_units(base);
    law_sum_bounds(one_value(), slippage);
    lemma_one_more_is_finite(slippage);
    law_unit_difference_bounds(one_value(), slippage);
    let (more, less) = (one_value().plus(slippage), one_value().minus(slippage));
    lemma_units_in_unit_range(less);
    lemma_units(more);
    lemma_units(less);
    lemma_sum_accuracy(one_value(), slippage);
    crate::binary64::accuracy::lemma_difference_accuracy(one_value(), slippage);
    let (u, span) = (one_in_units(), FRACTION_SPAN as int);
    let (b, s) = (base.scaled(), slippage.scaled());
    let top = Binary64::of_bits(D_99);
    lemma_units(top);
    law_product_bounds(base, more);
    law_product_bounds(base, less);
    lemma_units(base.times(more));
    lemma_units(base.times(less));
    crate::binary64::ranges::law_product_grows(base, more);
    lemma_finite_between(base.times(less), base);
    lemma_slipped(base, less, u - s);
    if u * u <= b * (u - s) {
        let r = base.times(less).scaled();
        let shown = slipped_price(Slippage::Down, base, slippage).scaled();
        assert(shown == (if r < u {
            u
        } else {
            r
        }));
        assert(b * (u - s) <= top.scaled() * u) by (nonlinear_arith)
            requires
                0 <= b <= top.scaled(),
                0 <= s <= u,
        ;
        lemma_clamped_is_nearer(r, shown, b * (u - s), u, top.scaled(), 8 * (b * u) + span * u);
    }
    if b * (u + s) <= top.scaled() * u {
        lemma_ninety_nine();
        lemma_up_is_finite(base, more, u + s, top.scaled());
        lemma_slipped(base, more, u + s);
        let r = base.times(more).scaled();
        let shown = slipped_price(Slippage::Up, base, slippage).scaled();
        assert(b * (u + s) >= u * u) by (nonlinear_arith)
            requires
                b >= u,
                s >= 0,
                u > 0,
        ;
        lemma_clamped_is_nearer(r, shown, b * (u + s), u, top.scaled(), 8 * (b * u) + span * u);
    }
}

proof fn lemma_clamped_is_nearer(r: int, shown: int, exact: int, low: int, high: int, most: int)
    requires
        low == one_in_units(),
        low <= high,
        low * low <= exact <= high * low,
        FRACTION_SPAN * size(r * low - exact) <= most,
        shown == (if r < low {
            low
        } else if r > high {
            high
        } else {
            r
        }),
    ensures
        FRACTION_SPAN * size(shown * low - exact) <= most,
{
    lemma_one();
    let (x, y) = (r * low - exact, shown * low - exact);
    assert(size(y) <= size(x)) by (nonlinear_arith)
        requires
            x == r * low - exact,
            y == shown * low - exact,
            size(x) == (if x < 0 {
                -x
            } else {
                x
            }),
            size(y) == (if y < 0 {
                -y
            } else {
                y
            }),
            low > 0,
            low * low <= exact <= high * low,
            shown == (if r < low {
                low
            } else if r > high {
                high
            } else {
                r
            }),
    ;
}

/// The product of a price and a factor whose exact product is at most 99 dollars.
proof fn lemma_up_is_finite(base: Binary64, more: Binary64, exact: int, top: int)
    requires
        base.finite(),
        base.nonnegative(),
        more.finite(),
        more.nonnegative(),
        0 <= exact,
        base.scaled() * exact <= top * one_in_units(),
        top <= 99 * one_in_units(),
        FRACTION_SPAN * size(more.scaled() - exact) <= 2 * exact,
    ensures
        base.times(more).finite(),
{
    lemma_one();
    lemma_units(base);
    lemma_units(more);
    let (u, span) = (one_in_units(), FRACTION_SPAN as int);
    let (b, k) = (base.scaled(), more.scaled());
    let be = b * exact;
    assert(be <= 99 * (u * u)) by (nonlinear_arith)
        requires
            be <= top * u,
            top <= 99 * u,
            u > 0,
    ;
    assert(span * (b * k) <= (span + 2) * be) by (nonlinear_arith)
        requires
            span * size(k - exact) <= 2 * exact,
            size(k - exact) >= k - exact,
            b >= 0,
            be == b * exact,
            span > 0,
    ;
    assert(b * k <= 100 * u * u) by (nonlinear_arith)
        requires
            span * (b * k) <= (span + 2) * be,
            be <= 99 * (u * u),
            be >= 0,
            span >= 1000,
    ;
    crate::binary64::errors::lemma_product_up_to_a_hundred(base, more);
}

proof fn lemma_slipped(base: Binary64, factor: Binary64, exact: int)
    requires
        base.finite(),
        base.nonnegative(),
        factor.finite(),
        factor.nonnegative(),
        base.times(factor).finite(),
        0 <= exact <= 2 * one_in_units(),
        FRACTION_SPAN * size(factor.scaled() - exact) <= 2 * exact,
    ensures
        ({
            let (u, b) = (one_in_units(), base.scaled());
            FRACTION_SPAN * size(base.times(factor).scaled() * u - b * exact) <= 8 * (b * u)
                + FRACTION_SPAN * u
        }),
{
    lemma_one();
    lemma_units(base);
    lemma_units(factor);
    lemma_product_accuracy(base, factor);
    let (u, span) = (one_in_units(), FRACTION_SPAN as int);
    let (b, k, r) = (base.scaled(), factor.scaled(), base.times(factor).scaled());
    let d = k - exact;
    let (bk, bd, bu) = (b * k, b * d, b * u);
    assert(k <= 3 * u) by (nonlinear_arith)
        requires
            span * size(d) <= 2 * exact,
            size(d) >= d,
            d == k - exact,
            exact <= 2 * u,
            span >= 100,
            u > 0,
    ;
    assert(0 <= bk <= 3 * bu) by (nonlinear_arith)
        requires
            bk == b * k,
            bu == b * u,
            b >= 0,
            0 <= k <= 3 * u,
    ;
    assert(span * size(bd) <= 4 * bu) by (nonlinear_arith)
        requires
            bd == b * d,
            bu == b * u,
            span * size(d) <= 2 * exact,
            exact <= 2 * u,
            size(d) == (if d < 0 {
                -d
            } else {
                d
            }),
            size(bd) == (if bd < 0 {
                -bd
            } else {
                bd
            }),
            b >= 0,
            span > 0,
    ;
    let y = r * u - b * exact;
    assert(y == (r * u - bk) + bd) by (nonlinear_arith)
        requires
            y == r * u - b * exact,
            bk == b * k,
            bd == b * d,
            d == k - exact,
    ;
}

/// Ninety-nine.
proof fn lemma_ninety_nine()
    ensures
        Binary64::of_bits(D_99).scaled() == 99 * one_in_units(),
{
    lemma_one();
    lemma_pattern_value(0x18_C000_0000_0000, 1028);
    assert(pattern(0x18_C000_0000_0000, 1028) == D_99);
    lemma2_to64();
    lemma2_to64_rest();
    lemma_pow2_adds(46, 1028);
    lemma_units(Binary64::of_bits(D_99));
}

/// A buy is filled above the middle around its limit price and a sell below it, by the slippage
/// that was drawn.
pub proof fn law_a_buyer_pays_and_a_seller_gives(order: PaperOrder, draw: Draw)
    requires
        2 <= order.price_cents <= 98,
        draw.slippage.in_unit_range(),
    ensures
        ({
            let (u, mid) = (
                one_in_units(),
                SimulatedOrderbook::around(order.price_cents, order.contracts).mid(),
            );
            &&& FRACTION_SPAN * size(mid.scaled() - order.price_cents * u) <= order.price_cents * u
                + FRACTION_SPAN
            &&& order.is_buy ==> order.fill_price(draw) == slipped_price(
                Slippage::Up,
                mid,
                draw.slippage,
            )
            &&& !order.is_buy ==> order.fill_price(draw) == slipped_price(
                Slippage::Down,
                mid,
                draw.slippage,
            )
        }),
{
    let book = SimulatedOrderbook::around(order.price_cents, order.contracts);
    law_the_limit_price_is_in_the_middle(order.price_cents, order.contracts);
    law_the_middle_is_halfway(book);
    let (u, span) = (one_in_units(), FRACTION_SPAN as int);
    let (m, n) = (book.mid().scaled(), order.price_cents as int);
    assert((book.best_bid + book.best_ask) * u == 2 * (n * u)) by (nonlinear_arith)
        requires
            book.best_bid + book.best_ask == 2 * n,
    ;
    let off = m - n * u;
    assert(size(2 * m - 2 * (n * u)) == 2 * size(off));
}

/// An order is filled whole, or by the whole contracts of the share that was drawn: no more than
/// that share, and less than one contract fewer, up to rounding.
pub proof fn law_a_partial_fill_is_the_share_that_was_drawn(
    quantity: i64,
    config: SimulationConfig,
    fill_rate: Binary64,
)
    requires
        0 <= quantity < FRACTION_SPAN,
        fill_rate.in_unit_range(),
    ensures
        ({
            let (u, span) = (one_in_units(), FRACTION_SPAN as int);
            let (q, share) = (
                filled_quantity(quantity, config, fill_rate),
                quantity * fill_rate.scaled(),
            );
            &&& !config.allow_partial_fills ==> q == quantity
            &&& config.allow_partial_fills ==> {
                &&& 0 <= q <= quantity
                &&& span * (q * u) <= span * share + share + span
                &&& span * ((q + 1) * u) > span * share - share - span
            }
        }),
{
    if config.allow_partial_fills {
        lemma_one();
        let (u, span) = (one_in_units(), FRACTION_SPAN as int);
        let count = Binary64::of_int(quantity as int);
        lemma_whole_number(quantity as int);
        lemma_units(count);
        lemma_units_in_unit_range(fill_rate);
        lemma_units(fill_rate);
        law_product_bounds(count, fill_rate);
        let product = count.times(fill_rate);
        lemma_finite_between(product, count);
        lemma_units(product);
        lemma_product_accuracy(count, fill_rate);
        law_floor_is_below(product);
        let (n, f, p, q) = (
            quantity as int,
            fill_rate.scaled(),
            product.scaled(),
            product.floored(),
        );
        let nu = n * u;
        let share = n * f;
        assert(share >= 0) by (nonlinear_arith)
            requires
                share == n * f,
                n >= 0,
                f >= 0,
        ;
        assert(q >= 0 && q <= n) by (nonlinear_arith)
            requires
                q * u <= p < (q + 1) * u,
                0 <= p <= nu,
                nu == n * u,
                u > 0,
        ;
        assert(nu * f == share * u) by (nonlinear_arith)
            requires
                nu == n * u,
                share == n * f,
        ;
        let off = p - share;
        let exact = p * u - nu * f;
        assert(exact == off * u) by (nonlinear_arith)
            requires
                exact == p * u - nu * f,
                nu * f == share * u,
                off == p - share,
        ;
        let m = size(off);
        assert(size(exact) == m * u) by (nonlinear_arith)
            requires
                exact == off * u,
                u > 0,
                size(exact) == (if exact < 0 {
                    -exact
                } else {
                    exact
                }),
                m == (if off < 0 {
                    -off
                } else {
                    off
                }),
        ;
        assert(share * u >= 0) by (nonlinear_arith)
            requires
                share >= 0,
                u > 0,
        ;
        assert(span * m <= share + span) by (nonlinear_arith)
            requires
                span * (m * u) <= share * u + span * u,
                u > 0,
        ;
    }
}

// ---------------------------------------------------------------------------
// Open positions
// ---------------------------------------------------------------------------

/// The summary counts the open positions, and those only: a position that is no longer open
/// changes nothing in it. Of a single open position it shows the cost and the profit of the worse
/// outcome.
pub proof fn law_the_summary_is_of_the_open_positions(
    positions: Seq<PositionView>,
    closed: PositionView,
    open: PositionView,
)
    requires
        closed.status == "resolved"@ || closed.status == "closed"@,
        open.status == "open"@,
        open.cost().finite(),
        open.yes_contracts().finite(),
        open.no_contracts().finite(),
        !open.cost().sign(),
        !open.matched().minus(open.cost()).sign(),
        open.matched().minus(open.cost()).finite(),
    ensures
        open_summary(positions).0 == positions.filter(|p: PositionView| p.status == "open"@).len(),
        open_summary(positions.push(closed)) == open_summary(positions),
        open_summary(seq![open]).0 == 1,
        open_summary(seq![open]).1 == open.cost(),
        open_summary(seq![open]).2 == open.resolved(true).realized_pnl->0.smaller(
            open.resolved(false).realized_pnl->0,
        ),
{
    reveal_strlit("open");
    reveal_strlit("resolved");
    reveal_strlit("closed");
    assert("open"@.len() != "resolved"@.len() && "open"@.len() != "closed"@.len());
    lemma_open_are_counted(positions);
    assert(positions.push(closed).drop_last() =~= positions);
    reveal_with_fuel(open_summary, 2);
    assert(seq![open].drop_last() =~= Seq::<PositionView>::empty());
    lemma_adding_nothing(open.cost(), zero_value());
    lemma_adding_nothing(open.matched().minus(open.cost()), zero_value());
    law_guaranteed_profit_is_guaranteed(open, true);
}

proof fn lemma_open_are_counted(positions: Seq<PositionView>)
    ensures
        open_summary(positions).0 == positions.filter(|p: PositionView| p.status == "open"@).len(),
    decreases positions.len(),
{
    reveal(Seq::filter);
    if positions.len() > 0 {
        lemma_open_are_counted(positions.drop_last());
    }
}

/// The price of a fill in whole cents is at most half a cent off, and its cost is at most half a
/// cent off the contracts times the price, up to rounding; and it tells the platform and the side
/// of its order.
pub proof fn law_a_fill_tells_price_and_cost(
    fill: ExecutionFill,
    order: PaperOrder,
    config: SimulationConfig,
    draw: Draw,
    number: u64,
    timestamp_secs: i64,
)
    requires
        fill.answers(order, config, draw, number, timestamp_secs),
        0 <= fill.filled_contracts < 0x1_0000_0000,
        !order.fill_price(draw).nan(),
    ensures
        ({
            let (u, span) = (one_in_units(), FRACTION_SPAN as int);
            let (n, p) = (fill.filled_contracts as int, order.fill_price(draw).scaled());
            &&& 2 * size(fill.fill_price_cents * u - p) <= u
            &&& 2 * (span * size(fill.fill_cost_cents * u - n * p)) <= 2 * (n * p) + 3 * (span * u)
            &&& u <= p <= 99 * u
            &&& fill.platform@ == order.platform@
            &&& fill.side@ == order.side@
            &&& fill.timestamp_secs == timestamp_secs
            &&& fill.is_simulated
        }),
{
    let (u, span) = (one_in_units(), FRACTION_SPAN as int);
    lemma_one();
    lemma_epsilon();
    lemma_ninety_nine();
    let price = order.fill_price(draw);
    let count = Binary64::of_int(fill.filled_contracts as int);
    law_fills_stay_between_the_bounds(
        if order.is_buy {
            Slippage::Up
        } else {
            Slippage::Down
        },
        SimulatedOrderbook::around(order.price_cents, order.contracts).mid(),
        draw.slippage,
    );
    lemma_units(price);
    lemma_finite_between(price, Binary64::of_bits(D_99));
    lemma_whole_number(fill.filled_contracts as int);
    lemma_units(count);
    let (n, p) = (fill.filled_contracts as int, price.scaled());
    law_rounding_goes_to_the_nearest(price);
    let c = price.rounded();
    assert(0 <= c <= 100) by (nonlinear_arith)
        requires
            2 * size(c * u - p) <= u,
            size(c * u - p) >= c * u - p,
            size(c * u - p) >= p - c * u,
            u <= p <= 99 * u,
            u > 0,
    ;
    assert((n * u) * p <= (0x100_0000_0000 * u) * u) by (nonlinear_arith)
        requires
            0 <= n <= 0x1_0000_0000,
            0 <= p <= 99 * u,
            u > 0,
    ;
    lemma_moderate_product(count, price, 0x100_0000_0000);
    let cost = count.times(price);
    law_product_bounds(count, price);
    lemma_units(cost);
    lemma_product_accuracy(count, price);
    law_rounding_goes_to_the_nearest(cost);
    let (x, k) = (cost.scaled(), cost.rounded());
    let np = n * p;
    assert(np >= 0 && np <= 0x100_0000_0000 * u) by (nonlinear_arith)
        requires
            np == n * p,
            0 <= n <= 0x1_0000_0000,
            0 <= p <= 99 * u,
            u > 0,
    ;
    assert((n * u) * p == np * u) by (nonlinear_arith)
        requires
            np == n * p,
    ;
    let d = x - np;
    assert(x * u - np * u == d * u) by (nonlinear_arith)
        requires
            d == x - np,
    ;
    lemma_size_of_product(d, u);
    lemma_size_of_product(np, u);
    let m = size(d);
    assert(span * m <= np + span) by (nonlinear_arith)
        requires
            span * (m * u) <= np * u + span * u,
            u > 0,
    ;
    assert(m <= np + 1) by (nonlinear_arith)
        requires
            span * m <= np + span,
            span >= 1,
            np >= 0,
            m >= 0,
    ;
    assert(0 <= x <= 0x200_0000_0000 * u + 1);
    assert(0 <= k <= 0x300_0000_0000) by (nonlinear_arith)
        requires
            2 * size(k * u - x) <= u,
            size(k * u - x) >= k * u - x,
            size(k * u - x) >= x - k * u,
            0 <= x <= 0x200_0000_0000 * u + 1,
            u > 1,
    ;
    let off = size(k * u - np);
    assert(off <= size(k * u - x) + m);
    assert(2 * (span * off) <= span * u + 2 * (span * m)) by (nonlinear_arith)
        requires
            2 * off <= u + 2 * m,
            span > 0,
    ;
    assert(span <= span * u) by (nonlinear_arith)
        requires
            u >= 1,
            span > 0,
    ;
}

} // verus!
