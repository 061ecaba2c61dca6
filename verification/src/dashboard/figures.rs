//! What the figures of the dashboard stand for, in exact arithmetic. Numbers stand for their
//! values in units.
use super::state::{
    cents_of, percent_of, DashboardState, DashboardStats, OpenPosition, PositionsSummary,
};
use crate::binary64::accuracy::{
    law_truncation_goes_towards_zero, lemma_percentage, lemma_product_accuracy,
    lemma_quotient_accuracy, lemma_size_of_product, lemma_whole_difference, lemma_whole_number,
};
use crate::binary64::arithmetic::one_in_units;
use crate::binary64::errors::{lemma_product_up_to_a_hundred, size};
use crate::binary64::numbers::D_100;
use crate::binary64::ranges::{
    law_quotient_bounds, lemma_hundred, lemma_one, lemma_units,
    lemma_units_in_unit_range,
};
use crate::binary64::{Binary64, FRACTION_SPAN};
use vstd::prelude::*;

verus! {

/// A part of a whole in percent is a hundred times their quotient, up to rounding; of a whole that
/// is not positive every part is nothing.
pub proof fn law_percent_is_a_hundredth(part: Binary64, whole: Binary64)
    requires
        part.finite(),
        whole.finite(),
        part.over(whole).finite(),
        percent_of(part, whole).finite(),
    ensures
        ({
            let (r, w, exact) = (
                percent_of(part, whole).scaled(),
                whole.scaled(),
                part.scaled() * one_in_units(),
            );
            &&& w > 0 ==> FRACTION_SPAN * size(r * w - 100 * exact) <= 300 * size(exact) + 200 * (
            FRACTION_SPAN * w)
            &&& w <= 0 ==> r == 0
        }),
{
    lemma_one();
    lemma_units(whole);
    if whole.scaled() > 0 {
        lemma_percentage(part, whole);
    }
}

/// The drawdown is what the capital is below its high-water mark, in percent of the mark:
/// `100 * (mark - capital) / mark`, up to rounding.
pub proof fn law_drawdown_is_measured_from_the_mark(state: DashboardState)
    requires
        state.wf(),
        0 < state.high_water_mark_cents < FRACTION_SPAN,
    ensures
        ({
            let (u, span) = (one_in_units(), FRACTION_SPAN as int);
            let (high, current) = (
                state.high_water_mark_cents as int,
                state.current_capital_cents as int,
            );
            let d = state.drawdown_percent().scaled();
            &&& state.drawdown_percent().finite()
            &&& span * size(d * high - 100 * ((high - current) * u)) <= 300 * ((high - current) * u)
                + 200 * (span * high)
        }),
{
    let (u, span) = (one_in_units(), FRACTION_SPAN as int);
    lemma_one();
    lemma_hundred();
    let (h, c) = (state.high_water_mark_cents as int, state.current_capital_cents as int);
    let (high, current) = (Binary64::of_int(h), Binary64::of_int(c));
    lemma_whole_number(h);
    lemma_whole_number(c);
    lemma_whole_difference(h, c);
    let part = high.minus(current);
    lemma_units(part);
    lemma_units(high);
    assert((h - c) * u <= h * u && 0 <= (h - c) * u && h * u > 0) by (nonlinear_arith)
        requires
            0 <= c <= h,
            h > 0,
            u > 0,
    ;
    law_quotient_bounds(part, high);
    let q = part.over(high);
    lemma_units_in_unit_range(q);
    lemma_units(q);
    let hundred = Binary64::of_bits(D_100);
    lemma_units(hundred);
    assert(q.units() * hundred.units() <= 100 * u * u) by (nonlinear_arith)
        requires
            0 <= q.units() <= u,
            hundred.units() == 100 * u,
            u > 0,
    ;
    lemma_product_up_to_a_hundred(q, hundred);
    lemma_percentage(part, high);
    let (x, v) = ((h - c) * u, q.times(hundred).scaled());
    let off = v * h - 100 * x;
    assert(v * (h * u) - 100 * (x * u) == off * u) by (nonlinear_arith)
        requires
            off == v * h - 100 * x,
    ;
    lemma_size_of_product(off, u);
    lemma_size_of_product(x, u);
    let (m, y) = (size(off), size(x));
    assert(span * m <= 300 * y + 200 * (span * h)) by (nonlinear_arith)
        requires
            span * (m * u) <= 300 * (y * u) + 200 * (span * (h * u)),
            u > 0,
    ;
}

/// The cents of an amount are a hundred times its dollars, cut off, up to rounding; a negative
/// amount has none.
pub proof fn law_cents_are_a_hundred_per_dollar(dollars: Binary64)
    requires
        dollars.finite(),
        dollars.times(Binary64::of_bits(D_100)).finite(),
        dollars.scaled() <= 0x1_0000_0000_0000 * one_in_units(),
    ensures
        ({
            let (u, span) = (one_in_units(), FRACTION_SPAN as int);
            let (c, d) = (cents_of(dollars), dollars.scaled());
            &&& d <= 0 ==> c == 0
            &&& d >= 0 ==> {
                &&& span * (c * u) <= 100 * (span * d) + 100 * d + span
                &&& span * ((c + 1) * u) > 100 * (span * d) - 100 * d - span
            }
        }),
{
    let (u, span) = (one_in_units(), FRACTION_SPAN as int);
    lemma_one();
    lemma_hundred();
    let hundred = Binary64::of_bits(D_100);
    let product = dollars.times(hundred);
    lemma_units(dollars);
    lemma_units(hundred);
    lemma_units(product);
    lemma_product_accuracy(dollars, hundred);
    crate::binary64::ranges::law_product_sign(hundred, dollars);
    crate::binary64::arithmetic::lemma_times_commutes(hundred, dollars);
    law_truncation_goes_towards_zero(product);
    let (d, x, c) = (dollars.scaled(), product.scaled(), product.truncated());
    let off = x - 100 * d;
    assert(x * u - d * (100 * u) == off * u) by (nonlinear_arith)
        requires
            off == x - 100 * d,
    ;
    assert(d * (100 * u) == (100 * d) * u) by (nonlinear_arith);
    lemma_size_of_product(off, u);
    lemma_size_of_product(100 * d, u);
    let (m, y) = (size(off), size(100 * d));
    assert(span * m <= y + span) by (nonlinear_arith)
        requires
            span * (m * u) <= y * u + span * u,
            u > 0,
    ;
    assert((c + 1) * u == c * u + u) by (nonlinear_arith);
    if d <= 0 {
        assert(c <= 0) by (nonlinear_arith)
            requires
                c * u - u < x,
                x <= 0,
                u > 0,
        ;
    } else {
        assert(0 <= c <= u64::MAX) by (nonlinear_arith)
            requires
                c * u <= x < c * u + u,
                0 <= x <= 0x200_0000_0000_0000 * u,
                u > 0,
        ;
    }
}

/// A displayed position shows what a matched pair cost and what the pairs are sure to earn, also in
/// percent of their cost.
pub proof fn law_a_displayed_position_shows_its_figures(position: OpenPosition)
    requires
        position.total_cost.finite(),
        position.matched_contracts.finite(),
        position.matched_contracts.positive(),
        position.displayed().entry_price.finite(),
    ensures
        ({
            let (u, shown) = (one_in_units(), position.displayed());
            let (cost, n) = (position.total_cost.scaled(), position.matched_contracts.scaled());
            &&& FRACTION_SPAN * size(shown.entry_price.scaled() * n - cost * u) <= size(cost * u)
                + FRACTION_SPAN * n
            &&& shown.current_price.scaled() == u
            &&& shown.quantity == position.matched_contracts
            &&& shown.pnl == position.guaranteed_profit
            &&& shown.pnl_percent == percent_of(position.guaranteed_profit, position.total_cost)
            &&& shown.id == position.market_id@
            &&& shown.market == position.description@
        }),
{
    lemma_one();
    lemma_quotient_accuracy(position.total_cost, position.matched_contracts);
}

/// The stats show the three capitals of the state, and the profits of the tracker in percent of the
/// starting capital; every position is open or resolved.
pub proof fn law_the_stats_show_state_and_tracker(
    stats: DashboardStats,
    state: DashboardState,
    summary: PositionsSummary,
)
    requires
        stats.sums_up(state, summary),
        summary.open_positions + summary.resolved_positions < 0x1_0000_0000,
    ensures
        stats.current_capital == crate::market::price_of_cents(state.current_capital_cents as int),
        stats.starting_capital == crate::market::price_of_cents(
            state.starting_capital_cents as int,
        ),
        stats.high_water_mark == crate::market::price_of_cents(state.high_water_mark_cents as int),
        stats.today_pnl == summary.daily_pnl,
        stats.all_time_pnl == summary.all_time_pnl,
        stats.today_pnl_percent == percent_of(stats.today_pnl, stats.starting_capital),
        stats.all_time_pnl_percent == percent_of(stats.all_time_pnl, stats.starting_capital),
        stats.total_trades == summary.open_positions + summary.resolved_positions,
        stats.open_positions_count == summary.open_positions,
        stats.open_positions_value == summary.total_cost_basis,
        stats.drawdown_percent == percent_of(
            stats.high_water_mark.minus(stats.current_capital),
            stats.high_water_mark,
        ),
{
}

} // verus!
