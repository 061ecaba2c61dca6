//! What the figures of alerts stand for, in exact arithmetic, and which alerts are let through.
//! Numbers stand for their values in units.
use super::alert::{growth_rate, level_of_result, profit_rate, win_rate, AlertType};
use super::config::DiscordConfig;
use super::level::AlertLevel;
use crate::binary64::accuracy::{
    lemma_difference_accuracy, lemma_moderate_product, lemma_percentage, lemma_size_of_product,
    lemma_whole_number,
};
use crate::binary64::arithmetic::one_in_units;
use crate::binary64::errors::{lemma_quotient_shrinks, size};
use crate::binary64::numbers::D_100;
use crate::binary64::ranges::{lemma_hundred, lemma_one, lemma_order_of_patterns, lemma_units};
use crate::binary64::{Binary64, FRACTION_SPAN};
use vstd::prelude::*;

verus! {

/// The win rate is the share of the trades that won, in percent: `100 * wins / trades`, up to
/// rounding; without trades it is zero.
pub proof fn law_win_rate_is_the_share_of_wins(trades_count: i32, win_count: i32)
    requires
        win_count >= 0,
    ensures
        ({
            let (u, span) = (one_in_units(), FRACTION_SPAN as int);
            let r = win_rate(trades_count, win_count).scaled();
            let (wins, trades) = (win_count as int, trades_count as int);
            &&& trades <= 0 ==> r == 0
            &&& trades > 0 ==> span * size(r * trades - 100 * (wins * u)) <= 300 * (wins * u) + 200
                * (span * trades)
        }),
{
    let (u, span) = (one_in_units(), FRACTION_SPAN as int);
    lemma_one();
    lemma_hundred();
    if trades_count > 0 {
        let (w, t) = (win_count as int, trades_count as int);
        let (wins, trades) = (Binary64::of_int(w), Binary64::of_int(t));
        let hundred = Binary64::of_bits(D_100);
        lemma_whole_number(w);
        lemma_whole_number(t);
        lemma_units(wins);
        lemma_units(trades);
        lemma_units(hundred);
        assert(t * u >= u && w * u >= 0 && w * u <= 0x8000_0000 * u) by (nonlinear_arith)
            requires
                t >= 1,
                0 <= w <= 0x8000_0000,
                u > 0,
        ;
        lemma_quotient_shrinks(wins, trades);
        let q = wins.over(trades);
        lemma_units(q);
        lemma_order_of_patterns(q.magnitude(), wins.magnitude());
        let (x, y) = (q.units(), hundred.units());
        assert(x * y <= (0x100_0000_0000 * u) * u) by (nonlinear_arith)
            requires
                0 <= x <= 0x8000_0000 * u,
                y == 100 * u,
                u > 0,
        ;
        lemma_moderate_product(q, hundred, 0x100_0000_0000);
        lemma_percentage(wins, trades);
        let v = q.times(hundred).scaled();
        let n = w * u;
        let off = v * t - 100 * n;
        assert(v * (t * u) - 100 * (n * u) == off * u) by (nonlinear_arith)
            requires
                off == v * t - 100 * n,
        ;
        lemma_size_of_product(off, u);
        lemma_size_of_product(n, u);
        let (m, k) = (size(off), size(n));
        assert(span * m <= 300 * k + 200 * (span * t)) by (nonlinear_arith)
            requires
                span * (m * u) <= 300 * (k * u) + 200 * (span * (t * u)),
                u > 0,
        ;
    }
}

/// The profit rate is the profit in percent of the capital, up to rounding.
pub proof fn law_profit_rate_is_the_share_of_the_capital(profit: Binary64, capital: Binary64)
    requires
        profit.finite(),
        capital.finite(),
        capital.positive(),
        profit.over(capital).finite(),
        profit_rate(profit, capital).finite(),
    ensures
        ({
            let (r, c, exact) = (
                profit_rate(profit, capital).scaled(),
                capital.scaled(),
                profit.scaled() * one_in_units(),
            );
            FRACTION_SPAN * size(r * c - 100 * exact) <= 300 * size(exact) + 200 * (FRACTION_SPAN
                * c)
        }),
{
    lemma_one();
    lemma_percentage(profit, capital);
}

/// The growth rate is what the capital grew by, in percent of what it started with, up to
/// rounding: positive only where it ended higher than it started.
pub proof fn law_growth_rate_is_the_share_that_was_gained(starting: Binary64, ending: Binary64)
    requires
        starting.finite(),
        starting.positive(),
        ending.finite(),
        ending.minus(starting).finite(),
        ending.minus(starting).over(starting).finite(),
        growth_rate(starting, ending).finite(),
    ensures
        ({
            let (r, s) = (growth_rate(starting, ending).scaled(), starting.scaled());
            let gained = (ending.scaled() - starting.scaled()) * one_in_units();
            FRACTION_SPAN * size(r * s - 100 * gained) <= 1000 * size(gained) + 200 * (
            FRACTION_SPAN * s)
        }),
{
    lemma_one();
    let part = ending.minus(starting);
    lemma_difference_accuracy(ending, starting);
    lemma_percentage(part, starting);
    let (u, span) = (one_in_units(), FRACTION_SPAN as int);
    let (x, d) = (ending.scaled() - starting.scaled(), part.scaled());
    let (xu, du, eu) = (x * u, d * u, (d - x) * u);
    assert(du == xu + eu) by (nonlinear_arith)
        requires
            du == d * u,
            xu == x * u,
            eu == (d - x) * u,
    ;
    lemma_size_of_product(x, u);
    lemma_size_of_product(d - x, u);
    let (mx, me) = (size(x), size(d - x));
    assert(span * (me * u) <= 2 * (mx * u)) by (nonlinear_arith)
        requires
            span * me <= 2 * mx,
            u > 0,
    ;
    assert(span * size(eu) <= 2 * size(xu));
}

/// A loss is a warning, and a profit is not; what went well is never reported as a loss.
pub proof fn law_losses_are_warnings(amount: Binary64)
    requires
        !amount.nan(),
    ensures
        level_of_result(amount) == AlertLevel::Warning <==> amount.scaled() < 0,
        level_of_result(amount) == AlertLevel::Info <==> amount.scaled() >= 0,
{
    lemma_one();
}

/// The title of a closed position tells a profit from a loss, as its level does.
pub proof fn law_a_closed_position_tells_its_result(alert: AlertType)
    requires
        alert is PositionClosed,
        !alert->PositionClosed_pnl_usd.nan(),
    ensures
        alert.level() == AlertLevel::Warning <==> alert.title_text() == "Position Closed (Loss)"@,
        alert.level() == AlertLevel::Info <==> alert.title_text() == "Position Closed (Profit)"@,
{
    lemma_one();
    reveal_strlit("Position Closed (Loss)");
    reveal_strlit("Position Closed (Profit)");
    assert("Position Closed (Loss)"@.len() != "Position Closed (Profit)"@.len());
}

/// A warning is more severe than an information, and a critical alert more than both.
pub proof fn law_severity_rises()
    ensures
        AlertLevel::Info.severity() < AlertLevel::Warning.severity(),
        AlertLevel::Warning.severity() < AlertLevel::Critical.severity(),
{
}

/// Each switch of the configuration holds back alerts of its own kind and no others; an alert that
/// is severe enough and whose kind is not switched off is let through.
pub proof fn law_each_switch_is_for_its_own_kind(
    config: DiscordConfig,
    level: AlertLevel,
    alert: AlertType,
)
    requires
        level == AlertLevel::Critical || config.min_alert_level == AlertLevel::Info || level
            == config.min_alert_level,
    ensures
        alert is TradeExecuted ==> config.admits(level, alert) == config.alert_on_trades,
        alert is OpportunityFound ==> config.admits(level, alert) == config.alert_on_opportunities,
        alert is Error ==> config.admits(level, alert) == config.alert_on_errors,
        alert is DailySummary ==> config.admits(level, alert) == config.send_daily_summary,
        alert is PositionClosed || alert is CircuitBreakerTriggered || alert is SystemStartup
            || alert is SystemShutdown || alert is Custom ==> config.admits(level, alert),
{
}

} // verus!
