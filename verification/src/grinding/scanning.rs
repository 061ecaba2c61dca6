//! What a scan looks at and what it finds.
use super::config::GrindingConfig;
use super::ranking::OpportunityView;
use super::strategy::{
    cooling_down, counted_hours, description_of, expiry_of, scan, sides_of_market,
    sides_of_markets, Candidate, Setting,
};
use crate::binary64::arithmetic::one_in_units;
use crate::binary64::errors::{epsilon, lemma_epsilon, size};
use crate::binary64::numbers::D_60;
use crate::binary64::ranges::{lemma_one, lemma_units, lemma_with_sign};
use crate::binary64::rounding::{lemma_nearest, nearest};
use crate::binary64::{zero_value, Binary64, FRACTION_SPAN};
use crate::kalman::blend::law_update_is_the_blend;
use crate::kalman::filter::{hours_of_minutes, law_an_hour_has_sixty_minutes, lemma_zero_and_one};
use crate::kalman::{KalmanFilter, KalmanState};
use crate::market::MarketSnapshot;
use crate::time::{cut_div, law_cutting_goes_towards_zero, seconds_apart, Timestamp};
use vstd::prelude::*;

verus! {

// ---------------------------------------------------------------------------
// Markets
// ---------------------------------------------------------------------------

/// A scan looks at every side of every market that is not cooling down, and at no side of one
/// that is.
pub proof fn law_markets_are_looked_at_unless_they_cool_down(
    config: GrindingConfig,
    last_trades: Map<u16, u64>,
    markets: Seq<MarketSnapshot>,
    expiries: Map<u16, Timestamp>,
    now: Timestamp,
    clock: u64,
    count: nat,
    c: Candidate,
)
    requires
        count <= markets.len(),
        count <= 0x1_0000,
    ensures
        sides_of_markets(config, last_trades, markets, expiries, now, clock, count).contains(c)
            <==> {
            &&& c.market_id < count
            &&& !cooling_down(last_trades, c.market_id, config.trade_cooldown_secs, clock)
            &&& sides_of_market(
                config,
                c.market_id,
                markets[c.market_id as int],
                expiry_of(expiries, c.market_id),
                now,
            ).contains(c)
        },
    decreases count,
{
    if count > 0 {
        let id = (count - 1) as u16;
        let less = (count - 1) as nat;
        law_markets_are_looked_at_unless_they_cool_down(
            config,
            last_trades,
            markets,
            expiries,
            now,
            clock,
            less,
            c,
        );
        let front = sides_of_markets(config, last_trades, markets, expiries, now, clock, less);
        let own = sides_of_market(config, id, markets[id as int], expiry_of(expiries, id), now);
        let all = sides_of_markets(config, last_trades, markets, expiries, now, clock, count);
        if !cooling_down(last_trades, id, config.trade_cooldown_secs, clock) {
            assert(all == front + own);
            if front.contains(c) {
                let i = choose|i: int| 0 <= i < front.len() && front[i] == c;
                assert(all[i] == c);
            }
            if own.contains(c) {
                let i = choose|i: int| 0 <= i < own.len() && own[i] == c;
                assert(all[front.len() + i] == c);
            }
            if all.contains(c) {
                let i = choose|i: int| 0 <= i < all.len() && all[i] == c;
                if i < front.len() {
                    assert(front[i] == c);
                } else {
                    assert(own[i - front.len()] == c);
                }
            }
            if own.contains(c) {
                let i = choose|i: int| 0 <= i < own.len() && own[i] == c;
                assert(own[i].market_id == id);
            }
        }
    }
}

/// The hours that count are those to the expiry, where a minute or more is left and no more than
/// the largest number of hours; where the expiry is not known, they are that number.
pub proof fn law_hours_count_until_the_expiry(
    config: GrindingConfig,
    expiry: Timestamp,
    now: Timestamp,
)
    requires
        !config.max_hours_to_expiry.nan(),
        size(seconds_apart(expiry@, now@)) < FRACTION_SPAN,
    ensures
        ({
            let (u, span) = (one_in_units(), FRACTION_SPAN as int);
            let left = seconds_apart(expiry@, now@);
            &&& counted_hours(config, None, now) == Some(config.max_hours_to_expiry)
            &&& left < 60 ==> counted_hours(config, Some(expiry), now) is None
            &&& left >= 60 ==> {
                let minutes = left / 60;
                let hours = hours_of_minutes(minutes);
                &&& span * size(60 * hours.scaled() - minutes * u) <= minutes * u + span * 60
                &&& counted_hours(config, Some(expiry), now) == (if hours.scaled()
                    <= config.max_hours_to_expiry.scaled() {
                    Some(hours)
                } else {
                    None
                })
            }
        }),
{
    lemma_one();
    let left = seconds_apart(expiry@, now@);
    let minutes = cut_div(left, 60);
    law_cutting_goes_towards_zero(left, 60);
    if left >= 60 {
        law_an_hour_has_sixty_minutes(minutes);
        lemma_units(hours_of_minutes(minutes));
    } else {
        assert(minutes <= 0);
        lemma_no_hours(minutes);
    }
}

/// No minutes, and minutes that have passed, are no hours.
proof fn lemma_no_hours(minutes: int)
    requires
        -FRACTION_SPAN < minutes <= 0,
    ensures
        hours_of_minutes(minutes).at_most(zero_value()),
{
    lemma_one();
    lemma_zero_and_one();
    let u = one_in_units();
    let (count, sixty) = (Binary64::of_int(minutes), Binary64::of_bits(D_60));
    if minutes == 0 {
        law_an_hour_has_sixty_minutes(0);
        crate::binary64::accuracy::lemma_whole_number(0);
        lemma_units(count);
        assert(0 * u == 0);
        assert(count.zero());
        assert(sixty.positive()) by {
            crate::binary64::lemma_scaled_magnitude_increases(0, D_60 as int);
        }
        crate::binary64::ranges::law_quotient_bounds(count, sixty);
        lemma_units(count.over(sixty));
    } else {
        crate::binary64::accuracy::lemma_whole_number(-minutes);
        let p = nearest(-minutes * u, 1);
        assert((-minutes) * u == -minutes * u);
        lemma_nearest(-minutes * u, 1);
        lemma_with_sign(false, p);
        lemma_with_sign(true, p);
        lemma_units(count);
        lemma_units(sixty);
        let hours = count.over(sixty);
        assert(sixty.positive() && !sixty.sign() && sixty.finite()) by {
            crate::binary64::lemma_scaled_magnitude_increases(0, D_60 as int);
        }
        let n = count.units() * u;
        assert(n >= 0) by (nonlinear_arith)
            requires
                n == count.units() * u,
                count.units() >= 0,
                u > 0,
        ;
        lemma_nearest(n, sixty.units());
        lemma_with_sign(true, nearest(n, sixty.units()));
        lemma_units(hours);
    }
}

// ---------------------------------------------------------------------------
// Filters
// ---------------------------------------------------------------------------

/// A market without a filter gets one whose estimate is the price that was seen, up to rounding.
pub proof fn law_a_new_filter_starts_at_the_price(
    setting: Setting,
    filters: Map<u16, KalmanFilter>,
    market_id: u16,
    price: Binary64,
    hours: Binary64,
)
    requires
        !filters.contains_key(market_id),
        setting.kalman.sound(),
        setting.kalman.initial_variance.finite(),
        setting.kalman.initial_variance.nonnegative(),
        price.in_unit_range(),
        !hours.nan(),
        KalmanState::initial(price, setting.kalman, setting.now).predicted_variance(
            hours,
            setting.kalman,
        ).plus(setting.kalman.measurement_noise).finite(),
    ensures
        ({
            let after = setting.with_estimate(filters, market_id, price, hours);
            &&& after.contains_key(market_id)
            &&& after[market_id].state.estimate.in_unit_range()
            &&& size(after[market_id].state.estimate.scaled() - price.scaled()) <= 8 * epsilon()
            &&& forall|id: u16|
                id != market_id ==> (after.contains_key(id) <==> #[trigger] filters.contains_key(
                    id,
                )) && (filters.contains_key(id) ==> after[id] == filters[id])
        }),
{
    lemma_one();
    lemma_zero_and_one();
    lemma_epsilon();
    let start = KalmanState::initial(price, setting.kalman, setting.now);
    assert(start.estimate == price);
    law_update_is_the_blend(
        start,
        price,
        setting.kalman.measurement_noise,
        hours,
        setting.kalman,
        setting.now,
    );
    let e = epsilon();
    let p = start.predicted_variance(hours, setting.kalman).scaled();
    let r = setting.kalman.measurement_noise.scaled();
    lemma_units(setting.kalman.measurement_noise);
    let n = setting.with_estimate(filters, market_id, price, hours)[market_id].state.estimate.scaled();
    let z = price.scaled();
    let (d, w) = (n - z, p + r);
    assert(r * (z - z) == 0) by (nonlinear_arith);
    assert(-(8 * e) <= d <= 8 * e) by (nonlinear_arith)
        requires
            -(8 * (e * w)) <= d * w <= 8 * (e * w),
            w > 0,
    ;
}

// ---------------------------------------------------------------------------
// Scans
// ---------------------------------------------------------------------------

/// A scan leaves the filters of all markets that had one as they were.
pub proof fn law_a_scan_keeps_known_filters(
    setting: Setting,
    markets: Seq<MarketSnapshot>,
    filters: Map<u16, KalmanFilter>,
    sides: Seq<Candidate>,
    market_id: u16,
)
    requires
        filters.contains_key(market_id),
    ensures
        scan(setting, markets, filters, sides).1.contains_key(market_id),
        scan(setting, markets, filters, sides).1[market_id] == filters[market_id],
    decreases sides.len(),
{
    if sides.len() > 0 {
        law_a_scan_keeps_known_filters(setting, markets, filters, sides.drop_last(), market_id);
    }
}

/// A scan finds every side that is an opportunity by the estimate that its market already had,
/// described as its market is.
pub proof fn law_a_scan_misses_no_opportunity(
    setting: Setting,
    markets: Seq<MarketSnapshot>,
    filters: Map<u16, KalmanFilter>,
    sides: Seq<Candidate>,
    i: int,
)
    requires
        0 <= i < sides.len(),
        filters.contains_key(sides[i].market_id),
        setting.liquid(sides[i]),
    ensures
        ({
            let c = sides[i];
            let o = setting.opportunity(
                markets[c.market_id as int].pair->0.description@,
                c,
                filters[c.market_id].state,
            );
            o is Some ==> scan(setting, markets, filters, sides).0.contains(o->0)
        }),
    decreases sides.len(),
{
    let c = sides[i];
    let (rest, last) = (sides.drop_last(), sides.last());
    let (found, before) = scan(setting, markets, filters, rest);
    let all = scan(setting, markets, filters, sides).0;
    let o = setting.opportunity(
        description_of(markets, c.market_id),
        c,
        filters[c.market_id].state,
    );
    law_a_scan_keeps_known_filters(setting, markets, filters, rest, c.market_id);
    if o is Some {
        if i < rest.len() {
            assert(rest[i] == c);
            law_a_scan_misses_no_opportunity(setting, markets, filters, rest, i);
            let k = choose|k: int| 0 <= k < found.len() && found[k] == o->0;
            assert(all[k] == o->0);
        } else {
            assert(c == last);
            assert(all == found.push(o->0));
            assert(all[found.len() as int] == o->0);
        }
    }
}

/// Everything that a scan finds is a side that it looked at, on which enough is on offer, under
/// the description of its market.
pub proof fn law_a_scan_finds_only_its_sides(
    setting: Setting,
    markets: Seq<MarketSnapshot>,
    filters: Map<u16, KalmanFilter>,
    sides: Seq<Candidate>,
    o: OpportunityView,
) -> (i: int)
    requires
        scan(setting, markets, filters, sides).0.contains(o),
    ensures
        0 <= i < sides.len(),
        setting.liquid(sides[i]),
        o.market_id == sides[i].market_id,
        o.platform == sides[i].platform,
        o.side == sides[i].side,
        o.threshold == sides[i].threshold,
        o.description == markets[sides[i].market_id as int].pair->0.description@,
    decreases sides.len(),
{
    let (rest, last) = (sides.drop_last(), sides.last());
    let (found, before) = scan(setting, markets, filters, rest);
    let all = scan(setting, markets, filters, sides).0;
    if found.contains(o) {
        let i = law_a_scan_finds_only_its_sides(setting, markets, filters, rest, o);
        assert(rest[i] == sides[i]);
        i
    } else {
        let k = choose|k: int| 0 <= k < all.len() && all[k] == o;
        if k < found.len() {
            assert(found[k] == o);
        }
        sides.len() - 1
    }
}

} // verus!
