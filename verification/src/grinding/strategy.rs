//! The grinding strategy: which sides of which markets are looked at, and which of them are
//! opportunities.
use super::config::{GrindingConfig, KellyConfig, Platform, Side};
use super::ranking::{rank, ranked, views, GrindingOpportunity, OpportunityView};
use super::sizing::{
    expected, expected_value, kalshi_fee, kalshi_fee_pct, kelly, kelly_size,
};
use crate::binary64::numbers::D_1_005;
use crate::binary64::{one, one_value, zero, zero_value, Binary64};
use crate::kalman::filter::{hours_of_minutes, hours_until};
use crate::kalman::{KalmanConfig, KalmanFilter, KalmanState, MarketFilterMap};
use crate::market::{cents_to_price, price_of_cents, MarketSnapshot, PriceCents, Quote, NO_PRICE};
use crate::time::{cut_div, seconds_apart, Timestamp};
use std::collections::HashMap;
use vstd::prelude::*;

verus! {

broadcast use vstd::std_specs::hash::group_hash_axioms;

// ---------------------------------------------------------------------------
// Sides that are looked at
// ---------------------------------------------------------------------------

/// A side of a market that is looked at.
#[derive(Debug, Clone, Copy, PartialEq, Eq, Structural)]
pub struct Candidate {
    pub market_id: u16,
    pub platform: Platform,
    pub side: Side,
    pub ask_cents: PriceCents,
    pub size_cents: u16,
    pub hours_to_expiry: Binary64,
    pub threshold: Binary64,
    pub expiry_time: Option<Timestamp>,
}

/// Whether a side is on offer.
pub open spec fn on_offer(ask: PriceCents, size: u16) -> bool {
    ask != NO_PRICE && size > 0
}

/// The hours to expiry that count: those that are left, where some are left and not too many,
/// or the largest number where the expiry is not known.
pub open spec fn counted_hours(
    config: GrindingConfig,
    expiry: Option<Timestamp>,
    now: Timestamp,
) -> Option<Binary64> {
    match expiry {
        Some(time) => {
            let hours = hours_of_minutes(cut_div(seconds_apart(time@, now@), 60));
            if hours.at_most(zero_value()) || config.max_hours_to_expiry.less(hours) {
                None
            } else {
                Some(hours)
            }
        },
        None => Some(config.max_hours_to_expiry),
    }
}

/// The sides of a quote that are on offer, the yes side first.
pub open spec fn sides_on_offer(
    config: GrindingConfig,
    market_id: u16,
    platform: Platform,
    quote: Quote,
    hours: Binary64,
    expiry: Option<Timestamp>,
) -> Seq<Candidate> {
    let yes = Candidate {
        market_id,
        platform,
        side: Side::Yes,
        ask_cents: quote.yes_ask,
        size_cents: quote.yes_size,
        hours_to_expiry: hours,
        threshold: config.threshold(hours),
        expiry_time: expiry,
    };
    let no = Candidate {
        side: Side::No,
        ask_cents: quote.no_ask,
        size_cents: quote.no_size,
        ..yes
    };
    let first = if on_offer(quote.yes_ask, quote.yes_size) {
        seq![yes]
    } else {
        seq![]
    };
    if on_offer(quote.no_ask, quote.no_size) {
        first.push(no)
    } else {
        first
    }
}

/// The sides of a market that are looked at: those of Kalshi, then those of Polymarket, as far
/// as the platforms are enabled.
pub open spec fn sides_of_market(
    config: GrindingConfig,
    market_id: u16,
    market: MarketSnapshot,
    expiry: Option<Timestamp>,
    now: Timestamp,
) -> Seq<Candidate> {
    if market.pair is None || counted_hours(config, expiry, now) is None {
        seq![]
    } else {
        let hours = counted_hours(config, expiry, now)->0;
        let kalshi = if config.enable_kalshi {
            sides_on_offer(config, market_id, Platform::Kalshi, market.kalshi, hours, expiry)
        } else {
            seq![]
        };
        let poly = if config.enable_polymarket {
            sides_on_offer(config, market_id, Platform::Polymarket, market.poly, hours, expiry)
        } else {
            seq![]
        };
        kalshi + poly
    }
}

/// The expiry of a market, if it is known.
pub open spec fn expiry_of(expiries: Map<u16, Timestamp>, market_id: u16) -> Option<Timestamp> {
    if expiries.contains_key(market_id) {
        Some(expiries[market_id])
    } else {
        None
    }
}

/// Nanoseconds in a second.
pub const NANOS_PER_SEC: u64 = 1_000_000_000;

/// Whether a market was traded less than the cooldown ago, in whole seconds.
pub open spec fn cooling_down(
    last_trades: Map<u16, u64>,
    market_id: u16,
    cooldown_secs: u64,
    clock: u64,
) -> bool {
    &&& last_trades.contains_key(market_id)
    &&& (if clock > last_trades[market_id] {
        (clock - last_trades[market_id]) / NANOS_PER_SEC as int
    } else {
        0
    }) < cooldown_secs
}

/// Whether a scan looks at a market: it is not cooling down, it is a pair, and it expires soon
/// enough.
pub open spec fn is_looked_at(
    config: GrindingConfig,
    last_trades: Map<u16, u64>,
    market_id: u16,
    market: MarketSnapshot,
    expiry: Option<Timestamp>,
    now: Timestamp,
    clock: u64,
) -> bool {
    &&& !cooling_down(last_trades, market_id, config.trade_cooldown_secs, clock)
    &&& market.pair is Some
    &&& counted_hours(config, expiry, now) is Some
}

/// Whether the hours of the configuration bound a range, which every market that is looked at
/// needs for its threshold.
pub open spec fn has_thresholds(
    config: GrindingConfig,
    last_trades: Map<u16, u64>,
    markets: Seq<MarketSnapshot>,
    expiries: Map<u16, Timestamp>,
    now: Timestamp,
    clock: u64,
) -> bool {
    config.wf() || forall|i: int|
        0 <= i < markets.len() ==> !is_looked_at(
            config,
            last_trades,
            i as u16,
            #[trigger] markets[i],
            expiry_of(expiries, i as u16),
            now,
            clock,
        )
}

/// The sides of the first `count` markets that are looked at.
pub open spec fn sides_of_markets(
    config: GrindingConfig,
    last_trades: Map<u16, u64>,
    markets: Seq<MarketSnapshot>,
    expiries: Map<u16, Timestamp>,
    now: Timestamp,
    clock: u64,
    count: nat,
) -> Seq<Candidate>
    decreases count,
{
    if count == 0 {
        seq![]
    } else {
        let id = (count - 1) as u16;
        let front = sides_of_markets(
            config,
            last_trades,
            markets,
            expiries,
            now,
            clock,
            (count - 1) as nat,
        );
        if cooling_down(last_trades, id, config.trade_cooldown_secs, clock) {
            front
        } else {
            front + sides_of_market(config, id, markets[id as int], expiry_of(expiries, id), now)
        }
    }
}

fn push_sides(
    sides: &mut Vec<Candidate>,
    config: &GrindingConfig,
    market_id: u16,
    platform: Platform,
    quote: &Quote,
    hours: Binary64,
    expiry: Option<Timestamp>,
)
    requires
        config.wf(),
    ensures
        final(sides)@ == old(sides)@ + sides_on_offer(
            *config,
            market_id,
            platform,
            *quote,
            hours,
            expiry,
        ),
{
    let threshold = config.dynamic_threshold(&hours);
    if quote.yes_ask != NO_PRICE && quote.yes_size > 0 {
        sides.push(
            Candidate {
                market_id,
                platform,
                side: Side::Yes,
                ask_cents: quote.yes_ask,
                size_cents: quote.yes_size,
                hours_to_expiry: hours,
                threshold,
                expiry_time: expiry,
            },
        );
    }
    if quote.no_ask != NO_PRICE && quote.no_size > 0 {
        sides.push(
            Candidate {
                market_id,
                platform,
                side: Side::No,
                ask_cents: quote.no_ask,
                size_cents: quote.no_size,
                hours_to_expiry: hours,
                threshold,
                expiry_time: expiry,
            },
        );
    }
    assert(sides@ =~= old(sides)@ + sides_on_offer(
        *config,
        market_id,
        platform,
        *quote,
        hours,
        expiry,
    ));
}

fn push_market(
    sides: &mut Vec<Candidate>,
    config: &GrindingConfig,
    market_id: u16,
    market: &MarketSnapshot,
    expiry: Option<Timestamp>,
    now: &Timestamp,
)
    requires
        market.pair is Some && counted_hours(*config, expiry, *now) is Some ==> config.wf(),
    ensures
        final(sides)@ == old(sides)@ + sides_of_market(*config, market_id, *market, expiry, *now),
{
    let ghost before = sides@;
    let hours = match &expiry {
        Some(time) => {
            let hours = hours_until(time, now);
            if hours.le(&zero()) || hours.gt(&config.max_hours_to_expiry) {
                None
            } else {
                Some(hours)
            }
        },
        None => Some(config.max_hours_to_expiry),
    };
    if market.pair.is_some() {
        if let Some(hours) = hours {
            if config.enable_kalshi {
                let platform = Platform::Kalshi;
                push_sides(sides, config, market_id, platform, &market.kalshi, hours, expiry);
            }
            if config.enable_polymarket {
                let platform = Platform::Polymarket;
                push_sides(sides, config, market_id, platform, &market.poly, hours, expiry);
            }
        }
    }
    assert(sides@ =~= before + sides_of_market(*config, market_id, *market, expiry, *now));
}

// ---------------------------------------------------------------------------
// Evaluation
// ---------------------------------------------------------------------------

/// What every side of a scan is judged by.
#[derive(Debug, Clone, Copy, PartialEq, Eq, Structural)]
pub struct Setting {
    pub config: GrindingConfig,
    pub kelly: KellyConfig,
    pub kalman: KalmanConfig,
    pub capital: Binary64,
    pub now: Timestamp,
}

impl Setting {
    /// The filters once a market has an estimate: a market without a filter gets one from the
    /// price that was seen.
    pub open spec fn with_estimate(
        self,
        filters: Map<u16, KalmanFilter>,
        market_id: u16,
        price: Binary64,
        hours: Binary64,
    ) -> Map<u16, KalmanFilter> {
        if filters.contains_key(market_id) {
            filters
        } else {
            filters.insert(
                market_id,
                KalmanFilter {
                    state: KalmanState::initial(price, self.kalman, self.now).updated(
                        price,
                        self.kalman.measurement_noise,
                        hours,
                        self.kalman,
                        self.now,
                    ),
                },
            )
        }
    }

    /// The opportunity that a side is, given the state of the filter of its market: it is likely
    /// enough, the fee is tolerable and the expected value is high enough for its size.
    pub open spec fn opportunity(
        self,
        description: Seq<char>,
        c: Candidate,
        state: KalmanState,
    ) -> Option<OpportunityView> {
        let price = price_of_cents(c.ask_cents as int);
        let liquidity = price_of_cents(c.size_cents as int);
        let probability = match c.side {
            Side::Yes => state.estimate,
            Side::No => one_value().minus(state.estimate),
        };
        let fee = match c.platform {
            Platform::Kalshi => kalshi_fee(c.ask_cents),
            Platform::Polymarket => zero_value(),
        };
        let ev = expected(probability, price, fee);
        let size = kelly(probability, price, self.capital, self.kelly);
        if probability.less(c.threshold) || self.config.max_kalshi_fee_pct.less(fee) || ev.less(
            self.config.min_ev(size, self.capital),
        ) {
            None
        } else {
            Some(
                OpportunityView {
                    market_id: c.market_id,
                    description,
                    platform: c.platform,
                    side: c.side,
                    market_price: price,
                    liquidity_usd: liquidity,
                    estimated_probability: probability,
                    hours_to_expiry: c.hours_to_expiry,
                    threshold: c.threshold,
                    ev_pct: ev,
                    kelly_size_usd: size,
                    recommended_size_usd: size.smaller(liquidity),
                    fee_pct: fee,
                    expiry_time: c.expiry_time,
                    confidence: one_value().over(state.variance),
                },
            )
        }
    }

    /// Whether enough is on offer.
    pub open spec fn liquid(self, c: Candidate) -> bool {
        !price_of_cents(c.size_cents as int).less(self.config.min_liquidity_usd)
    }

    /// Whether looking at a side starts a filter for its market.
    pub open spec fn starts_filter(self, filters: Map<u16, KalmanFilter>, c: Candidate) -> bool {
        self.liquid(c) && !filters.contains_key(c.market_id)
    }

    /// The filters after a side has been looked at.
    pub open spec fn filters_after(
        self,
        filters: Map<u16, KalmanFilter>,
        c: Candidate,
    ) -> Map<u16, KalmanFilter> {
        if self.liquid(c) {
            self.with_estimate(
                filters,
                c.market_id,
                price_of_cents(c.ask_cents as int),
                c.hours_to_expiry,
            )
        } else {
            filters
        }
    }

    /// The opportunity that a side is, if it is one.
    pub open spec fn evaluation(
        self,
        filters: Map<u16, KalmanFilter>,
        description: Seq<char>,
        c: Candidate,
    ) -> Option<OpportunityView> {
        if self.liquid(c) {
            self.opportunity(description, c, self.filters_after(filters, c)[c.market_id].state)
        } else {
            None
        }
    }
}

/// The description of a market.
pub open spec fn description_of(markets: Seq<MarketSnapshot>, market_id: u16) -> Seq<char> {
    markets[market_id as int].pair->0.description@
}

/// The opportunities among sides that are looked at one after the other, and the filters
/// afterwards.
pub open spec fn scan(
    setting: Setting,
    markets: Seq<MarketSnapshot>,
    filters: Map<u16, KalmanFilter>,
    sides: Seq<Candidate>,
) -> (Seq<OpportunityView>, Map<u16, KalmanFilter>)
    decreases sides.len(),
{
    if sides.len() == 0 {
        (seq![], filters)
    } else {
        let c = sides.last();
        let (found, before) = scan(setting, markets, filters, sides.drop_last());
        let after = setting.filters_after(before, c);
        match setting.evaluation(before, description_of(markets, c.market_id), c) {
            Some(opportunity) => (found.push(opportunity), after),
            None => (found, after),
        }
    }
}

// ---------------------------------------------------------------------------
// Strategy
// ---------------------------------------------------------------------------

/// Request to execute a grinding trade.
#[derive(Debug, Clone)]
pub struct GrindingExecutionRequest {
    /// Market identifier
    pub market_id: u16,
    /// Platform to execute on
    pub platform: Platform,
    /// Side to buy
    pub side: Side,
    /// Maximum price to pay (limit)
    pub max_price: Binary64,
    /// Number of contracts to buy
    pub contracts: Binary64,
    /// Expected value percentage
    pub ev_pct: Binary64,
    /// Detection timestamp
    pub detected_at: Timestamp,
    /// Token address (for Polymarket)
    pub token_address: Option<String>,
    /// Market ticker (for Kalshi)
    pub market_ticker: Option<String>,
}

impl GrindingExecutionRequest {
    /// Whether the request buys an opportunity: as many contracts as the recommended size pays
    /// for, at no more than half a percent above the price, by token on Polymarket and by ticker
    /// on Kalshi.
    pub open spec fn buys(
        self,
        opportunity: GrindingOpportunity,
        market: MarketSnapshot,
        now: Timestamp,
    ) -> bool {
        let pair = market.pair->0;
        &&& self.market_id == opportunity.market_id
        &&& self.platform == opportunity.platform
        &&& self.side == opportunity.side
        &&& self.max_price == opportunity.market_price.times(Binary64::of_bits(D_1_005))
        &&& self.contracts == opportunity.recommended_size_usd.over(opportunity.market_price)
        &&& self.ev_pct == opportunity.ev_pct
        &&& self.detected_at == now
        &&& match opportunity.platform {
            Platform::Polymarket => {
                &&& self.token_address matches Some(token) && token@ == (match opportunity.side {
                    Side::Yes => pair.poly_yes_token@,
                    Side::No => pair.poly_no_token@,
                })
                &&& self.market_ticker is None
            },
            Platform::Kalshi => {
                &&& self.token_address is None
                &&& self.market_ticker matches Some(ticker) && ticker@ == pair.kalshi_market_ticker@
            },
        }
    }
}

/// High-probability grinding strategy scanner.
#[derive(Debug)]
pub struct GrindingStrategy {
    config: GrindingConfig,
    kelly_config: KellyConfig,
    kalman_filters: MarketFilterMap,
    last_trades: HashMap<u16, u64>,
}

impl GrindingStrategy {
    /// The configuration.
    pub closed spec fn configuration(self) -> GrindingConfig {
        self.config
    }

    /// The sizing.
    pub closed spec fn sizing(self) -> KellyConfig {
        self.kelly_config
    }

    /// The filters of the markets.
    pub closed spec fn filters(self) -> MarketFilterMap {
        self.kalman_filters
    }

    /// The time of the last trade of each market, on the clock of the cooldown.
    pub closed spec fn trades(self) -> Map<u16, u64> {
        self.last_trades@
    }

    /// What the sides of a scan are judged by.
    pub open spec fn setting(self, capital: Binary64, now: Timestamp) -> Setting {
        Setting {
            config: self.configuration(),
            kelly: self.sizing(),
            kalman: self.filters().configuration(),
            capital,
            now,
        }
    }

    /// Create a new grinding strategy.
    pub fn new(config: GrindingConfig, kalman_config: Option<KalmanConfig>) -> (r: Self)
        ensures
            r.configuration() == config,
            r.sizing() == KellyConfig::of(config),
            r.filters()@ == crate::kalman::filter_map::no_filters(),
            kalman_config matches Some(k) ==> r.filters().configuration() == k,
            kalman_config is None ==> r.filters().configuration() == KalmanConfig::usual(),
            r.trades() == Map::<u16, u64>::empty(),
    {
        let kalman = match kalman_config {
            Some(k) => k,
            None => KalmanConfig::default(),
        };
        GrindingStrategy {
            config,
            kelly_config: KellyConfig::from_grinding(&config),
            kalman_filters: MarketFilterMap::new(kalman),
            last_trades: HashMap::new(),
        }
    }

    /// Get the Kalman filter map.
    pub fn kalman_filters(&self) -> (r: &MarketFilterMap)
        ensures
            *r == self.filters(),
    {
        &self.kalman_filters
    }

    /// Get the Kalman filter map for external probability updates.
    pub fn kalman_filters_mut(&mut self) -> (r: &mut MarketFilterMap)
        ensures
            *r == old(self).filters(),
            final(self).filters() == *final(r),
            final(self).configuration() == old(self).configuration(),
            final(self).sizing() == old(self).sizing(),
            final(self).trades() == old(self).trades(),
    {
        &mut self.kalman_filters
    }

    /// Update probability estimate from price observation.
    pub fn update_probability(
        &mut self,
        market_id: u16,
        price: &Binary64,
        hours_to_expiry: &Binary64,
        now: Timestamp,
    ) -> (r: Binary64)
        requires
            old(self).filters().configuration().wf(),
            old(self).filters().filter_of(market_id, *price, now).state.update_count < u64::MAX,
        ensures
            ({
                let config = old(self).filters().configuration();
                let state = old(self).filters().filter_of(market_id, *price, now).state.updated(
                    *price,
                    config.measurement_noise,
                    *hours_to_expiry,
                    config,
                    now,
                );
                &&& final(self).filters()@ == old(self).filters()@.insert(
                    market_id,
                    KalmanFilter { state },
                )
                &&& r == state.estimate
            }),
            final(self).filters().configuration() == old(self).filters().configuration(),
            final(self).configuration() == old(self).configuration(),
            final(self).sizing() == old(self).sizing(),
            final(self).trades() == old(self).trades(),
    {
        self.kalman_filters.update(market_id, price, hours_to_expiry, now)
    }

    /// Check if market is in cooldown period.
    pub fn is_in_cooldown(&self, market_id: u16, clock: u64) -> (r: bool)
        ensures
            r == cooling_down(
                self.trades(),
                market_id,
                self.configuration().trade_cooldown_secs,
                clock,
            ),
    {
        match self.last_trades.get(&market_id) {
            Some(last) => {
                let elapsed: u64 = if clock > *last {
                    (clock - *last) / NANOS_PER_SEC
                } else {
                    0
                };
                elapsed < self.config.trade_cooldown_secs
            },
            None => false,
        }
    }

    /// Record a trade for cooldown tracking.
    pub fn record_trade(&mut self, market_id: u16, clock: u64)
        ensures
            final(self).trades() == old(self).trades().insert(market_id, clock),
            final(self).configuration() == old(self).configuration(),
            final(self).sizing() == old(self).sizing(),
            final(self).filters() == old(self).filters(),
    {
        self.last_trades.insert(market_id, clock);
    }

    fn sides(
        &self,
        markets: &Vec<MarketSnapshot>,
        market_expiries: &HashMap<u16, Timestamp>,
        now: &Timestamp,
        clock: u64,
    ) -> (sides: Vec<Candidate>)
        requires
            markets.len() <= 0x1_0000,
            has_thresholds(
                self.configuration(),
                self.trades(),
                markets@,
                market_expiries@,
                *now,
                clock,
            ),
        ensures
            sides@ == sides_of_markets(
                self.configuration(),
                self.trades(),
                markets@,
                market_expiries@,
                *now,
                clock,
                markets@.len(),
            ),
            forall|i: int|
                0 <= i < sides.len() ==> (#[trigger] sides[i]).market_id < markets.len()
                    && markets[sides[i].market_id as int].pair is Some,
    {
        let mut sides: Vec<Candidate> = Vec::new();
        let mut i: usize = 0;
        while i < markets.len()
            invariant
                i <= markets.len() <= 0x1_0000,
                has_thresholds(
                    self.configuration(),
                    self.trades(),
                    markets@,
                    market_expiries@,
                    *now,
                    clock,
                ),
                sides@ == sides_of_markets(
                    self.configuration(),
                    self.trades(),
                    markets@,
                    market_expiries@,
                    *now,
                    clock,
                    i as nat,
                ),
                forall|k: int|
                    0 <= k < sides.len() ==> (#[trigger] sides[k]).market_id < markets.len()
                        && markets[sides[k].market_id as int].pair is Some,
            decreases markets.len() - i,
        {
            let market_id: u16 = i as u16;
            let ghost before = sides@;
            if !self.is_in_cooldown(market_id, clock) {
                let expiry = match market_expiries.get(&market_id) {
                    Some(time) => Some(*time),
                    None => None,
                };
                push_market(&mut sides, &self.config, market_id, &markets[i], expiry, now);
                proof {
                    lemma_sides_belong_to_the_market(
                        self.config,
                        market_id,
                        markets[i as int],
                        expiry,
                        *now,
                    );
                    let added = sides_of_market(
                        self.config,
                        market_id,
                        markets[i as int],
                        expiry,
                        *now,
                    );
                    assert forall|k: int| 0 <= k < sides.len() implies (
                    #[trigger] sides[k]).market_id < markets.len()
                        && markets[sides[k].market_id as int].pair is Some by {
                        if k < before.len() {
                            assert(sides[k] == before[k]);
                        } else {
                            assert(sides[k] == added[k - before.len()]);
                        }
                    }
                }
            }
            i += 1;
        }
        sides
    }

    /// Evaluate a single market/side for grinding opportunity. A market without a filter gets
    /// one from the price that is seen.
    pub fn evaluate_opportunity(
        &mut self,
        description: &str,
        c: &Candidate,
        capital: &Binary64,
        now: Timestamp,
    ) -> (r: Option<GrindingOpportunity>)
        requires
            old(self).setting(*capital, now).starts_filter(old(self).filters()@, *c) ==> old(
                self,
            ).filters().configuration().wf(),
        ensures
            ({
                let setting = old(self).setting(*capital, now);
                &&& final(self).filters()@ == setting.filters_after(old(self).filters()@, *c)
                &&& match setting.evaluation(old(self).filters()@, description@, *c) {
                    Some(opportunity) => r is Some && r->0@ == opportunity,
                    None => r is None,
                }
            }),
            final(self).filters().configuration() == old(self).filters().configuration(),
            final(self).configuration() == old(self).configuration(),
            final(self).sizing() == old(self).sizing(),
            final(self).trades() == old(self).trades(),
    {
        let market_price = cents_to_price(c.ask_cents);
        let liquidity_usd = cents_to_price(c.size_cents);
        if liquidity_usd.lt(&self.config.min_liquidity_usd) {
            return None;
        }
        let known = self.kalman_filters.state(c.market_id);
        let state = match known {
            Some(state) => state,
            None => {
                let _estimate = self.kalman_filters.update(
                    c.market_id,
                    &market_price,
                    &c.hours_to_expiry,
                    now,
                );
                match self.kalman_filters.state(c.market_id) {
                    Some(state) => state,
                    None => {
                        return None;
                    },
                }
            },
        };
        let probability = match c.side {
            Side::Yes => state.estimate,
            Side::No => one().sub(&state.estimate),
        };
        if probability.lt(&c.threshold) {
            return None;
        }
        let fee_pct = match c.platform {
            Platform::Kalshi => kalshi_fee_pct(c.ask_cents),
            Platform::Polymarket => zero(),
        };
        if fee_pct.gt(&self.config.max_kalshi_fee_pct) {
            return None;
        }
        let ev_pct = expected_value(&probability, &market_price, &fee_pct);
        let kelly_size_usd = kelly_size(&probability, &market_price, capital, &self.kelly_config);
        let min_ev = self.config.dynamic_min_ev(&kelly_size_usd, capital);
        if ev_pct.lt(&min_ev) {
            return None;
        }
        Some(
            GrindingOpportunity {
                market_id: c.market_id,
                description: description.to_string(),
                platform: c.platform,
                side: c.side,
                market_price,
                liquidity_usd,
                estimated_probability: probability,
                hours_to_expiry: c.hours_to_expiry,
                threshold: c.threshold,
                ev_pct,
                kelly_size_usd,
                recommended_size_usd: kelly_size_usd.min(&liquidity_usd),
                fee_pct,
                expiry_time: c.expiry_time,
                confidence: state.confidence(),
            },
        )
    }

    /// Scan all markets for grinding opportunities, the best one first.
    pub fn scan_markets(
        &mut self,
        markets: &Vec<MarketSnapshot>,
        capital: &Binary64,
        market_expiries: &HashMap<u16, Timestamp>,
        now: Timestamp,
        clock: u64,
    ) -> (r: Vec<GrindingOpportunity>)
        requires
            markets.len() <= 0x1_0000,
            has_thresholds(
                old(self).configuration(),
                old(self).trades(),
                markets@,
                market_expiries@,
                now,
                clock,
            ),
            old(self).filters().configuration().wf() || forall|i: int|
                0 <= i < sides_of_markets(
                    old(self).configuration(),
                    old(self).trades(),
                    markets@,
                    market_expiries@,
                    now,
                    clock,
                    markets@.len(),
                ).len() ==> !old(self).setting(*capital, now).starts_filter(
                    old(self).filters()@,
                    #[trigger] sides_of_markets(
                        old(self).configuration(),
                        old(self).trades(),
                        markets@,
                        market_expiries@,
                        now,
                        clock,
                        markets@.len(),
                    )[i],
                ),
        ensures
            ({
                let sides = sides_of_markets(
                    old(self).configuration(),
                    old(self).trades(),
                    markets@,
                    market_expiries@,
                    now,
                    clock,
                    markets@.len(),
                );
                let (found, filters) = scan(
                    old(self).setting(*capital, now),
                    markets@,
                    old(self).filters()@,
                    sides,
                );
                &&& views(r@) == ranked(found)
                &&& final(self).filters()@ == filters
            }),
            final(self).filters().configuration() == old(self).filters().configuration(),
            final(self).configuration() == old(self).configuration(),
            final(self).sizing() == old(self).sizing(),
            final(self).trades() == old(self).trades(),
    {
        let sides = self.sides(markets, market_expiries, &now, clock);
        let ghost setting = self.setting(*capital, now);
        let ghost filters = self.filters()@;
        let mut found: Vec<GrindingOpportunity> = Vec::new();
        let mut i: usize = 0;
        assert(sides@.take(0) =~= seq![]);
        assert(views(found@) =~= seq![]);
        while i < sides.len()
            invariant
                i <= sides.len(),
                forall|k: int|
                    0 <= k < sides.len() ==> (#[trigger] sides[k]).market_id < markets.len()
                        && markets[sides[k].market_id as int].pair is Some,
                setting == self.setting(*capital, now),
                self.filters().configuration().wf() || forall|k: int|
                    0 <= k < sides.len() ==> !setting.starts_filter(
                        self.filters()@,
                        #[trigger] sides[k],
                    ),
                self.filters().configuration() == old(self).filters().configuration(),
                self.configuration() == old(self).configuration(),
                self.sizing() == old(self).sizing(),
                self.trades() == old(self).trades(),
                (views(found@), self.filters()@) == scan(
                    setting,
                    markets@,
                    filters,
                    sides@.take(i as int),
                ),
            decreases sides.len() - i,
        {
            let c = sides[i];
            let ghost before = found@;
            assert(sides@.take(i + 1).drop_last() =~= sides@.take(i as int));
            assert(sides@.take(i + 1).last() == c);
            if let Some(pair) = &markets[c.market_id as usize].pair {
                if let Some(opportunity) = self.evaluate_opportunity(
                    &pair.description,
                    &c,
                    capital,
                    now,
                ) {
                    let ghost view = opportunity@;
                    found.push(opportunity);
                    assert(views(found@) =~= views(before).push(view));
                }
            }
            i += 1;
        }
        assert(sides@.take(sides.len() as int) =~= sides@);
        rank(found)
    }

    /// Create an execution request from an opportunity: none where its market is not known.
    pub fn create_execution_request(
        &self,
        opportunity: &GrindingOpportunity,
        markets: &Vec<MarketSnapshot>,
        now: Timestamp,
    ) -> (r: Option<GrindingExecutionRequest>)
        ensures
            r is Some <==> opportunity.market_id < markets.len()
                && markets[opportunity.market_id as int].pair is Some,
            r matches Some(request) ==> request.buys(
                *opportunity,
                markets[opportunity.market_id as int],
                now,
            ),
    {
        if opportunity.market_id as usize >= markets.len() {
            return None;
        }
        match &markets[opportunity.market_id as usize].pair {
            Some(pair) => {
                let (token_address, market_ticker) = match opportunity.platform {
                    Platform::Polymarket => {
                        let token = match opportunity.side {
                            Side::Yes => pair.poly_yes_token.clone(),
                            Side::No => pair.poly_no_token.clone(),
                        };
                        (Some(token), None)
                    },
                    Platform::Kalshi => (None, Some(pair.kalshi_market_ticker.clone())),
                };
                Some(
                    GrindingExecutionRequest {
                        market_id: opportunity.market_id,
                        platform: opportunity.platform,
                        side: opportunity.side,
                        max_price: opportunity.market_price.mul(&Binary64::from_bits(D_1_005)),
                        contracts: opportunity.recommended_size_usd.div(&opportunity.market_price),
                        ev_pct: opportunity.ev_pct,
                        detected_at: now,
                        token_address,
                        market_ticker,
                    },
                )
            },
            None => None,
        }
    }
}

proof fn lemma_sides_belong_to_the_market(
    config: GrindingConfig,
    market_id: u16,
    market: MarketSnapshot,
    expiry: Option<Timestamp>,
    now: Timestamp,
)
    ensures
        forall|i: int|
            0 <= i < sides_of_market(config, market_id, market, expiry, now).len() ==> (
            #[trigger] sides_of_market(config, market_id, market, expiry, now)[i]).market_id
                == market_id,
        sides_of_market(config, market_id, market, expiry, now).len() > 0 ==> market.pair is Some,
{
}

// ---------------------------------------------------------------------------
// Laws
// ---------------------------------------------------------------------------

/// A market that was just traded is not looked at until the cooldown is over.
pub proof fn law_a_traded_market_cools_down(
    trades: Map<u16, u64>,
    market_id: u16,
    other: u16,
    cooldown_secs: u64,
    traded_at: u64,
    clock: u64,
)
    requires
        traded_at <= clock,
    ensures
        ({
            let after = trades.insert(market_id, traded_at);
            &&& cooling_down(after, market_id, cooldown_secs, clock) <==> clock - traded_at
                < cooldown_secs * NANOS_PER_SEC
            &&& other != market_id ==> cooling_down(after, other, cooldown_secs, clock)
                == cooling_down(trades, other, cooldown_secs, clock)
        }),
{
    let elapsed = (clock - traded_at) / NANOS_PER_SEC as int;
    assert(elapsed < cooldown_secs <==> clock - traded_at < cooldown_secs * NANOS_PER_SEC)
        by (nonlinear_arith)
        requires
            elapsed == (clock - traded_at) / 1_000_000_000int,
            NANOS_PER_SEC == 1_000_000_000int,
    ;
}

/// Every opportunity meets the rules: its side is likely enough, its fee is tolerable, its
/// expected value is high enough for its size, and no more is recommended than is on offer.
pub proof fn law_opportunities_meet_the_rules(
    setting: Setting,
    description: Seq<char>,
    c: Candidate,
    state: KalmanState,
)
    requires
        setting.opportunity(description, c, state) is Some,
    ensures
        ({
            let o = setting.opportunity(description, c, state)->0;
            &&& !o.estimated_probability.less(o.threshold)
            &&& !setting.config.max_kalshi_fee_pct.less(o.fee_pct)
            &&& !o.ev_pct.less(setting.config.min_ev(o.kelly_size_usd, setting.capital))
            &&& !o.liquidity_usd.nan() ==> !o.liquidity_usd.less(o.recommended_size_usd)
            &&& !o.kelly_size_usd.nan() ==> !o.kelly_size_usd.less(o.recommended_size_usd)
        }),
{
}

/// Looking at a side never changes the filter of a market that has one, and never the filter
/// of another market.
pub proof fn law_known_filters_are_kept(
    setting: Setting,
    filters: Map<u16, KalmanFilter>,
    c: Candidate,
    market_id: u16,
)
    requires
        filters.contains_key(market_id),
    ensures
        setting.filters_after(filters, c).contains_key(market_id),
        setting.filters_after(filters, c)[market_id] == filters[market_id],
{
}

} // verus!
