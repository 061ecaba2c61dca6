//! Configuration of the grinding strategy, and the thresholds that follow from it.
use crate::binary64::monotone::{
    law_clamping_is_monotone, law_difference_is_monotone, law_product_is_monotone,
    law_quotient_is_monotone, law_sum_is_monotone,
};
use crate::binary64::numbers::{
    D_0_003, D_0_005, D_0_01, D_0_015, D_0_02, D_0_025, D_0_15, D_0_25, D_0_35, D_0_5, D_0_75,
    D_0_88, D_0_9, D_0_93, D_10, D_12, D_24, D_25, D_48, D_5,
};
use crate::binary64::ranges::{
    law_product_bounds, law_quotient_bounds, law_sum_bounds, law_unit_difference_bounds,
    lemma_finite_between, lemma_one, lemma_sum_of_unit_range_is_finite, lemma_units_in_unit_range,
};
use crate::binary64::{one, one_value, zero, zero_value, Binary64, ONE_BITS};
use crate::kalman::filter::lemma_zero_and_one;
use vstd::prelude::*;

verus! {

/// Platform to trade on
#[derive(Debug, Clone, Copy, PartialEq, Eq, Structural)]
pub enum Platform {
    Kalshi,
    Polymarket,
}

impl Platform {
    /// The name of the platform.
    pub open spec fn name(self) -> Seq<char> {
        match self {
            Platform::Kalshi => "KALSHI"@,
            Platform::Polymarket => "POLYMARKET"@,
        }
    }

    /// The name of the platform.
    pub fn label(&self) -> (r: &'static str)
        ensures
            r@ == self.name(),
    {
        match self {
            Platform::Kalshi => "KALSHI",
            Platform::Polymarket => "POLYMARKET",
        }
    }
}

/// Side of the trade.
#[derive(Debug, Clone, Copy, PartialEq, Eq, Structural)]
pub enum Side {
    Yes,
    No,
}

impl Side {
    /// The name of the side.
    pub open spec fn name(self) -> Seq<char> {
        match self {
            Side::Yes => "YES"@,
            Side::No => "NO"@,
        }
    }

    /// The name of the side.
    pub fn label(&self) -> (r: &'static str)
        ensures
            r@ == self.name(),
    {
        match self {
            Side::Yes => "YES",
            Side::No => "NO",
        }
    }
}

/// Configuration for the high-probability grinding strategy.
#[derive(Debug, Clone, Copy, PartialEq, Eq, Structural)]
pub struct GrindingConfig {
    /// Base probability threshold (at max_hours_to_expiry).
    pub base_probability_threshold: Binary64,
    /// Maximum hours until resolution to consider a market.
    pub max_hours_to_expiry: Binary64,
    /// Base minimum expected value percentage.
    pub base_min_ev_pct: Binary64,
    /// Minimum USD liquidity required at target price.
    pub min_liquidity_usd: Binary64,
    /// Kelly criterion multiplier (fraction of full Kelly).
    pub kelly_multiplier: Binary64,
    /// Maximum position size as fraction of capital.
    pub max_position_pct: Binary64,
    /// Minimum position size in USD.
    pub min_position_usd: Binary64,
    /// Whether to trade on Kalshi.
    pub enable_kalshi: bool,
    /// Whether to trade on Polymarket.
    pub enable_polymarket: bool,
    /// Cooldown between trades on same market (seconds).
    pub trade_cooldown_secs: u64,
    /// Maximum Kalshi fee percentage to tolerate.
    pub max_kalshi_fee_pct: Binary64,
}

/// Values that replace those of a configuration, where they are given.
#[derive(Debug, Clone, Copy, PartialEq, Eq, Structural)]
pub struct GrindingOverrides {
    pub base_probability_threshold: Option<Binary64>,
    pub max_hours_to_expiry: Option<Binary64>,
    pub base_min_ev_pct: Option<Binary64>,
    pub min_liquidity_usd: Option<Binary64>,
    pub kelly_multiplier: Option<Binary64>,
    pub max_position_pct: Option<Binary64>,
}

/// A value, or the one that replaces it.
pub open spec fn overridden(value: Binary64, by: Option<Binary64>) -> Binary64 {
    match by {
        Some(v) => v,
        None => value,
    }
}

fn override_value(value: Binary64, by: Option<Binary64>) -> (r: Binary64)
    ensures
        r == overridden(value, by),
{
    match by {
        Some(v) => v,
        None => value,
    }
}

impl GrindingConfig {
    /// The usual configuration.
    pub open spec fn usual() -> Self {
        GrindingConfig {
            base_probability_threshold: Binary64::of_bits(D_0_9),
            max_hours_to_expiry: Binary64::of_bits(D_24),
            base_min_ev_pct: Binary64::of_bits(D_0_005),
            min_liquidity_usd: Binary64::of_bits(D_10),
            kelly_multiplier: Binary64::of_bits(D_0_5),
            max_position_pct: Binary64::of_bits(D_0_25),
            min_position_usd: Binary64::of_bits(ONE_BITS),
            enable_kalshi: true,
            enable_polymarket: true,
            trade_cooldown_secs: 60,
            max_kalshi_fee_pct: Binary64::of_bits(D_0_02),
        }
    }

    /// Create a conservative config for cautious trading.
    pub fn conservative() -> (r: Self)
        ensures
            r == (GrindingConfig {
                base_probability_threshold: Binary64::of_bits(D_0_93),
                max_hours_to_expiry: Binary64::of_bits(D_12),
                base_min_ev_pct: Binary64::of_bits(D_0_01),
                min_liquidity_usd: Binary64::of_bits(D_25),
                kelly_multiplier: Binary64::of_bits(D_0_25),
                max_position_pct: Binary64::of_bits(D_0_15),
                min_position_usd: Binary64::of_bits(D_5),
                enable_kalshi: true,
                enable_polymarket: true,
                trade_cooldown_secs: 120,
                max_kalshi_fee_pct: Binary64::of_bits(D_0_015),
            }),
    {
        GrindingConfig {
            base_probability_threshold: Binary64::from_bits(D_0_93),
            max_hours_to_expiry: Binary64::from_bits(D_12),
            base_min_ev_pct: Binary64::from_bits(D_0_01),
            min_liquidity_usd: Binary64::from_bits(D_25),
            kelly_multiplier: Binary64::from_bits(D_0_25),
            max_position_pct: Binary64::from_bits(D_0_15),
            min_position_usd: Binary64::from_bits(D_5),
            enable_kalshi: true,
            enable_polymarket: true,
            trade_cooldown_secs: 120,
            max_kalshi_fee_pct: Binary64::from_bits(D_0_015),
        }
    }

    /// Create an aggressive config for more frequent trading.
    pub fn aggressive() -> (r: Self)
        ensures
            r == (GrindingConfig {
                base_probability_threshold: Binary64::of_bits(D_0_88),
                max_hours_to_expiry: Binary64::of_bits(D_48),
                base_min_ev_pct: Binary64::of_bits(D_0_003),
                min_liquidity_usd: Binary64::of_bits(D_5),
                kelly_multiplier: Binary64::of_bits(D_0_75),
                max_position_pct: Binary64::of_bits(D_0_35),
                min_position_usd: Binary64::of_bits(ONE_BITS),
                enable_kalshi: true,
                enable_polymarket: true,
                trade_cooldown_secs: 30,
                max_kalshi_fee_pct: Binary64::of_bits(D_0_025),
            }),
    {
        GrindingConfig {
            base_probability_threshold: Binary64::from_bits(D_0_88),
            max_hours_to_expiry: Binary64::from_bits(D_48),
            base_min_ev_pct: Binary64::from_bits(D_0_003),
            min_liquidity_usd: Binary64::from_bits(D_5),
            kelly_multiplier: Binary64::from_bits(D_0_75),
            max_position_pct: Binary64::from_bits(D_0_35),
            min_position_usd: Binary64::from_bits(ONE_BITS),
            enable_kalshi: true,
            enable_polymarket: true,
            trade_cooldown_secs: 30,
            max_kalshi_fee_pct: Binary64::from_bits(D_0_025),
        }
    }

    /// The usual configuration with the given values in it.
    pub fn with_overrides(overrides: &GrindingOverrides) -> (r: Self)
        ensures
            r == (GrindingConfig {
                base_probability_threshold: overridden(
                    Self::usual().base_probability_threshold,
                    overrides.base_probability_threshold,
                ),
                max_hours_to_expiry: overridden(
                    Self::usual().max_hours_to_expiry,
                    overrides.max_hours_to_expiry,
                ),
                base_min_ev_pct: overridden(
                    Self::usual().base_min_ev_pct,
                    overrides.base_min_ev_pct,
                ),
                min_liquidity_usd: overridden(
                    Self::usual().min_liquidity_usd,
                    overrides.min_liquidity_usd,
                ),
                kelly_multiplier: overridden(
                    Self::usual().kelly_multiplier,
                    overrides.kelly_multiplier,
                ),
                max_position_pct: overridden(
                    Self::usual().max_position_pct,
                    overrides.max_position_pct,
                ),
                ..Self::usual()
            }),
    {
        let usual = GrindingConfig::default();
        GrindingConfig {
            base_probability_threshold: override_value(
                usual.base_probability_threshold,
                overrides.base_probability_threshold,
            ),
            max_hours_to_expiry: override_value(
                usual.max_hours_to_expiry,
                overrides.max_hours_to_expiry,
            ),
            base_min_ev_pct: override_value(usual.base_min_ev_pct, overrides.base_min_ev_pct),
            min_liquidity_usd: override_value(
                usual.min_liquidity_usd,
                overrides.min_liquidity_usd,
            ),
            kelly_multiplier: override_value(usual.kelly_multiplier, overrides.kelly_multiplier),
            max_position_pct: override_value(usual.max_position_pct, overrides.max_position_pct),
            ..usual
        }
    }

    /// Whether the hours bound a range.
    pub open spec fn wf(self) -> bool {
        Binary64::is_range(zero_value(), self.max_hours_to_expiry)
    }

    /// The probability that an outcome needs at so many hours before expiry: the base at the
    /// largest number of hours, and certainty at none.
    pub open spec fn threshold(self, hours_to_expiry: Binary64) -> Binary64 {
        let hours = hours_to_expiry.clamped(zero_value(), self.max_hours_to_expiry);
        let time_factor = one_value().minus(hours.over(self.max_hours_to_expiry));
        self.base_probability_threshold.plus(
            one_value().minus(self.base_probability_threshold).times(time_factor),
        )
    }

    /// Calculate dynamic probability threshold based on hours to expiry.
    pub fn dynamic_threshold(&self, hours_to_expiry: &Binary64) -> (r: Binary64)
        requires
            self.wf(),
        ensures
            r == self.threshold(*hours_to_expiry),
    {
        let hours = hours_to_expiry.clamp(&zero(), &self.max_hours_to_expiry);
        let time_factor = one().sub(&hours.div(&self.max_hours_to_expiry));
        self.base_probability_threshold.add(
            &one().sub(&self.base_probability_threshold).mul(&time_factor),
        )
    }

    /// The expected value that a position of the given size needs.
    pub open spec fn min_ev(self, position_size: Binary64, capital: Binary64) -> Binary64 {
        self.base_min_ev_pct.times(one_value().plus(position_size.over(capital)))
    }

    /// Calculate minimum EV threshold based on position size relative to capital.
    pub fn dynamic_min_ev(&self, position_size: &Binary64, capital: &Binary64) -> (r: Binary64)
        ensures
            r == self.min_ev(*position_size, *capital),
    {
        self.base_min_ev_pct.mul(&one().add(&position_size.div(capital)))
    }
}

impl Default for GrindingConfig {
    fn default() -> (r: Self)
        ensures
            r == Self::usual(),
    {
        GrindingConfig {
            base_probability_threshold: Binary64::from_bits(D_0_9),
            max_hours_to_expiry: Binary64::from_bits(D_24),
            base_min_ev_pct: Binary64::from_bits(D_0_005),
            min_liquidity_usd: Binary64::from_bits(D_10),
            kelly_multiplier: Binary64::from_bits(D_0_5),
            max_position_pct: Binary64::from_bits(D_0_25),
            min_position_usd: Binary64::from_bits(ONE_BITS),
            enable_kalshi: true,
            enable_polymarket: true,
            trade_cooldown_secs: 60,
            max_kalshi_fee_pct: Binary64::from_bits(D_0_02),
        }
    }
}

/// Kelly Criterion position sizing configuration.
#[derive(Debug, Clone, Copy, PartialEq, Eq, Structural)]
pub struct KellyConfig {
    /// Fraction of full Kelly to use (0.5 = half Kelly).
    pub kelly_multiplier: Binary64,
    /// Maximum single position as fraction of capital.
    pub max_position_pct: Binary64,
    /// Minimum position size in USD.
    pub min_position_usd: Binary64,
}

impl Default for KellyConfig {
    fn default() -> (r: Self)
        ensures
            r == (KellyConfig {
                kelly_multiplier: Binary64::of_bits(D_0_5),
                max_position_pct: Binary64::of_bits(D_0_25),
                min_position_usd: one_value(),
            }),
    {
        KellyConfig {
            kelly_multiplier: Binary64::from_bits(D_0_5),
            max_position_pct: Binary64::from_bits(D_0_25),
            min_position_usd: one(),
        }
    }
}

impl KellyConfig {
    /// The sizing that a grinding configuration asks for.
    pub open spec fn of(config: GrindingConfig) -> Self {
        KellyConfig {
            kelly_multiplier: config.kelly_multiplier,
            max_position_pct: config.max_position_pct,
            min_position_usd: config.min_position_usd,
        }
    }

    /// The sizing that a grinding configuration asks for.
    pub fn from_grinding(config: &GrindingConfig) -> (r: Self)
        ensures
            r == Self::of(*config),
    {
        KellyConfig {
            kelly_multiplier: config.kelly_multiplier,
            max_position_pct: config.max_position_pct,
            min_position_usd: config.min_position_usd,
        }
    }
}

// ---------------------------------------------------------------------------
// Laws
// ---------------------------------------------------------------------------

impl GrindingConfig {
    /// Whether the base threshold is a probability and the hours are positive.
    pub open spec fn sound(self) -> bool {
        &&& self.wf()
        &&& self.base_probability_threshold.in_unit_range()
        &&& self.max_hours_to_expiry.finite()
        &&& self.max_hours_to_expiry.positive()
    }
}

proof fn lemma_time_factor(config: GrindingConfig, hours: Binary64)
    requires
        config.sound(),
        !hours.nan(),
    ensures
        ({
            let clamped = hours.clamped(zero_value(), config.max_hours_to_expiry);
            let share = clamped.over(config.max_hours_to_expiry);
            &&& clamped.finite()
            &&& share.in_unit_range()
            &&& share.finite()
            &&& one_value().minus(share).in_unit_range()
            &&& one_value().minus(share).finite()
        }),
{
    lemma_one();
    lemma_zero_and_one();
    let clamped = hours.clamped(zero_value(), config.max_hours_to_expiry);
    lemma_finite_between(clamped, config.max_hours_to_expiry);
    law_quotient_bounds(clamped, config.max_hours_to_expiry);
    law_unit_difference_bounds(one_value(), clamped.over(config.max_hours_to_expiry));
}

/// The threshold never falls below the base.
pub proof fn law_threshold_is_at_least_the_base(config: GrindingConfig, hours: Binary64)
    requires
        config.sound(),
        !hours.nan(),
    ensures
        config.base_probability_threshold.at_most(config.threshold(hours)),
{
    lemma_one();
    lemma_zero_and_one();
    lemma_time_factor(config, hours);
    let base = config.base_probability_threshold;
    let clamped = hours.clamped(zero_value(), config.max_hours_to_expiry);
    let factor = one_value().minus(clamped.over(config.max_hours_to_expiry));
    law_unit_difference_bounds(one_value(), base);
    law_product_bounds(one_value().minus(base), factor);
    law_sum_bounds(base, one_value().minus(base).times(factor));
}

/// As expiry approaches, the required certainty does not fall.
pub proof fn law_threshold_rises_towards_expiry(
    config: GrindingConfig,
    near: Binary64,
    far: Binary64,
)
    requires
        config.sound(),
        near.at_most(far),
    ensures
        config.threshold(far).at_most(config.threshold(near)),
{
    lemma_one();
    lemma_zero_and_one();
    let base = config.base_probability_threshold;
    let max = config.max_hours_to_expiry;
    lemma_time_factor(config, near);
    lemma_time_factor(config, far);
    law_clamping_is_monotone(near, far, zero_value(), max);
    let (h1, h2) = (near.clamped(zero_value(), max), far.clamped(zero_value(), max));
    law_quotient_is_monotone(h1, h2, max);
    law_difference_is_monotone(h1.over(max), h2.over(max), one_value());
    let (f1, f2) = (one_value().minus(h1.over(max)), one_value().minus(h2.over(max)));
    law_unit_difference_bounds(one_value(), base);
    let room = one_value().minus(base);
    law_product_is_monotone(f2, f1, room);
    lemma_units_in_unit_range(f1);
    lemma_units_in_unit_range(f2);
    law_product_bounds(room, f1);
    law_product_bounds(room, f2);
    law_sum_is_monotone(room.times(f2), room.times(f1), base);
}

/// A larger position does not need less expected value.
pub proof fn law_larger_positions_need_more(
    config: GrindingConfig,
    small: Binary64,
    large: Binary64,
    capital: Binary64,
)
    requires
        config.base_min_ev_pct.finite(),
        config.base_min_ev_pct.nonnegative(),
        small.nonnegative(),
        small.at_most(large),
        large.at_most(capital),
        capital.finite(),
        capital.positive(),
    ensures
        config.min_ev(small, capital).at_most(config.min_ev(large, capital)),
{
    lemma_one();
    lemma_zero_and_one();
    lemma_finite_between(small, capital);
    lemma_finite_between(large, capital);
    law_quotient_bounds(small, capital);
    law_quotient_bounds(large, capital);
    law_quotient_is_monotone(small, large, capital);
    let (r1, r2) = (small.over(capital), large.over(capital));
    lemma_units_in_unit_range(r1);
    lemma_units_in_unit_range(r2);
    law_sum_is_monotone(r1, r2, one_value());
    lemma_sum_of_unit_range_is_finite(one_value(), r1);
    lemma_sum_of_unit_range_is_finite(one_value(), r2);
    law_product_is_monotone(
        one_value().plus(r1),
        one_value().plus(r2),
        config.base_min_ev_pct,
    );
}

} // verus!
