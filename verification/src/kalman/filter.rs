//! The Kalman filter of one market.
//!
//! The filter holds a probability and how uncertain it is. A price observation moves the
//! probability towards the price, the more so the more uncertain it is; the uncertainty grows
//! between observations, and faster as the market nears its expiry.
use crate::binary64::arithmetic::one_in_units;
use crate::binary64::accuracy::{lemma_quotient_by_whole_number, lemma_whole_number};
use crate::binary64::errors::{
    epsilon, lemma_difference_error, lemma_epsilon, lemma_quotient_shrinks, lemma_sum_error, size,
};
use crate::binary64::numbers::{
    D_0_00001, D_0_0001, D_0_0005, D_0_001, D_0_005, D_0_01, D_0_02, D_0_05, D_0_1, D_0_2, D_0_5,
    D_1_96, D_5, D_10, D_15, D_20, D_24, D_60, D_3600,
};
use crate::binary64::monotone::{
    law_clamping_is_monotone, law_difference_is_monotone, law_product_is_monotone,
    law_quotient_is_monotone, law_sum_is_monotone,
};
use crate::binary64::ranges::{
    law_difference_sign, law_product_bounds, law_product_grows, law_product_is_not_negative,
    law_product_sign, law_quotient_bounds, law_share_bounds, law_sum_bounds, law_sum_with_negative,
    law_unit_difference_bounds, lemma_finite_between, lemma_one, lemma_one_more_is_finite,
    lemma_order_of_patterns,
    lemma_small_sum_is_finite, lemma_units, lemma_units_in_unit_range,
};
use crate::binary64::rounding::{lemma_pattern_value, pattern};
use crate::binary64::{
    lemma_scaled_magnitude_increases, one, one_value, zero, zero_value, Binary64, FRACTION_SPAN,
    INFINITE_BITS, ONE_BITS,
};
use crate::time::{cut_div, remaining_secs, seconds_apart, Timestamp};
use vstd::arithmetic::power2::{lemma2_to64, lemma2_to64_rest, lemma_pow2_adds};
use vstd::prelude::*;

verus! {

// ---------------------------------------------------------------------------
// Configuration
// ---------------------------------------------------------------------------

/// Configuration parameters for the Kalman filter.
#[derive(Debug, Clone, Copy, PartialEq, Eq, Structural)]
pub struct KalmanConfig {
    /// Initial variance for new markets.
    pub initial_variance: Binary64,
    /// Measurement noise (how much we trust each price observation).
    pub measurement_noise: Binary64,
    /// Base process noise (how much true probability drifts over time).
    pub base_process_noise: Binary64,
    /// Process noise multiplier as expiry approaches.
    pub expiry_noise_multiplier: Binary64,
    /// Maximum hours to consider for expiry noise scaling.
    pub max_hours_for_scaling: Binary64,
    /// Minimum variance floor to prevent overconfidence.
    pub min_variance: Binary64,
    /// Maximum variance ceiling to prevent divergence.
    pub max_variance: Binary64,
}

impl KalmanConfig {
    /// The configuration with the given initial variance, measurement noise, process noise,
    /// multiplier, floor and ceiling, scaled over the last day.
    pub open spec fn preset(
        initial: u64,
        noise: u64,
        process: u64,
        multiplier: u64,
        floor: u64,
        ceiling: u64,
    ) -> Self {
        KalmanConfig {
            initial_variance: Binary64::of_bits(initial),
            measurement_noise: Binary64::of_bits(noise),
            base_process_noise: Binary64::of_bits(process),
            expiry_noise_multiplier: Binary64::of_bits(multiplier),
            max_hours_for_scaling: Binary64::of_bits(D_24),
            min_variance: Binary64::of_bits(floor),
            max_variance: Binary64::of_bits(ceiling),
        }
    }

    /// The usual configuration.
    pub open spec fn usual() -> Self {
        Self::preset(D_0_1, D_0_01, D_0_001, D_10, D_0_0001, ONE_BITS)
    }

    fn from_preset(
        initial: u64,
        noise: u64,
        process: u64,
        multiplier: u64,
        floor: u64,
        ceiling: u64,
    ) -> (r: Self)
        ensures
            r == Self::preset(initial, noise, process, multiplier, floor, ceiling),
    {
        KalmanConfig {
            initial_variance: Binary64::from_bits(initial),
            measurement_noise: Binary64::from_bits(noise),
            base_process_noise: Binary64::from_bits(process),
            expiry_noise_multiplier: Binary64::from_bits(multiplier),
            max_hours_for_scaling: Binary64::from_bits(D_24),
            min_variance: Binary64::from_bits(floor),
            max_variance: Binary64::from_bits(ceiling),
        }
    }

    /// Create a config optimized for high-frequency updates (sub-second).
    pub fn high_frequency() -> (r: Self)
        ensures
            r == Self::preset(D_0_05, D_0_005, D_0_0005, D_5, D_0_00001, D_0_5),
    {
        Self::from_preset(D_0_05, D_0_005, D_0_0005, D_5, D_0_00001, D_0_5)
    }

    /// Create a config optimized for low-frequency updates (minutes/hours).
    pub fn low_frequency() -> (r: Self)
        ensures
            r == Self::preset(D_0_2, D_0_02, D_0_005, D_15, D_0_001, ONE_BITS),
    {
        Self::from_preset(D_0_2, D_0_02, D_0_005, D_15, D_0_001, ONE_BITS)
    }

    /// Create a config for very stable markets (low volatility expected).
    pub fn stable_market() -> (r: Self)
        ensures
            r == Self::preset(D_0_05, D_0_02, D_0_0001, D_5, D_0_0001, D_0_5),
    {
        Self::from_preset(D_0_05, D_0_02, D_0_0001, D_5, D_0_0001, D_0_5)
    }

    /// Create a config for volatile markets (high uncertainty expected).
    pub fn volatile_market() -> (r: Self)
        ensures
            r == Self::preset(D_0_2, D_0_005, D_0_005, D_20, D_0_0001, ONE_BITS),
    {
        Self::from_preset(D_0_2, D_0_005, D_0_005, D_20, D_0_0001, ONE_BITS)
    }

    /// Whether the bounds of the configuration are ranges.
    pub open spec fn wf(self) -> bool {
        &&& Binary64::is_range(zero_value(), self.max_hours_for_scaling)
        &&& Binary64::is_range(self.min_variance, self.max_variance)
    }

    /// The process noise at so many hours before expiry: the base noise, and more of it as
    /// the hours run out.
    pub open spec fn process_noise(self, hours_to_expiry: Binary64) -> Binary64 {
        let hours = hours_to_expiry.clamped(zero_value(), self.max_hours_for_scaling);
        let time_factor = one_value().minus(hours.over(self.max_hours_for_scaling));
        self.base_process_noise.times(
            one_value().plus(self.expiry_noise_multiplier.times(time_factor)),
        )
    }

    /// Calculate adaptive process noise based on time to expiry.
    pub fn calculate_process_noise(&self, hours_to_expiry: &Binary64) -> (r: Binary64)
        requires
            self.wf(),
        ensures
            r == self.process_noise(*hours_to_expiry),
    {
        let hours = hours_to_expiry.clamp(&zero(), &self.max_hours_for_scaling);
        let time_factor = one().sub(&hours.div(&self.max_hours_for_scaling));
        self.base_process_noise.mul(&one().add(&self.expiry_noise_multiplier.mul(&time_factor)))
    }
}

impl Default for KalmanConfig {
    fn default() -> (r: Self)
        ensures
            r == Self::usual(),
    {
        Self::from_preset(D_0_1, D_0_01, D_0_001, D_10, D_0_0001, ONE_BITS)
    }
}

// ---------------------------------------------------------------------------
// State
// ---------------------------------------------------------------------------

/// Current state of the Kalman filter for a single market/outcome.
#[derive(Debug, Clone, Copy, PartialEq, Eq, Structural)]
pub struct KalmanState {
    /// Current probability estimate (0.0 to 1.0)
    pub estimate: Binary64,
    /// Estimation uncertainty (variance)
    pub variance: Binary64,
    /// Last update timestamp
    pub last_update: Timestamp,
    /// Number of updates processed
    pub update_count: u64,
}

/// A number brought into the range of probabilities.
pub open spec fn probability(x: Binary64) -> Binary64 {
    x.clamped(zero_value(), one_value())
}

/// Bring a number into the range of probabilities.
pub fn to_probability(x: &Binary64) -> (r: Binary64)
    ensures
        r == probability(*x),
{
    proof {
        lemma_zero_and_one();
    }
    x.clamp(&zero(), &one())
}

/// Zero is less than one.
pub proof fn lemma_zero_and_one()
    ensures
        zero_value().less(one_value()),
        !zero_value().nan(),
        !one_value().nan(),
{
    lemma_scaled_magnitude_increases(0, ONE_BITS as int);
}

impl KalmanState {
    /// A state with the given estimate and the initial variance, without updates.
    pub open spec fn initial(estimate: Binary64, config: KalmanConfig, now: Timestamp) -> Self {
        KalmanState {
            estimate: probability(estimate),
            variance: config.initial_variance,
            last_update: now,
            update_count: 0,
        }
    }

    /// Create a new Kalman state with initial estimate.
    pub fn new(initial_estimate: &Binary64, config: &KalmanConfig, now: Timestamp) -> (r: Self)
        ensures
            r == Self::initial(*initial_estimate, *config, now),
    {
        KalmanState {
            estimate: to_probability(initial_estimate),
            variance: config.initial_variance,
            last_update: now,
            update_count: 0,
        }
    }

    /// Create a state with specific variance (for persistence recovery).
    pub fn with_variance(estimate: &Binary64, variance: &Binary64, last_update: Timestamp) -> (r:
        Self)
        ensures
            r == (KalmanState {
                estimate: probability(*estimate),
                variance: variance.clamped(Binary64::of_bits(D_0_0001), one_value()),
                last_update,
                update_count: 0,
            }),
    {
        proof {
            lemma_scaled_magnitude_increases(D_0_0001 as int, ONE_BITS as int);
        }
        KalmanState {
            estimate: to_probability(estimate),
            variance: variance.clamp(&Binary64::from_bits(D_0_0001), &one()),
            last_update,
            update_count: 0,
        }
    }

    /// Check if the state is stale (not updated recently).
    pub fn is_stale(&self, max_age_secs: i64, now: &Timestamp) -> (r: bool)
        ensures
            r == (seconds_apart(now@, self.last_update@) > max_age_secs),
    {
        now.seconds_since(&self.last_update) > max_age_secs
    }

    /// Get confidence level (inverse of variance, higher = more confident).
    pub fn confidence(&self) -> (r: Binary64)
        ensures
            r == one_value().over(self.variance),
    {
        one().div(&self.variance)
    }

    /// The variance after the uncertainty has grown by the process noise.
    pub open spec fn predicted_variance(
        self,
        hours_to_expiry: Binary64,
        config: KalmanConfig,
    ) -> Binary64 {
        self.variance.plus(config.process_noise(hours_to_expiry)).clamped(
            config.min_variance,
            config.max_variance,
        )
    }

    /// How much a measurement counts: the share of the uncertainty that is not the
    /// measurement's own.
    pub open spec fn gain(predicted_variance: Binary64, measurement_noise: Binary64) -> Binary64 {
        predicted_variance.over(predicted_variance.plus(measurement_noise))
    }

    /// The state after a measurement: the estimate moves towards it by the gain, and the
    /// uncertainty shrinks by the gain.
    pub open spec fn updated(
        self,
        measurement: Binary64,
        measurement_noise: Binary64,
        hours_to_expiry: Binary64,
        config: KalmanConfig,
        now: Timestamp,
    ) -> Self {
        let predicted = self.predicted_variance(hours_to_expiry, config);
        let gain = Self::gain(predicted, measurement_noise);
        KalmanState {
            estimate: probability(
                self.estimate.plus(gain.times(probability(measurement).minus(self.estimate))),
            ),
            variance: one_value().minus(gain).times(predicted).clamped(
                config.min_variance,
                config.max_variance,
            ),
            last_update: now,
            update_count: (self.update_count + 1) as u64,
        }
    }
}

// ---------------------------------------------------------------------------
// Filter
// ---------------------------------------------------------------------------

/// Kalman filter for probability estimation.
#[derive(Debug, Clone, Copy, PartialEq, Eq, Structural)]
pub struct KalmanFilter {
    pub state: KalmanState,
}

impl KalmanFilter {
    /// Create a new Kalman filter with initial estimate.
    pub fn new(initial_estimate: &Binary64, config: &KalmanConfig, now: Timestamp) -> (r: Self)
        ensures
            r.state == KalmanState::initial(*initial_estimate, *config, now),
    {
        KalmanFilter { state: KalmanState::new(initial_estimate, config, now) }
    }

    /// Create a filter from existing state (for persistence recovery).
    pub fn from_state(state: KalmanState) -> (r: Self)
        ensures
            r.state == state,
    {
        KalmanFilter { state }
    }

    /// Get current probability estimate.
    pub fn estimate(&self) -> (r: Binary64)
        ensures
            r == self.state.estimate,
    {
        self.state.estimate
    }

    /// Get current estimation variance.
    pub fn variance(&self) -> (r: Binary64)
        ensures
            r == self.state.variance,
    {
        self.state.variance
    }

    /// Get the full state (for persistence).
    pub fn state(&self) -> (r: &KalmanState)
        ensures
            *r == self.state,
    {
        &self.state
    }

    /// Get mutable access to state (for direct manipulation).
    pub fn state_mut(&mut self) -> (r: &mut KalmanState)
        ensures
            *r == old(self).state,
            final(self).state == *final(r),
    {
        &mut self.state
    }

    /// Update the filter with a new price observation, and give the updated estimate.
    pub fn update(
        &mut self,
        measurement: &Binary64,
        hours_to_expiry: &Binary64,
        config: &KalmanConfig,
        now: Timestamp,
    ) -> (r: Binary64)
        requires
            config.wf(),
            old(self).state.update_count < u64::MAX,
        ensures
            final(self).state == old(self).state.updated(
                *measurement,
                config.measurement_noise,
                *hours_to_expiry,
                *config,
                now,
            ),
            r == final(self).state.estimate,
    {
        self.update_with_noise(
            measurement,
            &config.measurement_noise,
            hours_to_expiry,
            config,
            now,
        )
    }

    /// Update with custom measurement noise (for variable-quality observations).
    pub fn update_with_noise(
        &mut self,
        measurement: &Binary64,
        measurement_noise: &Binary64,
        hours_to_expiry: &Binary64,
        config: &KalmanConfig,
        now: Timestamp,
    ) -> (r: Binary64)
        requires
            config.wf(),
            old(self).state.update_count < u64::MAX,
        ensures
            final(self).state == old(self).state.updated(
                *measurement,
                *measurement_noise,
                *hours_to_expiry,
                *config,
                now,
            ),
            r == final(self).state.estimate,
    {
        let measurement = to_probability(measurement);
        let process_noise = config.calculate_process_noise(hours_to_expiry);
        let predicted = self.state.variance.add(&process_noise).clamp(
            &config.min_variance,
            &config.max_variance,
        );
        let gain = predicted.div(&predicted.add(measurement_noise));
        let estimate = self.state.estimate.add(
            &gain.mul(&measurement.sub(&self.state.estimate)),
        );
        let variance = one().sub(&gain).mul(&predicted).clamp(
            &config.min_variance,
            &config.max_variance,
        );
        self.state = KalmanState {
            estimate: to_probability(&estimate),
            variance,
            last_update: now,
            update_count: self.state.update_count + 1,
        };
        self.state.estimate
    }

    /// Predict step only (increase uncertainty without measurement).
    pub fn predict(&mut self, hours_to_expiry: &Binary64, config: &KalmanConfig)
        requires
            config.wf(),
        ensures
            final(self).state == (KalmanState {
                variance: old(self).state.predicted_variance(*hours_to_expiry, *config),
                ..old(self).state
            }),
    {
        let process_noise = config.calculate_process_noise(hours_to_expiry);
        self.state.variance = self.state.variance.add(&process_noise).clamp(
            &config.min_variance,
            &config.max_variance,
        );
    }

    /// Reset the filter to initial state.
    pub fn reset(&mut self, initial_estimate: &Binary64, config: &KalmanConfig, now: Timestamp)
        ensures
            final(self).state == KalmanState::initial(*initial_estimate, *config, now),
    {
        self.state = KalmanState::new(initial_estimate, config, now);
    }

    /// Get the 95% confidence interval for the estimate: 1.96 standard deviations to either
    /// side, within the probabilities.
    pub fn confidence_interval(&self) -> (r: (Binary64, Binary64))
        ensures
            ({
                let margin = Binary64::of_bits(D_1_96).times(self.state.variance.root());
                &&& r.0 == probability(self.state.estimate.minus(margin))
                &&& r.1 == probability(self.state.estimate.plus(margin))
            }),
    {
        let margin = Binary64::from_bits(D_1_96).mul(&self.state.variance.sqrt());
        (
            to_probability(&self.state.estimate.sub(&margin)),
            to_probability(&self.state.estimate.add(&margin)),
        )
    }
}

// ---------------------------------------------------------------------------
// Bounds
// ---------------------------------------------------------------------------

impl KalmanConfig {
    /// Whether the configuration keeps a filter within its bounds: the noises are numbers that
    /// are not negative, and the hours and the variances are positive.
    pub open spec fn sound(self) -> bool {
        &&& self.wf()
        &&& self.measurement_noise.finite() && self.measurement_noise.nonnegative()
        &&& self.base_process_noise.finite() && self.base_process_noise.nonnegative()
        &&& self.expiry_noise_multiplier.finite() && self.expiry_noise_multiplier.nonnegative()
        &&& self.max_hours_for_scaling.finite() && self.max_hours_for_scaling.positive()
        &&& self.min_variance.positive()
        &&& self.max_variance.finite()
    }
}

impl KalmanState {
    /// Whether the estimate is a probability and the variance a number that is not negative.
    pub open spec fn sound(self) -> bool {
        &&& self.estimate.in_unit_range()
        &&& self.variance.finite()
        &&& self.variance.nonnegative()
    }

    /// Whether the variance lies within the bounds of the configuration.
    pub open spec fn within(self, config: KalmanConfig) -> bool {
        &&& config.min_variance.at_most(self.variance)
        &&& self.variance.at_most(config.max_variance)
    }
}

/// The process noise is a number that is not negative, and at least the base noise.
pub proof fn law_process_noise_is_at_least_the_base(config: KalmanConfig, hours: Binary64)
    requires
        config.sound(),
        !hours.nan(),
    ensures
        config.process_noise(hours).nonnegative(),
        config.base_process_noise.at_most(config.process_noise(hours)),
{
    lemma_one();
    lemma_zero_and_one();
    let clamped = hours.clamped(zero_value(), config.max_hours_for_scaling);
    lemma_finite_between(clamped, config.max_hours_for_scaling);
    law_quotient_bounds(clamped, config.max_hours_for_scaling);
    let share = clamped.over(config.max_hours_for_scaling);
    law_unit_difference_bounds(one_value(), share);
    let factor = one_value().minus(share);
    law_product_bounds(config.expiry_noise_multiplier, factor);
    let extra = config.expiry_noise_multiplier.times(factor);
    law_sum_bounds(one_value(), extra);
    lemma_finite_between(extra, config.expiry_noise_multiplier);
    lemma_one_more_is_finite(extra);
    let scale = one_value().plus(extra);
    law_product_is_not_negative(config.base_process_noise, scale);
    law_product_grows(config.base_process_noise, scale);
}

/// The process noise does not shrink as expiry approaches.
pub proof fn law_process_noise_grows_towards_expiry(
    config: KalmanConfig,
    near: Binary64,
    far: Binary64,
)
    requires
        config.sound(),
        near.at_most(far),
    ensures
        config.process_noise(far).at_most(config.process_noise(near)),
{
    lemma_one();
    lemma_zero_and_one();
    let max = config.max_hours_for_scaling;
    law_clamping_is_monotone(near, far, zero_value(), max);
    let (h1, h2) = (near.clamped(zero_value(), max), far.clamped(zero_value(), max));
    lemma_finite_between(h1, max);
    lemma_finite_between(h2, max);
    law_quotient_bounds(h1, max);
    law_quotient_bounds(h2, max);
    law_quotient_is_monotone(h1, h2, max);
    law_unit_difference_bounds(one_value(), h1.over(max));
    law_unit_difference_bounds(one_value(), h2.over(max));
    law_difference_is_monotone(h1.over(max), h2.over(max), one_value());
    let (f1, f2) = (one_value().minus(h1.over(max)), one_value().minus(h2.over(max)));
    let multiplier = config.expiry_noise_multiplier;
    lemma_one_more_is_finite(multiplier);
    lemma_units_in_unit_range(f1);
    lemma_units_in_unit_range(f2);
    law_product_bounds(multiplier, f1);
    law_product_bounds(multiplier, f2);
    law_product_is_monotone(f2, f1, multiplier);
    let (e1, e2) = (multiplier.times(f1), multiplier.times(f2));
    law_sum_is_monotone(e2, e1, one_value());
    law_sum_is_monotone(e1, multiplier, one_value());
    let (s1, s2) = (one_value().plus(e1), one_value().plus(e2));
    law_sum_bounds(one_value(), e1);
    law_sum_bounds(one_value(), e2);
    lemma_finite_between(s1, one_value().plus(multiplier));
    lemma_finite_between(s2, one_value().plus(multiplier));
    law_product_is_monotone(s2, s1, config.base_process_noise);
}

/// An update keeps the estimate a probability and brings the variance within its bounds,
/// whatever is measured.
pub proof fn law_update_keeps_bounds(
    state: KalmanState,
    measurement: Binary64,
    measurement_noise: Binary64,
    hours: Binary64,
    config: KalmanConfig,
    now: Timestamp,
)
    requires
        config.sound(),
        state.sound(),
        !measurement.nan(),
        measurement_noise.finite(),
        measurement_noise.nonnegative(),
        !hours.nan(),
    ensures
        ({
            let after = state.updated(measurement, measurement_noise, hours, config, now);
            after.sound() && after.within(config)
        }),
{
    lemma_one();
    lemma_zero_and_one();
    let predicted = state.predicted_variance(hours, config);
    law_predict_keeps_bounds(state, hours, config);
    law_sum_bounds(predicted, measurement_noise);
    let total = predicted.plus(measurement_noise);
    law_quotient_bounds(predicted, total);
    let gain = KalmanState::gain(predicted, measurement_noise);
    let target = probability(measurement);
    law_unit_difference_bounds(target, state.estimate);
    let step = target.minus(state.estimate);
    law_unit_difference_bounds(gain, gain);
    lemma_units_in_unit_range(gain);
    law_product_bounds(gain, step);
    law_sum_bounds(state.estimate, gain.times(step));
    law_unit_difference_bounds(one_value(), gain);
    law_product_bounds(predicted, one_value().minus(gain));
    law_product_bounds(one_value().minus(gain), predicted);
    let variance = one_value().minus(gain).times(predicted);
    lemma_finite_between(
        variance.clamped(config.min_variance, config.max_variance),
        config.max_variance,
    );
}

/// An update never moves the estimate away from what is measured.
pub proof fn law_update_moves_towards_the_measurement(
    state: KalmanState,
    measurement: Binary64,
    measurement_noise: Binary64,
    hours: Binary64,
    config: KalmanConfig,
    now: Timestamp,
)
    requires
        config.sound(),
        state.sound(),
        !measurement.nan(),
        measurement_noise.finite(),
        measurement_noise.nonnegative(),
        !hours.nan(),
    ensures
        ({
            let after = state.updated(measurement, measurement_noise, hours, config, now);
            &&& state.estimate.at_most(probability(measurement)) ==> state.estimate.at_most(
                after.estimate,
            )
            &&& probability(measurement).at_most(state.estimate) ==> after.estimate.at_most(
                state.estimate,
            )
        }),
{
    lemma_one();
    lemma_zero_and_one();
    let predicted = state.predicted_variance(hours, config);
    law_predict_keeps_bounds(state, hours, config);
    law_sum_bounds(predicted, measurement_noise);
    law_quotient_bounds(predicted, predicted.plus(measurement_noise));
    let gain = KalmanState::gain(predicted, measurement_noise);
    let target = probability(measurement);
    law_unit_difference_bounds(target, state.estimate);
    let step = target.minus(state.estimate);
    lemma_units_in_unit_range(gain);
    law_product_bounds(gain, step);
    law_difference_sign(target, state.estimate);
    law_product_sign(gain, step);
    law_sum_bounds(state.estimate, gain.times(step));
    law_sum_with_negative(state.estimate, gain.times(step));
}

/// Two roundings of values up to two: a difference that misses the exact one, and a sum that
/// misses the exact one, lead to the target within four times the distance from one to the next
/// double.
proof fn lemma_two_roundings(start: int, target: int, step: int, end: int, one: int, eps: int)
    requires
        0 <= start <= one,
        0 <= target <= one,
        size(step) <= one,
        one == FRACTION_SPAN * eps,
        eps >= FRACTION_SPAN,
        2 * FRACTION_SPAN * size(step - (target - start)) <= size(step) + FRACTION_SPAN,
        2 * FRACTION_SPAN * size(end - (start + step)) <= size(end) + FRACTION_SPAN,
    ensures
        size(end - target) <= 4 * eps,
{
    let span = FRACTION_SPAN as int;
    let (first, second) = (size(step - (target - start)), size(end - (start + step)));
    let reach = size(end);
    assert(first <= eps) by (nonlinear_arith)
        requires
            2 * span * first <= one + span,
            one == span * eps,
            eps >= 1,
            span >= 1,
    ;
    assert(reach <= second + 2 * one);
    assert(reach <= 3 * one && second <= 2 * eps) by (nonlinear_arith)
        requires
            2 * span * second <= reach + span,
            reach <= second + 2 * one,
            one == span * eps,
            eps >= span,
            span >= 2,
            second >= 0,
    ;
}

/// The whole way from one probability to another leads to the other, but for rounding.
proof fn lemma_the_whole_way(start: Binary64, target: Binary64)
    requires
        start.in_unit_range(),
        target.in_unit_range(),
    ensures
        target.minus(start).finite(),
        target.minus(start).units() <= one_in_units(),
        start.plus(target.minus(start)).finite(),
        size(start.plus(target.minus(start)).scaled() - target.scaled()) <= 4 * epsilon(),
{
    lemma_one();
    lemma_epsilon();
    lemma_units_in_unit_range(start);
    lemma_units_in_unit_range(target);
    lemma_units(start);
    lemma_units(target);
    law_unit_difference_bounds(target, start);
    let step = target.minus(start);
    lemma_units(step);
    lemma_difference_error(target, start);
    lemma_small_sum_is_finite(start, step);
    lemma_sum_error(start, step);
    lemma_two_roundings(
        start.scaled(),
        target.scaled(),
        step.scaled(),
        start.plus(step).scaled(),
        one_in_units(),
        epsilon(),
    );
}

/// Adding a part of the way from one probability to another passes the other by rounding alone:
/// by four times the distance from one to the next double at most.
proof fn lemma_a_part_of_the_way(start: Binary64, target: Binary64, part: Binary64)
    requires
        start.in_unit_range(),
        target.in_unit_range(),
        part.finite(),
        zero_value().at_most(part) && part.at_most(target.minus(start)) || part.at_most(
            zero_value(),
        ) && target.minus(start).at_most(part),
    ensures
        start.at_most(target) ==> probability(start.plus(part)).scaled() <= target.scaled() + 4
            * epsilon(),
        target.at_most(start) ==> target.scaled() - 4 * epsilon() <= probability(
            start.plus(part),
        ).scaled(),
{
    lemma_one();
    lemma_zero_and_one();
    lemma_epsilon();
    lemma_the_whole_way(start, target);
    lemma_units_in_unit_range(start);
    lemma_units_in_unit_range(target);
    let step = target.minus(start);
    let (sum, end) = (start.plus(part), start.plus(step));
    law_difference_sign(target, start);
    if start.at_most(target) {
        law_sum_is_monotone(part, step, start);
        assert(sum.at_most(end));
        assert(sum.scaled() <= target.scaled() + 4 * epsilon());
        assert(probability(sum).scaled() <= sum.scaled() || probability(sum).scaled() == 0);
    }
    if target.at_most(start) {
        law_sum_is_monotone(step, part, start);
        assert(end.at_most(sum));
        assert(target.scaled() - 4 * epsilon() <= sum.scaled());
        assert(sum.scaled() <= probability(sum).scaled() || probability(sum).scaled()
            == one_in_units());
    }
}

/// An update leaves the estimate between what it was and what is measured: it never moves away
/// from the measurement, and it passes the measurement by rounding alone, less than `1e-12`.
pub proof fn law_update_does_not_pass_the_measurement(
    state: KalmanState,
    measurement: Binary64,
    measurement_noise: Binary64,
    hours: Binary64,
    config: KalmanConfig,
    now: Timestamp,
)
    requires
        config.sound(),
        state.sound(),
        !measurement.nan(),
        measurement_noise.finite(),
        measurement_noise.nonnegative(),
        !hours.nan(),
    ensures
        ({
            let after = state.updated(measurement, measurement_noise, hours, config, now).estimate;
            let target = probability(measurement);
            &&& after.in_unit_range()
            &&& state.estimate.at_most(target) ==> {
                &&& state.estimate.at_most(after)
                &&& after.at_most(target) || after.within(target, 1_000_000_000_000)
            }
            &&& target.at_most(state.estimate) ==> {
                &&& after.at_most(state.estimate)
                &&& target.at_most(after) || after.within(target, 1_000_000_000_000)
            }
        }),
{
    lemma_one();
    lemma_zero_and_one();
    lemma_epsilon();
    law_update_keeps_bounds(state, measurement, measurement_noise, hours, config, now);
    law_update_moves_towards_the_measurement(
        state,
        measurement,
        measurement_noise,
        hours,
        config,
        now,
    );
    let predicted = state.predicted_variance(hours, config);
    law_predict_keeps_bounds(state, hours, config);
    law_sum_bounds(predicted, measurement_noise);
    law_quotient_bounds(predicted, predicted.plus(measurement_noise));
    let gain = KalmanState::gain(predicted, measurement_noise);
    let target = probability(measurement);
    law_unit_difference_bounds(target, state.estimate);
    let step = target.minus(state.estimate);
    lemma_units_in_unit_range(gain);
    law_product_bounds(gain, step);
    law_product_sign(gain, step);
    lemma_units(step);
    lemma_units(gain.times(step));
    lemma_order_of_patterns(gain.times(step).magnitude(), step.magnitude());
    assert(gain.times(step).finite());
    lemma_a_part_of_the_way(state.estimate, target, gain.times(step));
}

/// A prediction leaves the estimate alone and brings the variance within its bounds.
pub proof fn law_predict_keeps_bounds(state: KalmanState, hours: Binary64, config: KalmanConfig)
    requires
        config.sound(),
        state.sound(),
        !hours.nan(),
    ensures
        ({
            let predicted = state.predicted_variance(hours, config);
            &&& config.min_variance.at_most(predicted)
            &&& predicted.at_most(config.max_variance)
            &&& predicted.finite()
            &&& predicted.positive()
        }),
{
    law_process_noise_is_at_least_the_base(config, hours);
    let noise = config.process_noise(hours);
    law_sum_bounds(state.variance, noise);
    lemma_finite_between(state.predicted_variance(hours, config), config.max_variance);
}

/// A measurement never leaves more uncertainty than there was before it.
pub proof fn law_measurements_reduce_uncertainty(
    state: KalmanState,
    measurement: Binary64,
    measurement_noise: Binary64,
    hours: Binary64,
    config: KalmanConfig,
    now: Timestamp,
)
    requires
        config.sound(),
        state.sound(),
        measurement_noise.finite(),
        measurement_noise.nonnegative(),
        !hours.nan(),
    ensures
        state.updated(measurement, measurement_noise, hours, config, now).variance.at_most(
            state.predicted_variance(hours, config),
        ),
{
    lemma_one();
    lemma_zero_and_one();
    let predicted = state.predicted_variance(hours, config);
    law_predict_keeps_bounds(state, hours, config);
    law_sum_bounds(predicted, measurement_noise);
    law_quotient_bounds(predicted, predicted.plus(measurement_noise));
    let gain = KalmanState::gain(predicted, measurement_noise);
    law_unit_difference_bounds(one_value(), gain);
    law_share_bounds(one_value().minus(gain), predicted);
}

/// Time never takes uncertainty away: a variance within its bounds does not fall until the next
/// measurement.
pub proof fn law_time_adds_uncertainty(state: KalmanState, hours: Binary64, config: KalmanConfig)
    requires
        config.sound(),
        state.sound(),
        state.within(config),
        !hours.nan(),
    ensures
        state.variance.at_most(state.predicted_variance(hours, config)),
{
    law_process_noise_is_at_least_the_base(config, hours);
    law_sum_bounds(state.variance, config.process_noise(hours));
}

impl KalmanConfig {
    /// Whether the configuration is one of those on offer.
    pub open spec fn on_offer(self) -> bool {
        ||| self == Self::usual()
        ||| self == Self::preset(
            D_0_05,
            D_0_005,
            D_0_0005,
            D_5,
            D_0_00001,
            D_0_5,
        )
        ||| self == Self::preset(D_0_2, D_0_02, D_0_005, D_15, D_0_001, ONE_BITS)
        ||| self == Self::preset(D_0_05, D_0_02, D_0_0001, D_5, D_0_0001, D_0_5)
        ||| self == Self::preset(D_0_2, D_0_005, D_0_005, D_20, D_0_0001, ONE_BITS)
    }
}

/// Every configuration on offer keeps a filter within its bounds, and a new filter starts
/// within them, unless it is given what is not a number.
pub proof fn law_presets_are_sound(config: KalmanConfig, estimate: Binary64, now: Timestamp)
    requires
        config.on_offer(),
        !estimate.nan(),
    ensures
        config.sound(),
        KalmanState::initial(estimate, config, now).sound(),
{
    lemma_zero_and_one();
    lemma_positive(D_0_1);
    lemma_positive(D_0_2);
    lemma_positive(D_0_01);
    lemma_positive(D_0_02);
    lemma_positive(D_0_05);
    lemma_positive(D_0_001);
    lemma_positive(D_0_005);
    lemma_positive(D_0_0001);
    lemma_positive(D_0_0005);
    lemma_positive(D_0_00001);
    lemma_positive(D_5);
    lemma_positive(D_10);
    lemma_positive(D_15);
    lemma_positive(D_20);
    lemma_positive(D_24);
    lemma_positive(D_0_5);
    lemma_scaled_magnitude_increases(D_0_0001 as int, ONE_BITS as int);
    lemma_scaled_magnitude_increases(D_0_0001 as int, D_0_5 as int);
    lemma_scaled_magnitude_increases(D_0_00001 as int, D_0_5 as int);
    lemma_scaled_magnitude_increases(D_0_001 as int, ONE_BITS as int);
}

proof fn lemma_positive(bits: u64)
    requires
        0 < bits < INFINITE_BITS,
    ensures
        Binary64::of_bits(bits).positive(),
        Binary64::of_bits(bits).nonnegative(),
        Binary64::of_bits(bits).finite(),
{
    lemma_scaled_magnitude_increases(0, bits as int);
}

// ---------------------------------------------------------------------------
// Time to expiry
// ---------------------------------------------------------------------------

/// Whole minutes as hours.
pub open spec fn hours_of_minutes(minutes: int) -> Binary64 {
    Binary64::of_int(minutes).over(Binary64::of_bits(D_60))
}

/// Hours from one time to another, in whole minutes.
pub fn hours_until(time: &Timestamp, now: &Timestamp) -> (r: Binary64)
    ensures
        r == hours_of_minutes(cut_div(seconds_apart(time@, now@), 60)),
{
    Binary64::from_i64(time.minutes_since(now)).div(&Binary64::from_bits(D_60))
}

/// Calculate hours to expiry from resolution time; none where it has passed.
pub fn hours_to_expiry(resolution_time: &Timestamp, now: &Timestamp) -> (r: Binary64)
    ensures
        r == hours_of_minutes(cut_div(seconds_apart(resolution_time@, now@), 60)).larger(
            zero_value(),
        ),
{
    hours_until(resolution_time, now).max(&zero())
}

/// Calculate hours to expiry from Unix timestamp (seconds); none where it has passed.
pub fn hours_to_expiry_from_timestamp(resolution_unix: i64, now_unix: i64) -> (r: Binary64)
    requires
        i64::MIN <= resolution_unix - now_unix <= i64::MAX,
    ensures
        r == Binary64::of_int(
            if resolution_unix > now_unix {
                resolution_unix - now_unix
            } else {
                0
            },
        ).over(Binary64::of_bits(D_3600)),
{
    let secs: i64 = remaining_secs(resolution_unix, now_unix);
    Binary64::from_i64(secs).div(&Binary64::from_bits(D_3600))
}

/// Sixty times the hours of so many minutes is that number, up to rounding.
pub proof fn law_an_hour_has_sixty_minutes(minutes: int)
    requires
        0 <= minutes < FRACTION_SPAN,
    ensures
        FRACTION_SPAN * size(60 * hours_of_minutes(minutes).scaled() - minutes * one_in_units())
            <= minutes * one_in_units() + FRACTION_SPAN * 60,
        hours_of_minutes(minutes).finite(),
        hours_of_minutes(minutes).nonnegative(),
        minutes > 0 ==> hours_of_minutes(minutes).positive(),
{
    let u = one_in_units();
    lemma_one();
    lemma_epsilon();
    lemma_whole_number(60);
    lemma_whole_number(minutes);
    lemma_pattern_value(0x1E_0000_0000_0000, 1027);
    assert(pattern(0x1E_0000_0000_0000, 1027) == D_60);
    lemma2_to64();
    lemma2_to64_rest();
    lemma_pow2_adds(47, 1027);
    let (count, sixty) = (Binary64::of_int(minutes), Binary64::of_bits(D_60));
    lemma_units(sixty);
    lemma_units(count);
    assert(sixty.scaled() == 60 * u);
    lemma_quotient_shrinks(count, sixty);
    law_quotient_bounds(count, sixty);
    lemma_units(count.over(sixty));
    lemma_quotient_by_whole_number(count, sixty, 60);
    assert(minutes * u >= 0) by (nonlinear_arith)
        requires
            minutes >= 0,
            u > 0,
    ;
    if minutes > 0 {
        let (r, span) = (count.over(sixty).scaled(), FRACTION_SPAN as int);
        assert(r > 0) by (nonlinear_arith)
            requires
                span * size(60 * r - minutes * u) <= minutes * u + span * 60,
                size(60 * r - minutes * u) >= minutes * u - 60 * r,
                minutes >= 1,
                u >= 1000 * span,
                span >= 1000,
                r >= 0,
        ;
    }
}

} // verus!
