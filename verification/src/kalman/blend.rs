//! What the filter computes, in exact arithmetic: the noise of the process, the prediction and
//! the blend of estimate and measurement. Numbers stand for their values in units.
use super::filter::{
    law_predict_keeps_bounds, law_process_noise_is_at_least_the_base, lemma_zero_and_one,
    KalmanConfig, KalmanState,
};
use crate::binary64::arithmetic::one_in_units;
use crate::binary64::errors::{
    epsilon, lemma_difference_error, lemma_epsilon, lemma_product_error, lemma_quotient_error,
    lemma_sum_error, size,
};
use crate::binary64::ranges::{
    law_product_bounds, law_quotient_bounds, law_sum_bounds, law_unit_difference_bounds,
    lemma_finite_between, lemma_one, lemma_one_more_is_finite, lemma_order_of_patterns,
    lemma_small_sum_is_finite, lemma_units, lemma_units_in_unit_range,
};
use crate::binary64::{one_value, zero_value, Binary64, FRACTION_SPAN};
use crate::time::Timestamp;
use vstd::prelude::*;

verus! {

/// A whole error of at most half the last bit and half a unit is at most the last bit.
proof fn lemma_whole_error(miss: int, value: int)
    requires
        miss >= 0,
        value >= 0,
        2 * FRACTION_SPAN * miss <= value + FRACTION_SPAN,
    ensures
        FRACTION_SPAN * miss <= value,
{
    let span = FRACTION_SPAN as int;
    if miss > 0 {
        assert(span * miss <= value) by (nonlinear_arith)
            requires
                2 * span * miss <= value + span,
                miss >= 1,
                span > 0,
        ;
    }
}

/// The gain: it is `P / (P + R)` for the predicted variance `P` and the noise `R` of the
/// measurement, up to four times the distance from one to the next double.
proof fn lemma_gain(predicted: Binary64, noise: Binary64)
    requires
        predicted.finite(),
        predicted.positive(),
        noise.finite(),
        noise.nonnegative(),
        predicted.plus(noise).finite(),
    ensures
        ({
            let gain = KalmanState::gain(predicted, noise);
            let (p, w) = (predicted.scaled(), predicted.scaled() + noise.scaled());
            &&& gain.in_unit_range()
            &&& w > 0
            &&& p > 0
            &&& -(4 * (epsilon() * w)) <= gain.scaled() * w - p * one_in_units() <= 4 * (epsilon()
                * w)
        }),
{
    lemma_one();
    lemma_epsilon();
    law_sum_bounds(predicted, noise);
    let total = predicted.plus(noise);
    law_quotient_bounds(predicted, total);
    let gain = predicted.over(total);
    lemma_units_in_unit_range(gain);
    lemma_units(gain);
    lemma_units(total);
    lemma_sum_error(predicted, noise);
    lemma_quotient_error(predicted, total);
    let (u, e, span) = (one_in_units(), epsilon(), FRACTION_SPAN as int);
    let (p, r, t, k) = (predicted.scaled(), noise.scaled(), total.scaled(), gain.scaled());
    let w = p + r;
    let miss = size(t - w);
    lemma_whole_error(miss, t);
    assert(t <= 2 * w) by (nonlinear_arith)
        requires
            span * miss <= t,
            t - w <= miss,
            span >= 2,
            w > 0,
            miss >= 0,
    ;
    let et = e * t;
    let first = k * t - p * u;
    assert(-et <= first <= et) by (nonlinear_arith)
        requires
            2 * span * size(first) <= k * t + span * t,
            size(first) == (if first < 0 {
                -first
            } else {
                first
            }),
            0 <= k <= u,
            u == span * e,
            e >= span,
            span >= 1,
            t > 0,
            et == e * t,
    ;
    let second = k * (w - t);
    assert(-et <= second <= et) by (nonlinear_arith)
        requires
            second == k * (w - t),
            0 <= k <= u,
            -miss <= w - t <= miss,
            span * miss <= t,
            u == span * e,
            e > 0,
            et == e * t,
    ;
    assert(k * w - p * u == first + second) by (nonlinear_arith)
        requires
            first == k * t - p * u,
            second == k * (w - t),
    ;
    assert(et <= 2 * (e * w)) by (nonlinear_arith)
        requires
            et == e * t,
            t <= 2 * w,
            e > 0,
    ;
}

/// How the roundings of an update add up: `x` moves by `k` of the way to `z`, and `k` is close
/// to `p / w`.
proof fn lemma_blend_errors(
    x: int,
    z: int,
    p: int,
    w: int,
    k: int,
    d: int,
    m: int,
    n: int,
    u: int,
    e: int,
)
    requires
        0 <= x <= u,
        0 <= z <= u,
        0 <= k <= u,
        w > 0,
        u > 0,
        e > 0,
        -(4 * (e * w)) <= k * w - p * u <= 4 * (e * w),
        -e <= d - (z - x) <= e,
        -(e * u) <= m * u - k * d <= e * u,
        -(2 * e) <= n - (x + m) <= 2 * e,
    ensures
        -(8 * (e * w)) <= n * w - (x * w + p * (z - x)) <= 8 * (e * w),
{
    let y = z - x;
    let (a, b, c, g) = (n - (x + m), m * u - k * d, d - y, k * w - p * u);
    let wu = w * u;
    let ewu = e * wu;
    let off = n * w - (x * w + p * y);
    let wk = w * k;
    assert(wu * a == wu * n - wu * x - wu * m) by (nonlinear_arith)
        requires
            a == n - (x + m),
    ;
    assert(w * b == w * (m * u) - w * (k * d)) by (nonlinear_arith)
        requires
            b == m * u - k * d,
    ;
    assert(wk * c == wk * d - wk * y) by (nonlinear_arith)
        requires
            c == d - y,
    ;
    assert(y * g == y * (k * w) - y * (p * u)) by (nonlinear_arith)
        requires
            g == k * w - p * u,
    ;
    assert(off * u == (n * w) * u - (x * w) * u - (p * y) * u) by (nonlinear_arith)
        requires
            off == n * w - (x * w + p * y),
    ;
    assert(wu * n == (n * w) * u && wu * x == (x * w) * u) by (nonlinear_arith)
        requires
            wu == w * u,
    ;
    assert(wu * m == w * (m * u)) by (nonlinear_arith)
        requires
            wu == w * u,
    ;
    assert(w * (k * d) == wk * d && wk * y == y * (k * w)) by (nonlinear_arith)
        requires
            wk == w * k,
    ;
    assert(y * (p * u) == (p * y) * u) by (nonlinear_arith);
    assert(off * u == wu * a + w * b + wk * c + y * g);
    assert(-(2 * ewu) <= wu * a <= 2 * ewu) by (nonlinear_arith)
        requires
            -(2 * e) <= a <= 2 * e,
            wu == w * u,
            w > 0,
            u > 0,
            ewu == e * wu,
    ;
    assert(-ewu <= w * b <= ewu) by (nonlinear_arith)
        requires
            -(e * u) <= b <= e * u,
            w > 0,
            wu == w * u,
            ewu == e * wu,
    ;
    assert(0 <= wk <= wu) by (nonlinear_arith)
        requires
            wk == w * k,
            0 <= k <= u,
            w > 0,
            wu == w * u,
    ;
    assert(-ewu <= wk * c <= ewu) by (nonlinear_arith)
        requires
            -e <= c <= e,
            0 <= wk <= wu,
            ewu == e * wu,
    ;
    let ew = e * w;
    assert(ewu == ew * u) by (nonlinear_arith)
        requires
            ewu == e * wu,
            wu == w * u,
            ew == e * w,
    ;
    assert(ew > 0) by (nonlinear_arith)
        requires
            ew == e * w,
            e > 0,
            w > 0,
    ;
    assert(-(4 * ewu) <= y * g <= 4 * ewu) by (nonlinear_arith)
        requires
            -u <= y <= u,
            -(4 * ew) <= g <= 4 * ew,
            ewu == ew * u,
            ew > 0,
            u > 0,
    ;
    assert(-(8 * ew) <= off <= 8 * ew) by (nonlinear_arith)
        requires
            -(8 * (ew * u)) <= off * u <= 8 * (ew * u),
            u > 0,
    ;
}

/// An update blends the estimate with the measurement. With the predicted variance `P` and the
/// noise `R` of the measurement the new estimate is `(R * x + P * z) / (P + R)` for the old
/// estimate `x` and the measurement `z`, up to eight times the distance from one to the next
/// double; so the distance to the measurement shrinks by the factor `R / (P + R)`.
pub proof fn law_update_is_the_blend(
    state: KalmanState,
    measurement: Binary64,
    measurement_noise: Binary64,
    hours: Binary64,
    config: KalmanConfig,
    now: Timestamp,
)
    requires
        config.sound(),
        state.sound(),
        measurement.in_unit_range(),
        measurement_noise.finite(),
        measurement_noise.nonnegative(),
        !hours.nan(),
        state.predicted_variance(hours, config).plus(measurement_noise).finite(),
    ensures
        ({
            let after = state.updated(measurement, measurement_noise, hours, config, now);
            let p = state.predicted_variance(hours, config).scaled();
            let r = measurement_noise.scaled();
            let (x, z, n) = (
                state.estimate.scaled(),
                measurement.scaled(),
                after.estimate.scaled(),
            );
            &&& after.estimate.in_unit_range()
            &&& p > 0
            &&& size(n * (p + r) - (r * x + p * z)) <= 8 * (epsilon() * (p + r))
            &&& size((n - z) * (p + r) - r * (x - z)) <= 8 * (epsilon() * (p + r))
        }),
{
    lemma_one();
    lemma_zero_and_one();
    lemma_epsilon();
    let predicted = state.predicted_variance(hours, config);
    law_predict_keeps_bounds(state, hours, config);
    lemma_gain(predicted, measurement_noise);
    let gain = KalmanState::gain(predicted, measurement_noise);
    let start = state.estimate;
    lemma_units_in_unit_range(start);
    lemma_units_in_unit_range(measurement);
    lemma_units_in_unit_range(gain);
    lemma_units(start);
    lemma_units(measurement);
    lemma_units(gain);
    law_unit_difference_bounds(measurement, start);
    let step = measurement.minus(start);
    lemma_units(step);
    lemma_difference_error(measurement, start);
    law_product_bounds(gain, step);
    let part = gain.times(step);
    lemma_units(part);
    lemma_order_of_patterns(part.magnitude(), step.magnitude());
    lemma_product_error(gain, step);
    lemma_small_sum_is_finite(start, part);
    lemma_sum_error(start, part);
    let sum = start.plus(part);
    let (u, e, span) = (one_in_units(), epsilon(), FRACTION_SPAN as int);
    let (x, z, k, d, m, n) = (
        start.scaled(),
        measurement.scaled(),
        gain.scaled(),
        step.scaled(),
        part.scaled(),
        sum.scaled(),
    );
    let p = predicted.scaled();
    let r = measurement_noise.scaled();
    let w = p + r;
    lemma_small_error(d - (z - x), d, u, e);
    let kd = m * u - k * d;
    assert(-(e * u) <= kd <= e * u) by (nonlinear_arith)
        requires
            2 * span * size(kd) <= size(m) * u + span * u,
            size(kd) == (if kd < 0 {
                -kd
            } else {
                kd
            }),
            size(m) <= u,
            u == span * e,
            e >= span,
            span >= 1,
            u > 0,
    ;
    assert(size(n) <= size(n - (x + m)) + 2 * u);
    lemma_small_error_of_sum(n - (x + m), n, u, e);
    lemma_blend_errors(x, z, p, w, k, d, m, n, u, e);
    // The exact blend is a probability, so that bringing the sum into range brings it nearer.
    let exact = x * w + p * (z - x);
    assert(0 <= exact <= u * w) by (nonlinear_arith)
        requires
            exact == x * w + p * (z - x),
            0 <= x <= u,
            0 <= z <= u,
            0 <= p <= w,
            w > 0,
    ;
    let after = super::filter::probability(sum).scaled();
    assert(after == (if n < 0 {
        0
    } else if n > u {
        u
    } else {
        n
    }));
    assert(-(8 * (e * w)) <= after * w - exact <= 8 * (e * w)) by (nonlinear_arith)
        requires
            -(8 * (e * w)) <= n * w - exact <= 8 * (e * w),
            0 <= exact <= u * w,
            after == (if n < 0 {
                0
            } else if n > u {
                u
            } else {
                n
            }),
            u > 0,
            w > 0,
            e > 0,
    ;
    assert(r * x + p * z == exact) by (nonlinear_arith)
        requires
            exact == x * w + p * (z - x),
            w == p + r,
    ;
    assert((after - z) * w - r * (x - z) == after * w - (r * x + p * z)) by (nonlinear_arith)
        requires
            w == p + r,
    ;
}

proof fn lemma_small_error(miss: int, value: int, u: int, e: int)
    requires
        size(value) <= u,
        u == FRACTION_SPAN * e,
        e >= FRACTION_SPAN,
        2 * FRACTION_SPAN * size(miss) <= size(value) + FRACTION_SPAN,
    ensures
        -e <= miss <= e,
{
    let span = FRACTION_SPAN as int;
    let m = size(miss);
    assert(m <= e) by (nonlinear_arith)
        requires
            2 * span * m <= u + span,
            u == span * e,
            e >= span,
            span >= 1,
    ;
}

proof fn lemma_small_error_of_sum(miss: int, value: int, u: int, e: int)
    requires
        size(value) <= size(miss) + 2 * u,
        u == FRACTION_SPAN * e,
        e >= FRACTION_SPAN,
        2 * FRACTION_SPAN * size(miss) <= size(value) + FRACTION_SPAN,
    ensures
        -(2 * e) <= miss <= 2 * e,
{
    let span = FRACTION_SPAN as int;
    let m = size(miss);
    assert(m <= 2 * e) by (nonlinear_arith)
        requires
            2 * span * m <= m + 2 * u + span,
            u == span * e,
            e >= span,
            span >= 2,
            m >= 0,
    ;
}

/// A measurement above the probabilities counts as one, and one below them as zero.
pub proof fn law_measurements_out_of_range_count_as_bounds(
    state: KalmanState,
    measurement: Binary64,
    measurement_noise: Binary64,
    hours: Binary64,
    config: KalmanConfig,
    now: Timestamp,
)
    ensures
        one_value().less(measurement) ==> state.updated(
            measurement,
            measurement_noise,
            hours,
            config,
            now,
        ) == state.updated(one_value(), measurement_noise, hours, config, now),
        measurement.less(zero_value()) ==> state.updated(
            measurement,
            measurement_noise,
            hours,
            config,
            now,
        ) == state.updated(zero_value(), measurement_noise, hours, config, now),
{
    lemma_zero_and_one();
}

/// The filter treats both outcomes alike: where estimate and measurement are mirrored about one
/// half, so is the result, up to sixteen times the distance from one to the next double.
pub proof fn law_both_outcomes_are_treated_alike(
    state: KalmanState,
    mirrored: KalmanState,
    measurement: Binary64,
    mirrored_measurement: Binary64,
    measurement_noise: Binary64,
    hours: Binary64,
    config: KalmanConfig,
    now: Timestamp,
)
    requires
        config.sound(),
        state.sound(),
        mirrored.sound(),
        measurement.in_unit_range(),
        mirrored_measurement.in_unit_range(),
        measurement_noise.finite(),
        measurement_noise.nonnegative(),
        !hours.nan(),
        state.predicted_variance(hours, config).plus(measurement_noise).finite(),
        mirrored.variance == state.variance,
        state.estimate.scaled() + mirrored.estimate.scaled() == one_in_units(),
        measurement.scaled() + mirrored_measurement.scaled() == one_in_units(),
    ensures
        ({
            let a = state.updated(measurement, measurement_noise, hours, config, now);
            let b = mirrored.updated(mirrored_measurement, measurement_noise, hours, config, now);
            &&& size(a.estimate.scaled() + b.estimate.scaled() - one_in_units()) <= 16 * epsilon()
            &&& a.variance == b.variance
        }),
{
    lemma_one();
    lemma_epsilon();
    assert(mirrored.predicted_variance(hours, config) == state.predicted_variance(hours, config));
    law_update_is_the_blend(state, measurement, measurement_noise, hours, config, now);
    law_update_is_the_blend(
        mirrored,
        mirrored_measurement,
        measurement_noise,
        hours,
        config,
        now,
    );
    let (u, e) = (one_in_units(), epsilon());
    let p = state.predicted_variance(hours, config).scaled();
    let r = measurement_noise.scaled();
    lemma_units(measurement_noise);
    let w = p + r;
    let (x, z) = (state.estimate.scaled(), measurement.scaled());
    let a = state.updated(measurement, measurement_noise, hours, config, now).estimate.scaled();
    let b = mirrored.updated(
        mirrored_measurement,
        measurement_noise,
        hours,
        config,
        now,
    ).estimate.scaled();
    let off = a + b - u;
    assert(r * (u - x) + p * (u - z) == u * w - (r * x + p * z)) by (nonlinear_arith)
        requires
            w == p + r,
    ;
    assert(off * w == (a * w - (r * x + p * z)) + (b * w - (u * w - (r * x + p * z))))
        by (nonlinear_arith)
        requires
            off == a + b - u,
    ;
    assert(-(16 * e) <= off <= 16 * e) by (nonlinear_arith)
        requires
            -(16 * (e * w)) <= off * w <= 16 * (e * w),
            w > 0,
    ;
}

/// The variance after an update is `P * R / (P + R)` for the predicted variance `P` and the noise
/// `R` of the measurement, up to rounding, wherever the bounds allow it; and it is within the
/// bounds.
pub proof fn law_update_combines_the_variances(
    state: KalmanState,
    measurement: Binary64,
    measurement_noise: Binary64,
    hours: Binary64,
    config: KalmanConfig,
    now: Timestamp,
)
    requires
        config.sound(),
        state.sound(),
        measurement_noise.finite(),
        measurement_noise.nonnegative(),
        !hours.nan(),
        state.predicted_variance(hours, config).plus(measurement_noise).finite(),
    ensures
        ({
            let after = state.updated(measurement, measurement_noise, hours, config, now);
            let p = state.predicted_variance(hours, config).scaled();
            let r = measurement_noise.scaled();
            let v = after.variance.scaled();
            let (low, high) = (config.min_variance.scaled(), config.max_variance.scaled());
            &&& low <= v <= high
            &&& low * (p + r) <= p * r <= high * (p + r) ==> FRACTION_SPAN * size(
                v * (p + r) - p * r,
            ) <= (6 * p + FRACTION_SPAN) * (p + r)
            &&& after.update_count == (state.update_count + 1) as u64
            &&& after.last_update == now
        }),
{
    lemma_one();
    lemma_zero_and_one();
    lemma_epsilon();
    let predicted = state.predicted_variance(hours, config);
    law_predict_keeps_bounds(state, hours, config);
    lemma_gain(predicted, measurement_noise);
    let gain = KalmanState::gain(predicted, measurement_noise);
    lemma_units_in_unit_range(gain);
    lemma_units(gain);
    lemma_units(predicted);
    law_unit_difference_bounds(one_value(), gain);
    let rest = one_value().minus(gain);
    lemma_units_in_unit_range(rest);
    lemma_units(rest);
    lemma_difference_error(one_value(), gain);
    law_product_bounds(rest, predicted);
    let product = rest.times(predicted);
    lemma_units(product);
    lemma_order_of_patterns(product.magnitude(), predicted.magnitude());
    lemma_product_error(rest, predicted);
    let (u, e, span) = (one_in_units(), epsilon(), FRACTION_SPAN as int);
    let (p, r, k, g, v) = (
        predicted.scaled(),
        measurement_noise.scaled(),
        gain.scaled(),
        rest.scaled(),
        product.scaled(),
    );
    let w = p + r;
    lemma_small_error(g - (u - k), g, u, e);
    lemma_variance_errors(p, r, k, g, v, u, e);
    let (low, high) = (config.min_variance.scaled(), config.max_variance.scaled());
    let after = product.clamped(config.min_variance, config.max_variance).scaled();
    assert(after == (if v < low {
        low
    } else if v > high {
        high
    } else {
        v
    }));
    if low * w <= p * r <= high * w {
        let exact = p * r;
        let most = (6 * p + span) * w;
        assert(span * size(after * w - exact) <= most) by (nonlinear_arith)
            requires
                span * size(v * w - exact) <= most,
                size(v * w - exact) == (if v * w - exact < 0 {
                    -(v * w - exact)
                } else {
                    v * w - exact
                }),
                size(after * w - exact) == (if after * w - exact < 0 {
                    -(after * w - exact)
                } else {
                    after * w - exact
                }),
                low * w <= exact <= high * w,
                after == (if v < low {
                    low
                } else if v > high {
                    high
                } else {
                    v
                }),
                w > 0,
                span > 0,
        ;
    }
}

proof fn lemma_variance_errors(p: int, r: int, k: int, g: int, v: int, u: int, e: int)
    requires
        p > 0,
        r >= 0,
        0 <= k <= u,
        0 <= v <= p,
        u == FRACTION_SPAN * e,
        e >= FRACTION_SPAN,
        -e <= g - (u - k) <= e,
        -(4 * (e * (p + r))) <= k * (p + r) - p * u <= 4 * (e * (p + r)),
        2 * FRACTION_SPAN * size(v * u - g * p) <= size(v) * u + FRACTION_SPAN * u,
    ensures
        FRACTION_SPAN * size(v * (p + r) - p * r) <= (6 * p + FRACTION_SPAN) * (p + r),
{
    let span = FRACTION_SPAN as int;
    let w = p + r;
    let (a, b, c) = (v * u - g * p, g - (u - k), k * w - p * u);
    let off = v * w - p * r;
    let wp = w * p;
    let wu = w * u;
    assert(w * a == w * (v * u) - w * (g * p)) by (nonlinear_arith)
        requires
            a == v * u - g * p,
    ;
    assert(wp * b == wp * g - wp * u + wp * k) by (nonlinear_arith)
        requires
            b == g - (u - k),
    ;
    assert(p * c == p * (k * w) - p * (p * u)) by (nonlinear_arith)
        requires
            c == k * w - p * u,
    ;
    assert(off * u == (v * w) * u - (p * r) * u) by (nonlinear_arith)
        requires
            off == v * w - p * r,
    ;
    assert(w * (v * u) == (v * w) * u) by (nonlinear_arith);
    assert(w * (g * p) == wp * g && wp * k == p * (k * w)) by (nonlinear_arith)
        requires
            wp == w * p,
    ;
    assert(wp == p * p + r * p) by (nonlinear_arith)
        requires
            wp == w * p,
            w == p + r,
    ;
    assert(wp * u == p * (p * u) + (p * r) * u) by (nonlinear_arith)
        requires
            wp == p * p + r * p,
    ;
    assert(off * u == w * a + wp * b - p * c);
    // Each term, times the number of fractions, in units of `w * u`.
    let m = size(a);
    assert(2 * span * m <= (p + span) * u) by (nonlinear_arith)
        requires
            2 * span * m <= v * u + span * u,
            0 <= v <= p,
            u > 0,
    ;
    let first = span * (w * a);
    assert(-((p + span) * wu) <= 2 * first <= (p + span) * wu) by (nonlinear_arith)
        requires
            2 * span * m <= (p + span) * u,
            -m <= a <= m,
            w > 0,
            wu == w * u,
            span > 0,
            first == span * (w * a),
    ;
    assert(span * (wp * e) == p * wu) by (nonlinear_arith)
        requires
            wp == w * p,
            wu == w * u,
            u == span * e,
    ;
    assert(-(wp * e) <= wp * b <= wp * e) by (nonlinear_arith)
        requires
            -e <= b <= e,
            wp == w * p,
            w > 0,
            p > 0,
    ;
    assert(-(4 * (wp * e)) <= p * c <= 4 * (wp * e)) by (nonlinear_arith)
        requires
            -(4 * (e * w)) <= c <= 4 * (e * w),
            wp == w * p,
            p > 0,
    ;
    assert(span * (wp * b) <= p * wu && -(p * wu) <= span * (wp * b)) by (nonlinear_arith)
        requires
            -(wp * e) <= wp * b <= wp * e,
            span * (wp * e) == p * wu,
            span > 0,
    ;
    assert(span * (p * c) <= 4 * (p * wu) && -(4 * (p * wu)) <= span * (p * c))
        by (nonlinear_arith)
        requires
            -(4 * (wp * e)) <= p * c <= 4 * (wp * e),
            span * (wp * e) == p * wu,
            span > 0,
    ;
    let x = span * (off * u);
    assert(x == first + span * (wp * b) - span * (p * c)) by (nonlinear_arith)
        requires
            off * u == w * a + wp * b - p * c,
            x == span * (off * u),
            first == span * (w * a),
    ;
    assert((p + span) * wu == p * wu + span * wu) by (nonlinear_arith);
    assert(p * wu > 0 && span * wu > 0) by (nonlinear_arith)
        requires
            wu == w * u,
            w > 0,
            u > 0,
            p > 0,
            span > 0,
    ;
    assert(-(6 * (p * wu) + span * wu) <= x <= 6 * (p * wu) + span * wu);
    let most = (6 * p + span) * w;
    assert(6 * (p * wu) + span * wu == most * u) by (nonlinear_arith)
        requires
            most == (6 * p + span) * w,
            wu == w * u,
    ;
    assert(-most <= span * off <= most) by (nonlinear_arith)
        requires
            -(most * u) <= x <= most * u,
            x == span * (off * u),
            u > 0,
    ;
    let mo = size(off);
    assert(span * mo <= most) by (nonlinear_arith)
        requires
            -most <= span * off <= most,
            mo == off || mo == -off,
    ;
}

/// Between measurements the variance grows by the process noise, up to one rounding, as far as
/// the bounds allow.
pub proof fn law_time_adds_the_process_noise(
    state: KalmanState,
    hours: Binary64,
    config: KalmanConfig,
)
    requires
        config.sound(),
        state.sound(),
        !hours.nan(),
        state.variance.plus(config.process_noise(hours)).finite(),
    ensures
        ({
            let grown = state.variance.scaled() + config.process_noise(hours).scaled();
            let p = state.predicted_variance(hours, config).scaled();
            let (low, high) = (config.min_variance.scaled(), config.max_variance.scaled());
            &&& low <= p <= high
            &&& low <= grown <= high ==> FRACTION_SPAN * size(p - grown) <= 2 * grown
            &&& grown <= low ==> p == low
            &&& high <= grown ==> p == high
        }),
{
    lemma_one();
    law_process_noise_is_at_least_the_base(config, hours);
    let noise = config.process_noise(hours);
    law_sum_bounds(state.variance, noise);
    let sum = state.variance.plus(noise);
    lemma_finite_between(noise, sum);
    lemma_sum_error(state.variance, noise);
    lemma_finite_between(config.min_variance, config.max_variance);
    crate::binary64::monotone::lemma_sum_keeps_bounds(
        state.variance,
        noise,
        config.min_variance,
        config.max_variance,
    );
    lemma_units(sum);
    let (grown, s) = (state.variance.scaled() + noise.scaled(), sum.scaled());
    let span = FRACTION_SPAN as int;
    let miss = size(s - grown);
    lemma_whole_error(miss, s);
    assert(span * miss <= 2 * grown) by (nonlinear_arith)
        requires
            span * miss <= s,
            s <= grown + miss,
            miss >= 0,
            span >= 2,
    ;
}

/// The process noise grows in a straight line as the hours run out: it is
/// `base * (1 + multiplier * (1 - hours / max_hours))`, up to rounding; more hours than the
/// largest number, and fewer than none, count as those bounds.
pub proof fn law_process_noise_is_linear(config: KalmanConfig, hours: Binary64)
    requires
        config.sound(),
        !hours.nan(),
        config.process_noise(hours).finite(),
    ensures
        ({
            let (u, span) = (one_in_units(), FRACTION_SPAN as int);
            let (b, m) = (
                config.base_process_noise.scaled(),
                config.expiry_noise_multiplier.scaled(),
            );
            let most = config.max_hours_for_scaling.scaled();
            let h = if hours.scaled() < 0 {
                0
            } else if hours.scaled() > most {
                most
            } else {
                hours.scaled()
            };
            let n = config.process_noise(hours).scaled();
            span * size(n * u * most - b * (u * most + m * (most - h))) <= (8 * (b * (u + m))
                + span * u) * most
        }),
{
    lemma_one();
    lemma_zero_and_one();
    lemma_epsilon();
    let max = config.max_hours_for_scaling;
    let (base, multiplier) = (config.base_process_noise, config.expiry_noise_multiplier);
    let clamped = hours.clamped(zero_value(), max);
    lemma_finite_between(clamped, max);
    lemma_units(clamped);
    lemma_units(max);
    lemma_units(base);
    lemma_units(multiplier);
    law_quotient_bounds(clamped, max);
    let share = clamped.over(max);
    lemma_units_in_unit_range(share);
    lemma_units(share);
    lemma_quotient_error(clamped, max);
    law_unit_difference_bounds(one_value(), share);
    let factor = one_value().minus(share);
    lemma_units_in_unit_range(factor);
    lemma_units(factor);
    lemma_difference_error(one_value(), share);
    law_product_bounds(multiplier, factor);
    let extra = multiplier.times(factor);
    lemma_finite_between(extra, multiplier);
    lemma_units(extra);
    lemma_product_error(multiplier, factor);
    lemma_one_more_is_finite(extra);
    let scale = one_value().plus(extra);
    law_sum_bounds(one_value(), extra);
    lemma_units(scale);
    lemma_sum_error(one_value(), extra);
    law_process_noise_is_at_least_the_base(config, hours);
    lemma_units(config.process_noise(hours));
    lemma_product_error(base, scale);
    lemma_noise_errors(
        base.scaled(),
        multiplier.scaled(),
        clamped.scaled(),
        max.scaled(),
        (share.scaled(), factor.scaled(), extra.scaled(), scale.scaled()),
        config.process_noise(hours).scaled(),
    );
}

/// How the roundings of the process noise add up.
proof fn lemma_noise_errors(
    b: int,
    m: int,
    h: int,
    most: int,
    steps: (int, int, int, int),
    n: int,
)
    requires
        b >= 0,
        m >= 0,
        0 <= h <= most,
        most > 0,
        n >= 0,
        0 <= steps.0 <= one_in_units(),
        0 <= steps.1 <= one_in_units(),
        0 <= steps.2 <= m,
        steps.3 >= 0,
        2 * FRACTION_SPAN * size(steps.0 * most - h * one_in_units()) <= size(steps.0) * most
            + FRACTION_SPAN * most,
        2 * FRACTION_SPAN * size(steps.1 - (one_in_units() - steps.0)) <= size(steps.1)
            + FRACTION_SPAN,
        2 * FRACTION_SPAN * size(steps.2 * one_in_units() - m * steps.1) <= size(steps.2)
            * one_in_units() + FRACTION_SPAN * one_in_units(),
        2 * FRACTION_SPAN * size(steps.3 - (one_in_units() + steps.2)) <= size(steps.3)
            + FRACTION_SPAN,
        2 * FRACTION_SPAN * size(n * one_in_units() - b * steps.3) <= size(n) * one_in_units()
            + FRACTION_SPAN * one_in_units(),
    ensures
        FRACTION_SPAN * size(
            n * one_in_units() * most - b * (one_in_units() * most + m * (most - h)),
        ) <= (8 * (b * (one_in_units() + m)) + FRACTION_SPAN * one_in_units()) * most,
{
    lemma_one();
    lemma_epsilon();
    let (u, e, span) = (one_in_units(), epsilon(), FRACTION_SPAN as int);
    let (q, f, g, k) = steps;
    let um = u + m;
    // The share of the hours that is left.
    let a = q * most - h * u;
    let ma = size(a);
    assert(ma <= e * most) by (nonlinear_arith)
        requires
            2 * span * ma <= q * most + span * most,
            0 <= q <= u,
            u == span * e,
            e >= span,
            span >= 1,
            most > 0,
    ;
    lemma_small_error(f - (u - q), f, u, e);
    let c = f - (u - q);
    // What is added to one.
    let d = g * u - m * f;
    let md = size(d);
    assert(2 * span * md <= (m + span) * u) by (nonlinear_arith)
        requires
            2 * span * md <= g * u + span * u,
            0 <= g <= m,
            u > 0,
    ;
    // One and what is added.
    let x = k - (u + g);
    let mx = size(x);
    lemma_whole_error(mx, k);
    assert(k <= 2 * um && span * mx <= 2 * um) by (nonlinear_arith)
        requires
            span * mx <= k,
            k <= u + g + mx,
            g <= m,
            um == u + m,
            mx >= 0,
            span >= 2,
    ;
    // The scale, times the hours: `u * most + m * (most - h)`.
    let ideal = u * most + m * (most - h);
    let off = k * most - ideal;
    assert((x * u) * most == (k * u) * most - (u * u) * most - (g * u) * most)
        by (nonlinear_arith)
        requires
            x == k - (u + g),
    ;
    assert(d * most == (g * u) * most - (m * f) * most) by (nonlinear_arith)
        requires
            d == g * u - m * f,
    ;
    assert((m * c) * most == (m * f) * most - (m * u) * most + (m * q) * most) by (nonlinear_arith)
        requires
            c == f - (u - q),
    ;
    assert(m * a == m * (q * most) - m * (h * u)) by (nonlinear_arith)
        requires
            a == q * most - h * u,
    ;
    assert(off == k * most - u * most - m * most + m * h) by (nonlinear_arith)
        requires
            ideal == u * most + m * (most - h),
            off == k * most - ideal,
    ;
    assert(off * u == (k * most) * u - (u * most) * u - (m * most) * u + (m * h) * u) by (nonlinear_arith)
        requires
            off == k * most - u * most - m * most + m * h,
    ;
    assert((k * most) * u == (k * u) * most && (u * most) * u == (u * u) * most) by (nonlinear_arith);
    assert((m * most) * u == (m * u) * most && (m * h) * u == m * (h * u)) by (nonlinear_arith);
    assert((m * q) * most == m * (q * most)) by (nonlinear_arith);
    assert(off * u == (x * u) * most + d * most + (m * c) * most - m * a);
    let umm = um * most;
    let unit = umm * u;
    assert(unit > 0 && umm > 0) by (nonlinear_arith)
        requires
            umm == um * most,
            unit == umm * u,
            um > 0,
            most > 0,
            u > 0,
    ;
    assert(-(2 * unit) <= span * ((x * u) * most) <= 2 * unit) by (nonlinear_arith)
        requires
            span * mx <= 2 * um,
            -mx <= x <= mx,
            unit == um * most * u,
            most > 0,
            u > 0,
            span > 0,
    ;
    assert(-unit <= span * (d * most) <= unit) by (nonlinear_arith)
        requires
            2 * span * md <= (m + span) * u,
            -md <= d <= md,
            span <= u,
            um == u + m,
            unit == um * most * u,
            most > 0,
            u > 0,
            m >= 0,
            span > 0,
    ;
    assert(-unit <= span * ((m * c) * most) <= unit) by (nonlinear_arith)
        requires
            -e <= c <= e,
            u == span * e,
            um == u + m,
            unit == um * most * u,
            most > 0,
            u > 0,
            m >= 0,
            e > 0,
            span > 0,
    ;
    assert(-unit <= span * (m * a) <= unit) by (nonlinear_arith)
        requires
            ma <= e * most,
            -ma <= a <= ma,
            u == span * e,
            um == u + m,
            unit == um * most * u,
            most > 0,
            u > 0,
            m >= 0,
            e > 0,
            span > 0,
    ;
    let su = span * (off * u);
    assert(su == span * ((x * u) * most) + span * (d * most) + span * ((m * c) * most) - span * (m
        * a)) by (nonlinear_arith)
        requires
            off * u == (x * u) * most + d * most + (m * c) * most - m * a,
            su == span * (off * u),
    ;
    assert(-(5 * umm) <= span * off <= 5 * umm) by (nonlinear_arith)
        requires
            -(5 * (umm * u)) <= su <= 5 * (umm * u),
            su == span * (off * u),
            u > 0,
    ;
    // The product with the base.
    let y = n * u - b * k;
    let my = size(y);
    let bk = b * k;
    assert(bk >= 0) by (nonlinear_arith)
        requires
            bk == b * k,
            b >= 0,
            k >= 0,
    ;
    let nu = n * u;
    assert(span * my <= bk + span * u) by (nonlinear_arith)
        requires
            2 * span * my <= nu + span * u,
            nu <= bk + my,
            my >= 0,
            bk >= 0,
            span >= 2,
            u > 0,
    ;
    let bum = b * um;
    assert(0 <= bk <= 2 * bum) by (nonlinear_arith)
        requires
            bk == b * k,
            bum == b * um,
            0 <= k <= 2 * um,
            b >= 0,
    ;
    let total = n * u * most - b * ideal;
    assert(total == y * most + b * off) by (nonlinear_arith)
        requires
            y == n * u - b * k,
            off == k * most - ideal,
            total == n * u * most - b * ideal,
    ;
    let bumm = bum * most;
    assert(-(2 * bumm + span * u * most) <= span * (y * most) <= 2 * bumm + span * u * most)
        by (nonlinear_arith)
        requires
            span * my <= 2 * bum + span * u,
            -my <= y <= my,
            bumm == bum * most,
            most > 0,
            span > 0,
    ;
    assert(bumm == b * umm) by (nonlinear_arith)
        requires
            bumm == bum * most,
            bum == b * um,
            umm == um * most,
    ;
    assert(-(5 * bumm) <= span * (b * off) <= 5 * bumm) by (nonlinear_arith)
        requires
            -(5 * umm) <= span * off <= 5 * umm,
            bumm == b * umm,
            b >= 0,
    ;
    assert(bumm >= 0) by (nonlinear_arith)
        requires
            bumm == b * umm,
            b >= 0,
            umm > 0,
    ;
    let st = span * total;
    assert(st == span * (y * most) + span * (b * off)) by (nonlinear_arith)
        requires
            total == y * most + b * off,
            st == span * total,
    ;
    let limit = (8 * bum + span * u) * most;
    assert(limit == 8 * bumm + span * u * most) by (nonlinear_arith)
        requires
            limit == (8 * bum + span * u) * most,
            bumm == bum * most,
    ;
    let mt = size(total);
    assert(span * mt <= limit) by (nonlinear_arith)
        requires
            -limit <= span * total <= limit,
            mt == total || mt == -total,
    ;
}

} // verus!
