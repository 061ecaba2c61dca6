//! Fusion of the prices that several platforms report for one event.
use super::filter::{lemma_zero_and_one, probability, to_probability};
use crate::binary64::accuracy::{
    lemma_product_accuracy, lemma_quotient_accuracy, lemma_quotient_by_whole_number,
    lemma_sum_accuracy, lemma_two,
};
use crate::binary64::arithmetic::one_in_units;
use crate::binary64::errors::{
    epsilon, lemma_epsilon, lemma_product_error, lemma_quotient_error,
    lemma_quotient_shrinks, lemma_quotient_up_to_a_hundred, lemma_sum_error, size,
};
use crate::binary64::numbers::D_2;
use crate::binary64::ranges::{
    law_product_bounds, law_quotient_bounds, law_sum_bounds, lemma_adding_nothing, lemma_one,
    lemma_order_of_patterns, lemma_small_sum_is_finite, lemma_units, lemma_units_in_unit_range,
    lemma_with_sign,
};
use crate::binary64::rounding::{lemma_nearest, nearest};
use crate::binary64::{one, one_value, zero, zero_value, Binary64, FRACTION_SPAN};
use vstd::prelude::*;

verus! {

/// Platform identifier for observations.
#[derive(Debug, Clone, Copy, PartialEq, Eq, Hash, Structural)]
pub enum Platform {
    Polymarket,
    Kalshi,
}

impl Platform {
    /// The name of the platform.
    pub open spec fn name(self) -> Seq<char> {
        match self {
            Platform::Polymarket => "Polymarket"@,
            Platform::Kalshi => "Kalshi"@,
        }
    }

    /// The name of the platform.
    pub fn label(&self) -> (r: &'static str)
        ensures
            r@ == self.name(),
    {
        match self {
            Platform::Polymarket => "Polymarket",
            Platform::Kalshi => "Kalshi",
        }
    }
}

/// Observation from a single platform for cross-platform fusion.
#[derive(Debug, Clone, Copy, PartialEq, Eq, Structural)]
pub struct PlatformObservation {
    /// Observed price/probability
    pub price: Binary64,
    /// Trading volume (for weighting)
    pub volume: Binary64,
    /// Platform identifier
    pub platform: Platform,
}

impl PlatformObservation {
    /// Whether the observation counts: something was traded, at a price that is a probability.
    pub open spec fn valid(self) -> bool {
        &&& zero_value().less(self.volume)
        &&& zero_value().at_most(self.price)
        &&& self.price.at_most(one_value())
    }

    fn is_valid(&self) -> (r: bool)
        ensures
            r == self.valid(),
    {
        self.volume.gt(&zero()) && self.price.ge(&zero()) && self.price.le(&one())
    }
}

/// The sum of the prices weighted by volume, and the sum of the volumes, added up in order.
pub open spec fn weighted_sums(observations: Seq<PlatformObservation>) -> (Binary64, Binary64)
    decreases observations.len(),
{
    if observations.len() == 0 {
        (zero_value(), zero_value())
    } else {
        let (sum, volume) = weighted_sums(observations.drop_last());
        let last = observations.last();
        if last.valid() {
            (sum.plus(last.price.times(last.volume)), volume.plus(last.volume))
        } else {
            (sum, volume)
        }
    }
}

/// The volume-weighted average of the valid observations, if there are any.
pub open spec fn fused(observations: Seq<PlatformObservation>) -> Option<Binary64> {
    let (sum, volume) = weighted_sums(observations);
    if zero_value().less(volume) {
        Some(probability(sum.over(volume)))
    } else {
        None
    }
}

/// Fuse probability estimates from multiple platforms using volume-weighted averaging.
pub fn fuse_estimates(observations: &Vec<PlatformObservation>) -> (r: Option<Binary64>)
    ensures
        r == fused(observations@),
{
    let mut sum = zero();
    let mut volume = zero();
    let mut i: usize = 0;
    assert(observations@.take(0) =~= seq![]);
    while i < observations.len()
        invariant
            i <= observations.len(),
            (sum, volume) == weighted_sums(observations@.take(i as int)),
        decreases observations.len() - i,
    {
        let observation = observations[i];
        assert(observations@.take(i + 1).drop_last() =~= observations@.take(i as int));
        if observation.is_valid() {
            sum = sum.add(&observation.price.mul(&observation.volume));
            volume = volume.add(&observation.volume);
        }
        i += 1;
    }
    assert(observations@.take(observations.len() as int) =~= observations@);
    if volume.gt(&zero()) {
        Some(to_probability(&sum.div(&volume)))
    } else {
        None
    }
}

/// An observation that does not count changes nothing.
pub proof fn law_invalid_observations_are_ignored(
    observations: Seq<PlatformObservation>,
    extra: PlatformObservation,
)
    requires
        !extra.valid(),
    ensures
        fused(observations.push(extra)) == fused(observations),
        fused(seq![]) is None,
{
    assert(observations.push(extra).drop_last() =~= observations);
    assert(Seq::<PlatformObservation>::empty().len() == 0);
}

/// Whether an observation counts.
pub open spec fn any_valid(observations: Seq<PlatformObservation>) -> bool {
    exists|i: int| 0 <= i < observations.len() && (#[trigger] observations[i]).valid()
}

proof fn lemma_volume_is_traded(observations: Seq<PlatformObservation>)
    ensures
        weighted_sums(observations).1.nonnegative(),
        weighted_sums(observations).1.positive() <==> any_valid(observations),
    decreases observations.len(),
{
    lemma_one();
    if observations.len() > 0 {
        let front = observations.drop_last();
        let last = observations.last();
        lemma_volume_is_traded(front);
        let before = weighted_sums(front).1;
        if last.valid() {
            lemma_sum_of_positives(before, last.volume);
            assert(observations[observations.len() - 1].valid());
        } else {
            if any_valid(front) {
                let i = choose|i: int| 0 <= i < front.len() && (#[trigger] front[i]).valid();
                assert(observations[i].valid());
            }
            if any_valid(observations) {
                let i = choose|i: int|
                    0 <= i < observations.len() && (#[trigger] observations[i]).valid();
                assert(front[i].valid());
            }
        }
    }
}

proof fn lemma_sum_of_positives(a: Binary64, b: Binary64)
    requires
        a.nonnegative(),
        b.positive(),
    ensures
        a.plus(b).positive(),
{
    lemma_one();
    lemma_units(a);
    lemma_units(b);
    if a.finite() || b.finite() {
        law_sum_bounds(a, b);
    }
}

/// There is an estimate exactly where an observation counts.
pub proof fn law_an_estimate_needs_a_valid_observation(observations: Seq<PlatformObservation>)
    ensures
        fused(observations) is Some <==> any_valid(observations),
{
    lemma_volume_is_traded(observations);
}

/// Whether all observations that count lie between two prices and have volumes that are finite
/// and not so small that they lose digits.
pub open spec fn all_between(
    observations: Seq<PlatformObservation>,
    low: Binary64,
    high: Binary64,
) -> bool {
    forall|i: int|
        0 <= i < observations.len() && (#[trigger] observations[i]).valid() ==> {
            &&& low.at_most(observations[i].price)
            &&& observations[i].price.at_most(high)
            &&& observations[i].volume.finite()
            &&& observations[i].volume.scaled() >= FRACTION_SPAN
        }
}

/// Whether the weighted sum `s` of a volume `v` lies between two prices, up to so many times the
/// distance from one to the next double. Prices, sums and volumes are in units.
spec fn sum_between(s: int, v: int, low: int, high: int, slack: int) -> bool {
    (low - slack) * v <= s * one_in_units() <= (high + slack) * v
}

/// One more product: it lies between the prices times the volume, up to two times the distance
/// from one to the next double.
proof fn lemma_product_between(price: int, w: int, t: int, low: int, high: int)
    requires
        0 <= low <= price <= high <= one_in_units(),
        w >= FRACTION_SPAN,
        t >= 0,
        2 * FRACTION_SPAN * size(t * one_in_units() - price * w) <= size(t) * one_in_units()
            + FRACTION_SPAN * one_in_units(),
    ensures
        sum_between(t, w, low, high, 2 * epsilon()),
{
    lemma_one();
    lemma_epsilon();
    let (u, e, span) = (one_in_units(), epsilon(), FRACTION_SPAN as int);
    let tu = t * u;
    let pw = price * w;
    let uw = u * w;
    let ew = e * w;
    assert(tu >= 0 && pw >= 0 && u <= ew && uw == span * ew && 0 <= pw <= uw)
        by (nonlinear_arith)
        requires
            tu == t * u,
            t >= 0,
            u > 0,
            pw == price * w,
            0 <= price <= u,
            uw == u * w,
            ew == e * w,
            u == span * e,
            w >= span,
            e > 0,
    ;
    assert(ew > 0) by (nonlinear_arith)
        requires
            ew == e * w,
            e > 0,
            w > 0,
    ;
    let miss = size(tu - pw);
    assert(2 * span * miss <= tu + span * u);
    assert(span * u <= uw) by (nonlinear_arith)
        requires
            uw == u * w,
            w >= span,
            u > 0,
    ;
    assert(miss <= 2 * ew) by (nonlinear_arith)
        requires
            2 * span * miss <= tu + span * u,
            tu <= pw + miss,
            pw <= uw,
            span * u <= uw,
            uw == span * ew,
            span >= 2,
            miss >= 0,
            ew > 0,
    ;
    assert(low * w <= pw <= high * w) by (nonlinear_arith)
        requires
            pw == price * w,
            low <= price <= high,
            w > 0,
    ;
    assert((low - 2 * e) * w == low * w - 2 * ew && (high + 2 * e) * w == high * w + 2 * ew)
        by (nonlinear_arith)
        requires
            ew == e * w,
    ;
}

/// One more sum: each step adds five times the distance from one to the next double to the
/// slack.
proof fn lemma_sum_step(
    old: (int, int),
    new: (int, int),
    after: (int, int),
    low: int,
    high: int,
    slack: int,
)
    requires
        0 <= low <= high <= one_in_units(),
        2 * epsilon() <= slack <= one_in_units(),
        old.0 >= 0,
        old.1 >= 0,
        new.0 >= 0,
        new.1 >= FRACTION_SPAN,
        after.0 >= 0,
        after.1 >= new.1,
        sum_between(old.0, old.1, low, high, slack),
        sum_between(new.0, new.1, low, high, 2 * epsilon()),
        2 * FRACTION_SPAN * size(after.0 - (old.0 + new.0)) <= size(after.0) + FRACTION_SPAN,
        2 * FRACTION_SPAN * size(after.1 - (old.1 + new.1)) <= size(after.1) + FRACTION_SPAN,
    ensures
        sum_between(after.0, after.1, low, high, slack + 5 * epsilon()),
{
    lemma_epsilon();
    let (u, e, span) = (one_in_units(), epsilon(), FRACTION_SPAN as int);
    let (s, v) = (old.0 + new.0, old.1 + new.1);
    let (s2, v2) = after;
    // The exact sums lie between the prices.
    let (lo, hi) = (low - slack, high + slack);
    let w = new.1;
    assert(lo * v <= s * u <= hi * v) by (nonlinear_arith)
        requires
            lo * old.1 <= old.0 * u <= hi * old.1,
            (low - 2 * e) * w <= new.0 * u <= (high + 2 * e) * w,
            lo == low - slack,
            hi == high + slack,
            2 * e <= slack,
            w > 0,
            s == old.0 + new.0,
            v == old.1 + w,
    ;
    // The rounded volume is close to the exact one.
    let (ms, mv) = (size(s2 - s), size(v2 - v));
    assert(span * mv <= v2) by (nonlinear_arith)
        requires
            2 * span * mv <= v2 + span,
            v2 >= span,
    ;
    let ev = e * v2;
    let uv = u * v2;
    assert(uv == span * ev && u <= ev && u * mv <= ev && ev > 0) by (nonlinear_arith)
        requires
            uv == u * v2,
            ev == e * v2,
            u == span * e,
            span * mv <= v2,
            v2 >= span,
            e > 0,
            span > 0,
    ;
    let exact = s * u;
    lemma_bounds_move(lo, hi, u, v, v2, ev, exact);
    // The rounded sum is close to the exact one.
    let msu = ms * u;
    assert(2 * span * msu <= s2 * u + span * u) by (nonlinear_arith)
        requires
            2 * span * ms <= s2 + span,
            msu == ms * u,
            u > 0,
    ;
    assert(s2 * u <= exact + msu) by (nonlinear_arith)
        requires
            s2 - s <= ms,
            exact == s * u,
            msu == ms * u,
            u > 0,
    ;
    assert(exact - msu <= s2 * u) by (nonlinear_arith)
        requires
            s - s2 <= ms,
            exact == s * u,
            msu == ms * u,
            u > 0,
    ;
    assert(hi * v2 <= 2 * uv) by (nonlinear_arith)
        requires
            hi <= 2 * u,
            uv == u * v2,
            v2 > 0,
    ;
    assert(msu <= 3 * ev) by (nonlinear_arith)
        requires
            2 * span * msu <= exact + msu + span * u,
            exact <= 2 * uv + 2 * ev,
            uv == span * ev,
            u <= ev,
            span >= 10,
            msu >= 0,
            ev > 0,
    ;
    assert((low - (slack + 5 * e)) * v2 == lo * v2 - 5 * ev && (high + (slack + 5 * e)) * v2 == hi
        * v2 + 5 * ev) by (nonlinear_arith)
        requires
            lo == low - slack,
            hi == high + slack,
            ev == e * v2,
    ;
}

/// Bounds times a volume move little as the volume is rounded.
proof fn lemma_bounds_move(lo: int, hi: int, u: int, v: int, v2: int, ev: int, exact: int)
    requires
        -u <= lo <= u,
        0 <= hi <= 2 * u,
        u > 0,
        u * size(v2 - v) <= ev,
        lo * v <= exact <= hi * v,
    ensures
        lo * v2 - ev <= exact <= hi * v2 + 2 * ev,
{
    let d = v2 - v;
    let m = size(d);
    assert(-(u * m) <= lo * d <= u * m) by (nonlinear_arith)
        requires
            -u <= lo <= u,
            -m <= d <= m,
            m >= 0,
            u > 0,
    ;
    assert(-(2 * (u * m)) <= hi * d <= 2 * (u * m)) by (nonlinear_arith)
        requires
            0 <= hi <= 2 * u,
            -m <= d <= m,
            m >= 0,
            u > 0,
    ;
    assert(lo * v2 == lo * v + lo * d && hi * v2 == hi * v + hi * d) by (nonlinear_arith)
        requires
            v2 == v + d,
    ;
}

/// The sums of finitely many observations lie between the prices, with a slack that grows with
/// their number.
proof fn lemma_sums_between(
    observations: Seq<PlatformObservation>,
    low: Binary64,
    high: Binary64,
)
    requires
        observations.len() <= 0x1_0000_0000_0000,
        low.in_unit_range(),
        high.in_unit_range(),
        low.at_most(high),
        all_between(observations, low, high),
        weighted_sums(observations).0.finite(),
        weighted_sums(observations).1.finite(),
    ensures
        weighted_sums(observations).0.nonnegative(),
        weighted_sums(observations).1.nonnegative(),
        sum_between(
            weighted_sums(observations).0.scaled(),
            weighted_sums(observations).1.scaled(),
            low.scaled(),
            high.scaled(),
            (5 * observations.len() + 2) * epsilon(),
        ),
    decreases observations.len(),
{
    lemma_one();
    lemma_epsilon();
    let (u, e) = (one_in_units(), epsilon());
    let n = observations.len() as int;
    if n > 0 {
        let front = observations.drop_last();
        let last = observations.last();
        let (s, v) = weighted_sums(front);
        let (s2, v2) = weighted_sums(observations);
        assert forall|i: int| 0 <= i < front.len() && (#[trigger] front[i]).valid() implies {
            &&& low.at_most(front[i].price)
            &&& front[i].price.at_most(high)
            &&& front[i].volume.finite()
            &&& front[i].volume.scaled() >= FRACTION_SPAN
        } by {
            assert(front[i] == observations[i]);
        }
        if last.valid() {
            assert(observations[n - 1].valid());
            let t = last.price.times(last.volume);
            lemma_units_in_unit_range(last.price);
            law_product_bounds(last.price, last.volume);
            lemma_units(t);
            lemma_nonnegative_sums(front);
            lemma_finite_parts(s, t);
            lemma_finite_parts(v, last.volume);
            lemma_sums_between(front, low, high);
            law_sum_bounds(s, t);
            law_sum_bounds(v, last.volume);
            lemma_units(s);
            lemma_units(v);
            lemma_units(s2);
            lemma_units(v2);
            lemma_units(last.price);
            lemma_units(last.volume);
            lemma_product_error(last.price, last.volume);
            lemma_sum_error(s, t);
            lemma_sum_error(v, last.volume);
            lemma_product_between(
                last.price.scaled(),
                last.volume.scaled(),
                t.scaled(),
                low.scaled(),
                high.scaled(),
            );
            let slack = (5 * (n - 1) + 2) * e;
            lemma_slack(n, e);
            lemma_sum_step(
                (s.scaled(), v.scaled()),
                (t.scaled(), last.volume.scaled()),
                (s2.scaled(), v2.scaled()),
                low.scaled(),
                high.scaled(),
                slack,
            );
        } else {
            lemma_sums_between(front, low, high);
            lemma_slack(n, e);
            lemma_more_slack(
                s.scaled(),
                v.scaled(),
                low.scaled(),
                high.scaled(),
                (5 * (n - 1) + 2) * e,
                (5 * n + 2) * e,
            );
        }
    } else {
        assert(sum_between(0, 0, low.scaled(), high.scaled(), (5 * n + 2) * e))
            by (nonlinear_arith);
    }
}

proof fn lemma_slack(n: int, e: int)
    requires
        1 <= n <= 0x1_0000_0000_0000,
        e == epsilon(),
    ensures
        2 * e <= (5 * (n - 1) + 2) * e <= one_in_units(),
        (5 * n + 2) * e == (5 * (n - 1) + 2) * e + 5 * e,
{
    lemma_epsilon();
    assert(2 * e <= (5 * (n - 1) + 2) * e <= FRACTION_SPAN * e && (5 * n + 2) * e == (5 * (n - 1)
        + 2) * e + 5 * e) by (nonlinear_arith)
        requires
            1 <= n <= 0x1_0000_0000_0000,
            e > 0,
            FRACTION_SPAN == 0x10_0000_0000_0000,
    ;
}

proof fn lemma_more_slack(s: int, v: int, low: int, high: int, slack: int, more: int)
    requires
        v >= 0,
        slack <= more,
        sum_between(s, v, low, high, slack),
    ensures
        sum_between(s, v, low, high, more),
{
    assert((low - more) * v <= (low - slack) * v && (high + slack) * v <= (high + more) * v)
        by (nonlinear_arith)
        requires
            v >= 0,
            slack <= more,
    ;
}

/// The sums are never negative.
proof fn lemma_nonnegative_sums(observations: Seq<PlatformObservation>)
    requires
        forall|i: int|
            0 <= i < observations.len() && (#[trigger] observations[i]).valid()
                ==> observations[i].volume.finite(),
    ensures
        weighted_sums(observations).0.nonnegative(),
        weighted_sums(observations).1.nonnegative(),
    decreases observations.len(),
{
    lemma_one();
    if observations.len() > 0 {
        let front = observations.drop_last();
        let last = observations.last();
        assert forall|i: int| 0 <= i < front.len() && (#[trigger] front[i]).valid() implies
            front[i].volume.finite() by {
            assert(front[i] == observations[i]);
        }
        lemma_nonnegative_sums(front);
        if last.valid() {
            assert(observations[observations.len() - 1].valid());
            let (s, v) = weighted_sums(front);
            let t = last.price.times(last.volume);
            lemma_units_in_unit_range(last.price);
            law_product_bounds(last.price, last.volume);
            lemma_units(t);
            lemma_units(last.volume);
            law_sum_bounds(s, t);
            law_sum_bounds(v, last.volume);
        }
    }
}

/// What adds up to a finite sum is finite.
proof fn lemma_finite_parts(a: Binary64, b: Binary64)
    requires
        a.nonnegative(),
        b.nonnegative(),
        a.plus(b).finite(),
    ensures
        a.finite(),
        b.finite(),
{
}

/// The estimate lies between the least and the greatest of the prices that count, up to rounding:
/// it passes them by no more than five times the distance from one to the next double for each
/// observation and one more.
pub proof fn law_an_estimate_lies_between_the_prices(
    observations: Seq<PlatformObservation>,
    low: Binary64,
    high: Binary64,
)
    requires
        observations.len() <= 0x1_0000_0000_0000,
        low.in_unit_range(),
        high.in_unit_range(),
        low.at_most(high),
        any_valid(observations),
        all_between(observations, low, high),
        weighted_sums(observations).0.finite(),
        weighted_sums(observations).1.finite(),
    ensures
        ({
            let slack = 5 * (observations.len() + 1) * epsilon();
            let r = fused(observations)->0;
            &&& fused(observations) is Some
            &&& r.in_unit_range()
            &&& low.scaled() - slack <= r.scaled() <= high.scaled() + slack
        }),
{
    lemma_one();
    lemma_epsilon();
    lemma_volume_is_traded(observations);
    lemma_sums_between(observations, low, high);
    let (sum, volume) = weighted_sums(observations);
    let n = observations.len() as int;
    let (u, e, span) = (one_in_units(), epsilon(), FRACTION_SPAN as int);
    let slack = (5 * n + 2) * e;
    lemma_slack(n + 0, e);
    lemma_units(sum);
    lemma_units(volume);
    lemma_units(low);
    lemma_units(high);
    let (s, v) = (sum.scaled(), volume.scaled());
    assert(s <= 100 * v) by (nonlinear_arith)
        requires
            s * u <= (high.scaled() + slack) * v,
            high.scaled() <= u,
            slack <= 2 * u,
            v > 0,
            u > 0,
    ;
    lemma_quotient_up_to_a_hundred(sum, volume);
    law_quotient_bounds(sum, volume);
    lemma_quotient_error(sum, volume);
    let q = sum.over(volume).scaled();
    lemma_quotient_between(q, s, v, low.scaled(), high.scaled(), slack);
    assert(5 * (n + 1) * e == slack + 3 * e) by (nonlinear_arith)
        requires
            slack == (5 * n + 2) * e,
    ;
}

proof fn lemma_quotient_between(q: int, s: int, v: int, low: int, high: int, slack: int)
    requires
        0 <= low <= high <= one_in_units(),
        0 <= slack <= 2 * one_in_units(),
        v > 0,
        q >= 0,
        sum_between(s, v, low, high, slack),
        2 * FRACTION_SPAN * size(q * v - s * one_in_units()) <= size(q) * v + FRACTION_SPAN * v,
    ensures
        low - slack - 3 * epsilon() <= q <= high + slack + 3 * epsilon(),
{
    lemma_epsilon();
    let (u, e, span) = (one_in_units(), epsilon(), FRACTION_SPAN as int);
    let (qv, su, ev, uv) = (q * v, s * u, e * v, u * v);
    assert(uv == span * ev) by (nonlinear_arith)
        requires
            uv == u * v,
            ev == e * v,
            u == span * e,
    ;
    assert(ev > 0 && span * v <= ev) by (nonlinear_arith)
        requires
            ev == e * v,
            e >= span,
            e > 0,
            v > 0,
    ;
    assert(su <= 3 * uv) by (nonlinear_arith)
        requires
            su <= (high + slack) * v,
            high + slack <= 3 * u,
            uv == u * v,
            v > 0,
    ;
    let miss = size(qv - su);
    assert(miss <= 3 * ev) by (nonlinear_arith)
        requires
            2 * span * miss <= qv + span * v,
            qv <= su + miss,
            su <= 3 * uv,
            uv == span * ev,
            span * v <= ev,
            span >= 10,
            miss >= 0,
            ev > 0,
    ;
    assert(low - slack - 3 * e <= q <= high + slack + 3 * e) by (nonlinear_arith)
        requires
            (low - slack) * v - 3 * ev <= qv <= (high + slack) * v + 3 * ev,
            qv == q * v,
            ev == e * v,
            v > 0,
    ;
}

/// Two platforms are fused alike by both functions, where something is traded on both and no
/// price is the negative zero.
pub proof fn law_two_platforms_are_fused_alike(
    poly: PlatformObservation,
    kalshi: PlatformObservation,
)
    requires
        poly.valid(),
        kalshi.valid(),
        poly.volume.finite(),
        kalshi.volume.finite(),
        !poly.price.sign(),
    ensures
        fused(seq![poly, kalshi]) == Some(
            fused_pair(poly.price, poly.volume, kalshi.price, kalshi.volume),
        ),
{
    lemma_one();
    let both = seq![poly, kalshi];
    assert(both.drop_last() =~= seq![poly]);
    assert(seq![poly].drop_last() =~= Seq::<PlatformObservation>::empty());
    reveal_with_fuel(weighted_sums, 3);
    let t = poly.price.times(poly.volume);
    lemma_units_in_unit_range(poly.price);
    law_product_bounds(poly.price, poly.volume);
    lemma_units(poly.volume);
    lemma_units(t);
    lemma_product_sign(poly.price, poly.volume);
    lemma_adding_nothing(t, zero_value());
    lemma_adding_nothing(poly.volume, zero_value());
    assert(both[0].valid());
    lemma_volume_is_traded(both);
}

proof fn lemma_product_sign(a: Binary64, b: Binary64)
    requires
        a.finite(),
        b.finite(),
        !a.sign(),
        !b.sign(),
    ensures
        !a.times(b).sign(),
{
    lemma_nearest(a.units() * b.units(), one_in_units());
    lemma_with_sign(false, nearest(a.units() * b.units(), one_in_units()));
}

/// The average of two prices, weighted by volume where there is any.
pub open spec fn fused_pair(
    poly_price: Binary64,
    poly_volume: Binary64,
    kalshi_price: Binary64,
    kalshi_volume: Binary64,
) -> Binary64 {
    let total = poly_volume.plus(kalshi_volume);
    if zero_value().less(total) {
        probability(
            poly_price.times(poly_volume).plus(kalshi_price.times(kalshi_volume)).over(total),
        )
    } else {
        probability(poly_price.plus(kalshi_price).over(Binary64::of_bits(D_2)))
    }
}

/// Fuse two platform estimates with explicit volumes (convenience function).
pub fn fuse_two_platforms(
    poly_price: &Binary64,
    poly_volume: &Binary64,
    kalshi_price: &Binary64,
    kalshi_volume: &Binary64,
) -> (r: Binary64)
    ensures
        r == fused_pair(*poly_price, *poly_volume, *kalshi_price, *kalshi_volume),
{
    let total = poly_volume.add(kalshi_volume);
    if total.gt(&zero()) {
        to_probability(
            &poly_price.mul(poly_volume).add(&kalshi_price.mul(kalshi_volume)).div(&total),
        )
    } else {
        to_probability(&poly_price.add(kalshi_price).div(&Binary64::from_bits(D_2)))
    }
}

/// Two prices are fused to their average, weighted by volume: `(p * v + q * w) / (v + w)`, up to
/// rounding. Without volume they are fused to their middle.
pub proof fn law_two_prices_are_fused_by_volume(
    poly_price: Binary64,
    poly_volume: Binary64,
    kalshi_price: Binary64,
    kalshi_volume: Binary64,
)
    requires
        poly_price.in_unit_range(),
        kalshi_price.in_unit_range(),
        poly_volume.finite(),
        poly_volume.nonnegative(),
        kalshi_volume.finite(),
        kalshi_volume.nonnegative(),
        poly_volume.plus(kalshi_volume).finite(),
        poly_price.times(poly_volume).plus(kalshi_price.times(kalshi_volume)).finite(),
    ensures
        ({
            let (u, span) = (one_in_units(), FRACTION_SPAN as int);
            let (p, v) = (poly_price.scaled(), poly_volume.scaled());
            let (q, w) = (kalshi_price.scaled(), kalshi_volume.scaled());
            let r = fused_pair(poly_price, poly_volume, kalshi_price, kalshi_volume).scaled();
            &&& v + w > 0 ==> span * size(r * (v + w) - (p * v + q * w)) <= 300 * (u * (v + w)) + 2
                * (span * (u + v + w))
            &&& v + w == 0 ==> span * size(2 * r - (p + q)) <= 16 * u
        }),
{
    lemma_one();
    lemma_epsilon();
    lemma_zero_and_one();
    lemma_units_in_unit_range(poly_price);
    lemma_units_in_unit_range(kalshi_price);
    lemma_units(poly_price);
    lemma_units(kalshi_price);
    lemma_units(poly_volume);
    lemma_units(kalshi_volume);
    let total = poly_volume.plus(kalshi_volume);
    law_sum_bounds(poly_volume, kalshi_volume);
    lemma_units(total);
    lemma_sum_accuracy(poly_volume, kalshi_volume);
    let (u, span) = (one_in_units(), FRACTION_SPAN as int);
    let (p, v) = (poly_price.scaled(), poly_volume.scaled());
    let (q, w) = (kalshi_price.scaled(), kalshi_volume.scaled());
    let t = total.scaled();
    if v + w > 0 {
        law_product_bounds(poly_price, poly_volume);
        law_product_bounds(kalshi_price, kalshi_volume);
        let (a, b) = (poly_price.times(poly_volume), kalshi_price.times(kalshi_volume));
        lemma_units(a);
        lemma_units(b);
        let sum = a.plus(b);
        law_sum_bounds(a, b);
        lemma_units(sum);
        lemma_product_accuracy(poly_price, poly_volume);
        lemma_product_accuracy(kalshi_price, kalshi_volume);
        lemma_sum_accuracy(a, b);
        let ratio = sum.over(total);
        lemma_order_of_patterns(a.magnitude(), poly_volume.magnitude());
        lemma_order_of_patterns(b.magnitude(), kalshi_volume.magnitude());
        assert(sum.units() <= 100 * total.units());
        lemma_quotient_up_to_a_hundred(sum, total);
        law_quotient_bounds(sum, total);
        lemma_units(ratio);
        lemma_quotient_accuracy(sum, total);
        let (x, y, s, z) = (a.scaled(), b.scaled(), sum.scaled(), ratio.scaled());
        assert(p * v >= 0 && q * w >= 0) by (nonlinear_arith)
            requires
                p >= 0,
                v >= 0,
                q >= 0,
                w >= 0,
        ;
        assert(s * u >= 0) by (nonlinear_arith)
            requires
                s >= 0,
                u > 0,
        ;
        lemma_fused_errors((p, v, q, w), (x, y, s, t), z);
        let r = probability(ratio).scaled();
        assert(r == (if z > u {
            u
        } else {
            z
        }));
        let (sides, exact) = (v + w, p * v + q * w);
        assert(exact <= u * sides) by (nonlinear_arith)
            requires
                exact == p * v + q * w,
                0 <= p <= u,
                0 <= q <= u,
                v >= 0,
                w >= 0,
                sides == v + w,
        ;
        let (d, f) = (z * sides - exact, r * sides - exact);
        assert(size(f) <= size(d)) by (nonlinear_arith)
            requires
                d == z * sides - exact,
                f == r * sides - exact,
                exact <= u * sides,
                sides > 0,
                r == (if z > u {
                    u
                } else {
                    z
                }),
                size(d) == (if d < 0 {
                    -d
                } else {
                    d
                }),
                size(f) == (if f < 0 {
                    -f
                } else {
                    f
                }),
        ;
    } else {
        let sum = poly_price.plus(kalshi_price);
        lemma_small_sum_is_finite(poly_price, kalshi_price);
        law_sum_bounds(poly_price, kalshi_price);
        lemma_units(sum);
        lemma_sum_accuracy(poly_price, kalshi_price);
        let two = Binary64::of_bits(D_2);
        lemma_two();
        lemma_units(two);
        lemma_quotient_shrinks(sum, two);
        law_quotient_bounds(sum, two);
        let half = sum.over(two);
        lemma_units(half);
        lemma_quotient_by_whole_number(sum, two, 2);
        let (s, h) = (sum.scaled(), half.scaled());
        let r = probability(half).scaled();
        assert(r == (if h > u {
            u
        } else {
            h
        }));
        assert(size(2 * r - (p + q)) <= size(2 * h - (p + q)));
        assert(span * size(s - (p + q)) <= 2 * (p + q));
        assert(span * size(2 * h - s) <= s + 2 * span);
        assert(span <= u) by (nonlinear_arith)
            requires
                u == span * epsilon(),
                epsilon() >= 1,
                span > 0,
        ;
    }
}

/// How the roundings of a weighted average add up.
proof fn lemma_fused_errors(given: (int, int, int, int), steps: (int, int, int, int), z: int)
    requires
        0 <= given.0 <= one_in_units(),
        0 <= given.2 <= one_in_units(),
        0 <= given.1,
        0 <= given.3,
        given.1 + given.3 > 0,
        0 <= steps.0 <= given.1,
        0 <= steps.1 <= given.3,
        0 <= steps.2,
        steps.3 > 0,
        0 <= z <= 100 * one_in_units(),
        FRACTION_SPAN * size(steps.0 * one_in_units() - given.0 * given.1) <= given.0 * given.1
            + FRACTION_SPAN * one_in_units(),
        FRACTION_SPAN * size(steps.1 * one_in_units() - given.2 * given.3) <= given.2 * given.3
            + FRACTION_SPAN * one_in_units(),
        FRACTION_SPAN * size(steps.2 - (steps.0 + steps.1)) <= 2 * (steps.0 + steps.1),
        FRACTION_SPAN * size(steps.3 - (given.1 + given.3)) <= 2 * (given.1 + given.3),
        FRACTION_SPAN * size(z * steps.3 - steps.2 * one_in_units()) <= steps.2 * one_in_units()
            + FRACTION_SPAN * steps.3,
    ensures
        ({
            let (u, span) = (one_in_units(), FRACTION_SPAN as int);
            let (p, v, q, w) = given;
            span * size(z * (v + w) - (p * v + q * w)) <= 300 * (u * (v + w)) + 2 * (span * (u + v
                + w))
        }),
{
    lemma_one();
    let (u, span) = (one_in_units(), FRACTION_SPAN as int);
    let (p, v, q, w) = given;
    let (x, y, s, t) = steps;
    let sides = v + w;
    let us = u * sides;
    let (e1, e2, e3, e4, e5) = (
        x * u - p * v,
        y * u - q * w,
        s - (x + y),
        t - sides,
        z * t - s * u,
    );
    let (pv, qw) = (p * v, q * w);
    assert(0 <= pv && 0 <= qw && pv + qw <= us) by (nonlinear_arith)
        requires
            pv == p * v,
            qw == q * w,
            0 <= p <= u,
            0 <= q <= u,
            v >= 0,
            w >= 0,
            sides == v + w,
            us == u * sides,
    ;
    let off = z * sides - (pv + qw);
    let (ze, ue) = (z * e4, u * e3);
    assert(z * sides == z * t - ze) by (nonlinear_arith)
        requires
            ze == z * e4,
            e4 == t - sides,
    ;
    assert(s * u == ue + x * u + y * u) by (nonlinear_arith)
        requires
            ue == u * e3,
            e3 == s - (x + y),
    ;
    assert(off == e5 - ze + ue + e1 + e2);
    let (m3, m4) = (size(e3), size(e4));
    assert(span * size(ze) <= 200 * us) by (nonlinear_arith)
        requires
            ze == z * e4,
            0 <= z <= 100 * u,
            span * m4 <= 2 * sides,
            -m4 <= e4 <= m4,
            size(ze) == ze || size(ze) == -ze,
            us == u * sides,
            span > 0,
            u > 0,
            m4 >= 0,
    ;
    assert(span * size(ue) <= 2 * us) by (nonlinear_arith)
        requires
            ue == u * e3,
            span * m3 <= 2 * (x + y),
            x + y <= sides,
            -m3 <= e3 <= m3,
            size(ue) == ue || size(ue) == -ue,
            us == u * sides,
            span > 0,
            u > 0,
    ;
    assert(s <= 2 * sides && t <= 2 * sides) by (nonlinear_arith)
        requires
            span * m3 <= 2 * (x + y),
            span * m4 <= 2 * sides,
            x + y <= sides,
            s <= x + y + m3,
            t <= sides + m4,
            span >= 2,
            m3 >= 0,
            m4 >= 0,
    ;
    assert(s * u <= 2 * us) by (nonlinear_arith)
        requires
            s <= 2 * sides,
            us == u * sides,
            u > 0,
    ;
    let ss = span * sides;
    assert(span * t <= 2 * ss) by (nonlinear_arith)
        requires
            t <= 2 * sides,
            ss == span * sides,
            span > 0,
    ;
    assert(span * (u + v + w) == span * u + ss) by (nonlinear_arith)
        requires
            ss == span * sides,
            sides == v + w,
    ;
    assert(size(off) <= size(e5) + size(ze) + size(ue) + size(e1) + size(e2));
    assert(span * size(off) <= span * size(e5) + span * size(ze) + span * size(ue) + span * size(e1)
        + span * size(e2)) by (nonlinear_arith)
        requires
            size(off) <= size(e5) + size(ze) + size(ue) + size(e1) + size(e2),
            span > 0,
    ;
}

} // verus!
