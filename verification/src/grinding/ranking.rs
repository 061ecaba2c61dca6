//! Opportunities and their ranking.
use super::config::{Platform, Side};
use crate::binary64::accuracy::{
    lemma_product_accuracy, lemma_size_of_product, lemma_sum_accuracy,
};
use crate::binary64::arithmetic::{lemma_times_commutes, one_in_units};
use crate::binary64::errors::{epsilon, lemma_epsilon, size};
use crate::binary64::monotone::{law_product_is_monotone, law_sum_is_monotone};
use crate::binary64::numbers::{D_0_1, D_100};
use crate::binary64::ranges::{
    law_product_bounds, lemma_hundred, lemma_one, lemma_times_one, lemma_units,
};
use crate::binary64::rounding::{lemma_pattern_value, pattern};
use crate::binary64::{one, one_value, Binary64, FRACTION_SPAN};
use crate::time::Timestamp;
use vstd::arithmetic::power2::{lemma2_to64, lemma2_to64_rest, lemma_pow2_adds, lemma_pow2_pos};
use vstd::prelude::*;

verus! {

/// A detected grinding opportunity.
#[derive(Debug, Clone)]
pub struct GrindingOpportunity {
    /// Market identifier
    pub market_id: u16,
    /// Market description
    pub description: String,
    /// Platform to trade on
    pub platform: Platform,
    /// Side to buy
    pub side: Side,
    /// Current market price (ask)
    pub market_price: Binary64,
    /// Available liquidity in USD at this price
    pub liquidity_usd: Binary64,
    /// Estimate of the probability of the side
    pub estimated_probability: Binary64,
    /// Hours until market resolution
    pub hours_to_expiry: Binary64,
    /// Dynamic probability threshold for this expiry
    pub threshold: Binary64,
    /// Expected value percentage
    pub ev_pct: Binary64,
    /// Kelly-optimal position size in USD
    pub kelly_size_usd: Binary64,
    /// Recommended position size (may be less than Kelly due to liquidity)
    pub recommended_size_usd: Binary64,
    /// Estimated fee percentage
    pub fee_pct: Binary64,
    /// Market expiry time
    pub expiry_time: Option<Timestamp>,
    /// Confidence in the probability estimate (1/variance)
    pub confidence: Binary64,
}

/// An opportunity by what it holds.
pub struct OpportunityView {
    pub market_id: u16,
    pub description: Seq<char>,
    pub platform: Platform,
    pub side: Side,
    pub market_price: Binary64,
    pub liquidity_usd: Binary64,
    pub estimated_probability: Binary64,
    pub hours_to_expiry: Binary64,
    pub threshold: Binary64,
    pub ev_pct: Binary64,
    pub kelly_size_usd: Binary64,
    pub recommended_size_usd: Binary64,
    pub fee_pct: Binary64,
    pub expiry_time: Option<Timestamp>,
    pub confidence: Binary64,
}

impl View for GrindingOpportunity {
    type V = OpportunityView;

    open spec fn view(&self) -> OpportunityView {
        OpportunityView {
            market_id: self.market_id,
            description: self.description@,
            platform: self.platform,
            side: self.side,
            market_price: self.market_price,
            liquidity_usd: self.liquidity_usd,
            estimated_probability: self.estimated_probability,
            hours_to_expiry: self.hours_to_expiry,
            threshold: self.threshold,
            ev_pct: self.ev_pct,
            kelly_size_usd: self.kelly_size_usd,
            recommended_size_usd: self.recommended_size_usd,
            fee_pct: self.fee_pct,
            expiry_time: self.expiry_time,
            confidence: self.confidence,
        }
    }
}

impl OpportunityView {
    /// The score: expected value counts most, then confidence up to a limit, and time counts
    /// against it.
    pub open spec fn rating(self) -> Binary64 {
        let ev_score = self.ev_pct.times(Binary64::of_bits(D_100));
        let confidence_score = self.confidence.smaller(Binary64::of_bits(D_100)).times(one_value());
        let time_score = self.hours_to_expiry.negated().times(Binary64::of_bits(D_0_1));
        ev_score.plus(confidence_score).plus(time_score)
    }
}

impl GrindingOpportunity {
    /// Calculate the edge over market price.
    pub fn edge(&self) -> (r: Binary64)
        ensures
            r == self.estimated_probability.minus(self.market_price),
    {
        self.estimated_probability.sub(&self.market_price)
    }

    /// Calculate expected profit in USD.
    pub fn expected_profit_usd(&self) -> (r: Binary64)
        ensures
            r == self.ev_pct.times(self.recommended_size_usd),
    {
        self.ev_pct.mul(&self.recommended_size_usd)
    }

    /// Score for ranking opportunities (higher is better).
    pub fn score(&self) -> (r: Binary64)
        ensures
            r == self@.rating(),
    {
        let hundred = Binary64::from_bits(D_100);
        let ev_score = self.ev_pct.mul(&hundred);
        let confidence_score = self.confidence.min(&hundred).mul(&one());
        let time_score = self.hours_to_expiry.neg().mul(&Binary64::from_bits(D_0_1));
        ev_score.add(&confidence_score).add(&time_score)
    }
}

/// The place of an opportunity among ranked ones: before the first one with a lower score.
pub open spec fn place(ranked: Seq<OpportunityView>, x: OpportunityView) -> int
    decreases ranked.len(),
{
    if ranked.len() == 0 || ranked[0].rating().less(x.rating()) {
        0
    } else {
        1 + place(ranked.drop_first(), x)
    }
}

/// Opportunities ranked by score, the best one first; those with the same score in the order in
/// which they were found.
pub open spec fn ranked(found: Seq<OpportunityView>) -> Seq<OpportunityView>
    decreases found.len(),
{
    if found.len() == 0 {
        seq![]
    } else {
        let front = ranked(found.drop_last());
        front.insert(place(front, found.last()), found.last())
    }
}

/// The opportunities by what they hold.
pub open spec fn views(opportunities: Seq<GrindingOpportunity>) -> Seq<OpportunityView> {
    opportunities.map_values(|o: GrindingOpportunity| o@)
}

proof fn lemma_place_bounds(ranked: Seq<OpportunityView>, x: OpportunityView)
    ensures
        0 <= place(ranked, x) <= ranked.len(),
    decreases ranked.len(),
{
    if ranked.len() > 0 {
        lemma_place_bounds(ranked.drop_first(), x);
    }
}

fn find_place(ranked: &Vec<GrindingOpportunity>, score: &Binary64, Ghost(x): Ghost<OpportunityView>) -> (i:
    usize)
    requires
        *score == x.rating(),
    ensures
        i == place(views(ranked@), x),
        i <= ranked.len(),
{
    let mut i: usize = 0;
    assert(views(ranked@).skip(0) =~= views(ranked@));
    while i < ranked.len()
        invariant
            i <= ranked.len(),
            *score == x.rating(),
            place(views(ranked@), x) == i + place(views(ranked@).skip(i as int), x),
        decreases ranked.len() - i,
    {
        assert(views(ranked@).skip(i as int)[0] == ranked@[i as int]@);
        if ranked[i].score().lt(score) {
            return i;
        }
        assert(views(ranked@).skip(i as int).drop_first() =~= views(ranked@).skip(i + 1));
        i += 1;
    }
    i
}

/// Rank opportunities by score, the best one first.
pub fn rank(found: Vec<GrindingOpportunity>) -> (r: Vec<GrindingOpportunity>)
    ensures
        views(r@) == ranked(views(found@)),
{
    let ghost all = views(found@);
    let mut rest = found;
    let mut pending: Vec<GrindingOpportunity> = Vec::new();
    // Turn the list round, so that the first one found is taken from the end.
    while rest.len() > 0
        invariant
            rest.len() + pending.len() == all.len(),
            forall|i: int| 0 <= i < rest.len() ==> (#[trigger] rest@[i])@ == all[i],
            forall|i: int|
                0 <= i < pending.len() ==> (#[trigger] pending@[i])@ == all[all.len() - 1 - i],
        decreases rest.len(),
    {
        let last = rest.pop();
        if let Some(opportunity) = last {
            pending.push(opportunity);
        }
    }
    let mut r: Vec<GrindingOpportunity> = Vec::new();
    assert(views(r@) =~= ranked(all.take(0)));
    while pending.len() > 0
        invariant
            pending.len() <= all.len(),
            forall|i: int|
                0 <= i < pending.len() ==> (#[trigger] pending@[i])@ == all[all.len() - 1 - i],
            views(r@) == ranked(all.take(all.len() - pending.len())),
        decreases pending.len(),
    {
        let ghost done = all.len() - pending.len();
        let ghost before = r@;
        let next = pending.pop();
        if let Some(opportunity) = next {
            let score = opportunity.score();
            let ghost x = opportunity@;
            let i: usize = find_place(&r, &score, Ghost(x));
            r.insert(i, opportunity);
            proof {
                assert(x == all[done]);
                assert(views(r@) =~= views(before).insert(i as int, x));
                assert(all.take(done + 1).drop_last() =~= all.take(done));
                assert(all.take(done + 1).last() == x);
            }
        }
    }
    assert(all.take(all.len() as int) =~= all);
    r
}

/// Ranking keeps every opportunity, as often as it was found.
pub proof fn law_ranking_keeps_all(found: Seq<OpportunityView>)
    ensures
        ranked(found).to_multiset() == found.to_multiset(),
        ranked(found).len() == found.len(),
    decreases found.len(),
{
    broadcast use vstd::seq_lib::group_to_multiset_ensures;

    if found.len() == 0 {
        assert(ranked(found) =~= found);
    } else {
        let rest = found.drop_last();
        let x = found.last();
        law_ranking_keeps_all(rest);
        lemma_place_bounds(ranked(rest), x);
        let front = ranked(rest);
        let i = place(front, x);
        assert(front.insert(i, x) =~= front.take(i) + seq![x] + front.skip(i));
        assert(front =~= front.take(i) + front.skip(i));
        vstd::seq_lib::lemma_multiset_commutative(front.take(i), front.skip(i));
        vstd::seq_lib::lemma_multiset_commutative(front.take(i) + seq![x], front.skip(i));
        vstd::seq_lib::lemma_multiset_commutative(front.take(i), seq![x]);
        assert(found =~= rest.push(x));
        assert(seq![x] =~= Seq::<OpportunityView>::empty().push(x));
        assert(ranked(found).to_multiset() =~= found.to_multiset());
    }
}

/// Whether the scores fall from each opportunity to the next, or stay the same.
pub open spec fn is_ranked(s: Seq<OpportunityView>) -> bool {
    forall|i: int, j: int|
        0 <= i < j < s.len() ==> (#[trigger] s[j]).rating().at_most((#[trigger] s[i]).rating())
}

proof fn lemma_place(s: Seq<OpportunityView>, x: OpportunityView)
    requires
        is_ranked(s),
        !x.rating().nan(),
        forall|i: int| 0 <= i < s.len() ==> !(#[trigger] s[i]).rating().nan(),
    ensures
        0 <= place(s, x) <= s.len(),
        forall|i: int| 0 <= i < place(s, x) ==> x.rating().at_most((#[trigger] s[i]).rating()),
        forall|i: int|
            place(s, x) <= i < s.len() ==> (#[trigger] s[i]).rating().less(x.rating()),
    decreases s.len(),
{
    if s.len() > 0 {
        let rest = s.drop_first();
        assert forall|i: int, j: int| 0 <= i < j < rest.len() implies (
        #[trigger] rest[j]).rating().at_most((#[trigger] rest[i]).rating()) by {
            assert(rest[i] == s[i + 1] && rest[j] == s[j + 1]);
        }
        assert forall|i: int| 0 <= i < rest.len() implies !(#[trigger] rest[i]).rating().nan() by {
            assert(rest[i] == s[i + 1]);
        }
        lemma_place(rest, x);
        if s[0].rating().less(x.rating()) {
            assert forall|i: int| 0 <= i < s.len() implies (#[trigger] s[i]).rating().less(
                x.rating(),
            ) by {
                if i > 0 {
                    assert(s[i].rating().at_most(s[0].rating()));
                }
            }
        } else {
            assert forall|i: int| 0 <= i < place(s, x) implies x.rating().at_most(
                (#[trigger] s[i]).rating(),
            ) by {
                if i > 0 {
                    assert(s[i] == rest[i - 1]);
                }
            }
            assert forall|i: int| place(s, x) <= i < s.len() implies (#[trigger] s[i]).rating().less(
                x.rating(),
            ) by {
                assert(s[i] == rest[i - 1]);
            }
        }
    }
}

/// The best opportunity comes first: no score is followed by a higher one, as long as every
/// score is a number.
pub proof fn law_ranking_is_by_score(found: Seq<OpportunityView>)
    requires
        forall|i: int| 0 <= i < found.len() ==> !(#[trigger] found[i]).rating().nan(),
    ensures
        is_ranked(ranked(found)),
        forall|i: int| 0 <= i < ranked(found).len() ==> !(#[trigger] ranked(found)[i]).rating().nan(),
    decreases found.len(),
{
    if found.len() > 0 {
        let rest = found.drop_last();
        let x = found.last();
        assert forall|i: int| 0 <= i < rest.len() implies !(#[trigger] rest[i]).rating().nan() by {
            assert(rest[i] == found[i]);
        }
        law_ranking_is_by_score(rest);
        let front = ranked(rest);
        lemma_place(front, x);
        let k = place(front, x);
        let all = ranked(found);
        assert(x == found[found.len() - 1]);
        assert forall|i: int| 0 <= i < all.len() implies !(#[trigger] all[i]).rating().nan() by {
            if i < k {
                assert(all[i] == front[i]);
            } else if i > k {
                assert(all[i] == front[i - 1]);
            }
        }
        assert forall|i: int, j: int| 0 <= i < j < all.len() implies (
        #[trigger] all[j]).rating().at_most((#[trigger] all[i]).rating()) by {
            if i < k {
                assert(all[i] == front[i]);
            } else if i > k {
                assert(all[i] == front[i - 1]);
            }
            if j < k {
                assert(all[j] == front[j]);
            } else if j > k {
                assert(all[j] == front[j - 1]);
            }
        }
    }
}

/// A tenth.
proof fn lemma_a_tenth()
    ensures
        Binary64::of_bits(D_0_1).finite(),
        Binary64::of_bits(D_0_1).nonnegative(),
        size(10 * Binary64::of_bits(D_0_1).scaled() - one_in_units()) <= 10 * epsilon(),
        5 * Binary64::of_bits(D_0_1).scaled() <= one_in_units(),
{
    lemma_one();
    lemma_epsilon();
    lemma_pattern_value(0x19_9999_9999_999A, 1018);
    assert(pattern(0x19_9999_9999_999A, 1018) == D_0_1);
    lemma2_to64();
    lemma2_to64_rest();
    lemma_pow2_adds(4, 1018);
    lemma_pow2_adds(56, 1018);
    lemma_pow2_pos(1018);
    lemma_units(Binary64::of_bits(D_0_1));
}

/// The score is the expected value in percent, and the confidence, which counts up to a hundred,
/// less a tenth of the hours to expiry, up to rounding.
pub proof fn law_the_score_weighs_value_confidence_and_time(o: OpportunityView)
    requires
        o.ev_pct.finite(),
        o.confidence.finite(),
        o.hours_to_expiry.finite(),
        o.ev_pct.times(Binary64::of_bits(D_100)).finite(),
        o.ev_pct.times(Binary64::of_bits(D_100)).plus(
            o.confidence.smaller(Binary64::of_bits(D_100)),
        ).finite(),
        o.rating().finite(),
    ensures
        ({
            let (u, span) = (one_in_units(), FRACTION_SPAN as int);
            let (v, h) = (o.ev_pct.scaled(), o.hours_to_expiry.scaled());
            let c = if o.confidence.scaled() > 100 * u {
                100 * u
            } else {
                o.confidence.scaled()
            };
            let exact = 1000 * v + 10 * c - h;
            span * size(10 * o.rating().scaled() - exact) <= 200 * (1000 * size(v) + 10 * size(c)
                + size(h)) + 200 * span
        }),
{
    lemma_one();
    lemma_epsilon();
    lemma_hundred();
    lemma_a_tenth();
    let u = one_in_units();
    let (hundred, tenth) = (Binary64::of_bits(D_100), Binary64::of_bits(D_0_1));
    let best = o.confidence.smaller(hundred);
    lemma_units(o.confidence);
    lemma_units(hundred);
    lemma_units(tenth);
    assert(best.finite());
    lemma_times_one(best);
    let value = o.ev_pct.times(hundred);
    let late = o.hours_to_expiry.negated();
    lemma_units(o.hours_to_expiry);
    lemma_units(late);
    assert(late.scaled() == -o.hours_to_expiry.scaled() && late.finite());
    let time = late.times(tenth);
    law_product_bounds(late, tenth);
    lemma_units(time);
    assert(time.finite());
    lemma_product_accuracy(o.ev_pct, hundred);
    lemma_product_accuracy(late, tenth);
    let both = value.plus(best);
    lemma_sum_accuracy(value, best);
    lemma_sum_accuracy(both, time);
    let (v, h, c, t) = (
        o.ev_pct.scaled(),
        o.hours_to_expiry.scaled(),
        best.scaled(),
        tenth.scaled(),
    );
    let (a, s, k, r) = (value.scaled(), both.scaled(), time.scaled(), both.plus(time).scaled());
    assert(o.rating() == both.plus(time));
    lemma_value_part(a, v);
    lemma_time_part(k, h, t);
    lemma_score_errors((v, c, h), (a, s, k, r));
    assert(c == (if o.confidence.scaled() > 100 * u {
        100 * u
    } else {
        o.confidence.scaled()
    }));
}

proof fn lemma_value_part(a: int, v: int)
    requires
        FRACTION_SPAN * size(a * one_in_units() - v * (100 * one_in_units())) <= size(
            v * (100 * one_in_units()),
        ) + FRACTION_SPAN * one_in_units(),
    ensures
        FRACTION_SPAN * size(a - 100 * v) <= 100 * size(v) + FRACTION_SPAN,
{
    lemma_one();
    let (u, span) = (one_in_units(), FRACTION_SPAN as int);
    let d = a - 100 * v;
    assert(a * u - v * (100 * u) == d * u) by (nonlinear_arith)
        requires
            d == a - 100 * v,
    ;
    assert(v * (100 * u) == (100 * v) * u) by (nonlinear_arith);
    lemma_size_of_product(d, u);
    lemma_size_of_product(100 * v, u);
    let (md, mv) = (size(d), size(100 * v));
    assert(span * md <= mv + span) by (nonlinear_arith)
        requires
            span * (md * u) <= mv * u + span * u,
            u > 0,
    ;
}

proof fn lemma_time_part(k: int, h: int, t: int)
    requires
        0 <= t <= one_in_units(),
        -(10 * epsilon()) <= 10 * t - one_in_units() <= 10 * epsilon(),
        FRACTION_SPAN * size(k * one_in_units() - (-h) * t) <= size((-h) * t) + FRACTION_SPAN
            * one_in_units(),
    ensures
        FRACTION_SPAN * size(10 * k + h) <= 20 * size(h) + 10 * FRACTION_SPAN,
{
    lemma_one();
    lemma_epsilon();
    let (u, e, span) = (one_in_units(), epsilon(), FRACTION_SPAN as int);
    let (ht, y) = (h * t, 10 * t - u);
    let hy = h * y;
    assert((-h) * t == -ht) by (nonlinear_arith)
        requires
            ht == h * t,
    ;
    let x = k * u + ht;
    let w = 10 * k + h;
    assert(w * u == 10 * x - hy) by (nonlinear_arith)
        requires
            w == 10 * k + h,
            x == k * u + ht,
            ht == h * t,
            hy == h * y,
            y == 10 * t - u,
    ;
    let mh = size(h);
    let hu = mh * u;
    assert(size(ht) <= hu) by (nonlinear_arith)
        requires
            ht == h * t,
            0 <= t <= u,
            hu == mh * u,
            mh == (if h < 0 {
                -h
            } else {
                h
            }),
            size(ht) == ht || size(ht) == -ht,
    ;
    assert(span * size(hy) <= 10 * hu) by (nonlinear_arith)
        requires
            hy == h * y,
            -(10 * e) <= y <= 10 * e,
            u == span * e,
            hu == mh * u,
            mh == (if h < 0 {
                -h
            } else {
                h
            }),
            size(hy) == hy || size(hy) == -hy,
            span > 0,
    ;
    lemma_size_of_product(w, u);
    let mw = size(w);
    assert(span * (mw * u) <= 10 * (span * size(x)) + span * size(hy)) by (nonlinear_arith)
        requires
            mw * u <= 10 * size(x) + size(hy),
            span > 0,
    ;
    assert(span * mw <= 20 * mh + 10 * span) by (nonlinear_arith)
        requires
            span * (mw * u) <= 20 * hu + 10 * (span * u),
            hu == mh * u,
            u > 0,
    ;
}

proof fn lemma_score_errors(given: (int, int, int), steps: (int, int, int, int))
    requires
        FRACTION_SPAN * size(steps.0 - 100 * given.0) <= 100 * size(given.0) + FRACTION_SPAN,
        FRACTION_SPAN * size(10 * steps.2 + given.2) <= 20 * size(given.2) + 10 * FRACTION_SPAN,
        FRACTION_SPAN * size(steps.1 - (steps.0 + given.1)) <= 2 * size(steps.0 + given.1),
        FRACTION_SPAN * size(steps.3 - (steps.1 + steps.2)) <= 2 * size(steps.1 + steps.2),
    ensures
        FRACTION_SPAN * size(10 * steps.3 - (1000 * given.0 + 10 * given.1 - given.2)) <= 200 * (
        1000 * size(given.0) + 10 * size(given.1) + size(given.2)) + 200 * FRACTION_SPAN,
{
    let span = FRACTION_SPAN as int;
    let (v, c, h) = given;
    let (a, s, k, r) = steps;
    let (d, w) = (a - 100 * v, 10 * k + h);
    let (mv, mc, mh, md, mw) = (size(v), size(c), size(h), size(d), size(w));
    assert(md <= mv + 1);
    assert(mw <= mh + 10);
    let (x, y) = (a + c, s + k);
    assert(size(x) <= 101 * mv + 1 + mc);
    let (m1, m2) = (size(r - y), size(s - x));
    assert(m2 <= size(x));
    assert(10 * size(y) <= 20 * size(x) + 2 * mh + 10);
    let off = 10 * r - (1000 * v + 10 * c - h);
    assert(off == 10 * (r - y) + 10 * (s - x) + 10 * d + w);
    assert(size(off) <= 10 * m1 + 10 * m2 + 10 * md + mw);
}

/// Opportunities that are worth more, that expire sooner or that are surer are not scored lower.
pub proof fn law_better_opportunities_score_no_less(low: OpportunityView, high: OpportunityView)
    requires
        low.ev_pct.at_most(high.ev_pct),
        low.confidence.at_most(high.confidence),
        high.hours_to_expiry.at_most(low.hours_to_expiry),
        low.ev_pct.finite() && high.ev_pct.finite(),
        low.confidence.finite() && high.confidence.finite(),
        low.hours_to_expiry.finite() && high.hours_to_expiry.finite(),
        low.ev_pct.times(Binary64::of_bits(D_100)).finite(),
        high.ev_pct.times(Binary64::of_bits(D_100)).finite(),
        low.ev_pct.times(Binary64::of_bits(D_100)).plus(
            low.confidence.smaller(Binary64::of_bits(D_100)),
        ).finite(),
        high.ev_pct.times(Binary64::of_bits(D_100)).plus(
            high.confidence.smaller(Binary64::of_bits(D_100)),
        ).finite(),
    ensures
        low.rating().at_most(high.rating()),
{
    lemma_one();
    lemma_hundred();
    lemma_a_tenth();
    let (hundred, tenth) = (Binary64::of_bits(D_100), Binary64::of_bits(D_0_1));
    lemma_units(hundred);
    lemma_units(tenth);
    let (c1, c2) = (low.confidence.smaller(hundred), high.confidence.smaller(hundred));
    lemma_times_one(c1);
    lemma_times_one(c2);
    lemma_times_commutes(low.ev_pct, hundred);
    lemma_times_commutes(high.ev_pct, hundred);
    law_product_is_monotone(low.ev_pct, high.ev_pct, hundred);
    let (v1, v2) = (low.ev_pct.times(hundred), high.ev_pct.times(hundred));
    let (t1, t2) = (low.hours_to_expiry.negated(), high.hours_to_expiry.negated());
    assert(t1.scaled() == -low.hours_to_expiry.scaled());
    assert(t2.scaled() == -high.hours_to_expiry.scaled());
    lemma_times_commutes(t1, tenth);
    lemma_times_commutes(t2, tenth);
    law_product_is_monotone(t1, t2, tenth);
    law_product_bounds(t1, tenth);
    law_product_bounds(t2, tenth);
    let (k1, k2) = (t1.times(tenth), t2.times(tenth));
    law_sum_is_monotone(v1, v2, c1);
    law_sum_is_monotone(c1, c2, v2);
    lemma_plus_commutes(c1, v1);
    lemma_plus_commutes(c1, v2);
    lemma_plus_commutes(c2, v2);
    let (s1, s2) = (v1.plus(c1), v2.plus(c2));
    law_sum_is_monotone(s1, s2, k1);
    law_sum_is_monotone(k1, k2, s2);
    lemma_plus_commutes(k1, s1);
    lemma_plus_commutes(k1, s2);
    lemma_plus_commutes(k2, s2);
}

/// A sum does not depend on the order of its summands.
proof fn lemma_plus_commutes(a: Binary64, b: Binary64)
    requires
        a.finite(),
        b.finite(),
    ensures
        a.plus(b).scaled() == b.plus(a).scaled(),
        a.plus(b).nan() == b.plus(a).nan(),
{
    assert(a.scaled() + b.scaled() == b.scaled() + a.scaled());
}

} // verus!
