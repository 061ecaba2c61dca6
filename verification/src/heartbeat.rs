//! The heartbeat of the system: which markets are quoted, and what a pair of opposite contracts
//! on the two platforms costs.
use crate::binary64::numbers::{D_100, D_2, D_24};
use crate::binary64::arithmetic::one_in_units;
use crate::binary64::monotone::law_quotient_is_monotone;
use crate::binary64::ranges::{
    law_difference_bounds, law_product_is_not_negative, law_quotient_bounds,
    law_whole_numbers_keep_their_order, lemma_hundred, lemma_one, lemma_with_sign,
};
use crate::binary64::rounding::{lemma_nearest, nearest};
use crate::binary64::{zero, zero_value, Binary64, INFINITE_BITS};
use crate::dashboard::state::{opportunity_views, Opportunity, OpportunityView};
use crate::discord::AlertType;
use crate::kalman::filter::KalmanFilter;
use crate::kalman::MarketFilterMap;
use crate::market::{cents_to_price, price_of_cents, PriceCents, Quote};
use crate::text::{concat2, decimal, i64_text, int_text, u64_text, Line};
use crate::time::Timestamp;
use vstd::prelude::*;

verus! {

/// How far above the threshold a pair may cost and still be shown, in cents.
pub const SHOWN_GAP: i16 = 10;

/// How many opportunities are shown.
pub const SHOWN_OPPORTUNITIES: usize = 10;

/// A market as the heartbeat sees it.
#[derive(Debug)]
pub struct MarketTick {
    pub market_id: u16,
    /// What the market is about, if it is known
    pub description: Option<String>,
    pub kalshi: Quote,
    pub poly: Quote,
    /// The fee on Kalshi for its yes side, in cents
    pub yes_fee: PriceCents,
    /// The fee on Kalshi for its no side, in cents
    pub no_fee: PriceCents,
}

/// A 16-bit number as a signed one.
pub open spec fn as_signed(n: int) -> int {
    if n < 0x8000 {
        n
    } else {
        n - 0x1_0000
    }
}

fn signed(n: u16) -> (r: i16)
    ensures
        r == as_signed(n as int),
{
    if n < 0x8000 {
        n as i16
    } else {
        (n as i32 - 0x1_0000) as i16
    }
}

/// How far a cost is above a threshold, in cents.
pub open spec fn gap_of(cost: int, threshold: PriceCents) -> int {
    as_signed(cost) - as_signed(threshold as int)
}

/// The expected value of a pair in percent: what a dollar earns where the pair costs less than
/// a dollar, and what is lost where it does not.
pub open spec fn value_of_cost(cost: int) -> Binary64 {
    let hundred = Binary64::of_bits(D_100);
    if cost < 100 {
        hundred.minus(Binary64::of_int(cost)).over(Binary64::of_int(cost)).times(hundred)
    } else {
        Binary64::of_int(cost).minus(hundred).negated().over(hundred).times(hundred)
    }
}

fn expected_value(cost: PriceCents) -> (r: Binary64)
    ensures
        r == value_of_cost(cost as int),
{
    let hundred = Binary64::from_bits(D_100);
    let paid = Binary64::from_u64(cost as u64);
    if cost < 100 {
        hundred.sub(&paid).div(&paid).mul(&hundred)
    } else {
        paid.sub(&hundred).neg().div(&hundred).mul(&hundred)
    }
}

impl MarketTick {
    /// Whether both platforms quote both sides.
    pub open spec fn both(self) -> bool {
        self.kalshi.priced() && self.poly.priced()
    }

    /// What yes on Polymarket and no on Kalshi cost together.
    pub open spec fn poly_yes_cost(self) -> int {
        self.poly.yes_ask + self.kalshi.no_ask + self.no_fee
    }

    /// What yes on Kalshi and no on Polymarket cost together.
    pub open spec fn kalshi_yes_cost(self) -> int {
        self.kalshi.yes_ask + self.yes_fee + self.poly.no_ask
    }

    /// Whether yes is bought on Polymarket: where that costs no more.
    pub open spec fn prefers_poly_yes(self) -> bool {
        self.poly_yes_cost() <= self.kalshi_yes_cost()
    }

    /// What the cheaper pair costs.
    pub open spec fn cost(self) -> int {
        if self.prefers_poly_yes() {
            self.poly_yes_cost()
        } else {
            self.kalshi_yes_cost()
        }
    }

    /// Whether the costs and their gap to a threshold fit into 16 bits.
    pub open spec fn fits(self, threshold: PriceCents) -> bool {
        self.both() ==> {
            &&& self.poly_yes_cost() <= u16::MAX
            &&& self.kalshi_yes_cost() <= u16::MAX
            &&& i16::MIN < gap_of(self.cost(), threshold) <= i16::MAX
        }
    }

    /// What the market is about.
    pub open spec fn title(self) -> Seq<char> {
        match self.description {
            Some(text) => text@,
            None => "Unknown"@,
        }
    }

    /// Whether the pair is shown: where it costs little more than the threshold, or less.
    pub open spec fn is_shown(self, threshold: PriceCents) -> bool {
        self.both() && gap_of(self.cost(), threshold) <= SHOWN_GAP
    }

    /// The opportunity that is shown.
    pub open spec fn opportunity(self, now_secs: i64) -> OpportunityView {
        OpportunityView {
            id: "arb-"@ + decimal(self.market_id as nat),
            market_title: self.title(),
            strategy: "cross-platform-arb"@,
            expected_value: value_of_cost(self.cost()),
            kelly_size: zero_value(),
            probability: price_of_cents(
                if self.prefers_poly_yes() {
                    self.poly.yes_ask as int
                } else {
                    self.kalshi.yes_ask as int
                },
            ),
            expiry_hours: Binary64::of_bits(D_24),
            platform: if self.prefers_poly_yes() {
                "Poly→Kalshi"@
            } else {
                "Kalshi→Poly"@
            },
            timestamp: now_secs,
        }
    }

    /// Whether the costs and their gap to a threshold fit into 16 bits.
    pub fn is_in_range(&self, threshold: PriceCents) -> (r: bool)
        ensures
            r == self.fits(threshold),
    {
        if !(self.kalshi.is_priced() && self.poly.is_priced()) {
            return true;
        }
        let cost1: u32 = self.poly.yes_ask as u32 + self.kalshi.no_ask as u32 + self.no_fee as u32;
        let cost2: u32 = self.kalshi.yes_ask as u32 + self.yes_fee as u32 + self.poly.no_ask as u32;
        if cost1 > u16::MAX as u32 || cost2 > u16::MAX as u32 {
            return false;
        }
        let cost: u32 = if cost1 <= cost2 {
            cost1
        } else {
            cost2
        };
        let gap: i32 = signed(cost as u16) as i32 - signed(threshold) as i32;
        gap > i16::MIN as i32 && gap <= i16::MAX as i32
    }

    /// The cheaper pair, if both platforms quote both sides.
    pub fn best_pair(&self) -> (r: Option<BestArb>)
        requires
            self.both() ==> self.poly_yes_cost() <= u16::MAX && self.kalshi_yes_cost() <= u16::MAX,
        ensures
            r is Some <==> self.both(),
            r matches Some(best) ==> best.is_of(*self),
    {
        if !(self.kalshi.is_priced() && self.poly.is_priced()) {
            return None;
        }
        let cost1: u16 = self.poly.yes_ask + self.kalshi.no_ask + self.no_fee;
        let cost2: u16 = self.kalshi.yes_ask + self.yes_fee + self.poly.no_ask;
        let is_poly_yes = cost1 <= cost2;
        let description = match &self.description {
            Some(text) => text.clone(),
            None => "Unknown".to_string(),
        };
        Some(
            BestArb {
                cost: if is_poly_yes {
                    cost1
                } else {
                    cost2
                },
                market_id: self.market_id,
                poly_yes: self.poly.yes_ask,
                kalshi_no: self.kalshi.no_ask,
                kalshi_yes: self.kalshi.yes_ask,
                poly_no: self.poly.no_ask,
                fee: if is_poly_yes {
                    self.no_fee
                } else {
                    self.yes_fee
                },
                is_poly_yes,
                description,
            },
        )
    }
}

/// The cheaper pair of opposite contracts of a market.
#[derive(Debug)]
pub struct BestArb {
    pub cost: PriceCents,
    pub market_id: u16,
    pub poly_yes: PriceCents,
    pub kalshi_no: PriceCents,
    pub kalshi_yes: PriceCents,
    pub poly_no: PriceCents,
    pub fee: PriceCents,
    pub is_poly_yes: bool,
    pub description: String,
}

impl BestArb {
    /// Whether this is the cheaper pair of a market.
    pub open spec fn is_of(self, tick: MarketTick) -> bool {
        &&& self.cost == tick.cost()
        &&& self.market_id == tick.market_id
        &&& self.poly_yes == tick.poly.yes_ask
        &&& self.kalshi_no == tick.kalshi.no_ask
        &&& self.kalshi_yes == tick.kalshi.yes_ask
        &&& self.poly_no == tick.poly.no_ask
        &&& self.is_poly_yes == tick.prefers_poly_yes()
        &&& self.fee == (if self.is_poly_yes {
            tick.no_fee
        } else {
            tick.yes_fee
        })
        &&& self.description@ == tick.title()
    }

    /// How far the cost is above a threshold, in cents.
    pub open spec fn gap(self, threshold: PriceCents) -> int {
        gap_of(self.cost as int, threshold)
    }

    /// The opportunity that is shown for the pair.
    pub open spec fn shown(self, now_secs: i64) -> OpportunityView {
        OpportunityView {
            id: "arb-"@ + decimal(self.market_id as nat),
            market_title: self.description@,
            strategy: "cross-platform-arb"@,
            expected_value: value_of_cost(self.cost as int),
            kelly_size: zero_value(),
            probability: price_of_cents(
                if self.is_poly_yes {
                    self.poly_yes as int
                } else {
                    self.kalshi_yes as int
                },
            ),
            expiry_hours: Binary64::of_bits(D_24),
            platform: if self.is_poly_yes {
                "Poly→Kalshi"@
            } else {
                "Kalshi→Poly"@
            },
            timestamp: now_secs,
        }
    }

    /// The opportunity that is shown for the pair.
    pub fn to_opportunity(&self, now_secs: i64) -> (r: Opportunity)
        ensures
            r@ == self.shown(now_secs),
    {
        Opportunity {
            id: concat2("arb-", &u64_text(self.market_id as u64)),
            market_title: self.description.clone(),
            strategy: "cross-platform-arb".to_string(),
            expected_value: expected_value(self.cost),
            kelly_size: zero(),
            probability: if self.is_poly_yes {
                cents_to_price(self.poly_yes)
            } else {
                cents_to_price(self.kalshi_yes)
            },
            expiry_hours: Binary64::from_bits(D_24),
            platform: if self.is_poly_yes {
                "Poly→Kalshi".to_string()
            } else {
                "Kalshi→Poly".to_string()
            },
            timestamp: now_secs,
        }
    }

    /// How far the cost is above a threshold, in cents.
    pub fn gap_cents(&self, threshold: PriceCents) -> (r: i16)
        requires
            i16::MIN <= self.gap(threshold) <= i16::MAX,
        ensures
            r == self.gap(threshold),
    {
        (signed(self.cost) as i32 - signed(threshold) as i32) as i16
    }

    /// How the cost is made up.
    pub open spec fn breakdown(self) -> Seq<char> {
        if self.is_poly_yes {
            "P_yes("@ + decimal(self.poly_yes as nat) + "c) + K_no("@ + decimal(
                self.kalshi_no as nat,
            ) + "c) + K_fee("@ + decimal(self.fee as nat) + "c) = "@ + decimal(self.cost as nat)
                + "c"@
        } else {
            "K_yes("@ + decimal(self.kalshi_yes as nat) + "c) + P_no("@ + decimal(
                self.poly_no as nat,
            ) + "c) + K_fee("@ + decimal(self.fee as nat) + "c) = "@ + decimal(self.cost as nat)
                + "c"@
        }
    }

    /// How the cost is made up.
    pub fn leg_breakdown(&self) -> (r: String)
        ensures
            r@ == self.breakdown(),
    {
        let fee = u64_text(self.fee as u64);
        let cost = u64_text(self.cost as u64);
        if self.is_poly_yes {
            Line::of("P_yes(").add(&u64_text(self.poly_yes as u64)).add("c) + K_no(").add(
                &u64_text(self.kalshi_no as u64),
            ).add("c) + K_fee(").add(&fee).add("c) = ").add(&cost).add("c").done()
        } else {
            Line::of("K_yes(").add(&u64_text(self.kalshi_yes as u64)).add("c) + P_no(").add(
                &u64_text(self.poly_no as u64),
            ).add("c) + K_fee(").add(&fee).add("c) = ").add(&cost).add("c").done()
        }
    }

    /// The line that reports the best pair: with the quotes where it is shown, and with a
    /// remark where it is not.
    pub fn report_line(&self, threshold: PriceCents) -> (r: String)
        requires
            i16::MIN <= self.gap(threshold) <= i16::MAX,
        ensures
            r@ == "   Best opportunity: "@ + self.description@ + " | "@ + self.breakdown()
                + " | gap="@ + signed_int(self.gap(threshold)) + (if self.gap(threshold)
                <= SHOWN_GAP {
                "c | [Poly_yes="@ + decimal(self.poly_yes as nat) + "c Kalshi_no="@ + decimal(
                    self.kalshi_no as nat,
                ) + "c Kalshi_yes="@ + decimal(self.kalshi_yes as nat) + "c Poly_no="@ + decimal(
                    self.poly_no as nat,
                ) + "c]"@
            } else {
                "c (market efficient)"@
            }),
    {
        let gap: i16 = self.gap_cents(threshold);
        let breakdown = self.leg_breakdown();
        let tail = if gap <= SHOWN_GAP {
            Line::of("c | [Poly_yes=").add(&u64_text(self.poly_yes as u64)).add(
                "c Kalshi_no=",
            ).add(&u64_text(self.kalshi_no as u64)).add("c Kalshi_yes=").add(
                &u64_text(self.kalshi_yes as u64),
            ).add("c Poly_no=").add(&u64_text(self.poly_no as u64)).add("c]").done()
        } else {
            "c (market efficient)".to_string()
        };
        Line::of("   Best opportunity: ").add(&self.description).add(" | ").add(&breakdown).add(
            " | gap=",
        ).add(&signed_int_text(gap)).add(&tail).done()
    }

    /// The alert for a pair that costs no more than the threshold.
    pub fn alert(&self, threshold: PriceCents) -> (r: Option<AlertType>)
        requires
            i16::MIN < self.gap(threshold) <= i16::MAX,
        ensures
            r is Some <==> self.gap(threshold) <= 0,
            r matches Some(alert) ==> {
                &&& alert matches AlertType::OpportunityFound {
                    market_title,
                    expected_value_pct,
                    profit_cents,
                    arb_type,
                }
                &&& market_title@ == self.description@
                &&& expected_value_pct == Binary64::of_int(-self.gap(threshold))
                &&& profit_cents == -self.gap(threshold)
                &&& arb_type@ == (if self.is_poly_yes {
                    "Poly_YES + Kalshi_NO"@
                } else {
                    "Kalshi_YES + Poly_NO"@
                })
            },
    {
        let gap: i16 = self.gap_cents(threshold);
        if gap <= 0 {
            let profit_cents: i16 = -gap;
            Some(
                AlertType::OpportunityFound {
                    market_title: self.description.clone(),
                    expected_value_pct: Binary64::from_i64(profit_cents as i64),
                    profit_cents,
                    arb_type: if self.is_poly_yes {
                        "Poly_YES + Kalshi_NO".to_string()
                    } else {
                        "Kalshi_YES + Poly_NO".to_string()
                    },
                },
            )
        } else {
            None
        }
    }
}

/// A whole number with its sign.
pub open spec fn signed_int(n: int) -> Seq<char> {
    if n >= 0 {
        "+"@ + int_text(n)
    } else {
        int_text(n)
    }
}

fn signed_int_text(n: i16) -> (r: String)
    ensures
        r@ == signed_int(n as int),
{
    if n >= 0 {
        concat2("+", &i64_text(n as i64))
    } else {
        i64_text(n as i64)
    }
}

// ---------------------------------------------------------------------------
// The report
// ---------------------------------------------------------------------------

/// How many of the first markets are quoted on Kalshi, on Polymarket and fully on both.
pub open spec fn quoted(ticks: Seq<MarketTick>) -> (int, int, int)
    decreases ticks.len(),
{
    if ticks.len() == 0 {
        (0, 0, 0)
    } else {
        let (kalshi, poly, both) = quoted(ticks.drop_last());
        let last = ticks.last();
        (
            if last.kalshi.yes_ask > 0 || last.kalshi.no_ask > 0 {
                kalshi + 1
            } else {
                kalshi
            },
            if last.poly.yes_ask > 0 || last.poly.no_ask > 0 {
                poly + 1
            } else {
                poly
            },
            if last.both() {
                both + 1
            } else {
                both
            },
        )
    }
}

/// The market whose pair costs least: the first one of those that cost the same.
pub open spec fn cheapest(ticks: Seq<MarketTick>) -> Option<MarketTick>
    decreases ticks.len(),
{
    if ticks.len() == 0 {
        None
    } else {
        let last = ticks.last();
        match cheapest(ticks.drop_last()) {
            Some(best) => if last.both() && last.cost() < best.cost() {
                Some(last)
            } else {
                Some(best)
            },
            None => if last.both() {
                Some(last)
            } else {
                None
            },
        }
    }
}

/// The place of an opportunity among sorted ones: before the first one that is worth less.
pub open spec fn place(sorted: Seq<OpportunityView>, x: OpportunityView) -> int
    decreases sorted.len(),
{
    if sorted.len() == 0 || sorted[0].expected_value.less(x.expected_value) {
        0
    } else {
        1 + place(sorted.drop_first(), x)
    }
}

/// The opportunities that are shown, the best one first; those that are worth the same in the
/// order of their markets.
pub open spec fn shown(ticks: Seq<MarketTick>, threshold: PriceCents, now_secs: i64) -> Seq<
    OpportunityView,
>
    decreases ticks.len(),
{
    if ticks.len() == 0 {
        seq![]
    } else {
        let front = shown(ticks.drop_last(), threshold, now_secs);
        let last = ticks.last();
        if last.is_shown(threshold) {
            let x = last.opportunity(now_secs);
            front.insert(place(front, x), x)
        } else {
            front
        }
    }
}

/// What a heartbeat reports.
#[derive(Debug)]
pub struct HeartbeatReport {
    /// How many markets are tracked
    pub market_count: usize,
    /// How many markets are quoted on Kalshi
    pub with_kalshi: usize,
    /// How many markets are quoted on Polymarket
    pub with_poly: usize,
    /// How many markets are fully quoted on both
    pub with_both: usize,
    /// The pair that costs least
    pub best: Option<BestArb>,
    /// The opportunities that are shown, the best one first
    pub opportunities: Vec<Opportunity>,
}

/// Put an opportunity in its place among sorted ones.
fn put_in_place(sorted: &mut Vec<Opportunity>, x: Opportunity)
    ensures
        opportunity_views(final(sorted)@) == opportunity_views(old(sorted)@).insert(
            place(opportunity_views(old(sorted)@), x@),
            x@,
        ),
{
    let ghost all = opportunity_views(sorted@);
    let mut i: usize = 0;
    assert(all.skip(0) =~= all);
    while i < sorted.len() && !sorted[i].expected_value.lt(&x.expected_value)
        invariant
            *sorted == *old(sorted),
            all == opportunity_views(sorted@),
            i <= sorted.len(),
            place(all, x@) == i + place(all.skip(i as int), x@),
        decreases sorted.len() - i,
    {
        assert(all.skip(i as int)[0] == sorted@[i as int]@);
        assert(all.skip(i as int).drop_first() =~= all.skip(i + 1));
        i += 1;
    }
    proof {
        if i < sorted.len() {
            assert(all.skip(i as int)[0] == sorted@[i as int]@);
        }
    }
    let ghost v = x@;
    let ghost before = sorted@;
    sorted.insert(i, x);
    assert(opportunity_views(sorted@) =~= opportunity_views(before).insert(i as int, v));
}

/// Go through the markets and report what they offer.
pub fn report(ticks: &Vec<MarketTick>, threshold: PriceCents, now_secs: i64) -> (r: HeartbeatReport)
    requires
        forall|i: int| 0 <= i < ticks.len() ==> (#[trigger] ticks[i]).fits(threshold),
    ensures
        r.market_count == ticks.len(),
        (r.with_kalshi as int, r.with_poly as int, r.with_both as int) == quoted(ticks@),
        r.best is Some <==> cheapest(ticks@) is Some,
        r.best matches Some(best) ==> best.is_of(cheapest(ticks@)->0),
        opportunity_views(r.opportunities@) == ({
            let all = shown(ticks@, threshold, now_secs);
            if all.len() > SHOWN_OPPORTUNITIES {
                all.take(SHOWN_OPPORTUNITIES as int)
            } else {
                all
            }
        }),
{
    let mut with_kalshi: usize = 0;
    let mut with_poly: usize = 0;
    let mut with_both: usize = 0;
    let mut best: Option<BestArb> = None;
    let mut opportunities: Vec<Opportunity> = Vec::new();
    let mut i: usize = 0;
    let ghost all = ticks@;
    assert(all.take(0) =~= seq![]);
    assert(opportunity_views(opportunities@) =~= shown(all.take(0), threshold, now_secs));
    while i < ticks.len()
        invariant
            all == ticks@,
            i <= ticks.len(),
            with_kalshi <= i,
            with_poly <= i,
            with_both <= i,
            forall|k: int| 0 <= k < ticks.len() ==> (#[trigger] ticks[k]).fits(threshold),
            (with_kalshi as int, with_poly as int, with_both as int) == quoted(
                all.take(i as int),
            ),
            best is Some <==> cheapest(all.take(i as int)) is Some,
            best matches Some(b) ==> b.is_of(cheapest(all.take(i as int))->0),
            opportunity_views(opportunities@) == shown(all.take(i as int), threshold, now_secs),
        decreases ticks.len() - i,
    {
        let tick = &ticks[i];
        assert(all.take(i + 1).drop_last() =~= all.take(i as int));
        assert(all.take(i + 1).last() == *tick);
        if tick.kalshi.yes_ask > 0 || tick.kalshi.no_ask > 0 {
            with_kalshi += 1;
        }
        if tick.poly.yes_ask > 0 || tick.poly.no_ask > 0 {
            with_poly += 1;
        }
        if let Some(pair) = tick.best_pair() {
            with_both += 1;
            if pair.gap_cents(threshold) <= SHOWN_GAP {
                let opportunity = pair.to_opportunity(now_secs);
                put_in_place(&mut opportunities, opportunity);
            }
            let is_better = match &best {
                Some(b) => pair.cost < b.cost,
                None => true,
            };
            if is_better {
                best = Some(pair);
            }
        }
        i += 1;
    }
    assert(all.take(all.len() as int) =~= all);
    if opportunities.len() > SHOWN_OPPORTUNITIES {
        let ghost before = opportunity_views(opportunities@);
        opportunities.truncate(SHOWN_OPPORTUNITIES);
        assert(opportunity_views(opportunities@) =~= before.take(SHOWN_OPPORTUNITIES as int));
    }
    HeartbeatReport {
        market_count: ticks.len(),
        with_kalshi,
        with_poly,
        with_both,
        best,
        opportunities,
    }
}

impl HeartbeatReport {
    /// The line that sums up the heartbeat.
    pub fn summary_line(&self, threshold: PriceCents) -> (r: String)
        ensures
            r@ == "System heartbeat | Markets: "@ + decimal(self.market_count as nat) + " total, "@
                + decimal(self.with_kalshi as nat) + " with Kalshi prices, "@ + decimal(
                self.with_poly as nat,
            ) + " with Polymarket prices, "@ + decimal(self.with_both as nat)
                + " with both | threshold="@ + decimal(threshold as nat) + "c"@,
    {
        Line::of("System heartbeat | Markets: ").add(&u64_text(self.market_count as u64)).add(
            " total, ",
        ).add(&u64_text(self.with_kalshi as u64)).add(" with Kalshi prices, ").add(
            &u64_text(self.with_poly as u64),
        ).add(" with Polymarket prices, ").add(&u64_text(self.with_both as u64)).add(
            " with both | threshold=",
        ).add(&u64_text(threshold as u64)).add("c").done()
    }
}

/// No pair costs less than the one that is reported as the best, and a best one is reported
/// wherever both platforms quote a market.
pub proof fn law_best_pair_is_cheapest(ticks: Seq<MarketTick>)
    ensures
        cheapest(ticks) matches Some(best) ==> best.both() && ticks.contains(best),
        forall|i: int|
            0 <= i < ticks.len() && (#[trigger] ticks[i]).both() ==> cheapest(ticks) is Some
                && cheapest(ticks)->0.cost() <= ticks[i].cost(),
    decreases ticks.len(),
{
    if ticks.len() > 0 {
        let rest = ticks.drop_last();
        law_best_pair_is_cheapest(rest);
        assert(ticks[ticks.len() - 1] == ticks.last());
        if let Some(best) = cheapest(rest) {
            let k = choose|k: int| 0 <= k < rest.len() && rest[k] == best;
            assert(ticks[k] == best);
        }
        assert forall|i: int| 0 <= i < ticks.len() && (#[trigger] ticks[i]).both() implies cheapest(
            ticks,
        ) is Some && cheapest(ticks)->0.cost() <= ticks[i].cost() by {
            if i < rest.len() {
                assert(rest[i] == ticks[i]);
            }
        }
    }
}

/// A market is fully quoted on both platforms only where it is quoted on each, and none is
/// counted twice.
pub proof fn law_counts_are_consistent(ticks: Seq<MarketTick>)
    ensures
        0 <= quoted(ticks).2 <= quoted(ticks).0 <= ticks.len(),
        quoted(ticks).2 <= quoted(ticks).1 <= ticks.len(),
        quoted(ticks).2 == 0 <==> cheapest(ticks) is None,
    decreases ticks.len(),
{
    if ticks.len() > 0 {
        law_counts_are_consistent(ticks.drop_last());
    }
}

/// Whether the values fall from each opportunity to the next, or stay the same.
pub open spec fn is_sorted(s: Seq<OpportunityView>) -> bool {
    forall|i: int, j: int|
        0 <= i < j < s.len() ==> (#[trigger] s[j]).expected_value.at_most(
            (#[trigger] s[i]).expected_value,
        )
}

/// Whether the values of all opportunities are numbers.
pub open spec fn has_numbers(s: Seq<OpportunityView>) -> bool {
    forall|i: int| 0 <= i < s.len() ==> !(#[trigger] s[i]).expected_value.nan()
}

proof fn lemma_place(s: Seq<OpportunityView>, x: OpportunityView)
    requires
        is_sorted(s),
        has_numbers(s),
        !x.expected_value.nan(),
    ensures
        0 <= place(s, x) <= s.len(),
        forall|i: int|
            0 <= i < place(s, x) ==> x.expected_value.at_most((#[trigger] s[i]).expected_value),
        forall|i: int|
            place(s, x) <= i < s.len() ==> (#[trigger] s[i]).expected_value.less(x.expected_value),
    decreases s.len(),
{
    if s.len() > 0 {
        let rest = s.drop_first();
        assert(forall|i: int| 0 <= i < rest.len() ==> (#[trigger] rest[i]) == s[i + 1]);
        lemma_place(rest, x);
        if s[0].expected_value.less(x.expected_value) {
            assert forall|i: int| 0 <= i < s.len() implies (
            #[trigger] s[i]).expected_value.less(x.expected_value) by {
                if i > 0 {
                    assert(s[i].expected_value.at_most(s[0].expected_value));
                }
            }
        } else {
            assert forall|i: int| 0 <= i < place(s, x) implies x.expected_value.at_most(
                (#[trigger] s[i]).expected_value,
            ) by {
                if i > 0 {
                    assert(s[i] == rest[i - 1]);
                }
            }
            assert forall|i: int| place(s, x) <= i < s.len() implies (
            #[trigger] s[i]).expected_value.less(x.expected_value) by {
                assert(s[i] == rest[i - 1]);
            }
        }
    }
}

/// The value of a pair is always a number.
pub proof fn law_value_of_a_pair_is_a_number(cost: int)
    requires
        0 < cost <= u16::MAX,
    ensures
        !value_of_cost(cost).nan(),
        cost < 100 ==> zero_value().at_most(value_of_cost(cost)),
{
    lemma_hundred();
    let hundred = Binary64::of_bits(D_100);
    let paid = Binary64::of_int(cost);
    if cost < 100 {
        law_whole_numbers_keep_their_order(cost, 100);
        law_difference_bounds(hundred, paid);
        let quotient = hundred.minus(paid).over(paid);
        law_quotient_bounds(hundred.minus(paid), paid);
        law_product_is_not_negative(quotient, hundred);
    } else {
        law_whole_numbers_keep_their_order(100, cost);
        law_difference_bounds(paid, hundred);
        let loss = paid.minus(hundred).negated();
        assert(loss.magnitude() == paid.minus(hundred).magnitude());
        law_quotient_is_monotone(loss, loss, hundred);
        let quotient = loss.over(hundred);
        let product = quotient.units() * hundred.units();
        lemma_one();
        lemma_nearest(product, one_in_units());
        lemma_with_sign(quotient.sign() != hundred.sign(), nearest(product, one_in_units()));
        lemma_with_sign(quotient.sign() != hundred.sign(), INFINITE_BITS as int);
    }
}

/// The best opportunities come first: none is followed by one that is worth more.
pub proof fn law_opportunities_are_sorted(
    ticks: Seq<MarketTick>,
    threshold: PriceCents,
    now_secs: i64,
)
    requires
        forall|i: int| 0 <= i < ticks.len() ==> (#[trigger] ticks[i]).fits(threshold),
    ensures
        is_sorted(shown(ticks, threshold, now_secs)),
        has_numbers(shown(ticks, threshold, now_secs)),
    decreases ticks.len(),
{
    if ticks.len() > 0 {
        let rest = ticks.drop_last();
        let last = ticks.last();
        assert(forall|i: int| 0 <= i < rest.len() ==> (#[trigger] rest[i]) == ticks[i]);
        law_opportunities_are_sorted(rest, threshold, now_secs);
        if last.is_shown(threshold) {
            assert(last == ticks[ticks.len() - 1]);
            law_value_of_a_pair_is_a_number(last.cost());
            let front = shown(rest, threshold, now_secs);
            let x = last.opportunity(now_secs);
            lemma_place(front, x);
            let k = place(front, x);
            let all = front.insert(k, x);
            assert forall|i: int| 0 <= i < all.len() implies !(
            #[trigger] all[i]).expected_value.nan() by {
                if i < k {
                    assert(all[i] == front[i]);
                } else if i > k {
                    assert(all[i] == front[i - 1]);
                }
            }
            assert forall|i: int, j: int| 0 <= i < j < all.len() implies (
            #[trigger] all[j]).expected_value.at_most((#[trigger] all[i]).expected_value) by {
                if i < k {
                    assert(all[i] == front[i]);
                } else if i > k {
                    assert(all[i] == front[i - 1]);
                }
                if j < k {
                    assert(all[j] == front[j]);
                } else if j > k {
                    assert(all[j] == front[j - 1]);
                }
            }
        }
    }
}

/// Every opportunity that is shown is that of a market whose pair costs little more than the
/// threshold, or less.
pub proof fn law_shown_opportunities_are_near_the_threshold(
    ticks: Seq<MarketTick>,
    threshold: PriceCents,
    now_secs: i64,
    i: int,
)
    requires
        0 <= i < shown(ticks, threshold, now_secs).len(),
        forall|k: int| 0 <= k < ticks.len() ==> (#[trigger] ticks[k]).fits(threshold),
    ensures
        exists|k: int|
            0 <= k < ticks.len() && (#[trigger] ticks[k]).is_shown(threshold) && ticks[k].opportunity(
                now_secs,
            ) == shown(ticks, threshold, now_secs)[i],
    decreases ticks.len(),
{
    let rest = ticks.drop_last();
    let last = ticks.last();
    let front = shown(rest, threshold, now_secs);
    assert(last == ticks[ticks.len() - 1]);
    assert(forall|k: int| 0 <= k < rest.len() ==> (#[trigger] rest[k]) == ticks[k]);
    if last.is_shown(threshold) {
        let x = last.opportunity(now_secs);
        law_opportunities_are_sorted(rest, threshold, now_secs);
        law_value_of_a_pair_is_a_number(last.cost());
        lemma_place(front, x);
        let at = place(front, x);
        if i < at {
            law_shown_opportunities_are_near_the_threshold(rest, threshold, now_secs, i);
        } else if i > at {
            law_shown_opportunities_are_near_the_threshold(rest, threshold, now_secs, i - 1);
        }
    } else {
        law_shown_opportunities_are_near_the_threshold(rest, threshold, now_secs, i);
    }
}

// ---------------------------------------------------------------------------
// Estimates
// ---------------------------------------------------------------------------

/// The probability in the middle between the two sides of a quote.
pub open spec fn middle(quote: Quote) -> Binary64 {
    Binary64::of_int(quote.yes_ask as int).plus(Binary64::of_int(100 - quote.no_ask)).over(
        Binary64::of_bits(D_2),
    ).over(Binary64::of_bits(D_100))
}

/// Update the filter of a market with the quote on Polymarket, if both sides are quoted.
pub fn observe(filters: &mut MarketFilterMap, tick: &MarketTick, now: Timestamp)
    requires
        tick.poly.priced() ==> {
            &&& tick.poly.no_ask <= 100
            &&& old(filters).configuration().wf()
            &&& old(filters).filter_of(
                tick.market_id,
                middle(tick.poly),
                now,
            ).state.update_count < u64::MAX
        },
    ensures
        final(filters).configuration() == old(filters).configuration(),
        !tick.poly.priced() ==> final(filters)@ == old(filters)@,
        tick.poly.priced() ==> final(filters)@ == ({
            let config = old(filters).configuration();
            let state = old(filters).filter_of(
                tick.market_id,
                middle(tick.poly),
                now,
            ).state.updated(
                middle(tick.poly),
                config.measurement_noise,
                Binary64::of_bits(D_24),
                config,
                now,
            );
            old(filters)@.insert(tick.market_id, KalmanFilter { state })
        }),
{
    if tick.poly.is_priced() {
        let mid_price = Binary64::from_u64(tick.poly.yes_ask as u64).add(
            &Binary64::from_u64((100 - tick.poly.no_ask) as u64),
        ).div(&Binary64::from_bits(D_2)).div(&Binary64::from_bits(D_100));
        let estimate = filters.update(
            tick.market_id,
            &mid_price,
            &Binary64::from_bits(D_24),
            now,
        );
    }
}

/// The counts are those of the markets that are quoted on Kalshi, on Polymarket, and fully on both.
pub proof fn law_quoted_markets_are_counted(ticks: Seq<MarketTick>)
    ensures
        quoted(ticks).0 == ticks.filter(
            |t: MarketTick| t.kalshi.yes_ask != 0 || t.kalshi.no_ask != 0,
        ).len(),
        quoted(ticks).1 == ticks.filter(
            |t: MarketTick| t.poly.yes_ask != 0 || t.poly.no_ask != 0,
        ).len(),
        quoted(ticks).2 == ticks.filter(
            |t: MarketTick|
                t.kalshi.yes_ask != 0 && t.kalshi.no_ask != 0 && t.poly.yes_ask != 0
                    && t.poly.no_ask != 0,
        ).len(),
    decreases ticks.len(),
{
    reveal(Seq::filter);
    if ticks.len() > 0 {
        law_quoted_markets_are_counted(ticks.drop_last());
    }
}

/// A pair is shown where both platforms quote both sides and it costs at most ten cents more than
/// the threshold.
pub proof fn law_pairs_near_the_threshold_are_shown(tick: MarketTick, threshold: PriceCents)
    requires
        tick.cost() < 0x8000,
        threshold < 0x8000,
    ensures
        tick.is_shown(threshold) <==> {
            &&& tick.kalshi.yes_ask > 0 && tick.kalshi.no_ask > 0
            &&& tick.poly.yes_ask > 0 && tick.poly.no_ask > 0
            &&& (tick.poly.yes_ask + tick.kalshi.no_ask + tick.no_fee <= threshold + 10
                || tick.kalshi.yes_ask + tick.poly.no_ask + tick.yes_fee <= threshold + 10)
        },
        gap_of(tick.cost(), threshold) == tick.cost() - threshold,
{
}

/// Every market whose pair is near enough to the threshold is among those that can be shown.
pub proof fn law_no_pair_near_the_threshold_is_missed(
    ticks: Seq<MarketTick>,
    threshold: PriceCents,
    now_secs: i64,
    i: int,
)
    requires
        0 <= i < ticks.len(),
        ticks[i].is_shown(threshold),
        forall|k: int| 0 <= k < ticks.len() ==> (#[trigger] ticks[k]).fits(threshold),
    ensures
        shown(ticks, threshold, now_secs).contains(ticks[i].opportunity(now_secs)),
    decreases ticks.len(),
{
    let (rest, last) = (ticks.drop_last(), ticks.last());
    let front = shown(rest, threshold, now_secs);
    let all = shown(ticks, threshold, now_secs);
    let x = ticks[i].opportunity(now_secs);
    assert(last == ticks[ticks.len() - 1]);
    assert(forall|k: int| 0 <= k < rest.len() ==> (#[trigger] rest[k]) == ticks[k]);
    law_opportunities_are_sorted(rest, threshold, now_secs);
    if last.is_shown(threshold) {
        let y = last.opportunity(now_secs);
        law_value_of_a_pair_is_a_number(last.cost());
        lemma_place(front, y);
        let at = place(front, y);
        assert(all[at] == y);
        if i < rest.len() {
            law_no_pair_near_the_threshold_is_missed(rest, threshold, now_secs, i);
            let k = choose|k: int| 0 <= k < front.len() && front[k] == x;
            if k < at {
                assert(all[k] == x);
            } else {
                assert(all[k + 1] == x);
            }
        }
    } else {
        law_no_pair_near_the_threshold_is_missed(rest, threshold, now_secs, i);
    }
}

} // verus!
