//! The loop that scans and trades.
use super::ranking::GrindingOpportunity;
use super::strategy::{GrindingExecutionRequest, GrindingStrategy};
use crate::binary64::accuracy::{lemma_quotient_by_whole_number, lemma_whole_number};
use crate::binary64::arithmetic::one_in_units;
use crate::binary64::errors::{lemma_quotient_shrinks, size};
use crate::binary64::numbers::D_100;
use crate::binary64::ranges::{lemma_hundred, lemma_one, lemma_units};
use crate::binary64::{one, one_value, Binary64, FRACTION_SPAN};
use crate::market::MarketSnapshot;
use crate::time::Timestamp;
use vstd::prelude::*;

verus! {

/// Configuration for the grinding strategy runner.
#[derive(Debug, Clone)]
pub struct GrindingRunnerConfig {
    /// How often to scan for opportunities (milliseconds)
    pub scan_interval_ms: u64,
    /// Maximum opportunities to process per scan
    pub max_opportunities_per_scan: usize,
    /// Whether to log opportunities even if not executed
    pub log_opportunities: bool,
}

impl Default for GrindingRunnerConfig {
    fn default() -> (r: Self)
        ensures
            r.scan_interval_ms == 5000,
            r.max_opportunities_per_scan == 5,
            r.log_opportunities,
    {
        GrindingRunnerConfig {
            scan_interval_ms: 5000,
            max_opportunities_per_scan: 5,
            log_opportunities: true,
        }
    }
}

/// Cents of capital as dollars.
pub open spec fn dollars_of_cents(cents: u64) -> Binary64 {
    Binary64::of_int(cents as int).over(Binary64::of_bits(D_100))
}

/// The capital to trade with, in dollars: none where it is less than a dollar.
pub fn tradable_capital(capital_cents: u64) -> (r: Option<Binary64>)
    ensures
        r == (if dollars_of_cents(capital_cents).less(one_value()) {
            None
        } else {
            Some(dollars_of_cents(capital_cents))
        }),
{
    let capital = Binary64::from_u64(capital_cents).div(&Binary64::from_bits(D_100));
    if capital.lt(&one()) {
        None
    } else {
        Some(capital)
    }
}

/// The opportunities of a scan that are acted on: the best ones, as many as are processed per
/// scan, whose market is known.
pub open spec fn acted_on(
    opportunities: Seq<GrindingOpportunity>,
    markets: Seq<MarketSnapshot>,
    count: nat,
) -> Seq<GrindingOpportunity>
    decreases count,
{
    if count == 0 {
        seq![]
    } else {
        let front = acted_on(opportunities, markets, (count - 1) as nat);
        let last = opportunities[count - 1];
        if last.market_id < markets.len() && markets[last.market_id as int].pair is Some {
            front.push(last)
        } else {
            front
        }
    }
}

/// The requests for the best opportunities of a scan.
pub fn requests_for_scan(
    strategy: &GrindingStrategy,
    opportunities: &Vec<GrindingOpportunity>,
    markets: &Vec<MarketSnapshot>,
    runner_config: &GrindingRunnerConfig,
    now: Timestamp,
) -> (requests: Vec<GrindingExecutionRequest>)
    ensures
        ({
            let most = runner_config.max_opportunities_per_scan;
            let count = if opportunities.len() < most {
                opportunities.len()
            } else {
                most
            };
            let chosen = acted_on(opportunities@, markets@, count as nat);
            &&& requests.len() == chosen.len()
            &&& forall|i: int|
                0 <= i < requests.len() ==> (#[trigger] requests[i]).buys(
                    chosen[i],
                    markets[chosen[i].market_id as int],
                    now,
                )
        }),
{
    let most: usize = runner_config.max_opportunities_per_scan;
    let count: usize = if opportunities.len() < most {
        opportunities.len()
    } else {
        most
    };
    let mut requests: Vec<GrindingExecutionRequest> = Vec::new();
    let mut i: usize = 0;
    while i < count
        invariant
            i <= count <= opportunities.len(),
            requests.len() == acted_on(opportunities@, markets@, i as nat).len(),
            forall|k: int|
                0 <= k < requests.len() ==> (#[trigger] requests[k]).buys(
                    acted_on(opportunities@, markets@, i as nat)[k],
                    markets[acted_on(opportunities@, markets@, i as nat)[k].market_id as int],
                    now,
                ),
        decreases count - i,
    {
        if let Some(request) = strategy.create_execution_request(&opportunities[i], markets, now) {
            requests.push(request);
        }
        i += 1;
    }
    requests
}

/// What became of a request that was handed to the execution engine.
#[derive(Debug, Clone, Copy, PartialEq, Eq, Structural)]
pub enum SendOutcome {
    Sent,
    /// The engine takes no more for now.
    Full,
    /// The engine is gone.
    Closed,
}

/// How the runner goes on.
#[derive(Debug, Clone, Copy, PartialEq, Eq, Structural)]
pub enum RunnerStep {
    /// Hand over the next request.
    Next,
    /// Wait for the next scan.
    EndScan,
    /// Stop.
    Stop,
}

/// Go on after a request was handed over. A trade that was sent starts the cooldown of its
/// market.
pub fn after_send(
    strategy: &mut GrindingStrategy,
    market_id: u16,
    outcome: SendOutcome,
    clock: u64,
) -> (step: RunnerStep)
    ensures
        step == (match outcome {
            SendOutcome::Sent => RunnerStep::Next,
            SendOutcome::Full => RunnerStep::EndScan,
            SendOutcome::Closed => RunnerStep::Stop,
        }),
        final(strategy).trades() == (if outcome == SendOutcome::Sent {
            old(strategy).trades().insert(market_id, clock)
        } else {
            old(strategy).trades()
        }),
        final(strategy).configuration() == old(strategy).configuration(),
        final(strategy).sizing() == old(strategy).sizing(),
        final(strategy).filters() == old(strategy).filters(),
{
    match outcome {
        SendOutcome::Sent => {
            strategy.record_trade(market_id, clock);
            RunnerStep::Next
        },
        SendOutcome::Full => RunnerStep::EndScan,
        SendOutcome::Closed => RunnerStep::Stop,
    }
}

/// The requests of a scan are for the best opportunities whose market is known, all of them among
/// the first `count`, and none beyond; the better ones come first.
pub proof fn law_the_best_known_opportunities_are_acted_on(
    opportunities: Seq<GrindingOpportunity>,
    markets: Seq<MarketSnapshot>,
    count: nat,
    i: int,
)
    requires
        0 <= i < count <= opportunities.len(),
    ensures
        ({
            let o = opportunities[i];
            let known = o.market_id < markets.len() && markets[o.market_id as int].pair is Some;
            let before = acted_on(opportunities, markets, i as nat);
            let all = acted_on(opportunities, markets, count);
            &&& before.len() <= i
            &&& before.is_prefix_of(all)
            &&& known ==> before.len() < all.len() && all[before.len() as int] == o
            &&& !known ==> acted_on(opportunities, markets, (i + 1) as nat) == before
        }),
    decreases count,
{
    lemma_acted_on_is_short(opportunities, markets, i as nat);
    if i < count - 1 {
        law_the_best_known_opportunities_are_acted_on(
            opportunities,
            markets,
            (count - 1) as nat,
            i,
        );
    }
}

proof fn lemma_acted_on_is_short(
    opportunities: Seq<GrindingOpportunity>,
    markets: Seq<MarketSnapshot>,
    count: nat,
)
    ensures
        acted_on(opportunities, markets, count).len() <= count,
    decreases count,
{
    if count > 0 {
        lemma_acted_on_is_short(opportunities, markets, (count - 1) as nat);
    }
}

/// A hundred times the dollars of an amount in cents is that amount, up to rounding.
pub proof fn law_a_dollar_is_a_hundred_cents(cents: u64)
    requires
        cents < FRACTION_SPAN,
    ensures
        FRACTION_SPAN * size(100 * dollars_of_cents(cents).scaled() - cents * one_in_units())
            <= cents * one_in_units() + FRACTION_SPAN * 100,
        dollars_of_cents(cents).finite(),
{
    lemma_one();
    lemma_hundred();
    lemma_whole_number(cents as int);
    let (count, hundred) = (Binary64::of_int(cents as int), Binary64::of_bits(D_100));
    lemma_units(count);
    lemma_units(hundred);
    lemma_quotient_shrinks(count, hundred);
    lemma_quotient_by_whole_number(count, hundred, 100);
}

} // verus!
