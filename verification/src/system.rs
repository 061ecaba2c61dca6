//! Decisions of the running system: what it starts and ends with, which orders it places and
//! which trial opportunity it injects.
use crate::binary64::integers::saturated;
use crate::binary64::accuracy::{
    law_truncation_goes_towards_zero, lemma_product_accuracy, lemma_size_of_product,
};
use crate::binary64::arithmetic::one_in_units;
use crate::binary64::errors::{lemma_product_up_to_a_hundred, size};
use crate::binary64::numbers::D_100;
use crate::binary64::ranges::{
    law_product_bounds, lemma_hundred, lemma_one, lemma_units, lemma_units_in_unit_range,
};
use crate::binary64::{zero, zero_value, Binary64, FRACTION_SPAN};
use crate::dashboard::state::{dollars_to_cents, cents_of, TradingMode as DashboardMode};
use crate::discord::AlertType;
use crate::grinding::config::{Platform, Side};
use crate::grinding::outcomes::law_a_request_pays_if_its_side_wins;
use crate::grinding::ranking::GrindingOpportunity;
use crate::grinding::strategy::GrindingExecutionRequest;
use crate::market::{MarketPair, MarketSnapshot, PriceCents};
use crate::paper_trading::{ExecutionFill, TradingMode};
use crate::text::{ascii_lowered, is_ascii_text, lowercase, same_text, to_lowercase};
use crate::time::Timestamp;
use vstd::prelude::*;

verus! {

/// Default database path
pub const DEFAULT_DB_PATH: &'static str = "./data/trading.db";

/// Whether a switch is set: `1` or `true`.
pub fn is_switched_on(value: Option<String>) -> (r: bool)
    ensures
        r <==> (value matches Some(text) && (text@ == "1"@ || text@ == "true"@)),
{
    match value {
        Some(text) => same_text(&text, "1") || same_text(&text, "true"),
        None => false,
    }
}

/// The threshold of a pair in whole cents, at least one.
pub fn threshold_cents(threshold: &Binary64) -> (r: PriceCents)
    ensures
        ({
            let cents = saturated(
                threshold.times(Binary64::of_bits(D_100)).rounded(),
                0,
                u16::MAX as int,
            );
            r == (if cents > 1 {
                cents
            } else {
                1
            })
        }),
{
    let cents: u16 = threshold.mul(&Binary64::from_bits(D_100)).round_u16();
    if cents > 1 {
        cents
    } else {
        1
    }
}

// ---------------------------------------------------------------------------
// Capital
// ---------------------------------------------------------------------------

/// The capital that the system starts with: the paper capital, or the saved one, or a hundred
/// dollars.
pub open spec fn starting_capital_of(mode: TradingMode, saved: Option<Binary64>) -> Binary64 {
    if !mode.live {
        mode.paper_capital
    } else {
        match saved {
            Some(capital) => capital,
            None => Binary64::of_bits(D_100),
        }
    }
}

/// The capital that the system starts with.
pub fn starting_capital(mode: &TradingMode, saved: Option<Binary64>) -> (r: Binary64)
    ensures
        r == starting_capital_of(*mode, saved),
{
    if mode.is_paper() {
        mode.paper_capital
    } else {
        match saved {
            Some(capital) => capital,
            None => Binary64::from_bits(D_100),
        }
    }
}

/// The capital that the system starts with, in cents.
pub fn starting_capital_cents(mode: &TradingMode, saved: Option<Binary64>) -> (r: u64)
    ensures
        r == cents_of(starting_capital_of(*mode, saved)),
{
    dollars_to_cents(&starting_capital(mode, saved))
}

/// The capital that the dashboard starts with: the paper capital, or a hundred dollars.
pub fn dashboard_capital(mode: &TradingMode) -> (r: Binary64)
    ensures
        r == starting_capital_of(*mode, None),
{
    starting_capital(mode, None)
}

/// The mode that the dashboard starts with.
pub fn dashboard_mode(mode: &TradingMode) -> (r: DashboardMode)
    ensures
        r == (if mode.live {
            DashboardMode::Live
        } else {
            DashboardMode::Paper
        }),
{
    if mode.is_paper() {
        DashboardMode::Paper
    } else {
        DashboardMode::Live
    }
}

/// The capital that the system ends with: what the paper tracker holds, or the paper capital;
/// in live trading the saved one, or nothing.
pub fn final_capital(
    mode: &TradingMode,
    held: Option<Binary64>,
    saved: Option<Binary64>,
) -> (r: Binary64)
    ensures
        r == (if !mode.live {
            match held {
                Some(capital) => capital,
                None => mode.paper_capital,
            }
        } else {
            match saved {
                Some(capital) => capital,
                None => zero_value(),
            }
        }),
{
    if mode.is_paper() {
        match held {
            Some(capital) => capital,
            None => mode.paper_capital,
        }
    } else {
        match saved {
            Some(capital) => capital,
            None => zero(),
        }
    }
}

/// The alert that the system has started.
pub fn startup_alert(
    mode: &TradingMode,
    saved: Option<Binary64>,
    open_positions: usize,
) -> (r: AlertType)
    ensures
        r matches AlertType::SystemStartup { mode: word, capital, open_positions: n } && word@ == (
        if mode.live {
            "live"@
        } else {
            "paper"@
        }) && capital == starting_capital_of(*mode, saved) && n == open_positions,
{
    AlertType::SystemStartup {
        mode: if mode.is_paper() {
            "paper".to_string()
        } else {
            "live".to_string()
        },
        capital: starting_capital(mode, saved),
        open_positions,
    }
}

/// The alert that the system ends at a user's request.
pub fn shutdown_alert(final_capital: Binary64) -> (r: AlertType)
    ensures
        r matches AlertType::SystemShutdown { reason, final_capital: capital } && reason@
            == "User requested shutdown (Ctrl+C)"@ && capital == final_capital,
{
    AlertType::SystemShutdown {
        reason: "User requested shutdown (Ctrl+C)".to_string(),
        final_capital,
    }
}

// ---------------------------------------------------------------------------
// Orders of the grinding strategy
// ---------------------------------------------------------------------------

/// An order as it is placed with a platform.
#[derive(Debug)]
pub enum PlatformOrder {
    /// Price and contracts in whole numbers
    Kalshi { ticker: String, side: &'static str, price_cents: i64, contracts: i64 },
    /// Price in dollars
    Polymarket { token: String, price: Binary64, contracts: Binary64 },
}

impl PlatformOrder {
    /// Whether the order is the one that a request asks for.
    pub open spec fn fulfils(self, request: GrindingExecutionRequest, pair: MarketPair) -> bool {
        match request.platform {
            Platform::Kalshi => self matches PlatformOrder::Kalshi {
                ticker,
                side,
                price_cents,
                contracts,
            } && ticker@ == pair.kalshi_market_ticker@ && side@ == (match request.side {
                Side::Yes => "yes"@,
                Side::No => "no"@,
            }) && price_cents == saturated(
                request.max_price.times(Binary64::of_bits(D_100)).truncated(),
                i64::MIN as int,
                i64::MAX as int,
            ) && contracts == saturated(
                request.contracts.truncated(),
                i64::MIN as int,
                i64::MAX as int,
            ),
            Platform::Polymarket => self matches PlatformOrder::Polymarket {
                token,
                price,
                contracts,
            } && token@ == (match request.side {
                Side::Yes => pair.poly_yes_token@,
                Side::No => pair.poly_no_token@,
            }) && price == request.max_price && contracts == request.contracts,
        }
    }
}

/// The order that a request asks for.
pub fn order_for(request: &GrindingExecutionRequest, pair: &MarketPair) -> (r: PlatformOrder)
    ensures
        r.fulfils(*request, *pair),
{
    match request.platform {
        Platform::Kalshi => PlatformOrder::Kalshi {
            ticker: pair.kalshi_market_ticker.clone(),
            side: match request.side {
                Side::Yes => "yes",
                Side::No => "no",
            },
            price_cents: request.max_price.mul(&Binary64::from_bits(D_100)).trunc_i64(),
            contracts: request.contracts.trunc_i64(),
        },
        Platform::Polymarket => PlatformOrder::Polymarket {
            token: match request.side {
                Side::Yes => pair.poly_yes_token.clone(),
                Side::No => pair.poly_no_token.clone(),
            },
            price: request.max_price,
            contracts: request.contracts,
        },
    }
}

/// The alert for an order that was filled.
pub fn trade_alert(
    request: &GrindingExecutionRequest,
    pair: &MarketPair,
    fill: &ExecutionFill,
) -> (r: AlertType)
    ensures
        r matches AlertType::TradeExecuted {
            market_title,
            side,
            price_cents,
            size_usd,
            strategy,
            platform,
        } && market_title@ == pair.description@ && side@ == request.side.name() && price_cents
            == fill.fill_price_cents && size_usd == Binary64::of_int(
            fill.fill_cost_cents as int,
        ).over(Binary64::of_bits(D_100)) && strategy@ == "grinding"@ && platform@
            == fill.platform@,
{
    AlertType::TradeExecuted {
        market_title: pair.description.clone(),
        side: request.side.label().to_string(),
        price_cents: fill.fill_price_cents,
        size_usd: Binary64::from_i64(fill.fill_cost_cents).div(&Binary64::from_bits(D_100)),
        strategy: "grinding".to_string(),
        platform: fill.platform.clone(),
    }
}

// ---------------------------------------------------------------------------
// Trial opportunities
// ---------------------------------------------------------------------------

/// The pair of contracts that an arbitrage buys.
#[derive(Debug, Clone, Copy, PartialEq, Eq, Structural)]
pub enum ArbType {
    PolyYesKalshiNo,
    KalshiYesPolyNo,
    PolyOnly,
    KalshiOnly,
}

/// A request to buy a pair of contracts.
#[derive(Debug, Clone, Copy, PartialEq, Eq, Structural)]
pub struct FastExecutionRequest {
    pub market_id: u16,
    pub yes_price: PriceCents,
    pub no_price: PriceCents,
    pub yes_size: u16,
    pub no_size: u16,
    pub arb_type: ArbType,
    pub detected_ns: u64,
}

impl ArbType {
    /// The type that a word in lower case stands for.
    pub open spec fn of(lowered: Seq<char>) -> Option<Self> {
        if lowered == "poly_yes_kalshi_no"@ || lowered == "pykn"@ || lowered == "0"@ {
            Some(ArbType::PolyYesKalshiNo)
        } else if lowered == "kalshi_yes_poly_no"@ || lowered == "kypn"@ || lowered == "1"@ {
            Some(ArbType::KalshiYesPolyNo)
        } else if lowered == "poly_only"@ || lowered == "poly"@ || lowered == "2"@ {
            Some(ArbType::PolyOnly)
        } else if lowered == "kalshi_only"@ || lowered == "kalshi"@ || lowered == "3"@ {
            Some(ArbType::KalshiOnly)
        } else {
            None
        }
    }

    /// The type that a word in lower case stands for.
    pub fn from_lowercase(lowered: &str) -> (r: Option<Self>)
        ensures
            r == Self::of(lowered@),
    {
        if same_text(lowered, "poly_yes_kalshi_no") || same_text(lowered, "pykn") || same_text(
            lowered,
            "0",
        ) {
            Some(ArbType::PolyYesKalshiNo)
        } else if same_text(lowered, "kalshi_yes_poly_no") || same_text(lowered, "kypn")
            || same_text(lowered, "1") {
            Some(ArbType::KalshiYesPolyNo)
        } else if same_text(lowered, "poly_only") || same_text(lowered, "poly") || same_text(
            lowered,
            "2",
        ) {
            Some(ArbType::PolyOnly)
        } else if same_text(lowered, "kalshi_only") || same_text(lowered, "kalshi") || same_text(
            lowered,
            "3",
        ) {
            Some(ArbType::KalshiOnly)
        } else {
            None
        }
    }

    /// The type that a word stands for, in any letter case; none where it is not known.
    pub fn from_word(word: &str) -> (r: Option<Self>)
        ensures
            r == Self::of(lowercase(word@)),
            is_ascii_text(word@) ==> r == Self::of(ascii_lowered(word@)),
    {
        Self::from_lowercase(&to_lowercase(word))
    }

    /// The prices of the two sides in a trial, in cents.
    pub open spec fn trial(self) -> (u16, u16) {
        match self {
            ArbType::PolyYesKalshiNo => (40, 50),
            ArbType::KalshiYesPolyNo => (40, 50),
            ArbType::PolyOnly => (48, 50),
            ArbType::KalshiOnly => (44, 44),
        }
    }

    /// The prices of the two sides in a trial, in cents, and what they are about.
    pub fn trial_prices(&self) -> (r: (u16, u16, &'static str))
        ensures
            (r.0, r.1) == self.trial(),
            r.2@ == (match *self {
                ArbType::PolyYesKalshiNo =>
                    "P_yes=40c + K_no=50c + fee~2c = 92c -> 8c profit"@,
                ArbType::KalshiYesPolyNo =>
                    "K_yes=40c + P_no=50c + fee~2c = 92c -> 8c profit"@,
                ArbType::PolyOnly => "P_yes=48c + P_no=50c + fee=0c = 98c -> 2c profit"@,
                ArbType::KalshiOnly => "K_yes=44c + K_no=44c + fee~4c = 92c -> 8c profit"@,
            }),
    {
        match self {
            ArbType::PolyYesKalshiNo => (
                40,
                50,
                "P_yes=40c + K_no=50c + fee~2c = 92c -> 8c profit",
            ),
            ArbType::KalshiYesPolyNo => (
                40,
                50,
                "K_yes=40c + P_no=50c + fee~2c = 92c -> 8c profit",
            ),
            ArbType::PolyOnly => (48, 50, "P_yes=48c + P_no=50c + fee=0c = 98c -> 2c profit"),
            ArbType::KalshiOnly => (44, 44, "K_yes=44c + K_no=44c + fee~4c = 92c -> 8c profit"),
        }
    }
}

/// Whether a market is the first one that is known.
pub open spec fn is_first_known(markets: Seq<MarketSnapshot>, i: int) -> bool {
    &&& 0 <= i < markets.len()
    &&& markets[i].pair is Some
    &&& forall|k: int| 0 <= k < i ==> (#[trigger] markets[k]).pair is None
}

/// The trial request for the first market that is known.
pub fn trial_request(markets: &Vec<MarketSnapshot>, arb_type: ArbType) -> (r: Option<
    FastExecutionRequest,
>)
    requires
        markets.len() <= 0x1_0000,
    ensures
        r is None <==> forall|k: int| 0 <= k < markets.len() ==> (#[trigger] markets[k]).pair is None,
        r matches Some(request) ==> {
            &&& is_first_known(markets@, request.market_id as int)
            &&& (request.yes_price, request.no_price) == arb_type.trial()
            &&& request.yes_size == 1000
            &&& request.no_size == 1000
            &&& request.arb_type == arb_type
            &&& request.detected_ns == 0
        },
{
    let prices = arb_type.trial_prices();
    let mut i: usize = 0;
    while i < markets.len()
        invariant
            i <= markets.len() <= 0x1_0000,
            (prices.0, prices.1) == arb_type.trial(),
            forall|k: int| 0 <= k < i ==> (#[trigger] markets[k]).pair is None,
        decreases markets.len() - i,
    {
        if markets[i].pair.is_some() {
            assert(markets@[i as int].pair is Some);
            return Some(
                FastExecutionRequest {
                    market_id: i as u16,
                    yes_price: prices.0,
                    no_price: prices.1,
                    yes_size: 1000,
                    no_size: 1000,
                    arb_type,
                    detected_ns: 0,
                },
            );
        }
        i += 1;
    }
    None
}

/// Every trial buys both sides for less than the dollar that one of them pays.
pub proof fn law_trials_are_profitable(arb_type: ArbType)
    ensures
        arb_type.trial().0 + arb_type.trial().1 < 100,
{
}

impl PlatformOrder {
    /// The dollars that each contract of the order pays once the market is resolved.
    pub open spec fn pays(self, pair: MarketPair, yes_won: bool) -> int {
        match self {
            PlatformOrder::Kalshi { ticker, side, .. } => if ticker@ == pair.kalshi_market_ticker@
                && side@ == (if yes_won {
                "yes"@
            } else {
                "no"@
            }) {
                1
            } else {
                0
            },
            PlatformOrder::Polymarket { token, .. } => pair.token_pays(token@, yes_won),
        }
    }
}

/// An order pays a dollar per contract exactly where the side of the request wins, as long as the
/// two tokens of the market differ; so it pays what the request that was made for an opportunity
/// pays.
pub proof fn law_an_order_pays_if_its_side_wins(
    order: PlatformOrder,
    request: GrindingExecutionRequest,
    opportunity: GrindingOpportunity,
    market: MarketSnapshot,
    now: Timestamp,
    yes_won: bool,
)
    requires
        market.pair is Some,
        market.pair->0.poly_yes_token@ != market.pair->0.poly_no_token@,
        request.buys(opportunity, market, now),
        order.fulfils(request, market.pair->0),
    ensures
        order.pays(market.pair->0, yes_won) == (if opportunity.side.wins(yes_won) {
            1int
        } else {
            0
        }),
        order.pays(market.pair->0, yes_won) == request.pays(market.pair->0, yes_won),
        order is Kalshi <==> opportunity.platform == Platform::Kalshi,
{
    reveal_strlit("yes");
    reveal_strlit("no");
    assert("yes"@.len() != "no"@.len());
    law_a_request_pays_if_its_side_wins(request, opportunity, market, now, yes_won);
}

/// An order on Kalshi never asks for more than the request: its whole cents are at most the limit,
/// up to rounding, and its whole contracts are at most those of the request and less than one
/// fewer. An order on Polymarket asks for exactly what the request does.
pub proof fn law_an_order_asks_for_what_is_requested(
    order: PlatformOrder,
    request: GrindingExecutionRequest,
    pair: MarketPair,
)
    requires
        order.fulfils(request, pair),
        request.max_price.in_unit_range(),
        request.contracts.finite(),
        request.contracts.nonnegative(),
        request.contracts.scaled() <= i64::MAX * one_in_units(),
    ensures
        ({
            let (u, span) = (one_in_units(), FRACTION_SPAN as int);
            let (most, wanted) = (request.max_price.scaled(), request.contracts.scaled());
            &&& order matches PlatformOrder::Kalshi { price_cents, contracts, .. } ==> {
                &&& span * (price_cents * u) <= 100 * (span * most) + 100 * most + span
                &&& span * ((price_cents + 1) * u) > 100 * (span * most) - 100 * most - span
                &&& contracts * u <= wanted < (contracts + 1) * u
            }
            &&& order matches PlatformOrder::Polymarket { price, contracts, .. } ==> price
                == request.max_price && contracts == request.contracts
        }),
{
    let (u, span) = (one_in_units(), FRACTION_SPAN as int);
    lemma_one();
    lemma_hundred();
    let hundred = Binary64::of_bits(D_100);
    lemma_units_in_unit_range(request.max_price);
    lemma_units(request.max_price);
    lemma_units(hundred);
    lemma_units(request.contracts);
    let (most, wanted) = (request.max_price.scaled(), request.contracts.scaled());
    assert(most * (100 * u) <= 100 * u * u) by (nonlinear_arith)
        requires
            0 <= most <= u,
    ;
    lemma_product_up_to_a_hundred(request.max_price, hundred);
    law_product_bounds(request.max_price, hundred);
    let limit = request.max_price.times(hundred);
    lemma_units(limit);
    lemma_product_accuracy(request.max_price, hundred);
    law_truncation_goes_towards_zero(limit);
    law_truncation_goes_towards_zero(request.contracts);
    let (x, c, n) = (limit.scaled(), limit.truncated(), request.contracts.truncated());
    assert(0 <= c <= 100) by (nonlinear_arith)
        requires
            c * u <= x < c * u + u,
            0 <= x <= 100 * u,
            u > 0,
    ;
    assert(0 <= n <= i64::MAX) by (nonlinear_arith)
        requires
            n * u <= wanted < n * u + u,
            0 <= wanted <= i64::MAX * u,
            u > 0,
    ;
    assert((n + 1) * u == n * u + u) by (nonlinear_arith);
    assert((c + 1) * u == c * u + u) by (nonlinear_arith);
    let d = x - 100 * most;
    assert(x * u - most * (100 * u) == d * u) by (nonlinear_arith)
        requires
            d == x - 100 * most,
    ;
    assert(most * (100 * u) == (100 * most) * u) by (nonlinear_arith);
    lemma_size_of_product(d, u);
    lemma_size_of_product(100 * most, u);
    let m = size(d);
    assert(span * m <= 100 * most + span) by (nonlinear_arith)
        requires
            span * (m * u) <= (100 * most) * u + span * u,
            u > 0,
    ;
}

/// The capital is the paper capital wherever trading is not live, and what was saved where it is;
/// where nothing was saved, it is a hundred dollars.
pub proof fn law_paper_trading_ignores_what_was_saved(
    mode: TradingMode,
    saved: Binary64,
    other: Option<Binary64>,
)
    ensures
        !mode.live ==> starting_capital_of(mode, Some(saved)) == mode.paper_capital
            && starting_capital_of(mode, other) == mode.paper_capital,
        mode.live ==> starting_capital_of(mode, Some(saved)) == saved && starting_capital_of(
            mode,
            None,
        ).scaled() == 100 * one_in_units(),
{
    lemma_hundred();
}

} // verus!
