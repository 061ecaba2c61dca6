//! Trading modes and simulated fills.
use crate::binary64::numbers::{D_0_005, D_100, D_2, D_99};
use crate::binary64::integers::saturated;
use crate::binary64::{one, one_value, zero, zero_value, Binary64, ONE_BITS};
use crate::market::PriceCents;
use crate::text::{
    ascii_lowered, flag_is_off, is_ascii_text, is_off_flag, lowercase, same_text, to_lowercase,
};
use crate::time::cut_div;
use vstd::prelude::*;

verus! {

/// A size in cents.
pub type SizeCents = u16;

// ---------------------------------------------------------------------------
// Trading mode
// ---------------------------------------------------------------------------

/// Trading mode configuration determining whether to execute live or paper trades
#[derive(Debug, Clone, Copy)]
pub struct TradingMode {
    /// Whether to execute live trades (false = paper trading)
    pub live: bool,
    /// Starting capital for paper trading (in dollars)
    pub paper_capital: Binary64,
}

/// Modes are compared by value, as their capitals are.
impl PartialEq for TradingMode {
    fn eq(&self, other: &Self) -> (r: bool) {
        self.live == other.live && self.paper_capital.has_value_of(&other.paper_capital)
    }
}

impl vstd::std_specs::cmp::PartialEqSpecImpl for TradingMode {
    open spec fn obeys_eq_spec() -> bool {
        true
    }

    open spec fn eq_spec(&self, other: &Self) -> bool {
        self.live == other.live && self.paper_capital.same_value(other.paper_capital)
    }
}

impl Default for TradingMode {
    fn default() -> (r: Self)
        ensures
            !r.live,
            r.paper_capital == Binary64::of_bits(D_100),
    {
        TradingMode { live: false, paper_capital: Binary64::from_bits(D_100) }
    }
}

impl TradingMode {
    /// Create from the values of the environment variables for the dry run and the paper
    /// capital. Trading is live only where the dry run is switched off.
    pub fn from_vars(dry_run: Option<String>, paper_capital: Option<Binary64>) -> (r: Self)
        ensures
            dry_run is None ==> !r.live,
            dry_run matches Some(flag) ==> {
                &&& r.live == is_off_flag(flag@, lowercase(flag@))
                &&& is_ascii_text(flag@) ==> r.live == is_off_flag(flag@, ascii_lowered(flag@))
            },
            r.paper_capital == (match paper_capital {
                Some(capital) => capital,
                None => Binary64::of_bits(D_100),
            }),
    {
        let live = match dry_run {
            Some(flag) => flag_is_off(&flag),
            None => false,
        };
        let paper_capital = match paper_capital {
            Some(capital) => capital,
            None => Binary64::from_bits(D_100),
        };
        TradingMode { live, paper_capital }
    }

    /// Check if paper trading is enabled
    pub fn is_paper(&self) -> (r: bool)
        ensures
            r == !self.live,
    {
        !self.live
    }

    /// Check if live trading is enabled
    pub fn is_live(&self) -> (r: bool)
        ensures
            r == self.live,
    {
        self.live
    }
}

// ---------------------------------------------------------------------------
// Fills
// ---------------------------------------------------------------------------

/// Result of an order execution attempt
#[derive(Debug, Clone)]
pub struct ExecutionFill {
    /// Unique order identifier
    pub order_id: String,
    /// Platform where order was executed
    pub platform: String,
    /// Side of the order (YES/NO)
    pub side: String,
    /// Number of contracts filled
    pub filled_contracts: i64,
    /// Total cost in cents
    pub fill_cost_cents: i64,
    /// Fill price per contract in cents
    pub fill_price_cents: PriceCents,
    /// Timestamp of fill (Unix timestamp in seconds)
    pub timestamp_secs: i64,
    /// Whether this was a simulated (paper) fill
    pub is_simulated: bool,
}

/// The low sixteen bits of a whole number.
pub open spec fn low_bits(n: int) -> int {
    n % 0x1_0000
}

/// The low sixteen bits of a whole number.
pub(crate) fn low_u16(n: i128) -> (r: u16)
    requires
        -0x1_0000_0000_0000_0000_0000 < n < 0x1_0000_0000_0000_0000_0000,
    ensures
        r == low_bits(n as int),
{
    if n >= 0 {
        (n as u128 % 0x1_0000) as u16
    } else {
        let m: u128 = (-n) as u128 % 0x1_0000;
        if m == 0 {
            0
        } else {
            (0x1_0000 - m) as u16
        }
    }
}

/// The fill of a live order on Kalshi. The price is the cost per contract in whole cents, cut
/// off towards zero.
pub fn kalshi_fill(
    order_id: String,
    side: &str,
    filled: i64,
    taker_fill_cost: Option<i64>,
    maker_fill_cost: Option<i64>,
    timestamp_secs: i64,
) -> (r: ExecutionFill)
    requires
        i64::MIN <= cost_or_zero(taker_fill_cost) + cost_or_zero(maker_fill_cost) <= i64::MAX,
    ensures
        r.order_id == order_id,
        r.platform@ == "kalshi"@,
        r.side@ == side@,
        r.filled_contracts == filled,
        r.fill_cost_cents == cost_or_zero(taker_fill_cost) + cost_or_zero(maker_fill_cost),
        r.fill_price_cents == (if filled > 0 {
            low_bits(cut_div(r.fill_cost_cents as int, filled as int))
        } else {
            0
        }),
        r.timestamp_secs == timestamp_secs,
        !r.is_simulated,
{
    let taker: i64 = match taker_fill_cost {
        Some(cost) => cost,
        None => 0,
    };
    let maker: i64 = match maker_fill_cost {
        Some(cost) => cost,
        None => 0,
    };
    let cost: i64 = taker + maker;
    let fill_price_cents: u16 = if filled > 0 {
        let per: i128 = if cost >= 0 {
            (cost as u64 / filled as u64) as i128
        } else {
            -(((-(cost as i128)) as u128 / filled as u128) as i128)
        };
        proof {
            let n = if cost >= 0 {
                cost as int
            } else {
                -(cost as int)
            };
            assert(0 <= n / filled as int && n / filled as int <= n) by (nonlinear_arith)
                requires
                    n >= 0,
                    filled > 0,
            ;
        }
        low_u16(per)
    } else {
        0
    };
    ExecutionFill {
        order_id,
        platform: "kalshi".to_string(),
        side: side.to_string(),
        filled_contracts: filled,
        fill_cost_cents: cost,
        fill_price_cents,
        timestamp_secs,
        is_simulated: false,
    }
}

/// A cost, or zero where it is not known.
pub open spec fn cost_or_zero(cost: Option<i64>) -> int {
    match cost {
        Some(c) => c as int,
        None => 0,
    }
}

/// The fill of a live order on Polymarket: contracts, cost and price in whole numbers, cut off
/// towards zero.
pub fn poly_fill(
    order_id: String,
    filled_size: &Binary64,
    fill_cost: &Binary64,
    timestamp_secs: i64,
) -> (r: ExecutionFill)
    ensures
        r.order_id == order_id,
        r.platform@ == "polymarket"@,
        r.side@ == "yes"@,
        r.filled_contracts == saturated(
            filled_size.truncated(),
            i64::MIN as int,
            i64::MAX as int,
        ),
        r.fill_cost_cents == saturated(
            fill_cost.times(Binary64::of_bits(D_100)).truncated(),
            i64::MIN as int,
            i64::MAX as int,
        ),
        r.fill_price_cents == (if zero_value().less(*filled_size) {
            saturated(
                fill_cost.over(*filled_size).times(Binary64::of_bits(D_100)).truncated(),
                0,
                u16::MAX as int,
            )
        } else {
            0
        }),
        r.timestamp_secs == timestamp_secs,
        !r.is_simulated,
{
    let hundred = Binary64::from_bits(D_100);
    let fill_price_cents: u16 = if filled_size.gt(&zero()) {
        fill_cost.div(filled_size).mul(&hundred).trunc_u16()
    } else {
        0
    };
    ExecutionFill {
        order_id,
        platform: "polymarket".to_string(),
        side: "yes".to_string(),
        filled_contracts: filled_size.trunc_i64(),
        fill_cost_cents: fill_cost.mul(&hundred).trunc_i64(),
        fill_price_cents,
        timestamp_secs,
        is_simulated: false,
    }
}

/// The limit price of a paper order on Kalshi: the low sixteen bits of the cents.
pub fn kalshi_paper_price(price_cents: i64) -> (r: PriceCents)
    ensures
        r == low_bits(price_cents as int),
        0 <= price_cents <= u16::MAX ==> r == price_cents,
{
    low_u16(price_cents as i128)
}

/// The limit price and the contracts of a paper order on Polymarket, in whole numbers.
pub fn poly_paper_order(price: &Binary64, contracts: &Binary64) -> (r: (PriceCents, i64))
    ensures
        r.0 == saturated(
            price.times(Binary64::of_bits(D_100)).rounded(),
            0,
            u16::MAX as int,
        ),
        r.1 == saturated(contracts.truncated(), i64::MIN as int, i64::MAX as int),
{
    (price.mul(&Binary64::from_bits(D_100)).round_u16(), contracts.trunc_i64())
}

// ---------------------------------------------------------------------------
// Simulation
// ---------------------------------------------------------------------------

/// Configuration for simulated fill behavior
#[derive(Debug, Clone, Copy, PartialEq, Eq, Structural)]
pub struct SimulationConfig {
    /// Minimum slippage percentage (0.0 = 0%)
    pub min_slippage_pct: Binary64,
    /// Maximum slippage percentage (0.005 = 0.5%)
    pub max_slippage_pct: Binary64,
    /// Fill rate for simulated orders (0.0-1.0, where 1.0 = 100% fill)
    pub fill_rate: Binary64,
    /// Whether to simulate partial fills
    pub allow_partial_fills: bool,
}

impl Default for SimulationConfig {
    fn default() -> (r: Self)
        ensures
            r == Self::usual(),
    {
        SimulationConfig {
            min_slippage_pct: zero(),
            max_slippage_pct: Binary64::from_bits(D_0_005),
            fill_rate: one(),
            allow_partial_fills: false,
        }
    }
}

impl SimulationConfig {
    /// Slippage of at most half a percent, and full fills.
    pub open spec fn usual() -> Self {
        SimulationConfig {
            min_slippage_pct: zero_value(),
            max_slippage_pct: Binary64::of_bits(D_0_005),
            fill_rate: one_value(),
            allow_partial_fills: false,
        }
    }
}

/// What was drawn at random for an order.
#[derive(Debug, Clone, Copy, PartialEq, Eq, Structural)]
pub struct Draw {
    /// The slippage, between the bounds of the configuration.
    pub slippage: Binary64,
    /// The share that is filled, between the fill rate of the configuration and one; it counts
    /// only where partial fills are simulated.
    pub fill_rate: Binary64,
}

/// Simulated orderbook for paper trading
#[derive(Debug, Clone, Copy, PartialEq, Eq, Structural)]
pub struct SimulatedOrderbook {
    /// Best bid price in cents
    pub best_bid: PriceCents,
    /// Best ask price in cents
    pub best_ask: PriceCents,
    /// Available size at best bid
    pub bid_size: SizeCents,
    /// Available size at best ask
    pub ask_size: SizeCents,
}

impl Default for SimulatedOrderbook {
    fn default() -> (r: Self)
        ensures
            r == (SimulatedOrderbook { best_bid: 0, best_ask: 0, bid_size: 0, ask_size: 0 }),
    {
        SimulatedOrderbook { best_bid: 0, best_ask: 0, bid_size: 0, ask_size: 0 }
    }
}

impl SimulatedOrderbook {
    /// Create orderbook from bid/ask prices
    pub fn new(
        best_bid: PriceCents,
        best_ask: PriceCents,
        bid_size: SizeCents,
        ask_size: SizeCents,
    ) -> (r: Self)
        ensures
            r == (SimulatedOrderbook { best_bid, best_ask, bid_size, ask_size }),
    {
        SimulatedOrderbook { best_bid, best_ask, bid_size, ask_size }
    }

    /// The price in the middle between bid and ask.
    pub open spec fn mid(self) -> Binary64 {
        Binary64::of_int(self.best_bid as int).plus(Binary64::of_int(self.best_ask as int)).over(
            Binary64::of_bits(D_2),
        )
    }

    /// Calculate mid price in cents
    pub fn mid_price(&self) -> (r: Binary64)
        ensures
            r == self.mid(),
    {
        Binary64::from_u64(self.best_bid as u64).add(
            &Binary64::from_u64(self.best_ask as u64),
        ).div(&Binary64::from_bits(D_2))
    }

    /// The orderbook around a limit price: the bid a cent below it and the ask a cent above it,
    /// between 1 and 99 cents.
    pub open spec fn around(price_cents: PriceCents, contracts: i64) -> Self {
        let size = low_bits(contracts * 100) as u16;
        SimulatedOrderbook {
            best_bid: if price_cents <= 2 {
                1
            } else {
                (price_cents - 1) as u16
            },
            best_ask: if price_cents >= 98 {
                99
            } else {
                (price_cents + 1) as u16
            },
            bid_size: size,
            ask_size: size,
        }
    }

    /// The orderbook around a limit price.
    pub fn from_limit(price_cents: PriceCents, contracts: i64) -> (r: Self)
        ensures
            r == Self::around(price_cents, contracts),
    {
        let size: u16 = low_u16(contracts as i128 * 100);
        let best_bid: u16 = if price_cents <= 2 {
            1
        } else {
            price_cents - 1
        };
        let best_ask: u16 = if price_cents >= 98 {
            99
        } else {
            price_cents + 1
        };
        SimulatedOrderbook::new(best_bid, best_ask, size, size)
    }
}

/// Simulated fill result from paper trading
#[derive(Debug, Clone, Copy, PartialEq, Eq, Structural)]
pub struct SimulatedFill {
    /// Fill price per contract (includes slippage)
    pub price: Binary64,
    /// Number of contracts filled
    pub quantity: i64,
    /// Timestamp of simulated fill (Unix seconds)
    pub timestamp_secs: i64,
    /// Applied slippage percentage
    pub slippage_applied: Binary64,
}

/// Which way slippage moves the price of an order.
#[derive(Debug, Clone, Copy, PartialEq, Eq, Structural)]
pub enum Slippage {
    /// A buyer pays more.
    Up,
    /// A seller receives less.
    Down,
    /// A side that is not known is filled at the middle.
    Still,
}

impl Slippage {
    /// Which way slippage goes for a side in lower case.
    pub open spec fn of(lowered: Seq<char>) -> Self {
        if lowered == "buy"@ || lowered == "yes"@ {
            Slippage::Up
        } else if lowered == "sell"@ || lowered == "no"@ {
            Slippage::Down
        } else {
            Slippage::Still
        }
    }

    /// Which way slippage goes for a side in lower case.
    pub fn from_lowercase(lowered: &str) -> (r: Self)
        ensures
            r == Self::of(lowered@),
    {
        if same_text(lowered, "buy") || same_text(lowered, "yes") {
            Slippage::Up
        } else if same_text(lowered, "sell") || same_text(lowered, "no") {
            Slippage::Down
        } else {
            Slippage::Still
        }
    }
}

/// The price of a fill: the middle moved by the slippage, between 1 and 99 cents.
pub open spec fn slipped_price(direction: Slippage, base: Binary64, slippage: Binary64) -> Binary64 {
    let price = match direction {
        Slippage::Up => base.times(one_value().plus(slippage)),
        Slippage::Down => base.times(one_value().minus(slippage)),
        Slippage::Still => base,
    };
    price.clamped(one_value(), Binary64::of_bits(D_99))
}

/// The contracts that are filled: all of them, or the share that was drawn.
pub open spec fn filled_quantity(
    quantity: i64,
    config: SimulationConfig,
    fill_rate: Binary64,
) -> int {
    if config.allow_partial_fills {
        saturated(
            Binary64::of_int(quantity as int).times(fill_rate).floored(),
            i64::MIN as int,
            i64::MAX as int,
        )
    } else {
        quantity as int
    }
}

/// The fill in the given direction; the slippage and the fill rate have been drawn.
pub fn fill_at(
    direction: Slippage,
    quantity: i64,
    orderbook: &SimulatedOrderbook,
    config: &SimulationConfig,
    draw: &Draw,
    timestamp_secs: i64,
) -> (r: SimulatedFill)
    ensures
        r.price == slipped_price(direction, orderbook.mid(), draw.slippage),
        r.quantity == filled_quantity(quantity, *config, draw.fill_rate),
        r.timestamp_secs == timestamp_secs,
        r.slippage_applied == draw.slippage,
{
    let base = orderbook.mid_price();
    let price = match direction {
        Slippage::Up => base.mul(&one().add(&draw.slippage)),
        Slippage::Down => base.mul(&one().sub(&draw.slippage)),
        Slippage::Still => base,
    };
    proof {
        crate::binary64::lemma_scaled_magnitude_increases(ONE_BITS as int, D_99 as int);
    }
    let clamped = price.clamp(&one(), &Binary64::from_bits(D_99));
    let filled: i64 = if config.allow_partial_fills {
        Binary64::from_i64(quantity).mul(&draw.fill_rate).floor_i64()
    } else {
        quantity
    };
    SimulatedFill {
        price: clamped,
        quantity: filled,
        timestamp_secs,
        slippage_applied: draw.slippage,
    }
}

/// Simulate a fill with realistic slippage
///
/// Uses the mid-price from the orderbook and applies the slippage that was drawn.
pub fn simulate_fill(
    side: &str,
    _price_cents: PriceCents,
    quantity: i64,
    orderbook: &SimulatedOrderbook,
    config: &SimulationConfig,
    draw: &Draw,
    timestamp_secs: i64,
) -> (r: SimulatedFill)
    ensures
        r.price == slipped_price(Slippage::of(lowercase(side@)), orderbook.mid(), draw.slippage),
        is_ascii_text(side@) ==> r.price == slipped_price(
            Slippage::of(ascii_lowered(side@)),
            orderbook.mid(),
            draw.slippage,
        ),
        r.quantity == filled_quantity(quantity, *config, draw.fill_rate),
        r.timestamp_secs == timestamp_secs,
        r.slippage_applied == draw.slippage,
{
    let direction = Slippage::from_lowercase(&to_lowercase(side));
    fill_at(direction, quantity, orderbook, config, draw, timestamp_secs)
}

/// A fill is always between 1 and 99 cents, whatever slippage was drawn.
pub proof fn law_fills_stay_between_the_bounds(
    direction: Slippage,
    base: Binary64,
    slippage: Binary64,
)
    ensures
        ({
            let price = slipped_price(direction, base, slippage);
            price.nan() || (one_value().at_most(price) && price.at_most(Binary64::of_bits(D_99)))
        }),
{
    crate::binary64::lemma_scaled_magnitude_increases(ONE_BITS as int, D_99 as int);
}

/// A buyer never pays less than the middle and a seller never receives more, as far as the
/// bounds allow.
pub proof fn law_slippage_is_a_cost(base: Binary64, slippage: Binary64)
    requires
        base.finite(),
        one_value().at_most(base),
        base.at_most(Binary64::of_bits(D_99)),
        slippage.in_unit_range(),
    ensures
        base.at_most(slipped_price(Slippage::Up, base, slippage)),
        slipped_price(Slippage::Down, base, slippage).at_most(base),
        slipped_price(Slippage::Still, base, slippage) == base,
{
    crate::kalman::filter::lemma_zero_and_one();
    crate::binary64::ranges::lemma_one();
    crate::binary64::lemma_scaled_magnitude_increases(ONE_BITS as int, D_99 as int);
    crate::binary64::ranges::law_sum_bounds(one_value(), slippage);
    crate::binary64::ranges::law_product_grows(base, one_value().plus(slippage));
    crate::binary64::ranges::law_unit_difference_bounds(one_value(), slippage);
    crate::binary64::ranges::law_product_bounds(base, one_value().minus(slippage));
}

} // verus!
