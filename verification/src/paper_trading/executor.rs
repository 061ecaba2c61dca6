//! Execution of paper orders.
use super::position::Leg;
use super::simulation::{
    fill_at, filled_quantity, slipped_price, Draw, ExecutionFill, SimulatedOrderbook,
    SimulationConfig, Slippage,
};
use super::tracker::{PaperCapitalTracker, TrackerView};
use crate::binary64::integers::saturated;
use crate::binary64::{zero, zero_value, Binary64};
use crate::market::{cents_to_price, price_of_cents, PriceCents};
use crate::text::{ascii_lowered, concat2, decimal, is_ascii_text, lowercase, u64_text};
use crate::time::{text_of_date, CivilDate};
use vstd::prelude::*;

verus! {

/// Default file path for paper trading state
pub const PAPER_STATE_FILE: &'static str = "paper_trading_state.json";

/// Paper trading order executor
#[derive(Debug)]
pub struct PaperOrderExecutor {
    /// Capital and position tracker
    pub tracker: PaperCapitalTracker,
    /// Simulation configuration
    pub config: SimulationConfig,
    /// Order counter for generating unique IDs
    pub order_counter: u64,
}

/// An order as it is placed.
#[derive(Debug, Clone, Copy)]
pub struct PaperOrder<'a> {
    pub platform: &'a str,
    /// The ticker or the token of the market
    pub market: &'a str,
    pub side: &'a str,
    pub is_buy: bool,
    pub price_cents: PriceCents,
    pub contracts: i64,
}

impl<'a> PaperOrder<'a> {
    /// The price at which the order is filled, in cents.
    pub open spec fn fill_price(self, draw: Draw) -> Binary64 {
        let direction = if self.is_buy {
            Slippage::Up
        } else {
            Slippage::Down
        };
        slipped_price(
            direction,
            SimulatedOrderbook::around(self.price_cents, self.contracts).mid(),
            draw.slippage,
        )
    }

    /// The price at which the order is filled, in whole cents.
    pub open spec fn fill_cents(self, draw: Draw) -> int {
        saturated(self.fill_price(draw).rounded(), 0, u16::MAX as int)
    }
}

impl ExecutionFill {
    /// Whether the fill is the one that an order gets.
    pub open spec fn answers(
        self,
        order: PaperOrder,
        config: SimulationConfig,
        draw: Draw,
        number: u64,
        timestamp_secs: i64,
    ) -> bool {
        let quantity = filled_quantity(order.contracts, config, draw.fill_rate);
        &&& self.order_id@ == "paper_"@ + decimal(number as nat)
        &&& self.platform@ == order.platform@
        &&& self.side@ == order.side@
        &&& self.filled_contracts == quantity
        &&& self.fill_cost_cents == saturated(
            Binary64::of_int(quantity).times(order.fill_price(draw)).rounded(),
            i64::MIN as int,
            i64::MAX as int,
        )
        &&& self.fill_price_cents == order.fill_cents(draw)
        &&& self.timestamp_secs == timestamp_secs
        &&& self.is_simulated
    }
}

impl PaperOrderExecutor {
    /// Create new paper executor with given starting capital
    pub fn new(starting_capital: &Binary64, now_secs: i64, today: &CivilDate) -> (r: Self)
        ensures
            r.tracker@ == TrackerView::fresh(*starting_capital, now_secs, text_of_date(*today)),
            r.config == SimulationConfig::usual(),
            r.order_counter == 0,
    {
        Self::with_tracker(PaperCapitalTracker::new(starting_capital, now_secs, today))
    }

    /// Create from existing tracker
    pub fn with_tracker(tracker: PaperCapitalTracker) -> (r: Self)
        ensures
            r.tracker == tracker,
            r.config == SimulationConfig::usual(),
            r.order_counter == 0,
    {
        PaperOrderExecutor { tracker, config: SimulationConfig::default(), order_counter: 0 }
    }

    /// Get reference to tracker
    pub fn tracker(&self) -> (r: &PaperCapitalTracker)
        ensures
            *r == self.tracker,
    {
        &self.tracker
    }

    /// Generate unique order ID. A counter that has reached its maximum starts again from zero.
    pub fn next_order_id(&mut self) -> (id: String)
        ensures
            id@ == "paper_"@ + decimal(old(self).order_counter as nat),
            final(self).order_counter == old(self).order_counter.wrapping_add(1),
            final(self).tracker == old(self).tracker,
            final(self).config == old(self).config,
    {
        let counter: u64 = self.order_counter;
        self.order_counter = counter.wrapping_add(1);
        concat2("paper_", &u64_text(counter))
    }

    /// Execute a simulated order. A buy is recorded in the tracker, without fees, at the price
    /// in whole cents.
    pub fn execute_simulated(
        &mut self,
        order: &PaperOrder,
        draw: &Draw,
        timestamp_secs: i64,
    ) -> (r: ExecutionFill)
        ensures
            r.answers(*order, old(self).config, *draw, old(self).order_counter, timestamp_secs),
            final(self).order_counter == old(self).order_counter.wrapping_add(1),
            final(self).config == old(self).config,
            !order.is_buy ==> final(self).tracker == old(self).tracker,
            order.is_buy ==> final(self).tracker@ == old(self).tracker@.after_fill(
                order.market@,
                order.market@,
                Leg::of(lowercase(order.platform@), lowercase(order.side@)),
                Binary64::of_int(
                    filled_quantity(order.contracts, old(self).config, draw.fill_rate),
                ),
                price_of_cents(order.fill_cents(*draw)),
                zero_value(),
                timestamp_secs,
            ),
            order.is_buy && is_ascii_text(order.platform@) && is_ascii_text(order.side@)
                ==> final(self).tracker@ == old(self).tracker@.after_fill(
                order.market@,
                order.market@,
                Leg::of(ascii_lowered(order.platform@), ascii_lowered(order.side@)),
                Binary64::of_int(
                    filled_quantity(order.contracts, old(self).config, draw.fill_rate),
                ),
                price_of_cents(order.fill_cents(*draw)),
                zero_value(),
                timestamp_secs,
            ),
    {
        let orderbook = SimulatedOrderbook::from_limit(order.price_cents, order.contracts);
        let direction = if order.is_buy {
            Slippage::Up
        } else {
            Slippage::Down
        };
        let fill = fill_at(
            direction,
            order.contracts,
            &orderbook,
            &self.config,
            draw,
            timestamp_secs,
        );
        let order_id = self.next_order_id();
        let fill_price_cents: u16 = fill.price.round_u16();
        let quantity = Binary64::from_i64(fill.quantity);
        let fill_cost_cents: i64 = quantity.mul(&fill.price).round_i64();
        if order.is_buy {
            self.tracker.record_fill(
                order.market,
                order.market,
                order.platform,
                order.side,
                &quantity,
                &cents_to_price(fill_price_cents),
                &zero(),
                timestamp_secs,
            );
        }
        ExecutionFill {
            order_id,
            platform: order.platform.to_string(),
            side: order.side.to_string(),
            filled_contracts: fill.quantity,
            fill_cost_cents,
            fill_price_cents,
            timestamp_secs: fill.timestamp_secs,
            is_simulated: true,
        }
    }

    /// Execute a buy order (paper)
    pub fn buy(
        &mut self,
        platform: &str,
        ticker_or_token: &str,
        side: &str,
        price_cents: PriceCents,
        contracts: i64,
        draw: &Draw,
        timestamp_secs: i64,
    ) -> (r: ExecutionFill)
        ensures
            r.answers(
                (PaperOrder {
                platform,
                market: ticker_or_token,
                side,
                is_buy: true,
                price_cents,
                contracts,
            }),
                old(self).config,
                *draw,
                old(self).order_counter,
                timestamp_secs,
            ),
            final(self).order_counter == old(self).order_counter.wrapping_add(1),
            final(self).config == old(self).config,
            final(self).tracker@ == old(self).tracker@.after_fill(
                ticker_or_token@,
                ticker_or_token@,
                Leg::of(lowercase(platform@), lowercase(side@)),
                Binary64::of_int(filled_quantity(contracts, old(self).config, draw.fill_rate)),
                price_of_cents((PaperOrder {
                platform,
                market: ticker_or_token,
                side,
                is_buy: true,
                price_cents,
                contracts,
            }).fill_cents(*draw)),
                zero_value(),
                timestamp_secs,
            ),
            is_ascii_text(platform@) && is_ascii_text(side@) ==> final(self).tracker@ == old(
                self,
            ).tracker@.after_fill(
                ticker_or_token@,
                ticker_or_token@,
                Leg::of(ascii_lowered(platform@), ascii_lowered(side@)),
                Binary64::of_int(filled_quantity(contracts, old(self).config, draw.fill_rate)),
                price_of_cents((PaperOrder {
                platform,
                market: ticker_or_token,
                side,
                is_buy: true,
                price_cents,
                contracts,
            }).fill_cents(*draw)),
                zero_value(),
                timestamp_secs,
            ),
    {
        let order = PaperOrder {
            platform,
            market: ticker_or_token,
            side,
            is_buy: true,
            price_cents,
            contracts,
        };
        self.execute_simulated(&order, draw, timestamp_secs)
    }

    /// Execute a sell order (paper)
    pub fn sell(
        &mut self,
        platform: &str,
        ticker_or_token: &str,
        side: &str,
        price_cents: PriceCents,
        contracts: i64,
        draw: &Draw,
        timestamp_secs: i64,
    ) -> (r: ExecutionFill)
        ensures
            r.answers(
                (PaperOrder {
                platform,
                market: ticker_or_token,
                side,
                is_buy: false,
                price_cents,
                contracts,
            }),
                old(self).config,
                *draw,
                old(self).order_counter,
                timestamp_secs,
            ),
            final(self).order_counter == old(self).order_counter.wrapping_add(1),
            final(self).config == old(self).config,
            final(self).tracker == old(self).tracker,
    {
        let order = PaperOrder {
            platform,
            market: ticker_or_token,
            side,
            is_buy: false,
            price_cents,
            contracts,
        };
        self.execute_simulated(&order, draw, timestamp_secs)
    }

    /// Check if this is paper mode
    pub fn is_paper(&self) -> (r: bool)
        ensures
            r,
    {
        true
    }

    /// Get current capital
    pub fn get_capital(&self) -> (r: Binary64)
        ensures
            r == self.tracker@.capital,
    {
        self.tracker.get_capital()
    }
}

/// The side that an order is simulated as: "buy" moves the price up and "sell" moves it down.
pub proof fn law_buys_slip_up_and_sells_slip_down()
    ensures
        Slippage::of("buy"@) == Slippage::Up,
        Slippage::of("sell"@) == Slippage::Down,
        Slippage::of("yes"@) == Slippage::Up,
        Slippage::of("no"@) == Slippage::Down,
{
    reveal_strlit("buy");
    reveal_strlit("sell");
    reveal_strlit("yes");
    reveal_strlit("no");
    assert("sell"@.len() != "buy"@.len());
    assert("no"@.len() != "buy"@.len());
    assert("sell"@.len() != "yes"@.len());
    assert("no"@.len() != "yes"@.len());
}

/// Two orders of one executor get different numbers, until the counter starts again.
pub proof fn law_order_ids_differ(a: u64, b: u64)
    requires
        a != b,
    ensures
        "paper_"@ + decimal(a as nat) != "paper_"@ + decimal(b as nat),
{
    let (x, y) = ("paper_"@ + decimal(a as nat), "paper_"@ + decimal(b as nat));
    if x == y {
        assert(x.skip("paper_"@.len() as int) =~= decimal(a as nat));
        assert(y.skip("paper_"@.len() as int) =~= decimal(b as nat));
        crate::text::law_int_text_is_injective(a as int, b as int);
    }
}

} // verus!
