//! Shared application state for the dashboard.
use crate::binary64::arithmetic::one_in_units;
use crate::binary64::errors::{
    epsilon, lemma_difference_error, lemma_epsilon, lemma_product_error, lemma_quotient_error,
    lemma_quotient_shrinks, size,
};
use crate::binary64::monotone::law_quotient_is_monotone;
use crate::binary64::numbers::{D_0_05, D_0_5, D_0_9, D_10, D_100, D_24, D_50, D_500};
use crate::binary64::integers::saturated;
use crate::binary64::{one, one_value, zero, zero_value, Binary64, FRACTION_SPAN};
use crate::binary64::lemma_scaled_magnitude_increases;
use crate::binary64::ranges::{
    law_difference_bounds, law_quotient_bounds, law_share_bounds,
    law_whole_numbers_keep_their_order, lemma_finite_between, lemma_hundred, lemma_one,
    lemma_units, lemma_units_in_unit_range,
};
use crate::market::price_of_cents;
use vstd::prelude::*;

verus! {

/// Trading mode (paper vs live)
#[derive(Debug, Clone, Copy, PartialEq, Eq, Structural)]
pub enum TradingMode {
    Paper,
    Live,
}

impl Default for TradingMode {
    fn default() -> (r: Self)
        ensures
            r == TradingMode::Paper,
    {
        TradingMode::Paper
    }
}

impl TradingMode {
    /// The word for the mode.
    pub open spec fn word(self) -> Seq<char> {
        match self {
            TradingMode::Paper => "paper"@,
            TradingMode::Live => "live"@,
        }
    }

    /// The word for the mode.
    pub fn as_str(&self) -> (r: &'static str)
        ensures
            r@ == self.word(),
    {
        match self {
            TradingMode::Paper => "paper",
            TradingMode::Live => "live",
        }
    }
}

/// System status
#[derive(Debug, Clone, Copy, PartialEq, Eq, Structural)]
pub enum SystemStatus {
    Running,
    Halted,
    Starting,
    Error,
}

impl Default for SystemStatus {
    fn default() -> (r: Self)
        ensures
            r == SystemStatus::Starting,
    {
        SystemStatus::Starting
    }
}

/// Trading opportunity detected by the scanner
#[derive(Debug, Clone)]
pub struct Opportunity {
    pub id: String,
    pub market_title: String,
    pub strategy: String,
    pub expected_value: Binary64,
    pub kelly_size: Binary64,
    pub probability: Binary64,
    pub expiry_hours: Binary64,
    pub platform: String,
    pub timestamp: i64,
}

/// An opportunity by what it holds.
pub struct OpportunityView {
    pub id: Seq<char>,
    pub market_title: Seq<char>,
    pub strategy: Seq<char>,
    pub expected_value: Binary64,
    pub kelly_size: Binary64,
    pub probability: Binary64,
    pub expiry_hours: Binary64,
    pub platform: Seq<char>,
    pub timestamp: i64,
}

impl View for Opportunity {
    type V = OpportunityView;

    open spec fn view(&self) -> OpportunityView {
        OpportunityView {
            id: self.id@,
            market_title: self.market_title@,
            strategy: self.strategy@,
            expected_value: self.expected_value,
            kelly_size: self.kelly_size,
            probability: self.probability,
            expiry_hours: self.expiry_hours,
            platform: self.platform@,
            timestamp: self.timestamp,
        }
    }
}

impl Opportunity {
    /// Another opportunity that holds the same.
    pub fn copy(&self) -> (r: Self)
        ensures
            r@ == self@,
    {
        Opportunity {
            id: self.id.clone(),
            market_title: self.market_title.clone(),
            strategy: self.strategy.clone(),
            expected_value: self.expected_value,
            kelly_size: self.kelly_size,
            probability: self.probability,
            expiry_hours: self.expiry_hours,
            platform: self.platform.clone(),
            timestamp: self.timestamp,
        }
    }
}

/// The opportunities by what they hold.
pub open spec fn opportunity_views(opportunities: Seq<Opportunity>) -> Seq<OpportunityView> {
    opportunities.map_values(|o: Opportunity| o@)
}

/// Another list of opportunities that holds the same.
pub fn copy_opportunities(opportunities: &Vec<Opportunity>) -> (r: Vec<Opportunity>)
    ensures
        opportunity_views(r@) == opportunity_views(opportunities@),
{
    let mut r: Vec<Opportunity> = Vec::new();
    let mut i: usize = 0;
    while i < opportunities.len()
        invariant
            i <= opportunities.len(),
            r.len() == i,
            forall|k: int| 0 <= k < i ==> (#[trigger] r[k])@ == opportunities[k]@,
        decreases opportunities.len() - i,
    {
        r.push(opportunities[i].copy());
        i += 1;
    }
    assert(opportunity_views(r@) =~= opportunity_views(opportunities@));
    r
}

/// Position for display
#[derive(Debug, Clone)]
pub struct DisplayPosition {
    pub id: String,
    pub market: String,
    pub platform: String,
    pub side: String,
    pub entry_price: Binary64,
    pub current_price: Binary64,
    pub quantity: Binary64,
    pub pnl: Binary64,
    pub pnl_percent: Binary64,
}

/// A position for display by what it holds.
pub struct DisplayPositionView {
    pub id: Seq<char>,
    pub market: Seq<char>,
    pub platform: Seq<char>,
    pub side: Seq<char>,
    pub entry_price: Binary64,
    pub current_price: Binary64,
    pub quantity: Binary64,
    pub pnl: Binary64,
    pub pnl_percent: Binary64,
}

impl View for DisplayPosition {
    type V = DisplayPositionView;

    open spec fn view(&self) -> DisplayPositionView {
        DisplayPositionView {
            id: self.id@,
            market: self.market@,
            platform: self.platform@,
            side: self.side@,
            entry_price: self.entry_price,
            current_price: self.current_price,
            quantity: self.quantity,
            pnl: self.pnl,
            pnl_percent: self.pnl_percent,
        }
    }
}

/// Stats summary for the dashboard
#[derive(Debug, Clone)]
pub struct DashboardStats {
    pub current_capital: Binary64,
    pub starting_capital: Binary64,
    pub today_pnl: Binary64,
    pub today_pnl_percent: Binary64,
    pub all_time_pnl: Binary64,
    pub all_time_pnl_percent: Binary64,
    pub open_positions_count: u32,
    pub open_positions_value: Binary64,
    pub win_rate: Binary64,
    pub total_trades: u32,
    pub drawdown_percent: Binary64,
    pub high_water_mark: Binary64,
    pub exposure_by_category: Vec<CategoryExposure>,
}

impl Default for DashboardStats {
    fn default() -> (r: Self)
        ensures
            r.current_capital == zero_value(),
            r.starting_capital == zero_value(),
            r.today_pnl == zero_value(),
            r.today_pnl_percent == zero_value(),
            r.all_time_pnl == zero_value(),
            r.all_time_pnl_percent == zero_value(),
            r.open_positions_count == 0,
            r.open_positions_value == zero_value(),
            r.win_rate == zero_value(),
            r.total_trades == 0,
            r.drawdown_percent == zero_value(),
            r.high_water_mark == zero_value(),
            r.exposure_by_category@ == Seq::<CategoryExposure>::empty(),
    {
        DashboardStats {
            current_capital: zero(),
            starting_capital: zero(),
            today_pnl: zero(),
            today_pnl_percent: zero(),
            all_time_pnl: zero(),
            all_time_pnl_percent: zero(),
            open_positions_count: 0,
            open_positions_value: zero(),
            win_rate: zero(),
            total_trades: 0,
            drawdown_percent: zero(),
            high_water_mark: zero(),
            exposure_by_category: Vec::new(),
        }
    }
}

/// Exposure breakdown by category
#[derive(Debug, Clone)]
pub struct CategoryExposure {
    pub category: String,
    pub exposure: Binary64,
    pub percent: Binary64,
}

/// Historical P&L data point for charts
#[derive(Debug, Clone)]
pub struct PnlDataPoint {
    pub timestamp: i64,
    pub date: String,
    pub cumulative_pnl: Binary64,
    pub daily_pnl: Binary64,
}

/// Configuration update request
#[derive(Debug, Clone, Copy, PartialEq, Eq, Structural)]
pub struct ConfigUpdate {
    pub max_drawdown_pct: Option<Binary64>,
    pub base_probability_threshold: Option<Binary64>,
    pub max_hours_to_expiry: Option<Binary64>,
    pub kelly_multiplier: Option<Binary64>,
    pub min_liquidity_usd: Option<Binary64>,
}

/// Current system configuration
#[derive(Debug, Clone, Copy, PartialEq, Eq, Structural)]
pub struct SystemConfig {
    pub max_drawdown_pct: Binary64,
    pub base_probability_threshold: Binary64,
    pub max_hours_to_expiry: Binary64,
    pub kelly_multiplier: Binary64,
    pub min_liquidity_usd: Binary64,
    pub circuit_breaker_enabled: bool,
    pub max_daily_loss: Binary64,
    pub max_position_per_market: i64,
}

impl SystemConfig {
    /// The configuration that the system starts with.
    pub open spec fn usual() -> Self {
        SystemConfig {
            max_drawdown_pct: Binary64::of_bits(D_0_05),
            base_probability_threshold: Binary64::of_bits(D_0_9),
            max_hours_to_expiry: Binary64::of_bits(D_24),
            kelly_multiplier: Binary64::of_bits(D_0_5),
            min_liquidity_usd: Binary64::of_bits(D_10),
            circuit_breaker_enabled: true,
            max_daily_loss: Binary64::of_bits(D_500),
            max_position_per_market: 50000,
        }
    }
}

impl Default for SystemConfig {
    fn default() -> (r: Self)
        ensures
            r == Self::usual(),
    {
        SystemConfig {
            max_drawdown_pct: Binary64::from_bits(D_0_05),
            base_probability_threshold: Binary64::from_bits(D_0_9),
            max_hours_to_expiry: Binary64::from_bits(D_24),
            kelly_multiplier: Binary64::from_bits(D_0_5),
            min_liquidity_usd: Binary64::from_bits(D_10),
            circuit_breaker_enabled: true,
            max_daily_loss: Binary64::from_bits(D_500),
            max_position_per_market: 50000,
        }
    }
}

/// Event types for SSE broadcasts
#[derive(Debug, Clone)]
pub enum DashboardEvent {
    Stats(DashboardStats),
    Positions(Vec<DisplayPosition>),
    Opportunities(Vec<Opportunity>),
    Status { status: SystemStatus, mode: TradingMode, kill_switch_active: bool },
    PriceUpdate { market_id: String, platform: String, price: Binary64 },
    Alert { level: String, message: String },
}

impl DashboardEvent {
    /// Whether the event is an alert with the given level and message.
    pub open spec fn alerts(self, level: Seq<char>, message: Seq<char>) -> bool {
        self matches DashboardEvent::Alert { level: l, message: m } && l@ == level && m@ == message
    }
}

/// What the position tracker sums up.
#[derive(Debug, Clone, Copy, PartialEq, Eq, Structural)]
pub struct PositionsSummary {
    pub open_positions: usize,
    pub resolved_positions: usize,
    pub total_cost_basis: Binary64,
    pub daily_pnl: Binary64,
    pub all_time_pnl: Binary64,
}

/// An open position of the position tracker.
#[derive(Debug, Clone)]
pub struct OpenPosition {
    pub market_id: String,
    pub description: String,
    pub total_cost: Binary64,
    pub guaranteed_profit: Binary64,
    pub matched_contracts: Binary64,
}

/// How many data points the history of profits keeps.
pub const MAX_HISTORY: usize = 365;

/// The capital that the dashboard starts with, in cents.
pub const DEFAULT_CAPITAL_CENTS: u64 = 10000;

/// Shared dashboard state
#[derive(Debug)]
pub struct DashboardState {
    /// Current trading mode
    pub trading_mode: TradingMode,
    /// System status
    pub system_status: SystemStatus,
    /// Kill switch state
    pub kill_switch_active: bool,
    /// Current capital (in cents to avoid floating point issues)
    pub current_capital_cents: u64,
    /// Starting capital (in cents)
    pub starting_capital_cents: u64,
    /// High water mark (in cents)
    pub high_water_mark_cents: u64,
    /// Current opportunities
    pub opportunities: Vec<Opportunity>,
    /// System configuration
    pub config: SystemConfig,
    /// Historical P&L data
    pub pnl_history: Vec<PnlDataPoint>,
}

/// A part of a whole in percent; zero where the whole is not positive.
pub open spec fn percent_of(part: Binary64, whole: Binary64) -> Binary64 {
    if zero_value().less(whole) {
        part.over(whole).times(Binary64::of_bits(D_100))
    } else {
        zero_value()
    }
}

fn percent(part: &Binary64, whole: &Binary64) -> (r: Binary64)
    ensures
        r == percent_of(*part, *whole),
{
    if whole.gt(&zero()) {
        part.div(whole).mul(&Binary64::from_bits(D_100))
    } else {
        zero()
    }
}

/// Dollars as whole cents, cut off; no cents where the amount is negative.
pub open spec fn cents_of(dollars: Binary64) -> int {
    saturated(dollars.times(Binary64::of_bits(D_100)).truncated(), 0, u64::MAX as int)
}

/// Dollars as whole cents.
pub fn dollars_to_cents(dollars: &Binary64) -> (r: u64)
    ensures
        r == cents_of(*dollars),
{
    dollars.mul(&Binary64::from_bits(D_100)).trunc_u64()
}

fn cents_to_dollars(cents: u64) -> (r: Binary64)
    ensures
        r == price_of_cents(cents as int),
{
    Binary64::from_u64(cents).div(&Binary64::from_bits(D_100))
}

fn low_u32(n: usize) -> (r: u32)
    ensures
        r == n as int % 0x1_0000_0000,
{
    (n as u64 % 0x1_0000_0000) as u32
}

impl OpenPosition {
    /// The position as it is displayed: what a matched pair cost, and what it is sure to earn.
    pub open spec fn displayed(self) -> DisplayPositionView {
        DisplayPositionView {
            id: self.market_id@,
            market: self.description@,
            platform: "multi"@,
            side: "arb"@,
            entry_price: if zero_value().less(self.matched_contracts) {
                self.total_cost.over(self.matched_contracts)
            } else {
                zero_value()
            },
            current_price: one_value(),
            quantity: self.matched_contracts,
            pnl: self.guaranteed_profit,
            pnl_percent: percent_of(self.guaranteed_profit, self.total_cost),
        }
    }

    /// The position as it is displayed.
    pub fn display(&self) -> (r: DisplayPosition)
        ensures
            r@ == self.displayed(),
    {
        DisplayPosition {
            id: self.market_id.clone(),
            market: self.description.clone(),
            platform: "multi".to_string(),
            side: "arb".to_string(),
            entry_price: if self.matched_contracts.gt(&zero()) {
                self.total_cost.div(&self.matched_contracts)
            } else {
                zero()
            },
            current_price: one(),
            quantity: self.matched_contracts,
            pnl: self.guaranteed_profit,
            pnl_percent: percent(&self.guaranteed_profit, &self.total_cost),
        }
    }
}

impl DashboardStats {
    /// Whether the stats are those of a state and of what the position tracker sums up.
    pub open spec fn sums_up(self, state: DashboardState, summary: PositionsSummary) -> bool {
        let current = price_of_cents(state.current_capital_cents as int);
        let starting = price_of_cents(state.starting_capital_cents as int);
        let high = price_of_cents(state.high_water_mark_cents as int);
        &&& self.current_capital == current
        &&& self.starting_capital == starting
        &&& self.high_water_mark == high
        &&& self.today_pnl == summary.daily_pnl
        &&& self.today_pnl_percent == percent_of(summary.daily_pnl, starting)
        &&& self.all_time_pnl == summary.all_time_pnl
        &&& self.all_time_pnl_percent == percent_of(summary.all_time_pnl, starting)
        &&& self.open_positions_count == summary.open_positions as int % 0x1_0000_0000
        &&& self.open_positions_value == summary.total_cost_basis
        &&& self.win_rate == (if summary.resolved_positions > 0 {
            Binary64::of_bits(D_50)
        } else {
            zero_value()
        })
        &&& self.total_trades == (summary.open_positions + summary.resolved_positions)
            % 0x1_0000_0000
        &&& self.drawdown_percent == percent_of(high.minus(current), high)
        &&& self.exposure_by_category@.len() == 0
    }
}

impl DashboardState {
    /// The high-water mark is never below the current or the starting capital, and the history
    /// is never longer than it may be.
    pub open spec fn wf(self) -> bool {
        &&& self.current_capital_cents <= self.high_water_mark_cents
        &&& self.starting_capital_cents <= self.high_water_mark_cents
        &&& self.pnl_history.len() <= MAX_HISTORY
    }

    /// Whether the state is that of a system that starts with some capital.
    pub open spec fn starts_with(self, capital_cents: int) -> bool {
        &&& self.trading_mode == TradingMode::Paper
        &&& self.system_status == SystemStatus::Starting
        &&& !self.kill_switch_active
        &&& self.current_capital_cents == capital_cents
        &&& self.starting_capital_cents == capital_cents
        &&& self.high_water_mark_cents == capital_cents
        &&& self.opportunities@.len() == 0
        &&& self.config == SystemConfig::usual()
        &&& self.pnl_history@.len() == 0
    }

    fn starting_with(capital_cents: u64) -> (r: Self)
        ensures
            r.starts_with(capital_cents as int),
            r.wf(),
    {
        DashboardState {
            trading_mode: TradingMode::Paper,
            system_status: SystemStatus::Starting,
            kill_switch_active: false,
            current_capital_cents: capital_cents,
            starting_capital_cents: capital_cents,
            high_water_mark_cents: capital_cents,
            opportunities: Vec::new(),
            config: SystemConfig::default(),
            pnl_history: Vec::new(),
        }
    }

    /// Create a new dashboard state with default values
    pub fn new() -> (r: Self)
        ensures
            r.starts_with(DEFAULT_CAPITAL_CENTS as int),
            r.wf(),
    {
        Self::starting_with(DEFAULT_CAPITAL_CENTS)
    }

    /// Create dashboard state with some starting capital
    pub fn with_components(starting_capital: &Binary64) -> (r: Self)
        ensures
            r.starts_with(cents_of(*starting_capital)),
            r.wf(),
    {
        Self::starting_with(dollars_to_cents(starting_capital))
    }

    /// Get current capital in dollars
    pub fn get_current_capital(&self) -> (r: Binary64)
        ensures
            r == price_of_cents(self.current_capital_cents as int),
    {
        cents_to_dollars(self.current_capital_cents)
    }

    /// The state with another current capital: the high-water mark follows it upwards.
    pub open spec fn with_capital(self, cents: int) -> Self {
        DashboardState {
            current_capital_cents: cents as u64,
            high_water_mark_cents: if cents > self.high_water_mark_cents {
                cents as u64
            } else {
                self.high_water_mark_cents
            },
            ..self
        }
    }

    /// Set current capital
    pub fn set_current_capital(&mut self, capital: &Binary64)
        ensures
            *final(self) == old(self).with_capital(cents_of(*capital)),
    {
        let cents: u64 = dollars_to_cents(capital);
        self.current_capital_cents = cents;
        if cents > self.high_water_mark_cents {
            self.high_water_mark_cents = cents;
        }
    }

    /// Get starting capital in dollars
    pub fn get_starting_capital(&self) -> (r: Binary64)
        ensures
            r == price_of_cents(self.starting_capital_cents as int),
    {
        cents_to_dollars(self.starting_capital_cents)
    }

    /// Get high water mark in dollars
    pub fn get_high_water_mark(&self) -> (r: Binary64)
        ensures
            r == price_of_cents(self.high_water_mark_cents as int),
    {
        cents_to_dollars(self.high_water_mark_cents)
    }

    /// How far the current capital is below the high-water mark, in percent of the mark.
    pub open spec fn drawdown_percent(self) -> Binary64 {
        let current = Binary64::of_int(self.current_capital_cents as int);
        let high = Binary64::of_int(self.high_water_mark_cents as int);
        percent_of(high.minus(current), high)
    }

    /// Calculate current drawdown percentage
    pub fn get_drawdown_percent(&self) -> (r: Binary64)
        ensures
            r == self.drawdown_percent(),
    {
        let current = Binary64::from_u64(self.current_capital_cents);
        let high = Binary64::from_u64(self.high_water_mark_cents);
        percent(&high.sub(&current), &high)
    }

    /// Whether an event tells the status of the system.
    pub open spec fn is_told_by(self, event: DashboardEvent) -> bool {
        event == (DashboardEvent::Status {
            status: self.system_status,
            mode: self.trading_mode,
            kill_switch_active: self.kill_switch_active,
        })
    }

    /// The event that tells the status of the system
    pub fn status_event(&self) -> (event: DashboardEvent)
        ensures
            self.is_told_by(event),
    {
        DashboardEvent::Status {
            status: self.system_status,
            mode: self.trading_mode,
            kill_switch_active: self.kill_switch_active,
        }
    }

    /// Activate kill switch. The events are to be broadcast in order.
    pub fn activate_kill_switch(&mut self) -> (events: Vec<DashboardEvent>)
        ensures
            *final(self) == (DashboardState {
                kill_switch_active: true,
                system_status: SystemStatus::Halted,
                ..*old(self)
            }),
            events.len() == 2,
            final(self).is_told_by(events[0]),
            events[1].alerts("critical"@, "Kill switch activated - all trading halted"@),
    {
        self.kill_switch_active = true;
        self.system_status = SystemStatus::Halted;
        let mut events: Vec<DashboardEvent> = Vec::new();
        events.push(self.status_event());
        events.push(
            DashboardEvent::Alert {
                level: "critical".to_string(),
                message: "Kill switch activated - all trading halted".to_string(),
            },
        );
        events
    }

    /// Deactivate kill switch. The events are to be broadcast in order.
    pub fn deactivate_kill_switch(&mut self) -> (events: Vec<DashboardEvent>)
        ensures
            *final(self) == (DashboardState {
                kill_switch_active: false,
                system_status: SystemStatus::Running,
                ..*old(self)
            }),
            events.len() == 2,
            final(self).is_told_by(events[0]),
            events[1].alerts("info"@, "Kill switch deactivated - trading resumed"@),
    {
        self.kill_switch_active = false;
        self.system_status = SystemStatus::Running;
        let mut events: Vec<DashboardEvent> = Vec::new();
        events.push(self.status_event());
        events.push(
            DashboardEvent::Alert {
                level: "info".to_string(),
                message: "Kill switch deactivated - trading resumed".to_string(),
            },
        );
        events
    }

    /// Set trading mode. The event is to be broadcast.
    pub fn set_trading_mode(&mut self, mode: TradingMode) -> (event: DashboardEvent)
        ensures
            *final(self) == (DashboardState { trading_mode: mode, ..*old(self) }),
            final(self).is_told_by(event),
    {
        self.trading_mode = mode;
        self.status_event()
    }

    /// Update opportunities list. The event is to be broadcast.
    pub fn update_opportunities(&mut self, opportunities: Vec<Opportunity>) -> (event:
        DashboardEvent)
        ensures
            *final(self) == (DashboardState { opportunities, ..*old(self) }),
            event matches DashboardEvent::Opportunities(list) && opportunity_views(list@)
                == opportunity_views(opportunities@),
    {
        let list = copy_opportunities(&opportunities);
        self.opportunities = opportunities;
        DashboardEvent::Opportunities(list)
    }

    /// Get current stats
    pub fn get_stats(&self, summary: &PositionsSummary) -> (r: DashboardStats)
        requires
            summary.open_positions + summary.resolved_positions <= usize::MAX,
        ensures
            r.sums_up(*self, *summary),
    {
        let current_capital = self.get_current_capital();
        let starting_capital = self.get_starting_capital();
        let high = self.get_high_water_mark();
        let win_rate = if summary.resolved_positions > 0 {
            Binary64::from_bits(D_50)
        } else {
            zero()
        };
        DashboardStats {
            current_capital,
            starting_capital,
            today_pnl: summary.daily_pnl,
            today_pnl_percent: percent(&summary.daily_pnl, &starting_capital),
            all_time_pnl: summary.all_time_pnl,
            all_time_pnl_percent: percent(&summary.all_time_pnl, &starting_capital),
            open_positions_count: low_u32(summary.open_positions),
            open_positions_value: summary.total_cost_basis,
            win_rate,
            total_trades: low_u32(summary.open_positions + summary.resolved_positions),
            drawdown_percent: percent(&high.sub(&current_capital), &high),
            high_water_mark: high,
            exposure_by_category: Vec::new(),
        }
    }

    /// Get display positions
    pub fn get_display_positions(open: &Vec<OpenPosition>) -> (r: Vec<DisplayPosition>)
        ensures
            r.len() == open.len(),
            forall|i: int| 0 <= i < r.len() ==> (#[trigger] r[i])@ == open[i].displayed(),
    {
        let mut r: Vec<DisplayPosition> = Vec::new();
        let mut i: usize = 0;
        while i < open.len()
            invariant
                i <= open.len(),
                r.len() == i,
                forall|k: int| 0 <= k < i ==> (#[trigger] r[k])@ == open[k].displayed(),
            decreases open.len() - i,
        {
            r.push(open[i].display());
            i += 1;
        }
        r
    }

    /// The history with one more data point: the oldest one leaves when there are too many.
    pub open spec fn extended(history: Seq<PnlDataPoint>, datapoint: PnlDataPoint) -> Seq<
        PnlDataPoint,
    > {
        let longer = history.push(datapoint);
        if longer.len() > MAX_HISTORY {
            longer.drop_first()
        } else {
            longer
        }
    }

    /// Add P&L data point to history
    pub fn add_pnl_datapoint(&mut self, datapoint: PnlDataPoint)
        requires
            old(self).pnl_history.len() < usize::MAX,
        ensures
            final(self).pnl_history@ == Self::extended(old(self).pnl_history@, datapoint),
            *final(self) == (DashboardState { pnl_history: final(self).pnl_history, ..*old(self) }),
    {
        self.pnl_history.push(datapoint);
        if self.pnl_history.len() > MAX_HISTORY {
            let oldest = self.pnl_history.remove(0);
            assert(self.pnl_history@ =~= old(self).pnl_history@.push(datapoint).drop_first());
        }
    }

    /// Get P&L history for charts
    pub fn get_pnl_history(&self) -> (r: &Vec<PnlDataPoint>)
        ensures
            *r == self.pnl_history,
    {
        &self.pnl_history
    }
}

impl Default for DashboardState {
    fn default() -> (r: Self)
        ensures
            r.starts_with(DEFAULT_CAPITAL_CENTS as int),
            r.wf(),
    {
        Self::new()
    }
}

/// The high-water mark follows the capital upwards and never falls.
pub proof fn law_high_water_mark_never_falls(state: DashboardState, cents: u64)
    requires
        state.wf(),
    ensures
        state.with_capital(cents as int).wf(),
        state.high_water_mark_cents <= state.with_capital(cents as int).high_water_mark_cents,
        cents <= state.with_capital(cents as int).high_water_mark_cents,
{
}

/// The history keeps the latest data points, in order, and never more than it may.
pub proof fn law_history_keeps_the_latest(history: Seq<PnlDataPoint>, datapoint: PnlDataPoint)
    requires
        history.len() <= MAX_HISTORY,
    ensures
        ({
            let after = DashboardState::extended(history, datapoint);
            &&& 0 < after.len() <= MAX_HISTORY
            &&& after.last() == datapoint
            &&& history.len() < MAX_HISTORY ==> after.drop_last() == history
            &&& history.len() == MAX_HISTORY ==> after.drop_last() == history.drop_first()
        }),
{
    let after = DashboardState::extended(history, datapoint);
    if history.len() < MAX_HISTORY {
        assert(after.drop_last() =~= history);
    } else {
        assert(after.drop_last() =~= history.drop_first());
    }
}

/// The drawdown lies between zero and a hundred percent, and is zero at the high-water mark.
pub proof fn law_drawdown_is_a_percentage(state: DashboardState)
    requires
        state.wf(),
    ensures
        zero_value().at_most(state.drawdown_percent()),
        state.drawdown_percent().at_most(Binary64::of_bits(D_100)),
        state.current_capital_cents == state.high_water_mark_cents
            ==> state.drawdown_percent().zero(),
{
    let current = Binary64::of_int(state.current_capital_cents as int);
    let high = Binary64::of_int(state.high_water_mark_cents as int);
    lemma_one();
    law_whole_numbers_keep_their_order(
        state.current_capital_cents as int,
        state.high_water_mark_cents as int,
    );
    let hundred = Binary64::of_bits(D_100);
    lemma_scaled_magnitude_increases(0, D_100 as int);
    if zero_value().less(high) {
        law_difference_bounds(high, current);
        let diff = high.minus(current);
        law_quotient_bounds(diff, high);
        law_share_bounds(diff.over(high), hundred);
    }
}

/// The share that was lost, as it is computed: the quotient misses the exact one by at most
/// twice the distance from one to the next double.
proof fn lemma_share_lost(high: Binary64, current: Binary64)
    requires
        high.finite(),
        current.finite(),
        current.nonnegative(),
        current.at_most(high),
        high.scaled() >= FRACTION_SPAN,
    ensures
        ({
            let q = high.minus(current).over(high);
            let exact = (high.scaled() - current.scaled()) * one_in_units();
            &&& q.in_unit_range()
            &&& q.finite()
            &&& -(2 * (epsilon() * high.scaled())) <= q.scaled() * high.scaled() - exact <= 2 * (
            epsilon() * high.scaled())
        }),
{
    lemma_one();
    lemma_epsilon();
    law_difference_bounds(high, current);
    let diff = high.minus(current);
    law_quotient_bounds(diff, high);
    let q = diff.over(high);
    lemma_units_in_unit_range(q);
    lemma_difference_error(high, current);
    lemma_quotient_error(diff, high);
    let (u, e) = (one_in_units(), epsilon());
    let (h, c, d, v) = (high.scaled(), current.scaled(), diff.scaled(), q.scaled());
    let span = FRACTION_SPAN as int;
    let first = d - (h - c);
    let second = v * h - d * u;
    assert(-(e * h) <= second <= e * h) by (nonlinear_arith)
        requires
            2 * span * size(second) <= v * h + span * h,
            size(second) == (if second < 0 {
                -second
            } else {
                second
            }),
            0 <= v <= u,
            u == span * e,
            e >= span,
            span >= 1,
            h > 0,
    ;
    let lost = size(first);
    assert(lost * u <= e * h) by (nonlinear_arith)
        requires
            2 * span * lost <= 2 * h,
            u == span * e,
            e > 0,
    ;
    assert(-(lost * u) <= first * u <= lost * u) by (nonlinear_arith)
        requires
            -lost <= first <= lost,
            u > 0,
    ;
    assert(v * h - (h - c) * u == second + first * u) by (nonlinear_arith)
        requires
            second == v * h - d * u,
            first == d - (h - c),
    ;
}

/// A share in percent misses a hundred times the share by a hundred times the distance from one
/// to the next double at most.
proof fn lemma_share_in_percent(q: Binary64)
    requires
        q.in_unit_range(),
    ensures
        ({
            let r = q.times(Binary64::of_bits(D_100));
            &&& !r.nan()
            &&& -(100 * epsilon()) <= r.scaled() - 100 * q.scaled() <= 100 * epsilon()
        }),
{
    lemma_one();
    lemma_epsilon();
    lemma_hundred();
    let hundred = Binary64::of_bits(D_100);
    lemma_units_in_unit_range(q);
    law_share_bounds(q, hundred);
    let r = q.times(hundred);
    lemma_finite_between(r, hundred);
    lemma_product_error(q, hundred);
    let (u, e) = (one_in_units(), epsilon());
    let (rv, qv) = (r.scaled(), q.scaled());
    let d = rv - 100 * qv;
    assert(rv * u - qv * (100 * u) == d * u) by (nonlinear_arith)
        requires
            d == rv - 100 * qv,
    ;
    let span = FRACTION_SPAN as int;
    assert(-(100 * e) <= d <= 100 * e) by (nonlinear_arith)
        requires
            2 * span * size(d * u) <= rv * u + span * u,
            size(d * u) == (if d * u < 0 {
                -(d * u)
            } else {
                d * u
            }),
            0 <= rv <= 100 * u,
            u == span * e,
            e >= span,
            span >= 1,
            u > 0,
    ;
}

/// Dollars miss a hundredth of the cents by rounding alone.
proof fn lemma_dollars(cents: int)
    requires
        0 <= cents <= u64::MAX,
    ensures
        ({
            let (c, d) = (Binary64::of_int(cents), price_of_cents(cents));
            &&& c.finite() && c.nonnegative() && d.finite() && d.nonnegative()
            &&& 2 * FRACTION_SPAN * size(100 * d.scaled() - c.scaled()) <= 100 * d.scaled() + 100
                * FRACTION_SPAN
            &&& cents > 0 ==> c.scaled() >= one_in_units()
            &&& cents == 0 ==> d.zero()
        }),
{
    lemma_one();
    lemma_hundred();
    law_whole_numbers_keep_their_order(cents, cents);
    let (c, hundred) = (Binary64::of_int(cents), Binary64::of_bits(D_100));
    law_quotient_bounds(c, hundred);
    lemma_units(c);
    lemma_units(hundred);
    if cents > 0 {
        law_whole_numbers_keep_their_order(1, cents);
        assert(Binary64::of_int(1) == one_value());
    }
    lemma_quotient_shrinks(c, hundred);
    let d = c.over(hundred);
    lemma_quotient_error(c, hundred);
    let u = one_in_units();
    let (x, y) = (c.scaled(), d.scaled());
    let span = FRACTION_SPAN as int;
    let (miss, scaled_miss) = (size(100 * y - x), size(y * (100 * u) - x * u));
    assert(scaled_miss == u * miss) by (nonlinear_arith)
        requires
            miss == (if 100 * y - x < 0 {
                -(100 * y - x)
            } else {
                100 * y - x
            }),
            scaled_miss == (if y * (100 * u) - x * u < 0 {
                -(y * (100 * u) - x * u)
            } else {
                y * (100 * u) - x * u
            }),
            u > 0,
    ;
    assert(2 * span * miss <= 100 * y + 100 * span) by (nonlinear_arith)
        requires
            2 * span * scaled_miss <= y * (100 * u) + span * (100 * u),
            scaled_miss == u * miss,
            u > 0,
    ;
}

/// The drawdown of the stats, which is computed from dollars, is the drawdown that is computed
/// from cents, up to `1e-9`. It is zero where the high-water mark is.
pub proof fn law_the_two_drawdowns_agree(
    stats: DashboardStats,
    state: DashboardState,
    summary: PositionsSummary,
)
    requires
        state.wf(),
        stats.sums_up(state, summary),
    ensures
        stats.drawdown_percent.within(state.drawdown_percent(), 1_000_000_000),
        state.high_water_mark_cents == 0 ==> stats.drawdown_percent.zero(),
{
    let (c, h) = (state.current_capital_cents as int, state.high_water_mark_cents as int);
    let (current, high) = (Binary64::of_int(c), Binary64::of_int(h));
    let (dollars, high_dollars) = (price_of_cents(c), price_of_cents(h));
    lemma_one();
    lemma_epsilon();
    lemma_hundred();
    lemma_dollars(c);
    lemma_dollars(h);
    law_whole_numbers_keep_their_order(c, h);
    lemma_units(high);
    lemma_units(high_dollars);
    if h > 0 {
        law_quotient_is_monotone(current, high, Binary64::of_bits(D_100));
        lemma_share_lost(high, current);
        lemma_share_lost(high_dollars, dollars);
        let q = high.minus(current).over(high);
        let q_dollars = high_dollars.minus(dollars).over(high_dollars);
        lemma_share_in_percent(q);
        lemma_share_in_percent(q_dollars);
        lemma_shares_agree(
            (high.scaled(), current.scaled(), q.scaled()),
            (high_dollars.scaled(), dollars.scaled(), q_dollars.scaled()),
        );
    }
}

/// Two shares of the same loss, in cents and in dollars. Each is a mark, what is left of it and
/// the share that was lost.
proof fn lemma_shares_agree(cents: (int, int, int), dollars: (int, int, int))
    requires
        0 <= cents.1 <= cents.0,
        0 <= dollars.1 <= dollars.0,
        one_in_units() <= cents.0,
        FRACTION_SPAN <= dollars.0,
        -(2 * (epsilon() * cents.0)) <= cents.2 * cents.0 - (cents.0 - cents.1) * one_in_units()
            <= 2 * (epsilon() * cents.0),
        -(2 * (epsilon() * dollars.0)) <= dollars.2 * dollars.0 - (dollars.0 - dollars.1)
            * one_in_units() <= 2 * (epsilon() * dollars.0),
        2 * FRACTION_SPAN * size(100 * dollars.0 - cents.0) <= 100 * dollars.0 + 100
            * FRACTION_SPAN,
        2 * FRACTION_SPAN * size(100 * dollars.1 - cents.1) <= 100 * dollars.1 + 100
            * FRACTION_SPAN,
    ensures
        -(8 * epsilon()) <= cents.2 - dollars.2 <= 8 * epsilon(),
{
    lemma_epsilon();
    let (h, c, q) = cents;
    let (y, x, r) = dollars;
    let (u, e) = (one_in_units(), epsilon());
    let span = FRACTION_SPAN as int;
    // How far a hundred times the dollars are from the cents.
    let (a, b) = (h - 100 * y, c - 100 * x);
    assert(size(a) == size(100 * y - h) && size(b) == size(100 * x - c));
    assert(span * size(a) <= 100 * y && span * size(b) <= 100 * y) by (nonlinear_arith)
        requires
            2 * span * size(a) <= 100 * y + 100 * span,
            2 * span * size(b) <= 100 * x + 100 * span,
            x <= y,
            span <= y,
    ;
    assert(y <= h) by (nonlinear_arith)
        requires
            span * size(a) <= 100 * y,
            size(a) == (if a < 0 {
                -a
            } else {
                a
            }),
            a == h - 100 * y,
            span >= 200,
            y > 0,
    ;
    assert(50 * y <= h) by (nonlinear_arith)
        requires
            span * size(a) <= 100 * y,
            size(a) == (if a < 0 {
                -a
            } else {
                a
            }),
            a == h - 100 * y,
            span >= 200,
            y > 0,
    ;
    let cross = x * h - c * y;
    assert(cross == x * a - b * y) by (nonlinear_arith)
        requires
            cross == x * h - c * y,
            a == h - 100 * y,
            b == c - 100 * x,
    ;
    assert(-(200 * (y * y)) <= span * cross <= 200 * (y * y)) by (nonlinear_arith)
        requires
            cross == x * a - b * y,
            span * size(a) <= 100 * y,
            span * size(b) <= 100 * y,
            size(a) == (if a < 0 {
                -a
            } else {
                a
            }),
            size(b) == (if b < 0 {
                -b
            } else {
                b
            }),
            0 <= x <= y,
            span > 0,
    ;
    assert(-(4 * (e * (h * y))) <= u * cross <= 4 * (e * (h * y))) by (nonlinear_arith)
        requires
            -(200 * (y * y)) <= span * cross <= 200 * (y * y),
            u == span * e,
            e > 0,
            50 * y <= h,
            y > 0,
    ;
    let (s, t) = (q * h - (h - c) * u, r * y - (y - x) * u);
    assert(s * y == q * (h * y) - u * (h * y) + u * (c * y)) by (nonlinear_arith)
        requires
            s == q * h - (h - c) * u,
    ;
    assert(t * h == r * (h * y) - u * (h * y) + u * (x * h)) by (nonlinear_arith)
        requires
            t == r * y - (y - x) * u,
    ;
    assert(u * cross == u * (x * h) - u * (c * y)) by (nonlinear_arith)
        requires
            cross == x * h - c * y,
    ;
    assert((q - r) * (h * y) == q * (h * y) - r * (h * y)) by (nonlinear_arith);
    assert(-(2 * (e * (h * y))) <= s * y <= 2 * (e * (h * y))) by (nonlinear_arith)
        requires
            -(2 * (e * h)) <= s <= 2 * (e * h),
            y > 0,
    ;
    assert(-(2 * (e * (h * y))) <= t * h <= 2 * (e * (h * y))) by (nonlinear_arith)
        requires
            -(2 * (e * y)) <= t <= 2 * (e * y),
            h > 0,
    ;
    let d = q - r;
    assert(-(8 * e) <= d <= 8 * e) by (nonlinear_arith)
        requires
            -(8 * (e * (h * y))) <= d * (h * y) <= 8 * (e * (h * y)),
            h > 0,
            y > 0,
    ;
}

} // verus!
