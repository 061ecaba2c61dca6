//! The records of the database, and how a row of columns becomes a record.
//!
//! A row holds what the columns hold: words, times as text, numbers. Reading a row keeps the
//! plain columns, reads the words and times, and fills in the given `now` where a time that a
//! record must have cannot be read.
use super::kinds::{
    CorrelationType, OrderSide, OrderStatus, OrderType, Platform, PositionStatus, Side,
};
use super::kinds::{
    law_correlation_type_reads_back, law_order_side_reads_back, law_order_status_reads_back,
    law_order_type_reads_back, law_platform_reads_back, law_position_status_reads_back,
    law_side_reads_back,
};
use crate::binary64::accuracy::{
    lemma_difference_accuracy, lemma_product_accuracy, lemma_size_of_product,
};
use crate::binary64::arithmetic::{lemma_minus_mirrors, lemma_times_commutes, one_in_units};
use crate::binary64::errors::size;
use crate::binary64::ranges::{law_difference_sign, law_product_sign, lemma_one, lemma_units};
use crate::binary64::{one, one_value, Binary64, FRACTION_SPAN};
use crate::text::{lex_less, text_less};
use crate::time::{parsed_date, rfc3339_instant, CivilDate, Timestamp};
use vstd::prelude::*;

verus! {

// ---------------------------------------------------------------------------
// Time columns
// ---------------------------------------------------------------------------

/// Whether `r` is the time of a column that has to hold one: what its text stands for, or
/// `now` where it stands for none.
pub open spec fn is_time_of(column: Seq<char>, now: Timestamp, r: Timestamp) -> bool {
    match rfc3339_instant(column) {
        Some(parts) => r@ == parts,
        None => r == now,
    }
}

/// Whether `r` is the time of a column that may be empty. A text that stands for no time
/// counts as empty.
pub open spec fn is_optional_time_of(column: Option<String>, r: Option<Timestamp>) -> bool {
    match column {
        Some(text) => Timestamp::of_parts(rfc3339_instant(text@), r),
        None => r is None,
    }
}

/// The time of a column that has to hold one.
pub fn read_time(column: &str, now: Timestamp) -> (r: Timestamp)
    ensures
        is_time_of(column@, now, r),
{
    match Timestamp::parse_rfc3339(column) {
        Some(t) => t,
        None => now,
    }
}

/// The time of a column that may be empty.
pub fn read_optional_time(column: &Option<String>) -> (r: Option<Timestamp>)
    ensures
        is_optional_time_of(*column, r),
{
    match column {
        Some(text) => Timestamp::parse_rfc3339(text),
        None => None,
    }
}

/// What a column holds for a time.
pub fn write_optional_time(time: &Option<Timestamp>) -> (column: Option<String>)
    ensures
        column is Some <==> time is Some,
        time matches Some(t) ==> {
            &&& column->0@ == crate::time::rfc3339(t@.0, t@.1)
            &&& crate::time::has_four_digit_year(t@.0 as int) ==> rfc3339_instant(column->0@)
                == Some(t@)
        },
{
    match time {
        Some(t) => Some(t.to_rfc3339()),
        None => None,
    }
}

// ---------------------------------------------------------------------------
// Markets
// ---------------------------------------------------------------------------

/// Market data for insertion
#[derive(Debug, Clone)]
pub struct NewMarket {
    pub id: String,
    pub platform: Platform,
    pub title: String,
    pub category: Option<String>,
    pub resolution_time: Option<Timestamp>,
    pub external_id: Option<String>,
}

/// Complete market record from database
#[derive(Debug, Clone)]
pub struct Market {
    pub id: String,
    pub platform: Platform,
    pub title: String,
    pub category: Option<String>,
    pub resolution_time: Option<Timestamp>,
    pub created_at: Timestamp,
    pub updated_at: Timestamp,
    pub kalman_estimate: Option<Binary64>,
    pub kalman_variance: Option<Binary64>,
    pub kalman_updated_at: Option<Timestamp>,
    pub price_change_mean: Binary64,
    pub price_change_std: Binary64,
    pub volume_mean: Binary64,
    pub volatility_samples: i32,
    pub external_id: Option<String>,
    pub is_active: bool,
    pub last_bid: Option<Binary64>,
    pub last_ask: Option<Binary64>,
    pub volume_24h: Option<Binary64>,
}

/// The columns of a market.
#[derive(Debug, Clone)]
pub struct MarketRow {
    pub id: String,
    pub platform: String,
    pub title: String,
    pub category: Option<String>,
    pub resolution_time: Option<String>,
    pub created_at: String,
    pub updated_at: String,
    pub kalman_estimate: Option<Binary64>,
    pub kalman_variance: Option<Binary64>,
    pub kalman_updated_at: Option<String>,
    pub price_change_mean: Binary64,
    pub price_change_std: Binary64,
    pub volume_mean: Binary64,
    pub volatility_samples: i32,
    pub external_id: Option<String>,
    pub is_active: bool,
    pub last_bid: Option<Binary64>,
    pub last_ask: Option<Binary64>,
    pub volume_24h: Option<Binary64>,
}

impl Market {
    /// Whether the record is what a row holds.
    pub open spec fn is_read_from(self, row: MarketRow, now: Timestamp) -> bool {
        &&& self.id == row.id
        &&& Platform::in_column(row.platform@, self.platform)
        &&& self.title == row.title
        &&& self.category == row.category
        &&& is_optional_time_of(row.resolution_time, self.resolution_time)
        &&& is_time_of(row.created_at@, now, self.created_at)
        &&& is_time_of(row.updated_at@, now, self.updated_at)
        &&& self.kalman_estimate == row.kalman_estimate
        &&& self.kalman_variance == row.kalman_variance
        &&& is_optional_time_of(row.kalman_updated_at, self.kalman_updated_at)
        &&& self.price_change_mean == row.price_change_mean
        &&& self.price_change_std == row.price_change_std
        &&& self.volume_mean == row.volume_mean
        &&& self.volatility_samples == row.volatility_samples
        &&& self.external_id == row.external_id
        &&& self.is_active == row.is_active
        &&& self.last_bid == row.last_bid
        &&& self.last_ask == row.last_ask
        &&& self.volume_24h == row.volume_24h
    }
}

/// The market that a row holds.
pub fn row_to_market(row: MarketRow, now: Timestamp) -> (market: Market)
    ensures
        market.is_read_from(row, now),
{
    let platform = Platform::from_column(&row.platform);
    let resolution_time = read_optional_time(&row.resolution_time);
    let created_at = read_time(&row.created_at, now);
    let updated_at = read_time(&row.updated_at, now);
    let kalman_updated_at = read_optional_time(&row.kalman_updated_at);
    Market {
        id: row.id,
        platform,
        title: row.title,
        category: row.category,
        resolution_time,
        created_at,
        updated_at,
        kalman_estimate: row.kalman_estimate,
        kalman_variance: row.kalman_variance,
        kalman_updated_at,
        price_change_mean: row.price_change_mean,
        price_change_std: row.price_change_std,
        volume_mean: row.volume_mean,
        volatility_samples: row.volatility_samples,
        external_id: row.external_id,
        is_active: row.is_active,
        last_bid: row.last_bid,
        last_ask: row.last_ask,
        volume_24h: row.volume_24h,
    }
}

/// A market that was stored is read back: its platform, and its resolution time where the text
/// that was stored for it reads back.
pub proof fn law_market_reads_back(
    platform: Platform,
    resolution_time: Option<Timestamp>,
    row: MarketRow,
    now: Timestamp,
    market: Market,
)
    requires
        row.platform@ == platform.name(),
        row.resolution_time is Some <==> resolution_time is Some,
        resolution_time matches Some(t) ==> rfc3339_instant(row.resolution_time->0@) == Some(t@),
        market.is_read_from(row, now),
    ensures
        market.platform == platform,
        market.resolution_time is Some <==> resolution_time is Some,
        resolution_time matches Some(t) ==> market.resolution_time->0@ == t@,
        market.id == row.id,
        market.title == row.title,
{
    law_platform_reads_back(platform, None, market.platform);
}

/// Kalman filter state for a market
#[derive(Debug, Clone, Copy)]
pub struct KalmanState {
    pub estimate: Binary64,
    pub variance: Binary64,
    pub updated_at: Timestamp,
}

/// Volatility statistics for thesis invalidation
#[derive(Debug, Clone, Copy)]
pub struct VolatilityStats {
    pub price_change_mean: Binary64,
    pub price_change_std: Binary64,
    pub volume_mean: Binary64,
    pub samples: i32,
}

// ---------------------------------------------------------------------------
// Positions
// ---------------------------------------------------------------------------

/// Position data for insertion
#[derive(Debug, Clone)]
pub struct NewPosition {
    pub market_id: String,
    pub platform: Platform,
    pub side: Side,
    pub entry_price: Binary64,
    pub quantity: Binary64,
    pub strategy: Option<String>,
    pub notes: Option<String>,
}

/// Complete position record from database
#[derive(Debug, Clone)]
pub struct Position {
    pub id: i64,
    pub market_id: String,
    pub platform: Platform,
    pub side: Side,
    pub entry_price: Binary64,
    pub quantity: Binary64,
    pub entry_time: Timestamp,
    pub exit_price: Option<Binary64>,
    pub exit_time: Option<Timestamp>,
    pub pnl: Option<Binary64>,
    pub status: PositionStatus,
    pub strategy: Option<String>,
    pub notes: Option<String>,
}

/// The columns of a position.
#[derive(Debug, Clone)]
pub struct PositionRow {
    pub id: i64,
    pub market_id: String,
    pub platform: String,
    pub side: String,
    pub entry_price: Binary64,
    pub quantity: Binary64,
    pub entry_time: String,
    pub exit_price: Option<Binary64>,
    pub exit_time: Option<String>,
    pub pnl: Option<Binary64>,
    pub status: String,
    pub strategy: Option<String>,
    pub notes: Option<String>,
}

impl Position {
    /// Whether the record is what a row holds.
    pub open spec fn is_read_from(self, row: PositionRow, now: Timestamp) -> bool {
        &&& self.id == row.id
        &&& self.market_id == row.market_id
        &&& Platform::in_column(row.platform@, self.platform)
        &&& Side::in_column(row.side@, self.side)
        &&& self.entry_price == row.entry_price
        &&& self.quantity == row.quantity
        &&& is_time_of(row.entry_time@, now, self.entry_time)
        &&& self.exit_price == row.exit_price
        &&& is_optional_time_of(row.exit_time, self.exit_time)
        &&& self.pnl == row.pnl
        &&& PositionStatus::in_column(row.status@, self.status)
        &&& self.strategy == row.strategy
        &&& self.notes == row.notes
    }
}

/// The position that a row holds.
pub fn row_to_position(row: PositionRow, now: Timestamp) -> (position: Position)
    ensures
        position.is_read_from(row, now),
{
    let platform = Platform::from_column(&row.platform);
    let side = Side::from_column(&row.side);
    let entry_time = read_time(&row.entry_time, now);
    let exit_time = read_optional_time(&row.exit_time);
    let status = PositionStatus::from_column(&row.status);
    Position {
        id: row.id,
        market_id: row.market_id,
        platform,
        side,
        entry_price: row.entry_price,
        quantity: row.quantity,
        entry_time,
        exit_price: row.exit_price,
        exit_time,
        pnl: row.pnl,
        status,
        strategy: row.strategy,
        notes: row.notes,
    }
}

/// A position that was stored is read back with its platform, side and status.
pub proof fn law_position_reads_back(
    platform: Platform,
    side: Side,
    status: PositionStatus,
    row: PositionRow,
    now: Timestamp,
    position: Position,
)
    requires
        row.platform@ == platform.name(),
        row.side@ == side.name(),
        row.status@ == status.name(),
        position.is_read_from(row, now),
    ensures
        position.platform == platform,
        position.side == side,
        position.status == status,
        position.market_id == row.market_id,
        position.entry_price == row.entry_price,
        position.quantity == row.quantity,
{
    law_platform_reads_back(platform, None, position.platform);
    law_side_reads_back(side, None, position.side);
    law_position_status_reads_back(status, None, position.status);
}

/// How a position is closed.
#[derive(Debug, Clone, Copy, PartialEq, Eq, Structural)]
pub struct ClosePlan {
    /// The price at which the position ends.
    pub exit_price: Binary64,
    /// The profit.
    pub pnl: Binary64,
    /// The status that the position gets.
    pub status: PositionStatus,
}

/// The profit of a position: the yes side gains as the price rises, the no side as it falls.
pub open spec fn profit(
    side: Side,
    entry_price: Binary64,
    exit_price: Binary64,
    quantity: Binary64,
) -> Binary64 {
    match side {
        Side::Yes => exit_price.minus(entry_price).times(quantity),
        Side::No => entry_price.minus(exit_price).times(quantity),
    }
}

impl ClosePlan {
    /// A position without an exit price is resolved at `1.0`; one with a price is closed.
    pub open spec fn of(position: Position, exit_price: Option<Binary64>) -> Self {
        let exit = match exit_price {
            Some(price) => price,
            None => one_value(),
        };
        ClosePlan {
            exit_price: exit,
            pnl: profit(position.side, position.entry_price, exit, position.quantity),
            status: if exit_price is Some {
                PositionStatus::Closed
            } else {
                PositionStatus::Resolved
            },
        }
    }

    /// A position that the exchange no longer holds is closed, not resolved. The exchange gives
    /// no price for it, so the books take `1.0`, as they do wherever no price is given.
    pub open spec fn external(position: Position) -> Self {
        ClosePlan { status: PositionStatus::Closed, ..Self::of(position, None) }
    }
}

/// How a position is closed at the given price, or resolved without one.
pub fn close_position(position: &Position, exit_price: Option<Binary64>) -> (plan: ClosePlan)
    ensures
        plan == ClosePlan::of(*position, exit_price),
{
    let exit = match exit_price {
        Some(price) => price,
        None => one(),
    };
    let pnl = match position.side {
        Side::Yes => exit.sub(&position.entry_price).mul(&position.quantity),
        Side::No => position.entry_price.sub(&exit).mul(&position.quantity),
    };
    let status = match exit_price {
        Some(_) => PositionStatus::Closed,
        None => PositionStatus::Resolved,
    };
    ClosePlan { exit_price: exit, pnl, status }
}

/// How a position is closed that the exchange no longer holds.
pub fn close_externally(position: &Position) -> (plan: ClosePlan)
    ensures
        plan.status == PositionStatus::Closed,
        plan.exit_price == one_value(),
        plan.pnl == profit(
            position.side,
            position.entry_price,
            one_value(),
            position.quantity,
        ),
        plan == ClosePlan::external(*position),
{
    let plan = close_position(position, None);
    ClosePlan { exit_price: plan.exit_price, pnl: plan.pnl, status: PositionStatus::Closed }
}

/// A closed position never stays open, however it is closed.
pub proof fn law_a_closed_position_is_not_open(position: Position, exit_price: Option<Binary64>)
    ensures
        ClosePlan::of(position, exit_price).status != PositionStatus::Open,
        ClosePlan::external(position).status != PositionStatus::Open,
{
}

/// A position that is stored as a plan closes it is read back with the status, the price and the
/// profit of the plan, and is no longer open.
pub proof fn law_a_close_reads_back(
    plan: ClosePlan,
    closed: Position,
    exit_price: Option<Binary64>,
    row: PositionRow,
    now: Timestamp,
    position: Position,
)
    requires
        plan == ClosePlan::of(closed, exit_price) || plan == ClosePlan::external(closed),
        row.status@ == plan.status.name(),
        row.exit_price == Some(plan.exit_price),
        row.pnl == Some(plan.pnl),
        position.is_read_from(row, now),
    ensures
        position.status == plan.status,
        position.status != PositionStatus::Open,
        position.exit_price == Some(plan.exit_price),
        position.pnl == Some(plan.pnl),
{
    law_position_status_reads_back(plan.status, None, position.status);
}

/// What the yes side gains the no side loses: the two profits have the same size, and
/// opposite signs unless the prices are the same.
pub proof fn law_the_sides_mirror_each_other(
    entry_price: Binary64,
    exit_price: Binary64,
    quantity: Binary64,
)
    ensures
        ({
            let yes = profit(Side::Yes, entry_price, exit_price, quantity);
            let no = profit(Side::No, entry_price, exit_price, quantity);
            &&& yes.magnitude() == no.magnitude()
            &&& !yes.nan() && entry_price.scaled() != exit_price.scaled() ==> no == yes.negated()
        }),
{
    crate::binary64::arithmetic::lemma_minus_mirrors(exit_price, entry_price);
    crate::binary64::arithmetic::lemma_times_mirrors(
        exit_price.minus(entry_price),
        entry_price.minus(exit_price),
        quantity,
    );
}

/// A position earns the move of the price times its quantity, upwards on the yes side and downwards
/// on the no side, up to rounding; and it never loses where the price moved its way.
pub proof fn law_profit_is_the_move_times_the_quantity(
    side: Side,
    entry_price: Binary64,
    exit_price: Binary64,
    quantity: Binary64,
)
    requires
        entry_price.finite(),
        exit_price.finite(),
        quantity.finite(),
        quantity.nonnegative(),
        exit_price.minus(entry_price).finite(),
        profit(side, entry_price, exit_price, quantity).finite(),
    ensures
        ({
            let (u, span) = (one_in_units(), FRACTION_SPAN as int);
            let gain = match side {
                Side::Yes => exit_price.scaled() - entry_price.scaled(),
                Side::No => entry_price.scaled() - exit_price.scaled(),
            };
            let exact = gain * quantity.scaled();
            let r = profit(side, entry_price, exit_price, quantity).scaled();
            &&& span * size(r * u - exact) <= 4 * size(exact) + span * u
            &&& gain >= 0 ==> r >= 0
            &&& gain <= 0 ==> r <= 0
        }),
{
    lemma_one();
    lemma_minus_mirrors(exit_price, entry_price);
    let (high, low) = match side {
        Side::Yes => (exit_price, entry_price),
        Side::No => (entry_price, exit_price),
    };
    let step = high.minus(low);
    assert(step.finite());
    lemma_difference_accuracy(high, low);
    law_difference_sign(high, low);
    lemma_product_accuracy(step, quantity);
    lemma_times_commutes(step, quantity);
    law_product_sign(quantity, step);
    lemma_units(quantity);
    let (u, span) = (one_in_units(), FRACTION_SPAN as int);
    let (x, d, q) = (high.scaled() - low.scaled(), step.scaled(), quantity.scaled());
    let r = profit(side, entry_price, exit_price, quantity).scaled();
    let (xq, dq, eq) = (x * q, d * q, (d - x) * q);
    assert(dq == xq + eq) by (nonlinear_arith)
        requires
            dq == d * q,
            xq == x * q,
            eq == (d - x) * q,
    ;
    if q > 0 {
        lemma_size_of_product(x, q);
        lemma_size_of_product(d - x, q);
        let (mx, me) = (size(x), size(d - x));
        assert(span * (me * q) <= 2 * (mx * q)) by (nonlinear_arith)
            requires
                span * me <= 2 * mx,
                q > 0,
        ;
    } else {
        assert(xq == 0 && eq == 0) by (nonlinear_arith)
            requires
                xq == x * q,
                eq == (d - x) * q,
                q == 0,
        ;
    }
    assert(span * size(eq) <= 2 * size(xq));
    assert(size(dq) <= 2 * size(xq)) by (nonlinear_arith)
        requires
            size(dq) <= size(xq) + size(eq),
            span * size(eq) <= 2 * size(xq),
            span >= 2,
            size(xq) >= 0,
            size(eq) >= 0,
    ;
}

/// A position that ends without a price ends at one dollar, and a position that ends at a price
/// ends there.
pub proof fn law_a_position_ends_at_its_price(position: Position, exit_price: Binary64)
    ensures
        ClosePlan::of(position, Some(exit_price)).exit_price == exit_price,
        ClosePlan::of(position, Some(exit_price)).status == PositionStatus::Closed,
        ClosePlan::of(position, None).exit_price == one_value(),
        ClosePlan::of(position, None).status == PositionStatus::Resolved,
        ClosePlan::of(position, None).pnl == ClosePlan::of(position, Some(one_value())).pnl,
        ClosePlan::external(position).pnl == ClosePlan::of(position, None).pnl,
        ClosePlan::of(position, Some(exit_price)).pnl == profit(
            position.side,
            position.entry_price,
            exit_price,
            position.quantity,
        ),
{
}

// ---------------------------------------------------------------------------
// Orders
// ---------------------------------------------------------------------------

/// Order data for insertion
#[derive(Debug, Clone)]
pub struct NewOrder {
    pub position_id: Option<i64>,
    pub market_id: String,
    pub platform: Platform,
    pub side: OrderSide,
    pub order_type: OrderType,
    pub price: Option<Binary64>,
    pub quantity: Binary64,
}

/// Complete order record from database
#[derive(Debug, Clone)]
pub struct Order {
    pub id: i64,
    pub position_id: Option<i64>,
    pub market_id: String,
    pub platform: Platform,
    pub side: OrderSide,
    pub order_type: OrderType,
    pub price: Option<Binary64>,
    pub quantity: Binary64,
    pub filled_quantity: Binary64,
    pub fill_price: Option<Binary64>,
    pub status: OrderStatus,
    pub created_at: Timestamp,
    pub submitted_at: Option<Timestamp>,
    pub filled_at: Option<Timestamp>,
    pub platform_order_id: Option<String>,
    pub error_message: Option<String>,
    pub platform_metadata: Option<String>,
}

/// The columns of an order.
#[derive(Debug, Clone)]
pub struct OrderRow {
    pub id: i64,
    pub position_id: Option<i64>,
    pub market_id: String,
    pub platform: String,
    pub side: String,
    pub order_type: String,
    pub price: Option<Binary64>,
    pub quantity: Binary64,
    pub filled_quantity: Binary64,
    pub fill_price: Option<Binary64>,
    pub status: String,
    pub created_at: String,
    pub submitted_at: Option<String>,
    pub filled_at: Option<String>,
    pub platform_order_id: Option<String>,
    pub error_message: Option<String>,
    pub platform_metadata: Option<String>,
}

impl Order {
    /// Whether the record is what a row holds.
    pub open spec fn is_read_from(self, row: OrderRow, now: Timestamp) -> bool {
        &&& self.id == row.id
        &&& self.position_id == row.position_id
        &&& self.market_id == row.market_id
        &&& Platform::in_column(row.platform@, self.platform)
        &&& OrderSide::in_column(row.side@, self.side)
        &&& OrderType::in_column(row.order_type@, self.order_type)
        &&& self.price == row.price
        &&& self.quantity == row.quantity
        &&& self.filled_quantity == row.filled_quantity
        &&& self.fill_price == row.fill_price
        &&& OrderStatus::in_column(row.status@, self.status)
        &&& is_time_of(row.created_at@, now, self.created_at)
        &&& is_optional_time_of(row.submitted_at, self.submitted_at)
        &&& is_optional_time_of(row.filled_at, self.filled_at)
        &&& self.platform_order_id == row.platform_order_id
        &&& self.error_message == row.error_message
        &&& self.platform_metadata == row.platform_metadata
    }
}

/// The order that a row holds.
pub fn row_to_order(row: OrderRow, now: Timestamp) -> (order: Order)
    ensures
        order.is_read_from(row, now),
{
    let platform = Platform::from_column(&row.platform);
    let side = OrderSide::from_column(&row.side);
    let order_type = OrderType::from_column(&row.order_type);
    let status = OrderStatus::from_column(&row.status);
    let created_at = read_time(&row.created_at, now);
    let submitted_at = read_optional_time(&row.submitted_at);
    let filled_at = read_optional_time(&row.filled_at);
    Order {
        id: row.id,
        position_id: row.position_id,
        market_id: row.market_id,
        platform,
        side,
        order_type,
        price: row.price,
        quantity: row.quantity,
        filled_quantity: row.filled_quantity,
        fill_price: row.fill_price,
        status,
        created_at,
        submitted_at,
        filled_at,
        platform_order_id: row.platform_order_id,
        error_message: row.error_message,
        platform_metadata: row.platform_metadata,
    }
}

/// An order that was stored is read back with its platform, side, type and status.
pub proof fn law_order_reads_back(
    platform: Platform,
    side: OrderSide,
    order_type: OrderType,
    status: OrderStatus,
    row: OrderRow,
    now: Timestamp,
    order: Order,
)
    requires
        row.platform@ == platform.name(),
        row.side@ == side.name(),
        row.order_type@ == order_type.name(),
        row.status@ == status.name(),
        order.is_read_from(row, now),
    ensures
        order.platform == platform,
        order.side == side,
        order.order_type == order_type,
        order.status == status,
        order.quantity == row.quantity,
{
    law_platform_reads_back(platform, None, order.platform);
    law_order_side_reads_back(side, None, order.side);
    law_order_type_reads_back(order_type, None, order.order_type);
    law_order_status_reads_back(status, None, order.status);
}

/// Whether a change to the given status stamps the time of submission.
pub fn stamps_submission(status: OrderStatus) -> (r: bool)
    ensures
        r == (status == OrderStatus::Submitted),
{
    status == OrderStatus::Submitted
}

/// The status of an order after a fill.
pub open spec fn status_after_fill(filled_quantity: Binary64, quantity: Binary64) -> OrderStatus {
    if quantity.at_most(filled_quantity) {
        OrderStatus::Filled
    } else {
        OrderStatus::PartiallyFilled
    }
}

/// An order is filled where at least its quantity was filled, and otherwise filled in part.
pub proof fn law_an_order_is_filled_by_its_quantity(filled_quantity: Binary64, quantity: Binary64)
    requires
        filled_quantity.finite(),
        quantity.finite(),
    ensures
        status_after_fill(filled_quantity, quantity) == OrderStatus::Filled
            <==> filled_quantity.scaled() >= quantity.scaled(),
        status_after_fill(filled_quantity, quantity) == OrderStatus::PartiallyFilled
            <==> filled_quantity.scaled() < quantity.scaled(),
{
}

/// The status of an order of which the given quantity has been filled. The time of the fill
/// is stamped where the order is filled whole.
pub fn fill_status(filled_quantity: &Binary64, quantity: &Binary64) -> (status: OrderStatus)
    ensures
        status == status_after_fill(*filled_quantity, *quantity),
{
    if filled_quantity.ge(quantity) {
        OrderStatus::Filled
    } else {
        OrderStatus::PartiallyFilled
    }
}

// ---------------------------------------------------------------------------
// Price history
// ---------------------------------------------------------------------------

/// Price history record for insertion
#[derive(Debug, Clone)]
pub struct NewPriceHistory {
    pub market_id: String,
    pub platform: Platform,
    pub timestamp: Timestamp,
    pub bid: Option<Binary64>,
    pub ask: Option<Binary64>,
    pub last_price: Option<Binary64>,
    pub volume_24h: Option<Binary64>,
    pub bid_depth: Option<Binary64>,
    pub ask_depth: Option<Binary64>,
}

/// Price history record from database
#[derive(Debug, Clone)]
pub struct PriceHistory {
    pub id: i64,
    pub market_id: String,
    pub platform: Platform,
    pub timestamp: Timestamp,
    pub bid: Option<Binary64>,
    pub ask: Option<Binary64>,
    pub last_price: Option<Binary64>,
    pub volume_24h: Option<Binary64>,
    pub bid_depth: Option<Binary64>,
    pub ask_depth: Option<Binary64>,
}

/// The columns of a price history record.
#[derive(Debug, Clone)]
pub struct PriceHistoryRow {
    pub id: i64,
    pub market_id: String,
    pub platform: String,
    pub timestamp: String,
    pub bid: Option<Binary64>,
    pub ask: Option<Binary64>,
    pub last_price: Option<Binary64>,
    pub volume_24h: Option<Binary64>,
    pub bid_depth: Option<Binary64>,
    pub ask_depth: Option<Binary64>,
}

impl PriceHistory {
    /// Whether the record is what a row holds.
    pub open spec fn is_read_from(self, row: PriceHistoryRow, now: Timestamp) -> bool {
        &&& self.id == row.id
        &&& self.market_id == row.market_id
        &&& Platform::in_column(row.platform@, self.platform)
        &&& is_time_of(row.timestamp@, now, self.timestamp)
        &&& self.bid == row.bid
        &&& self.ask == row.ask
        &&& self.last_price == row.last_price
        &&& self.volume_24h == row.volume_24h
        &&& self.bid_depth == row.bid_depth
        &&& self.ask_depth == row.ask_depth
    }
}

/// The price history record that a row holds.
pub fn row_to_price_history(row: PriceHistoryRow, now: Timestamp) -> (record: PriceHistory)
    ensures
        record.is_read_from(row, now),
{
    let platform = Platform::from_column(&row.platform);
    let timestamp = read_time(&row.timestamp, now);
    PriceHistory {
        id: row.id,
        market_id: row.market_id,
        platform,
        timestamp,
        bid: row.bid,
        ask: row.ask,
        last_price: row.last_price,
        volume_24h: row.volume_24h,
        bid_depth: row.bid_depth,
        ask_depth: row.ask_depth,
    }
}

/// A price that was stored is read back with its platform, and with its time where the text
/// that was stored for it reads back.
pub proof fn law_price_history_reads_back(
    platform: Platform,
    timestamp: Timestamp,
    row: PriceHistoryRow,
    now: Timestamp,
    record: PriceHistory,
)
    requires
        row.platform@ == platform.name(),
        rfc3339_instant(row.timestamp@) == Some(timestamp@),
        record.is_read_from(row, now),
    ensures
        record.platform == platform,
        record.timestamp@ == timestamp@,
        record.bid == row.bid,
        record.ask == row.ask,
{
    law_platform_reads_back(platform, None, record.platform);
}

// ---------------------------------------------------------------------------
// Correlations
// ---------------------------------------------------------------------------

/// Correlation record
#[derive(Debug, Clone)]
pub struct Correlation {
    pub market_id_1: String,
    pub market_id_2: String,
    pub correlation_type: CorrelationType,
    pub confidence: Binary64,
    pub created_at: Timestamp,
    pub validated_at: Option<Timestamp>,
    pub notes: Option<String>,
}

/// The columns of a correlation.
#[derive(Debug, Clone)]
pub struct CorrelationRow {
    pub market_id_1: String,
    pub market_id_2: String,
    pub correlation_type: String,
    pub confidence: Binary64,
    pub created_at: String,
    pub validated_at: Option<String>,
    pub notes: Option<String>,
}

impl Correlation {
    /// Whether the record is what a row holds.
    pub open spec fn is_read_from(self, row: CorrelationRow, now: Timestamp) -> bool {
        &&& self.market_id_1 == row.market_id_1
        &&& self.market_id_2 == row.market_id_2
        &&& CorrelationType::in_column(row.correlation_type@, self.correlation_type)
        &&& self.confidence == row.confidence
        &&& is_time_of(row.created_at@, now, self.created_at)
        &&& is_optional_time_of(row.validated_at, self.validated_at)
        &&& self.notes == row.notes
    }
}

/// The correlation that a row holds.
pub fn row_to_correlation(row: CorrelationRow, now: Timestamp) -> (correlation: Correlation)
    ensures
        correlation.is_read_from(row, now),
{
    let correlation_type = CorrelationType::from_column(&row.correlation_type);
    let created_at = read_time(&row.created_at, now);
    let validated_at = read_optional_time(&row.validated_at);
    Correlation {
        market_id_1: row.market_id_1,
        market_id_2: row.market_id_2,
        correlation_type,
        confidence: row.confidence,
        created_at,
        validated_at,
        notes: row.notes,
    }
}

/// A correlation that was stored is read back with its type.
pub proof fn law_correlation_reads_back(
    correlation_type: CorrelationType,
    row: CorrelationRow,
    now: Timestamp,
    correlation: Correlation,
)
    requires
        row.correlation_type@ == correlation_type.name(),
        correlation.is_read_from(row, now),
    ensures
        correlation.correlation_type == correlation_type,
        correlation.market_id_1 == row.market_id_1,
        correlation.market_id_2 == row.market_id_2,
{
    law_correlation_type_reads_back(correlation_type, None, correlation.correlation_type);
}

/// Two market ids in the order in which their correlation is stored: the lesser one first.
pub open spec fn stored_pair(a: Seq<char>, b: Seq<char>) -> (Seq<char>, Seq<char>) {
    if lex_less(a, b) {
        (a, b)
    } else {
        (b, a)
    }
}

/// The ids of two correlated markets in the order in which they are stored.
pub fn correlation_pair<'a>(a: &'a str, b: &'a str) -> (pair: (&'a str, &'a str))
    ensures
        (pair.0@, pair.1@) == stored_pair(a@, b@),
{
    if text_less(a, b) {
        (a, b)
    } else {
        (b, a)
    }
}

/// A correlation is stored under the same key whichever of the two markets is named first,
/// and the key holds both.
pub proof fn law_stored_pair_is_symmetric(a: Seq<char>, b: Seq<char>)
    ensures
        stored_pair(a, b) == stored_pair(b, a),
        stored_pair(a, b) == (a, b) || stored_pair(a, b) == (b, a),
        a != b ==> lex_less(stored_pair(a, b).0, stored_pair(a, b).1),
{
    crate::text::law_lex_less_is_total(a, b);
    crate::text::law_lex_less_is_total(b, a);
}

// ---------------------------------------------------------------------------
// Daily snapshots
// ---------------------------------------------------------------------------

/// Daily snapshot for P&L tracking
#[derive(Debug, Clone)]
pub struct DailySnapshot {
    pub date: CivilDate,
    pub starting_capital: Binary64,
    pub ending_capital: Binary64,
    pub realized_pnl: Binary64,
    pub unrealized_pnl: Binary64,
    pub trades_count: i32,
    pub win_count: i32,
    pub max_drawdown: Binary64,
    pub high_water_mark: Option<Binary64>,
    pub open_positions_count: Option<i32>,
    pub total_exposure: Option<Binary64>,
    pub metrics_json: Option<String>,
}

/// The columns of a daily snapshot.
#[derive(Debug, Clone)]
pub struct DailySnapshotRow {
    pub date: String,
    pub starting_capital: Binary64,
    pub ending_capital: Binary64,
    pub realized_pnl: Binary64,
    pub unrealized_pnl: Binary64,
    pub trades_count: i32,
    pub win_count: i32,
    pub max_drawdown: Binary64,
    pub high_water_mark: Option<Binary64>,
    pub open_positions_count: Option<i32>,
    pub total_exposure: Option<Binary64>,
    pub metrics_json: Option<String>,
}

/// Whether `r` is the date of a column: what its text stands for, or `today` where it stands
/// for none.
pub open spec fn is_date_of(column: Seq<char>, today: CivilDate, r: CivilDate) -> bool {
    match parsed_date(column) {
        Some(parts) => r@ == parts,
        None => r == today,
    }
}

impl DailySnapshot {
    /// Whether the record is what a row holds.
    pub open spec fn is_read_from(self, row: DailySnapshotRow, today: CivilDate) -> bool {
        &&& is_date_of(row.date@, today, self.date)
        &&& self.starting_capital == row.starting_capital
        &&& self.ending_capital == row.ending_capital
        &&& self.realized_pnl == row.realized_pnl
        &&& self.unrealized_pnl == row.unrealized_pnl
        &&& self.trades_count == row.trades_count
        &&& self.win_count == row.win_count
        &&& self.max_drawdown == row.max_drawdown
        &&& self.high_water_mark == row.high_water_mark
        &&& self.open_positions_count == row.open_positions_count
        &&& self.total_exposure == row.total_exposure
        &&& self.metrics_json == row.metrics_json
    }
}

/// The daily snapshot that a row holds.
pub fn row_to_daily_snapshot(row: DailySnapshotRow, today: CivilDate) -> (snapshot: DailySnapshot)
    ensures
        snapshot.is_read_from(row, today),
{
    let date = match CivilDate::parse(&row.date) {
        Some(date) => date,
        None => today,
    };
    DailySnapshot {
        date,
        starting_capital: row.starting_capital,
        ending_capital: row.ending_capital,
        realized_pnl: row.realized_pnl,
        unrealized_pnl: row.unrealized_pnl,
        trades_count: row.trades_count,
        win_count: row.win_count,
        max_drawdown: row.max_drawdown,
        high_water_mark: row.high_water_mark,
        open_positions_count: row.open_positions_count,
        total_exposure: row.total_exposure,
        metrics_json: row.metrics_json,
    }
}

/// A snapshot that was stored is read back under its date, where the text that was stored for
/// the date reads back.
pub proof fn law_daily_snapshot_reads_back(
    date: CivilDate,
    row: DailySnapshotRow,
    today: CivilDate,
    snapshot: DailySnapshot,
)
    requires
        parsed_date(row.date@) == Some(date@),
        snapshot.is_read_from(row, today),
    ensures
        snapshot.date@ == date@,
        snapshot.ending_capital == row.ending_capital,
        snapshot.realized_pnl == row.realized_pnl,
{
}

} // verus!
