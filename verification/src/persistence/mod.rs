//! What the trading database stores: the words, rows and state values, and how the stored
//! positions are reconciled with the exchanges.
use crate::text::{concat2, i64_text, int_text};
use vstd::prelude::*;

pub mod kinds;
pub mod records;
pub mod recovery;
pub mod state_value;
pub mod tables;

pub use kinds::{
    CorrelationType, OrderSide, OrderStatus, OrderType, Platform, PositionStatus, Side,
};
pub use records::{
    Correlation, CorrelationRow, DailySnapshot, DailySnapshotRow, KalmanState, Market, MarketRow,
    NewMarket, NewOrder, NewPosition, NewPriceHistory, Order, OrderRow, Position, PositionRow,
    PriceHistory, PriceHistoryRow, VolatilityStats,
};
pub use recovery::{Holding, OrphanedPosition, QuantityMismatch, Reconciliation, RecoveryReport};
pub use state_value::StateValue;

verus! {

/// Errors that can occur during database operations
#[derive(Debug)]
pub enum DbError {
    /// What SQLite reported.
    Sqlite(String),
    NotInitialized,
    NotFound(String),
    ConstraintViolation(String),
    InvalidData(String),
    MigrationFailed(String),
    /// What the file system reported.
    Io(String),
}

/// The result of a database operation.
pub type DbResult<T> = Result<T, DbError>;

impl DbError {
    /// The text that a reader is shown.
    pub open spec fn text(self) -> Seq<char> {
        match self {
            DbError::Sqlite(e) => "SQLite error: "@ + e@,
            DbError::NotInitialized => "Database not initialized - call initialize() first"@,
            DbError::NotFound(what) => "Record not found: "@ + what@,
            DbError::ConstraintViolation(what) => "Constraint violation: "@ + what@,
            DbError::InvalidData(what) => "Invalid data: "@ + what@,
            DbError::MigrationFailed(what) => "Migration failed: "@ + what@,
            DbError::Io(e) => "IO error: "@ + e@,
        }
    }

    /// The text that a reader is shown.
    pub fn message(&self) -> (text: String)
        ensures
            text@ == self.text(),
    {
        match self {
            DbError::Sqlite(e) => concat2("SQLite error: ", e),
            DbError::NotInitialized => "Database not initialized - call initialize() first".to_string(),
            DbError::NotFound(what) => concat2("Record not found: ", what),
            DbError::ConstraintViolation(what) => concat2("Constraint violation: ", what),
            DbError::InvalidData(what) => concat2("Invalid data: ", what),
            DbError::MigrationFailed(what) => concat2("Migration failed: ", what),
            DbError::Io(e) => concat2("IO error: ", e),
        }
    }

    /// Whether the error says that a record with the given text was not found.
    pub open spec fn is_missing(self, what: Seq<char>) -> bool {
        self matches DbError::NotFound(w) && w@ == what
    }

    /// Whether the error says that data with the given text is invalid.
    pub open spec fn is_invalid(self, what: Seq<char>) -> bool {
        self matches DbError::InvalidData(w) && w@ == what
    }
}

/// An update of a market fails where it reached no row.
pub fn check_market_updated(rows_affected: usize, market_id: &str) -> (r: DbResult<()>)
    ensures
        r is Ok <==> rows_affected != 0,
        r matches Err(e) ==> e.is_missing("Market not found: "@ + market_id@),
{
    if rows_affected == 0 {
        Err(DbError::NotFound(concat2("Market not found: ", market_id)))
    } else {
        Ok(())
    }
}

/// The error for a position that is not there or not open.
pub fn open_position_not_found(position_id: i64) -> (e: DbError)
    ensures
        e.is_missing("Open position not found: "@ + int_text(position_id as int)),
{
    DbError::NotFound(concat2("Open position not found: ", &i64_text(position_id)))
}

/// An update of an open position fails where it reached no row.
pub fn check_position_updated(rows_affected: usize, position_id: i64) -> (r: DbResult<()>)
    ensures
        r is Ok <==> rows_affected != 0,
        r matches Err(e) ==> e.is_missing(
            "Open position not found: "@ + int_text(position_id as int),
        ),
{
    if rows_affected == 0 {
        Err(open_position_not_found(position_id))
    } else {
        Ok(())
    }
}

/// The order that an update is about; it has to be there.
pub fn require_order(order: Option<Order>, order_id: i64) -> (r: DbResult<Order>)
    ensures
        order matches Some(o) ==> r == Ok::<Order, DbError>(o),
        order is None ==> r is Err && r->Err_0.is_missing(
            "Order not found: "@ + int_text(order_id as int),
        ),
{
    match order {
        Some(o) => Ok(o),
        None => Err(DbError::NotFound(concat2("Order not found: ", &i64_text(order_id)))),
    }
}

/// Database statistics
#[derive(Debug)]
pub struct DatabaseStats {
    pub market_count: usize,
    pub position_count: usize,
    pub open_position_count: usize,
    pub order_count: usize,
    pub price_history_count: usize,
}

} // verus!
