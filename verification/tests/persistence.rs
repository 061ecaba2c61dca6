use prediction_market_arbitrage::binary64::Binary64;
use prediction_market_arbitrage::persistence::records::{
    close_externally, close_position, correlation_pair, fill_status, row_to_correlation,
    row_to_daily_snapshot,
    row_to_market, row_to_order, row_to_position, row_to_price_history, stamps_submission,
};
use prediction_market_arbitrage::persistence::recovery::{orphaned_positions, recover_state};
use prediction_market_arbitrage::persistence::state_value::{
    consecutive_losses, is_trading_halted, last_heartbeat, require_float, update_high_water_mark,
    CURRENT_CAPITAL,
};
use prediction_market_arbitrage::persistence::tables::{plan_close, plan_external_close};
use prediction_market_arbitrage::persistence::{
    check_market_updated, check_position_updated, open_position_not_found, require_order,
    CorrelationRow, CorrelationType, DailySnapshotRow, DbError, Holding, MarketRow, OrderRow,
    OrderSide, OrderStatus, OrderType, Platform, Position, PositionRow, PositionStatus,
    PriceHistoryRow, Reconciliation, Side, StateValue,
};
use prediction_market_arbitrage::time::{CivilDate, Timestamp};

fn d(x: f64) -> Binary64 {
    Binary64::from_bits(x.to_bits())
}

fn f(x: Binary64) -> f64 {
    f64::from_bits(x.bits)
}

fn now() -> Timestamp {
    Timestamp::new(1735516800, 0).unwrap()
}

const STORED: &str = "2024-12-29T12:30:00+00:00";

fn market_row() -> MarketRow {
    MarketRow {
        id: "test-market-1".to_string(),
        platform: "polymarket".to_string(),
        title: "Test Market".to_string(),
        category: Some("sports".to_string()),
        resolution_time: None,
        created_at: STORED.to_string(),
        updated_at: STORED.to_string(),
        kalman_estimate: None,
        kalman_variance: None,
        kalman_updated_at: None,
        price_change_mean: d(0.0),
        price_change_std: d(0.0),
        volume_mean: d(0.0),
        volatility_samples: 0,
        external_id: Some("ext-123".to_string()),
        is_active: true,
        last_bid: None,
        last_ask: None,
        volume_24h: None,
    }
}

#[test]
fn test_market_crud() {
    let fetched = row_to_market(market_row(), now());
    assert_eq!(fetched.id, "test-market-1");
    assert_eq!(fetched.title, "Test Market");
    assert_eq!(fetched.platform, Platform::Polymarket);
    assert_eq!(fetched.created_at.to_rfc3339(), STORED);

    let mut row = market_row();
    row.kalman_estimate = Some(d(0.75));
    row.kalman_variance = Some(d(0.05));
    row.kalman_updated_at = Some(now().to_rfc3339());
    let fetched = row_to_market(row, now());
    assert!((f(fetched.kalman_estimate.unwrap()) - 0.75).abs() < 0.001);
    assert_eq!(fetched.kalman_updated_at, Some(now()));
}

#[test]
fn unreadable_columns_have_a_fallback() {
    let mut row = market_row();
    row.created_at = "long ago".to_string();
    row.resolution_time = Some("some day".to_string());
    row.platform = "nasdaq".to_string();
    let fetched = row_to_market(row, now());
    assert_eq!(fetched.created_at, now());
    assert!(fetched.resolution_time.is_none());
    assert_eq!(fetched.platform, Platform::from_column("nasdaq"));
}

fn position_row(id: i64, market: &str, platform: &str, quantity: f64) -> PositionRow {
    PositionRow {
        id,
        market_id: market.to_string(),
        platform: platform.to_string(),
        side: "yes".to_string(),
        entry_price: d(0.65),
        quantity: d(quantity),
        entry_time: STORED.to_string(),
        exit_price: None,
        exit_time: None,
        pnl: None,
        status: "open".to_string(),
        strategy: Some("grinding".to_string()),
        notes: None,
    }
}

fn position(id: i64, market: &str, platform: &str, quantity: f64) -> Position {
    row_to_position(position_row(id, market, platform, quantity), now())
}

#[test]
fn test_position_crud() {
    let fetched = position(1, "market-1", "kalshi", 100.0);
    assert_eq!(fetched.market_id, "market-1");
    assert_eq!(fetched.side, Side::Yes);
    assert!((f(fetched.entry_price) - 0.65).abs() < 0.001);
    assert_eq!(fetched.status, PositionStatus::Open);

    let plan = close_position(&fetched, Some(d(0.85)));
    assert!(f(plan.pnl) > 0.0);
    assert_eq!(f(plan.pnl), (0.85 - 0.65) * 100.0);
    assert_eq!(plan.status, PositionStatus::Closed);
}

#[test]
fn a_no_position_earns_when_prices_fall() {
    let mut row = position_row(1, "m", "kalshi", 10.0);
    row.side = "no".to_string();
    let held = row_to_position(row, now());
    let plan = close_position(&held, Some(d(0.5)));
    assert_eq!(f(plan.pnl), (0.65 - 0.5) * 10.0);
    let resolved = close_position(&held, None);
    assert_eq!(f(resolved.exit_price), 1.0);
    assert_eq!(f(resolved.pnl), (0.65 - 1.0) * 10.0);
    assert_eq!(resolved.status, PositionStatus::Resolved);
}

#[test]
fn a_position_closed_externally_is_closed() {
    let held = position(1, "m", "polymarket", 10.0);
    let (actions, report) = recover_state(&vec![held.clone()], &vec![], &vec![]);
    assert_eq!(actions, vec![Reconciliation::Close]);
    assert_eq!(report.closed_positions, vec![1]);
    let plan = close_externally(&held);
    assert_eq!(plan.status, PositionStatus::Closed);
    assert_eq!(f(plan.exit_price), 1.0);
    assert_eq!(f(plan.pnl), (1.0 - 0.65) * 10.0);
}

#[test]
fn a_second_recovery_verifies_what_is_left() {
    let mut saved = vec![position(1, "a", "polymarket", 10.0), position(2, "b", "kalshi", 5.0)];
    let poly = vec![holding("a", 7.5)];
    let (actions, _) = recover_state(&saved, &poly, &vec![]);
    assert_eq!(actions, vec![Reconciliation::SetQuantity(d(7.5)), Reconciliation::Close]);
    saved[0].quantity = d(7.5);
    saved.pop();
    let (actions, report) = recover_state(&saved, &poly, &vec![]);
    assert_eq!(actions, vec![Reconciliation::Verified]);
    assert_eq!(report.verified_positions, vec![1]);
    assert!(report.quantity_mismatches.is_empty());
    assert!(report.closed_positions.is_empty());
}

#[test]
fn test_system_state() {
    assert!(!is_trading_halted(&None));
    let stored = StateValue::Bool(true);
    let text = stored.to_db_string("");
    let read = StateValue::from_db(&text, stored.value_type(), None);
    assert!(is_trading_halted(&read));

    let text = "100".to_string();
    let read = StateValue::from_db(&text, "float", text.parse::<f64>().ok().map(d)).unwrap();
    let capital = require_float(read.as_float(None), CURRENT_CAPITAL).unwrap();
    assert!((f(capital) - 100.0).abs() < 0.001);

    let stored = StateValue::Float(d(150.0));
    let text = stored.to_db_string(&150.0f64.to_string());
    let read = StateValue::from_db(&text, "float", text.parse::<f64>().ok().map(d)).unwrap();
    let capital = require_float(read.as_float(None), CURRENT_CAPITAL).unwrap();
    assert!((f(capital) - 150.0).abs() < 0.001);
}

#[test]
fn state_values_read_back() {
    let values = vec![
        StateValue::String("hello".to_string()),
        StateValue::Int(-42),
        StateValue::Bool(false),
        StateValue::DateTime(now()),
        StateValue::Json("{\"a\":1}".to_string()),
    ];
    for value in values {
        let text = value.to_db_string("");
        let read = StateValue::from_db(&text, value.value_type(), None).unwrap();
        assert_eq!(read.to_db_string(""), text);
        assert_eq!(read.value_type(), value.value_type());
    }
    assert!(StateValue::from_db("x", "int", None).is_none());
    assert!(StateValue::from_db("x", "blob", None).is_none());
    assert_eq!(StateValue::Int(7).as_int(), Some(7));
    assert_eq!(StateValue::String("7".to_string()).as_int(), Some(7));
    assert_eq!(f(StateValue::Int(7).as_float(None).unwrap()), 7.0);
    assert_eq!(StateValue::String("true".to_string()).as_bool(), Some(true));
    assert_eq!(consecutive_losses(&Some(StateValue::Int(3))), 3);
    assert_eq!(consecutive_losses(&None), 0);
    assert_eq!(last_heartbeat(Some(StateValue::DateTime(now()))), Some(now()));
    assert_eq!(last_heartbeat(Some(StateValue::Int(1))), None);
}

#[test]
fn the_high_water_mark_only_rises() {
    assert!(update_high_water_mark(Some(d(100.0)), d(100.0)).is_none());
    assert!(update_high_water_mark(Some(d(100.0)), d(99.0)).is_none());
    let raised = update_high_water_mark(Some(d(100.0)), d(101.0)).unwrap();
    assert_eq!(f(raised.as_float(None).unwrap()), 101.0);
    assert!(update_high_water_mark(None, d(1.0)).is_some());
}

#[test]
fn test_price_history() {
    let record = row_to_price_history(
        PriceHistoryRow {
            id: 1,
            market_id: "market-ph".to_string(),
            platform: "polymarket".to_string(),
            timestamp: now().to_rfc3339(),
            bid: Some(d(0.45)),
            ask: Some(d(0.48)),
            last_price: Some(d(0.46)),
            volume_24h: Some(d(10000.0)),
            bid_depth: Some(d(500.0)),
            ask_depth: Some(d(600.0)),
        },
        now(),
    );
    assert!(record.id > 0);
    assert_eq!(record.market_id, "market-ph");
    assert_eq!(record.platform, Platform::Polymarket);
    assert_eq!(record.timestamp, now());
    assert_eq!(f(record.bid.unwrap()), 0.45);
}

#[test]
fn test_correlations() {
    assert_eq!(correlation_pair("corr-market-1", "corr-market-2"), ("corr-market-1", "corr-market-2"));
    assert_eq!(correlation_pair("corr-market-2", "corr-market-1"), ("corr-market-1", "corr-market-2"));
    let correlation = row_to_correlation(
        CorrelationRow {
            market_id_1: "corr-market-1".to_string(),
            market_id_2: "corr-market-2".to_string(),
            correlation_type: CorrelationType::SameEvent.as_str().to_string(),
            confidence: d(0.95),
            created_at: now().to_rfc3339(),
            validated_at: None,
            notes: Some("Test correlation".to_string()),
        },
        now(),
    );
    assert_eq!(correlation.correlation_type, CorrelationType::SameEvent);
    assert_eq!(correlation.market_id_2, "corr-market-2");
    assert_eq!(f(correlation.confidence), 0.95);
}

fn holding(market: &str, quantity: f64) -> Holding {
    Holding { market_id: market.to_string(), quantity: d(quantity) }
}

#[test]
fn test_recovery() {
    let mut row = position_row(7, "recovery-market", "polymarket", 100.0);
    row.entry_price = d(0.50);
    let saved = vec![row_to_position(row, now())];
    let poly = vec![holding("recovery-market", 80.0)];
    let (actions, report) = recover_state(&saved, &poly, &vec![]);
    assert_eq!(report.quantity_mismatches.len(), 1);
    assert_eq!(report.quantity_mismatches[0].position_id, 7);
    match &actions[0] {
        Reconciliation::SetQuantity(quantity) => assert!((f(*quantity) - 80.0).abs() < 0.001),
        _ => panic!("Expected a new quantity"),
    }
}

#[test]
fn positions_are_verified_closed_or_found() {
    let saved = vec![
        position(1, "a", "polymarket", 10.0),
        position(2, "b", "kalshi", 10.0),
        position(3, "c", "polymarket", 10.0),
    ];
    let poly = vec![holding("a", 10.00001), holding("c", 0.0), holding("x", 5.0)];
    let kalshi = vec![holding("a", 3.0)];
    let (actions, report) = recover_state(&saved, &poly, &kalshi);
    assert_eq!(report.verified_positions, vec![1]);
    assert_eq!(report.closed_positions, vec![2, 3]);
    assert!(matches!(actions[1], Reconciliation::Close));
    let stored = vec![vec![position(1, "a", "polymarket", 10.0)], vec![], vec![]];
    let orphans = orphaned_positions(Platform::Polymarket, &poly, &stored);
    let markets: Vec<&str> = orphans.iter().map(|o| o.market_id.as_str()).collect();
    assert_eq!(markets, vec!["x"]);
}

#[test]
fn orders_are_read_from_rows() {
    let row = OrderRow {
        id: 4,
        position_id: None,
        market_id: "m".to_string(),
        platform: "kalshi".to_string(),
        side: OrderSide::Buy.as_str().to_string(),
        order_type: OrderType::Limit.as_str().to_string(),
        price: Some(d(0.5)),
        quantity: d(10.0),
        filled_quantity: d(4.0),
        fill_price: None,
        status: OrderStatus::Submitted.as_str().to_string(),
        created_at: STORED.to_string(),
        submitted_at: Some(STORED.to_string()),
        filled_at: None,
        platform_order_id: None,
        error_message: None,
        platform_metadata: None,
    };
    let order = row_to_order(row, now());
    assert_eq!(order.side, OrderSide::Buy);
    assert_eq!(order.order_type, OrderType::Limit);
    assert_eq!(order.status, OrderStatus::Submitted);
    assert_eq!(order.submitted_at.unwrap().to_rfc3339(), STORED);
    assert!(require_order(Some(order), 4).is_ok());
    match require_order(None, 4) {
        Err(e) => assert_eq!(e.message(), "Record not found: Order not found: 4"),
        Ok(_) => panic!("Expected an error"),
    }
    assert!(stamps_submission(OrderStatus::Submitted));
    assert!(!stamps_submission(OrderStatus::Pending));
    assert_eq!(fill_status(&d(10.0), &d(10.0)), OrderStatus::Filled);
    assert_eq!(fill_status(&d(4.0), &d(10.0)), OrderStatus::PartiallyFilled);
}

#[test]
fn snapshots_are_read_from_rows() {
    let row = DailySnapshotRow {
        date: "2024-12-29".to_string(),
        starting_capital: d(100.0),
        ending_capital: d(110.0),
        realized_pnl: d(10.0),
        unrealized_pnl: d(0.0),
        trades_count: 10,
        win_count: 8,
        max_drawdown: d(0.02),
        high_water_mark: None,
        open_positions_count: Some(2),
        total_exposure: None,
        metrics_json: None,
    };
    let today = CivilDate::new(2024, 12, 30).unwrap();
    let snapshot = row_to_daily_snapshot(row, today);
    assert_eq!(snapshot.date.to_text(), "2024-12-29");
    assert_eq!(snapshot.win_count, 8);
}

#[test]
fn words_read_back() {
    for platform in [Platform::Polymarket, Platform::Kalshi] {
        assert_eq!(Platform::from_str(platform.as_str()), Some(platform));
    }
    for side in [Side::Yes, Side::No] {
        assert_eq!(Side::from_str(&side.as_str().to_uppercase()), Some(side));
    }
    assert_eq!(Side::from_str("maybe"), None);
}

#[test]
fn errors_have_texts() {
    assert!(check_market_updated(1, "m").is_ok());
    assert_eq!(check_market_updated(0, "m").unwrap_err().message(), "Record not found: Market not found: m");
    assert!(check_position_updated(1, 5).is_ok());
    assert_eq!(
        check_position_updated(0, 5).unwrap_err().message(),
        "Record not found: Open position not found: 5"
    );
    assert_eq!(
        open_position_not_found(5).message(),
        "Record not found: Open position not found: 5"
    );
    assert_eq!(
        require_float(None, CURRENT_CAPITAL).unwrap_err().message(),
        "Invalid data: current_capital state not found"
    );
    let cases = vec![
        (DbError::Sqlite("x".to_string()), "SQLite error: x"),
        (DbError::NotInitialized, "Database not initialized - call initialize() first"),
        (DbError::ConstraintViolation("x".to_string()), "Constraint violation: x"),
        (DbError::MigrationFailed("x".to_string()), "Migration failed: x"),
        (DbError::Io("x".to_string()), "IO error: x"),
    ];
    for (error, text) in cases {
        assert_eq!(error.message(), text);
    }
}

#[test]
fn state_values_are_compared_by_what_they_hold() {
    assert_eq!(StateValue::from_db("7", "int", None), Some(StateValue::Int(7)));
    assert_eq!(StateValue::from_db("abc", "int", None), None);
    assert_ne!(StateValue::String("7".to_string()), StateValue::Json("7".to_string()));
    assert_eq!(StateValue::Float(d(0.0)), StateValue::Float(d(-0.0)));
    assert_ne!(StateValue::Float(d(f64::NAN)), StateValue::Float(d(f64::NAN)));
    assert_ne!(StateValue::Float(d(1.0)), StateValue::Float(d(2.0)));
    assert_eq!(StateValue::DateTime(now()), StateValue::DateTime(now()));
}

#[test]
fn a_position_that_is_not_open_cannot_be_closed() {
    let held = Some(position(3, "m", "kalshi", 10.0));
    let plan = plan_close(&held, 3, Some(d(0.85))).unwrap();
    assert_eq!(f(plan.pnl), (0.85 - 0.65) * 10.0);
    assert_eq!(plan.status, PositionStatus::Closed);
    assert_eq!(plan_close(&held, 3, None).unwrap().status, PositionStatus::Resolved);
    assert_eq!(plan_external_close(&held, 3).unwrap().status, PositionStatus::Closed);
    for refused in [plan_close(&None, 3, Some(d(0.85))), plan_external_close(&None, 3)] {
        match refused {
            Err(DbError::NotFound(what)) => assert_eq!(what, "Open position not found: 3"),
            _ => panic!("Expected a refusal"),
        }
    }
}
