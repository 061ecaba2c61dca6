use prediction_market_arbitrage::binary64::Binary64;
use prediction_market_arbitrage::dashboard::state::TradingMode as DashboardMode;
use prediction_market_arbitrage::discord::AlertType;
use prediction_market_arbitrage::grinding::config::{Platform, Side};
use prediction_market_arbitrage::grinding::strategy::GrindingExecutionRequest;
use prediction_market_arbitrage::market::{MarketPair, MarketSnapshot, Quote};
use prediction_market_arbitrage::paper_trading::simulation::kalshi_fill;
use prediction_market_arbitrage::paper_trading::TradingMode;
use prediction_market_arbitrage::system::{
    dashboard_capital, dashboard_mode, final_capital, is_switched_on, order_for, shutdown_alert,
    starting_capital, starting_capital_cents, startup_alert, threshold_cents, trade_alert,
    trial_request, ArbType, PlatformOrder, DEFAULT_DB_PATH,
};
use prediction_market_arbitrage::time::Timestamp;

fn d(x: f64) -> Binary64 {
    Binary64::from_bits(x.to_bits())
}

fn f(x: Binary64) -> f64 {
    f64::from_bits(x.bits)
}

fn mode(live: bool) -> TradingMode {
    TradingMode { live, paper_capital: d(250.5) }
}

#[test]
fn switches_are_set_by_one_or_true() {
    assert!(is_switched_on(Some("1".to_string())));
    assert!(is_switched_on(Some("true".to_string())));
    assert!(!is_switched_on(Some("TRUE".to_string())));
    assert!(!is_switched_on(None));
    assert_eq!(DEFAULT_DB_PATH, "./data/trading.db");
}

#[test]
fn thresholds_are_whole_cents() {
    assert_eq!(threshold_cents(&d(0.995)), (0.995f64 * 100.0).round() as u16);
    assert_eq!(threshold_cents(&d(0.95)), 95);
    assert_eq!(threshold_cents(&d(0.0)), 1);
    assert_eq!(threshold_cents(&d(-3.0)), 1);
}

#[test]
fn capital_depends_on_the_mode() {
    assert_eq!(f(starting_capital(&mode(false), Some(d(7.0)))), 250.5);
    assert_eq!(f(starting_capital(&mode(true), Some(d(7.0)))), 7.0);
    assert_eq!(f(starting_capital(&mode(true), None)), 100.0);
    assert_eq!(starting_capital_cents(&mode(false), None), 25050);
    assert_eq!(f(dashboard_capital(&mode(true))), 100.0);
    assert_eq!(f(final_capital(&mode(false), Some(d(9.0)), Some(d(7.0)))), 9.0);
    assert_eq!(f(final_capital(&mode(false), None, Some(d(7.0)))), 250.5);
    assert_eq!(f(final_capital(&mode(true), Some(d(9.0)), Some(d(7.0)))), 7.0);
    assert_eq!(f(final_capital(&mode(true), None, None)), 0.0);
    assert_eq!(dashboard_mode(&mode(true)), DashboardMode::Live);
    assert_eq!(dashboard_mode(&mode(false)), DashboardMode::Paper);
}

#[test]
fn start_and_end_are_announced() {
    match startup_alert(&mode(true), None, 3) {
        AlertType::SystemStartup { mode, capital, open_positions } => {
            assert_eq!(mode, "live");
            assert_eq!(f(capital), 100.0);
            assert_eq!(open_positions, 3);
        }
        _ => panic!("Expected SystemStartup"),
    }
    match shutdown_alert(d(12.0)) {
        AlertType::SystemShutdown { reason, final_capital } => {
            assert_eq!(reason, "User requested shutdown (Ctrl+C)");
            assert_eq!(f(final_capital), 12.0);
        }
        _ => panic!("Expected SystemShutdown"),
    }
}

fn pair() -> MarketPair {
    MarketPair {
        description: "Chelsea vs Arsenal".to_string(),
        poly_yes_token: "token-yes".to_string(),
        poly_no_token: "token-no".to_string(),
        kalshi_market_ticker: "KX-1".to_string(),
    }
}

fn request(platform: Platform, side: Side) -> GrindingExecutionRequest {
    GrindingExecutionRequest {
        market_id: 4,
        platform,
        side,
        max_price: d(0.57),
        contracts: d(12.9),
        ev_pct: d(0.02),
        detected_at: Timestamp::new(0, 0).unwrap(),
        token_address: None,
        market_ticker: None,
    }
}

#[test]
fn requests_become_orders() {
    match order_for(&request(Platform::Kalshi, Side::No), &pair()) {
        PlatformOrder::Kalshi { ticker, side, price_cents, contracts } => {
            assert_eq!((ticker.as_str(), side), ("KX-1", "no"));
            assert_eq!(price_cents, (0.57f64 * 100.0) as i64);
            assert_eq!(contracts, 12);
        }
        _ => panic!("Expected an order on Kalshi"),
    }
    match order_for(&request(Platform::Polymarket, Side::Yes), &pair()) {
        PlatformOrder::Polymarket { token, price, contracts } => {
            assert_eq!(token, "token-yes");
            assert_eq!(f(price), 0.57);
            assert_eq!(f(contracts), 12.9);
        }
        _ => panic!("Expected an order on Polymarket"),
    }
    let fill = kalshi_fill("k1".to_string(), "no", 3, Some(150), None, 0);
    match trade_alert(&request(Platform::Kalshi, Side::No), &pair(), &fill) {
        AlertType::TradeExecuted { market_title, side, price_cents, size_usd, strategy, platform } => {
            assert_eq!(market_title, "Chelsea vs Arsenal");
            assert_eq!(side, "NO");
            assert_eq!(price_cents, 50);
            assert_eq!(f(size_usd), 1.5);
            assert_eq!((strategy.as_str(), platform.as_str()), ("grinding", "kalshi"));
        }
        _ => panic!("Expected TradeExecuted"),
    }
}

#[test]
fn trials_are_chosen_by_name_or_number() {
    for (words, kind) in [
        (["poly_yes_kalshi_no", "PYKN", "0"], ArbType::PolyYesKalshiNo),
        (["Kalshi_Yes_Poly_No", "kypn", "1"], ArbType::KalshiYesPolyNo),
        (["poly_only", "POLY", "2"], ArbType::PolyOnly),
        (["kalshi_only", "Kalshi", "3"], ArbType::KalshiOnly),
    ] {
        for word in words {
            assert_eq!(ArbType::from_word(word), Some(kind));
        }
        let (yes, no, _) = kind.trial_prices();
        assert!(yes + no < 100);
    }
    assert_eq!(ArbType::from_word("4"), None);
}

#[test]
fn trials_take_the_first_known_market() {
    let quote = Quote { yes_ask: 0, no_ask: 0, yes_size: 0, no_size: 0 };
    let unknown = MarketSnapshot { pair: None, kalshi: quote, poly: quote };
    let known = MarketSnapshot { pair: Some(pair()), kalshi: quote, poly: quote };
    assert!(trial_request(&vec![], ArbType::PolyOnly).is_none());
    assert!(trial_request(&vec![unknown.clone()], ArbType::PolyOnly).is_none());
    let trial = trial_request(&vec![unknown, known.clone(), known], ArbType::PolyOnly).unwrap();
    assert_eq!(trial.market_id, 1);
    assert_eq!((trial.yes_price, trial.no_price), (48, 50));
    assert_eq!((trial.yes_size, trial.no_size, trial.detected_ns), (1000, 1000, 0));
}
