use prediction_market_arbitrage::binary64::Binary64;
use prediction_market_arbitrage::grinding::config::{
    GrindingConfig, GrindingOverrides, KellyConfig, Platform, Side,
};
use prediction_market_arbitrage::grinding::ranking::{rank, GrindingOpportunity};
use prediction_market_arbitrage::grinding::runner::{
    after_send, requests_for_scan, tradable_capital, GrindingRunnerConfig, RunnerStep,
    SendOutcome,
};
use prediction_market_arbitrage::grinding::sizing::{expected_value, kalshi_fee_pct, kelly_size};
use prediction_market_arbitrage::grinding::strategy::GrindingStrategy;
use prediction_market_arbitrage::market::{MarketPair, MarketSnapshot, Quote};
use prediction_market_arbitrage::time::Timestamp;
use std::collections::HashMap;

fn d(x: f64) -> Binary64 {
    Binary64::from_bits(x.to_bits())
}

fn f(x: Binary64) -> f64 {
    f64::from_bits(x.bits)
}

fn now() -> Timestamp {
    Timestamp::new(1735516800, 0).unwrap()
}

fn threshold(config: &GrindingConfig, hours: f64) -> f64 {
    f(config.dynamic_threshold(&d(hours)))
}

fn size_of(p: f64, price: f64, capital: f64, config: &KellyConfig) -> f64 {
    f(kelly_size(&d(p), &d(price), &d(capital), config))
}

fn ev_of(p: f64, price: f64, fee: f64) -> f64 {
    f(expected_value(&d(p), &d(price), &d(fee)))
}

#[test]
fn grinding_test_config_default() {
    let config = GrindingConfig::default();
    assert!((f(config.base_probability_threshold) - 0.90).abs() < 0.001);
    assert!((f(config.max_hours_to_expiry) - 24.0).abs() < 0.001);
    assert!((f(config.base_min_ev_pct) - 0.005).abs() < 0.001);
}

#[test]
fn test_dynamic_threshold_at_24h() {
    let config = GrindingConfig::default();
    assert!((threshold(&config, 24.0) - 0.90).abs() < 0.001);
}

#[test]
fn test_dynamic_threshold_at_12h() {
    let config = GrindingConfig::default();
    assert!((threshold(&config, 12.0) - 0.95).abs() < 0.001);
}

#[test]
fn test_dynamic_threshold_at_6h() {
    let config = GrindingConfig::default();
    assert!((threshold(&config, 6.0) - 0.975).abs() < 0.001);
}

#[test]
fn test_dynamic_threshold_at_0h() {
    let config = GrindingConfig::default();
    assert!((threshold(&config, 0.0) - 1.0).abs() < 0.001);
}

#[test]
fn test_dynamic_threshold_beyond_max() {
    let config = GrindingConfig::default();
    assert!((threshold(&config, 48.0) - 0.90).abs() < 0.001);
}

#[test]
fn thresholds_rise_towards_expiry() {
    for config in
        [GrindingConfig::default(), GrindingConfig::conservative(), GrindingConfig::aggressive()]
    {
        let mut last = threshold(&config, 60.0);
        assert_eq!(last, f(config.base_probability_threshold));
        for step in 0..240 {
            let next = threshold(&config, 60.0 - step as f64 * 0.25);
            assert!(next >= last);
            last = next;
        }
    }
}

#[test]
fn test_dynamic_min_ev() {
    let config = GrindingConfig::default();
    let ev = f(config.dynamic_min_ev(&d(10.0), &d(1000.0)));
    assert!((ev - 0.005 * 1.01).abs() < 0.0001);
    let ev = f(config.dynamic_min_ev(&d(250.0), &d(1000.0)));
    assert!((ev - 0.005 * 1.25).abs() < 0.0001);
}

#[test]
fn overrides_replace_only_what_they_give() {
    let mut overrides = GrindingOverrides {
        base_probability_threshold: None,
        max_hours_to_expiry: None,
        kelly_multiplier: None,
        min_liquidity_usd: None,
        max_position_pct: None,
        base_min_ev_pct: None,
    };
    let config = GrindingConfig::with_overrides(&overrides);
    let usual = GrindingConfig::default();
    assert_eq!(f(config.kelly_multiplier), f(usual.kelly_multiplier));
    overrides.kelly_multiplier = Some(d(0.33));
    let config = GrindingConfig::with_overrides(&overrides);
    assert_eq!(f(config.kelly_multiplier), 0.33);
    assert_eq!(f(config.max_hours_to_expiry), f(usual.max_hours_to_expiry));
    assert_eq!(f(KellyConfig::from_grinding(&config).kelly_multiplier), 0.33);
}

#[test]
fn test_kelly_size_with_edge() {
    let config = KellyConfig::default();
    let size = size_of(0.95, 0.93, 1000.0, &config);
    assert!(size > 0.0);
    assert!(size <= 1000.0 * f(config.max_position_pct));
}

#[test]
fn test_kelly_size_no_edge() {
    let config = KellyConfig::default();
    let size = size_of(0.90, 0.90, 1000.0, &config);
    assert!((size - 0.0).abs() < 0.001);
}

#[test]
fn test_kelly_size_negative_edge() {
    let config = KellyConfig::default();
    let size = size_of(0.85, 0.90, 1000.0, &config);
    assert!((size - 0.0).abs() < 0.001);
}

#[test]
fn test_kelly_size_respects_max_position() {
    let config = KellyConfig {
        kelly_multiplier: d(2.0),
        max_position_pct: d(0.10),
        min_position_usd: d(1.0),
    };
    let size = size_of(0.99, 0.90, 1000.0, &config);
    assert!(size <= 1000.0 * 0.10 + 0.001);
}

#[test]
fn test_kelly_size_respects_minimum() {
    let config = KellyConfig {
        kelly_multiplier: d(0.001),
        max_position_pct: d(0.25),
        min_position_usd: d(10.0),
    };
    let size = size_of(0.91, 0.90, 100.0, &config);
    assert!((size - 0.0).abs() < 0.001);
}

#[test]
fn nothing_is_bet_on_invalid_inputs() {
    let config = KellyConfig::default();
    assert_eq!(size_of(0.95, 0.0, 1000.0, &config), 0.0);
    assert_eq!(size_of(0.95, 1.0, 1000.0, &config), 0.0);
    assert_eq!(size_of(0.95, 0.93, 0.0, &config), 0.0);
    assert_eq!(size_of(0.95, 0.93, -5.0, &config), 0.0);
}

#[test]
fn test_expected_value_positive() {
    assert!(ev_of(0.95, 0.90, 0.0) > 0.0);
}

#[test]
fn test_expected_value_zero_edge() {
    assert!(ev_of(0.90, 0.90, 0.0).abs() < 0.001);
}

#[test]
fn test_expected_value_negative() {
    assert!(ev_of(0.85, 0.90, 0.0) < 0.0);
}

#[test]
fn test_expected_value_with_fees() {
    let ev_no_fees = ev_of(0.95, 0.90, 0.0);
    let ev_with_fees = ev_of(0.95, 0.90, 0.02);
    assert!(ev_with_fees < ev_no_fees);
    assert!(ev_with_fees > 0.0);
}

#[test]
fn test_kalshi_fee_at_50_cents() {
    assert!((f(kalshi_fee_pct(50)) - 0.0175).abs() < 0.0001);
}

#[test]
fn test_kalshi_fee_at_90_cents() {
    assert!((f(kalshi_fee_pct(90)) - 0.0063).abs() < 0.0001);
}

#[test]
fn test_kalshi_fee_at_extremes() {
    assert!((f(kalshi_fee_pct(0)) - 0.0).abs() < 0.0001);
    assert!((f(kalshi_fee_pct(100)) - 0.0).abs() < 0.0001);
}

fn opportunity(market_price: f64, ev_pct: f64, hours: f64) -> GrindingOpportunity {
    GrindingOpportunity {
        market_id: 0,
        description: "Test 1".to_string(),
        platform: Platform::Polymarket,
        side: Side::Yes,
        market_price: d(market_price),
        liquidity_usd: d(100.0),
        estimated_probability: d(0.95),
        hours_to_expiry: d(hours),
        threshold: d(0.975),
        ev_pct: d(ev_pct),
        kelly_size_usd: d(50.0),
        recommended_size_usd: d(50.0),
        fee_pct: d(0.0),
        expiry_time: None,
        confidence: d(10.0),
    }
}

#[test]
fn test_opportunity_score() {
    let opp1 = opportunity(0.92, 0.02, 6.0);
    let opp2 = opportunity(0.92, 0.01, 12.0);
    assert!(f(opp1.score()) > f(opp2.score()));
}

#[test]
fn scores_and_profits_are_computed_exactly() {
    let opp = opportunity(0.92, 0.02, 6.0);
    assert_eq!(f(opp.score()), 0.02 * 100.0 + 10.0f64.min(100.0) * 1.0 + -6.0 * 0.1);
    assert_eq!(f(opp.expected_profit_usd()), 0.02 * 50.0);
}

#[test]
fn test_opportunity_edge() {
    let opp = opportunity(0.90, 0.02, 6.0);
    assert!((f(opp.edge()) - 0.05).abs() < 0.001);
}

#[test]
fn the_best_score_comes_first() {
    let ranked = rank(vec![
        opportunity(0.92, 0.01, 6.0),
        opportunity(0.92, 0.03, 6.0),
        opportunity(0.92, 0.02, 6.0),
        opportunity(0.91, 0.03, 6.0),
    ]);
    let order: Vec<(f64, f64)> =
        ranked.iter().map(|o| (f(o.ev_pct), f(o.market_price))).collect();
    assert_eq!(order, vec![(0.03, 0.92), (0.03, 0.91), (0.02, 0.92), (0.01, 0.92)]);
}

#[test]
fn test_strategy_cooldown() {
    let mut strategy = GrindingStrategy::new(GrindingConfig::default(), None);
    let clock = 1_000_000_000_000;
    assert!(!strategy.is_in_cooldown(0, clock));
    strategy.record_trade(0, clock);
    assert!(strategy.is_in_cooldown(0, clock));
    assert!(!strategy.is_in_cooldown(1, clock));
}

#[test]
fn test_full_kelly_calculation() {
    let config = KellyConfig::default();
    let size = size_of(0.95, 0.92, 1000.0, &config);
    let ev = ev_of(0.95, 0.92, 0.0);
    assert!(size > 0.0);
    assert!(ev > 0.0);
    assert!(size < 1000.0 * 0.30);
    let expected_profit = ev * size;
    assert!(expected_profit > 0.0);
    println!(
        "Kelly size: ${:.2}, EV: {:.2}%, Expected profit: ${:.2}",
        size,
        ev * 100.0,
        expected_profit
    );
}

#[test]
fn test_dynamic_threshold_table() {
    let config = GrindingConfig::default();
    let cases = [(24.0, 0.90), (12.0, 0.95), (6.0, 0.975)];
    for (hours, expected) in cases {
        let actual = threshold(&config, hours);
        assert!(
            (actual - expected).abs() < 0.001,
            "At {}h: expected {:.2}%, got {:.2}%",
            hours,
            expected * 100.0,
            actual * 100.0
        );
    }
    let threshold_1h = threshold(&config, 1.0);
    assert!(threshold_1h > 0.99, "At 1h threshold should be > 99%");
}

fn market(yes: u16, no: u16, size: u16) -> MarketSnapshot {
    MarketSnapshot {
        pair: Some(MarketPair {
            description: "Chelsea vs Arsenal".to_string(),
            poly_yes_token: "token-yes".to_string(),
            poly_no_token: "token-no".to_string(),
            kalshi_market_ticker: "KX-1".to_string(),
        }),
        kalshi: Quote { yes_ask: 0, no_ask: 0, yes_size: 0, no_size: 0 },
        poly: Quote { yes_ask: yes, no_ask: no, yes_size: size, no_size: size },
    }
}

/// A strategy whose filters are sure that yes is likely, whatever is asked for it.
fn primed() -> GrindingStrategy {
    let mut strategy = GrindingStrategy::new(GrindingConfig::aggressive(), None);
    for _ in 0..50 {
        strategy.update_probability(0, &d(0.999), &d(20.0), now());
    }
    strategy
}

#[test]
fn a_scan_finds_what_is_cheap_and_likely() {
    let mut strategy = primed();
    let markets = vec![market(90, 12, 60000)];
    let mut expiries: HashMap<u16, Timestamp> = HashMap::new();
    expiries.insert(0, Timestamp::new(1735516800 + 20 * 3600, 0).unwrap());
    let found = strategy.scan_markets(&markets, &d(1000.0), &expiries, now(), 0);
    for opp in &found {
        assert!(f(opp.ev_pct) > 0.0);
        assert!(f(opp.estimated_probability) >= f(opp.threshold));
        assert!(f(opp.recommended_size_usd) <= f(opp.liquidity_usd) + 1e-9);
    }
    let runner = GrindingRunnerConfig::default();
    let requests = requests_for_scan(&strategy, &found, &markets, &runner, now());
    assert_eq!(requests.len(), found.len().min(5));
    for request in &requests {
        assert_eq!(request.market_id, 0);
        assert!(request.token_address.is_some() || request.market_ticker.is_some());
    }
}

#[test]
fn a_market_without_a_name_is_not_scanned() {
    let mut strategy = primed();
    let mut snapshot = market(90, 12, 60000);
    snapshot.pair = None;
    let expiries: HashMap<u16, Timestamp> = HashMap::new();
    let found = strategy.scan_markets(&vec![snapshot], &d(1000.0), &expiries, now(), 0);
    assert!(found.is_empty());
}

#[test]
fn a_market_that_was_traded_is_left_alone() {
    let mut strategy = primed();
    let markets = vec![market(90, 12, 60000)];
    let expiries: HashMap<u16, Timestamp> = HashMap::new();
    let step = after_send(&mut strategy, 0, SendOutcome::Sent, 5);
    assert!(matches!(step, RunnerStep::Next));
    assert!(strategy.is_in_cooldown(0, 6));
    assert!(matches!(after_send(&mut strategy, 1, SendOutcome::Full, 5), RunnerStep::EndScan));
    assert!(!strategy.is_in_cooldown(1, 6));
    assert!(matches!(after_send(&mut strategy, 1, SendOutcome::Closed, 5), RunnerStep::Stop));
    let found = strategy.scan_markets(&markets, &d(1000.0), &expiries, now(), 6);
    assert!(found.is_empty());
}

#[test]
fn little_capital_is_not_traded() {
    assert!(tradable_capital(99).is_none());
    assert_eq!(f(tradable_capital(100).unwrap()), 1.0);
    assert_eq!(f(tradable_capital(12345).unwrap()), 123.45);
}

#[test]
fn the_value_without_a_fee_is_the_edge_over_the_price() {
    for price in [0.01, 0.1, 0.37, 0.5, 0.93, 0.99] {
        for p in [0.0, 0.005, 0.1, 0.37, 0.6, 0.95, 1.0] {
            let value = ev_of(p, price, 0.0);
            assert!((value - (p - price) / price).abs() < 1e-9);
            assert_eq!(value > 0.0, p > price);
            assert_eq!(value < 0.0, p < price);
            assert!(ev_of(p, price, 0.07) <= value);
        }
    }
    assert_eq!(ev_of(0.9, 0.0, 0.0), 0.0);
    assert_eq!(ev_of(0.9, -0.5, 0.1), 0.0);
    assert_eq!(ev_of(0.9, 1.0, 0.0), 0.0);
    assert_eq!(ev_of(0.9, 1.5, 0.1), 0.0);
}

#[test]
fn no_edge_gives_no_position() {
    let config = KellyConfig::default();
    for cents in 1..100 {
        let price = cents as f64 / 100.0;
        assert_eq!(size_of(price, price, 1e12, &config), 0.0);
        assert_eq!(size_of(price * 0.9, price, 1e12, &config), 0.0);
    }
}

#[test]
fn filters_of_a_strategy_can_be_updated_from_outside() {
    let mut strategy = GrindingStrategy::new(GrindingConfig::default(), None);
    let estimate = f(strategy.kalman_filters_mut().update(4, &d(0.9), &d(12.0), now()));
    assert_eq!(f(strategy.kalman_filters().estimate(4).unwrap()), estimate);
    assert_eq!(strategy.kalman_filters().len(), 1);
}

#[test]
fn a_scan_that_looks_at_no_market_needs_no_threshold() {
    let config = GrindingConfig { max_hours_to_expiry: d(-1.0), ..GrindingConfig::default() };
    let mut strategy = GrindingStrategy::new(config, None);
    let found = strategy.scan_markets(&vec![], &d(100.0), &HashMap::new(), now(), 0);
    assert!(found.is_empty());
}
