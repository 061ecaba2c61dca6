use prediction_market_arbitrage::binary64::Binary64;
use prediction_market_arbitrage::paper_trading::executor::PAPER_STATE_FILE;
use prediction_market_arbitrage::paper_trading::simulation::{
    kalshi_fill, kalshi_paper_price, poly_fill, poly_paper_order, Draw,
};
use prediction_market_arbitrage::paper_trading::{
    simulate_fill, PaperCapitalTracker, PaperOrderExecutor, PaperPosition, PaperPositionLeg,
    PaperStats, SimulatedOrderbook, SimulationConfig, TradingMode,
};
use prediction_market_arbitrage::time::CivilDate;
use rand::Rng;

fn d(x: f64) -> Binary64 {
    Binary64::from_bits(x.to_bits())
}

fn f(x: Binary64) -> f64 {
    f64::from_bits(x.bits)
}

fn today() -> CivilDate {
    CivilDate::new(2024, 12, 30).unwrap()
}

const NOW: i64 = 1735516800;

fn draw(config: &SimulationConfig) -> Draw {
    let mut rng = rand::thread_rng();
    Draw {
        slippage: d(rng.gen_range(f(config.min_slippage_pct)..=f(config.max_slippage_pct))),
        fill_rate: d(rng.gen_range(f(config.fill_rate)..=1.0)),
    }
}

fn tracker(capital: f64) -> PaperCapitalTracker {
    PaperCapitalTracker::new(&d(capital), NOW, &today())
}

#[test]
fn test_trading_mode_default() {
    let mode = TradingMode::default();
    assert!(!mode.live);
    assert!(mode.is_paper());
    assert_eq!(f(mode.paper_capital), 100.0);
}

#[test]
fn trading_is_live_only_where_the_dry_run_is_off() {
    assert!(TradingMode::from_vars(None, None).is_paper());
    assert!(TradingMode::from_vars(Some("1".to_string()), None).is_paper());
    assert!(TradingMode::from_vars(Some("0".to_string()), None).is_live());
    assert!(TradingMode::from_vars(Some("FALSE".to_string()), None).is_live());
    assert!(TradingMode::from_vars(Some("no".to_string()), None).is_paper());
    let mode = TradingMode::from_vars(None, Some(d(250.0)));
    assert_eq!(f(mode.paper_capital), 250.0);
}

#[test]
fn test_simulate_fill_buy() {
    let orderbook = SimulatedOrderbook::new(49, 51, 1000, 1000);
    let config = SimulationConfig::default();
    let fill = simulate_fill("buy", 50, 10, &orderbook, &config, &draw(&config), NOW);
    assert_eq!(fill.quantity, 10);
    assert!(f(fill.price) >= 50.0);
    assert!(f(fill.price) <= 50.5);
    assert!(f(fill.slippage_applied) >= 0.0);
    assert!(f(fill.slippage_applied) <= 0.005);
}

#[test]
fn test_simulate_fill_sell() {
    let orderbook = SimulatedOrderbook::new(49, 51, 1000, 1000);
    let config = SimulationConfig::default();
    let fill = simulate_fill("sell", 50, 10, &orderbook, &config, &draw(&config), NOW);
    assert_eq!(fill.quantity, 10);
    assert!(f(fill.price) <= 50.0);
    assert!(f(fill.price) >= 49.75);
}

#[test]
fn fills_follow_the_side() {
    let orderbook = SimulatedOrderbook::new(49, 51, 1000, 1000);
    let config = SimulationConfig::default();
    let drawn = Draw { slippage: d(0.004), fill_rate: d(1.0) };
    let price =
        |side: &str| f(simulate_fill(side, 50, 10, &orderbook, &config, &drawn, NOW).price);
    assert_eq!(price("BUY"), 50.0 * 1.004);
    assert_eq!(price("Yes"), 50.0 * 1.004);
    assert_eq!(price("SELL"), 50.0 * (1.0 - 0.004));
    assert_eq!(price("no"), 50.0 * (1.0 - 0.004));
    assert_eq!(price("hold"), 50.0);
}

#[test]
fn fills_stay_between_one_and_ninety_nine_cents() {
    let config = SimulationConfig::default();
    let high = SimulatedOrderbook::new(99, 99, 10, 10);
    let low = SimulatedOrderbook::new(1, 1, 10, 10);
    let drawn = Draw { slippage: d(0.005), fill_rate: d(1.0) };
    assert_eq!(f(simulate_fill("buy", 99, 1, &high, &config, &drawn, NOW).price), 99.0);
    assert_eq!(f(simulate_fill("sell", 1, 1, &low, &config, &drawn, NOW).price), 1.0);
}

#[test]
fn partial_fills_are_rounded_down() {
    let orderbook = SimulatedOrderbook::new(49, 51, 1000, 1000);
    let mut config = SimulationConfig::default();
    let drawn = Draw { slippage: d(0.0), fill_rate: d(0.77) };
    assert_eq!(simulate_fill("buy", 50, 10, &orderbook, &config, &drawn, NOW).quantity, 10);
    config.allow_partial_fills = true;
    assert_eq!(simulate_fill("buy", 50, 10, &orderbook, &config, &drawn, NOW).quantity, 7);
}

#[test]
fn orderbooks_surround_the_limit() {
    let book = SimulatedOrderbook::from_limit(50, 10);
    assert_eq!((book.best_bid, book.best_ask, book.bid_size, book.ask_size), (49, 51, 1000, 1000));
    assert_eq!(f(book.mid_price()), 50.0);
    let book = SimulatedOrderbook::from_limit(0, 1000);
    assert_eq!((book.best_bid, book.best_ask), (1, 1));
    assert_eq!(book.bid_size, (1000i64 * 100) as u16);
    let book = SimulatedOrderbook::from_limit(u16::MAX, -7);
    assert_eq!((book.best_bid, book.best_ask), (65534, 99));
    assert_eq!(book.bid_size, (-700i64) as u16);
}

#[test]
fn test_paper_position_leg() {
    let mut leg = PaperPositionLeg::default();
    leg.add(&d(10.0), &d(0.45));
    assert_eq!(f(leg.contracts), 10.0);
    assert!((f(leg.cost_basis) - 4.5).abs() < 0.001);
    assert!((f(leg.avg_price) - 0.45).abs() < 0.001);

    leg.add(&d(10.0), &d(0.55));
    assert_eq!(f(leg.contracts), 20.0);
    assert!((f(leg.cost_basis) - 10.0).abs() < 0.001);
    assert!((f(leg.avg_price) - 0.50).abs() < 0.001);
}

#[test]
fn legs_are_reduced_at_their_average_price() {
    let mut leg = PaperPositionLeg::default();
    leg.add(&d(10.0), &d(0.5));
    assert_eq!(f(leg.remove(&d(4.0))), 2.0);
    assert_eq!(f(leg.contracts), 6.0);
    assert_eq!(f(leg.cost_basis), 3.0);
    assert_eq!(f(leg.unrealized_pnl(&d(0.75))), 1.5);
    assert_eq!(f(leg.value_if_win()), 6.0);
    assert_eq!(f(leg.profit_if_win()), 3.0);
    // No more than is held.
    assert_eq!(f(leg.remove(&d(100.0))), 3.0);
    assert_eq!(f(leg.contracts), 0.0);
    assert_eq!(f(leg.remove(&d(1.0))), 0.0);
    assert_eq!(f(leg.remove(&d(-1.0))), 0.0);
}

#[test]
fn test_paper_position_arb_profit() {
    let mut pos = PaperPosition::new("TEST", "Test Market", NOW);
    pos.poly_yes.add(&d(10.0), &d(0.45));
    pos.kalshi_no.add(&d(10.0), &d(0.50));
    assert!((f(pos.total_cost()) - 9.50).abs() < 0.001);
    assert!((f(pos.matched_contracts()) - 10.0).abs() < 0.001);
    assert!((f(pos.guaranteed_profit()) - 0.50).abs() < 0.001);
    assert!((f(pos.unmatched_exposure()) - 0.0).abs() < 0.001);
}

#[test]
fn a_matched_position_earns_its_guaranteed_profit_either_way() {
    for yes_won in [true, false] {
        let mut pos = PaperPosition::new("TEST", "Test Market", NOW);
        pos.poly_yes.add(&d(10.0), &d(0.45));
        pos.kalshi_no.add(&d(12.0), &d(0.50));
        let guaranteed = f(pos.guaranteed_profit());
        assert_eq!(f(pos.total_contracts()), 22.0);
        assert_eq!(f(pos.unmatched_exposure()), 2.0);
        assert_eq!(pos.status, "open");
        pos.resolve(yes_won);
        assert_eq!(pos.status, "resolved");
        assert!(f(pos.realized_pnl.unwrap()) >= guaranteed);
    }
}

#[test]
fn test_paper_capital_tracker() {
    let mut tracker = tracker(100.0);
    assert_eq!(f(tracker.capital), 100.0);
    assert_eq!(f(tracker.starting_capital), 100.0);

    tracker.record_fill("TEST", "Test", "polymarket", "yes", &d(10.0), &d(0.45), &d(0.0), NOW);
    assert!((f(tracker.capital) - 95.50).abs() < 0.001);

    tracker.record_pnl(&d(0.50));
    assert!((f(tracker.capital) - 96.00).abs() < 0.001);
    assert_eq!(tracker.stats.winning_trades, 1);
}

#[test]
fn fills_of_one_market_go_to_one_position() {
    let mut tracker = tracker(100.0);
    tracker.record_fill("A", "a", "Kalshi", "YES", &d(10.0), &d(0.4), &d(0.1), NOW);
    tracker.record_fill("B", "b", "kalshi", "no", &d(5.0), &d(0.5), &d(0.0), NOW);
    tracker.record_fill("A", "other", "Polymarket", "No", &d(10.0), &d(0.5), &d(0.2), NOW);
    assert_eq!(tracker.positions.len(), 2);
    let a = &tracker.positions[0];
    assert_eq!(a.market_id, "A");
    assert_eq!(a.description, "a");
    assert_eq!(f(a.kalshi_yes.contracts), 10.0);
    assert_eq!(f(a.poly_no.contracts), 10.0);
    assert_eq!(f(a.total_fees), 0.1 + 0.2);
    let (count, cost, profit) = tracker.open_positions_summary();
    assert_eq!(count, 2);
    assert!((f(cost) - 11.8).abs() < 1e-9);
    assert!((f(profit) - (10.0 - 9.3 - 2.5)).abs() < 1e-9);
    assert!(tracker.can_afford(&d(50.0)));
    assert!(!tracker.can_afford(&d(500.0)));
}

#[test]
fn fills_on_unknown_platforms_only_cost() {
    let mut tracker = tracker(100.0);
    tracker.record_fill("A", "a", "nasdaq", "yes", &d(10.0), &d(0.4), &d(1.0), NOW);
    assert_eq!(f(tracker.capital), 95.0);
    assert_eq!(f(tracker.positions[0].total_contracts()), 0.0);
    assert_eq!(f(tracker.positions[0].total_fees), 1.0);
}

#[test]
fn positions_are_resolved_by_market() {
    let mut tracker = tracker(100.0);
    tracker.record_fill("A", "a", "kalshi", "yes", &d(10.0), &d(0.4), &d(0.0), NOW);
    assert!(tracker.resolve_position("B", true).is_none());
    let pnl = tracker.resolve_position("A", true).unwrap();
    assert_eq!(f(pnl), 6.0);
    assert_eq!(f(tracker.get_capital()), 106.0);
    assert_eq!(f(tracker.total_pnl()), 6.0);
    assert_eq!(f(tracker.return_pct()), 6.0);
    assert_eq!(tracker.stats.total_trades, 1);
    assert_eq!(tracker.open_positions_summary().0, 0);
}

#[test]
fn the_total_pnl_is_that_of_the_only_position() {
    let mut tracker = tracker(100.0);
    tracker.record_fill("TEST", "Test", "polymarket", "yes", &d(10.0), &d(0.45), &d(0.0), NOW);
    assert!((f(tracker.get_capital()) - 95.5).abs() < 0.001);
    let pnl = tracker.resolve_position("TEST", true).unwrap();
    assert!((f(pnl) - 5.5).abs() < 0.001);
    assert!((f(tracker.total_pnl()) - 5.5).abs() < 0.001);
}

#[test]
fn the_cost_of_a_position_comes_back_once() {
    let mut tracker = tracker(100.0);
    tracker.record_fill("A", "a", "kalshi", "no", &d(10.0), &d(0.4), &d(1.0), NOW);
    assert_eq!(f(tracker.resolve_position("A", true).unwrap()), -5.0);
    assert_eq!(f(tracker.get_capital()), 95.0);
    assert_eq!(f(tracker.resolve_position("A", false).unwrap()), 5.0);
    assert_eq!(f(tracker.get_capital()), 100.0);
    assert_eq!(f(tracker.positions[0].realized_pnl.unwrap()), 5.0);
    assert_eq!(tracker.stats.total_trades, 2);
    tracker.record_fill("A", "a", "kalshi", "no", &d(10.0), &d(0.5), &d(0.0), NOW);
    assert_eq!(f(tracker.get_capital()), 95.0);
    assert_eq!(f(tracker.resolve_position("A", false).unwrap()), 10.0);
    assert_eq!(f(tracker.get_capital()), 105.0);
}

#[test]
fn losses_deepen_the_drawdown() {
    let mut tracker = tracker(100.0);
    tracker.record_pnl(&d(20.0));
    tracker.record_pnl(&d(-30.0));
    tracker.record_pnl(&d(10.0));
    let stats = &tracker.stats;
    assert_eq!((stats.total_trades, stats.winning_trades, stats.losing_trades), (3, 2, 1));
    assert_eq!(f(stats.peak_capital), 120.0);
    assert_eq!(f(stats.max_drawdown), 0.25);
    assert_eq!(f(stats.realized_loss), 30.0);
    assert_eq!(f(tracker.daily_pnl), 0.0);
}

#[test]
fn a_new_day_resets_the_daily_profit() {
    let mut tracker = tracker(100.0);
    tracker.record_pnl(&d(5.0));
    assert!(!tracker.start_day(&today()));
    assert_eq!(f(tracker.daily_pnl), 5.0);
    assert!(tracker.start_day(&CivilDate::new(2024, 12, 31).unwrap()));
    assert_eq!(f(tracker.daily_pnl), 0.0);
    assert_eq!(tracker.trading_date, "2024-12-31");
    tracker.record_pnl(&d(5.0));
    tracker.reset_daily(&today());
    assert_eq!(f(tracker.daily_pnl), 0.0);
    assert_eq!(tracker.trading_date, "2024-12-30");
    let fresh = PaperCapitalTracker::with_default_capital(NOW, &today());
    assert_eq!(f(fresh.capital), 100.0);
    assert_eq!(fresh.stats.started_at_secs, Some(NOW));
}

#[test]
fn test_paper_stats_calculations() {
    let mut stats = PaperStats::default();
    stats.total_trades = 10;
    stats.winning_trades = 7;
    stats.losing_trades = 3;
    stats.realized_profit = d(7.0);
    stats.realized_loss = d(3.0);
    assert!((f(stats.win_rate()) - 70.0).abs() < 0.001);
    assert!((f(stats.net_pnl()) - 4.0).abs() < 0.001);
    assert!((f(stats.profit_factor()) - 7.0 / 3.0).abs() < 0.001);
}

#[test]
fn stats_without_trades_or_losses() {
    let stats = PaperStats::default();
    assert_eq!(f(stats.win_rate()), 0.0);
    assert_eq!(f(stats.profit_factor()), f64::INFINITY);
}

#[test]
fn test_paper_executor() {
    let mut executor = PaperOrderExecutor::new(&d(100.0), NOW, &today());
    let drawn = draw(&SimulationConfig::default());
    let fill = executor.buy("kalshi", "TEST-TICKER", "yes", 50, 10, &drawn, NOW);
    assert!(fill.is_simulated);
    assert_eq!(fill.platform, "kalshi");
    assert_eq!(fill.side, "yes");
    assert!(fill.filled_contracts > 0);
}

#[test]
fn only_buys_are_recorded() {
    let mut executor = PaperOrderExecutor::new(&d(100.0), NOW, &today());
    let drawn = Draw { slippage: d(0.004), fill_rate: d(1.0) };
    let fill = executor.buy("kalshi", "T", "yes", 50, 10, &drawn, NOW);
    assert_eq!(fill.order_id, "paper_0");
    assert_eq!(fill.fill_price_cents, 50);
    assert_eq!(fill.fill_cost_cents, 502);
    assert_eq!(f(executor.get_capital()), 95.0);
    assert_eq!(executor.tracker().positions[0].description, "T");
    let fill = executor.sell("kalshi", "T", "yes", 50, 10, &drawn, NOW);
    assert_eq!(fill.order_id, "paper_1");
    assert_eq!(fill.fill_cost_cents, 498);
    assert_eq!(f(executor.get_capital()), 95.0);
    assert!(executor.is_paper());
    assert_eq!(executor.next_order_id(), "paper_2");
    assert_eq!(PAPER_STATE_FILE, "paper_trading_state.json");
}

#[test]
fn live_fills_are_converted() {
    let fill = kalshi_fill("k1".to_string(), "no", 3, Some(100), Some(50), NOW);
    assert_eq!((fill.fill_cost_cents, fill.fill_price_cents), (150, 50));
    assert_eq!((fill.platform.as_str(), fill.side.as_str()), ("kalshi", "no"));
    assert!(!fill.is_simulated);
    let fill = kalshi_fill("k2".to_string(), "no", 0, None, Some(50), NOW);
    assert_eq!((fill.fill_cost_cents, fill.fill_price_cents), (50, 0));
    let fill = kalshi_fill("k3".to_string(), "no", 3, Some(-100), None, NOW);
    assert_eq!(fill.fill_price_cents, (-100i64 / 3) as u16);

    let fill = poly_fill("p1".to_string(), &d(12.7), &d(5.08), NOW);
    assert_eq!(fill.filled_contracts, 12);
    assert_eq!(fill.fill_cost_cents, (5.08f64 * 100.0) as i64);
    assert_eq!(fill.fill_price_cents, ((5.08f64 / 12.7) * 100.0) as u16);
    let fill = poly_fill("p2".to_string(), &d(0.0), &d(5.08), NOW);
    assert_eq!(fill.fill_price_cents, 0);

    assert_eq!(poly_paper_order(&d(0.455), &d(10.9)), ((0.455f64 * 100.0).round() as u16, 10));
    assert_eq!(kalshi_paper_price(45), 45);
    assert_eq!(kalshi_paper_price(70000), 70000i64 as u16);
    assert_eq!(kalshi_paper_price(-1), u16::MAX);
}

#[test]
fn the_guaranteed_profit_is_that_of_the_worse_outcome() {
    for (yes, no) in [(10.0, 12.0), (12.0, 10.0), (10.0, 10.0), (3.0, 0.0)] {
        let mut pos = PaperPosition::new("TEST", "Test Market", NOW);
        pos.poly_yes.add(&d(yes), &d(0.45));
        pos.kalshi_no.add(&d(no), &d(0.50));
        let guaranteed = f(pos.guaranteed_profit());
        let (mut won, mut lost) = (pos.clone(), pos.clone());
        won.resolve(true);
        lost.resolve(false);
        let worse = f(won.realized_pnl.unwrap()).min(f(lost.realized_pnl.unwrap()));
        assert_eq!(guaranteed, worse);
    }
}

#[test]
fn a_default_position_is_empty() {
    let pos = PaperPosition::default();
    assert_eq!((pos.market_id.as_str(), pos.status.as_str()), ("", ""));
    assert_eq!(f(pos.total_cost()), 0.0);
    assert!(pos.realized_pnl.is_none());
}

#[test]
fn modes_are_compared_by_value() {
    let mode = |x: f64| TradingMode { live: false, paper_capital: d(x) };
    assert!(mode(0.0) == mode(-0.0));
    assert!(mode(f64::NAN) != mode(f64::NAN));
    assert!(mode(1.0) != mode(2.0));
    assert!(mode(1.0) != TradingMode { live: true, paper_capital: d(1.0) });
}
