use prediction_market_arbitrage::binary64::Binary64;
use prediction_market_arbitrage::dashboard::control::{
    api_config_update, api_kill_switch, api_mode, health_check, KillSwitchRequest, ModeRequest,
};
use prediction_market_arbitrage::dashboard::pages::{
    render_analytics, render_history_table, render_opportunities_table, render_positions_table,
    render_settings,
};
use prediction_market_arbitrage::dashboard::sse::{
    after_reception, format_sse_event, frame, Reception, StreamStep, HEARTBEAT_INTERVAL_SECS,
    KEEP_ALIVE_SECS, STATS_INTERVAL_SECS,
};
use prediction_market_arbitrage::dashboard::state::{
    ConfigUpdate, DashboardEvent, DashboardStats, DisplayPosition, OpenPosition, Opportunity,
    PnlDataPoint, PositionsSummary, SystemConfig, SystemStatus, TradingMode,
};
use prediction_market_arbitrage::dashboard::{DashboardConfig, DashboardState};

fn d(x: f64) -> Binary64 {
    Binary64::from_bits(x.to_bits())
}

fn f(x: Binary64) -> f64 {
    f64::from_bits(x.bits)
}

#[test]
fn test_render_empty_positions() {
    let result = render_positions_table(&[]);
    assert!(result.contains("No open positions"));
}

#[test]
fn test_render_empty_opportunities() {
    let result = render_opportunities_table(&[]);
    assert!(result.contains("Scanning for opportunities"));
}

#[test]
fn test_default_config() {
    let config = DashboardConfig::default();
    assert_eq!(config.port, 8080);
    assert_eq!(config.host, "127.0.0.1");
    assert!(config.enable_cors);
}

#[test]
fn the_server_is_configured_by_variables() {
    let some = |s: &str| Some(s.to_string());
    let config = DashboardConfig::from_vars(some("9000"), some("0.0.0.0"), some("www"), some("0"));
    assert_eq!(config.port, 9000);
    assert_eq!(config.static_dir, "www");
    assert!(!config.enable_cors);
    assert_eq!(config.address(), "0.0.0.0:9000");
    for text in ["", "-0", "65536", "abc", "80 "] {
        assert!(text.parse::<u16>().is_err());
        assert_eq!(DashboardConfig::from_vars(some(text), None, None, None).port, 8080);
    }
    for text in ["+80", "0", "65535", "0080"] {
        let port: u16 = text.parse().unwrap();
        assert_eq!(DashboardConfig::from_vars(some(text), None, None, None).port, port);
    }
    let config = DashboardConfig::from_vars(None, None, None, some("True"));
    assert!(config.enable_cors);
    assert_eq!(config.address(), "127.0.0.1:8080");
}

#[test]
fn test_format_sse_event() {
    let result = format_sse_event("test", r#"{"key": "value"}"#);
    assert!(result.contains("event: test"));
    assert!(result.contains("data: {\"key\": \"value\"}"));
}

#[test]
fn test_dashboard_state_creation() {
    let state = DashboardState::new();
    assert_eq!(f(state.get_current_capital()), 100.0);
    assert_eq!(f(state.get_starting_capital()), 100.0);
}

#[test]
fn test_capital_updates() {
    let mut state = DashboardState::new();
    state.set_current_capital(&d(150.0));
    assert_eq!(f(state.get_current_capital()), 150.0);
    assert_eq!(f(state.get_high_water_mark()), 150.0);
}

#[test]
fn test_drawdown_calculation() {
    let mut state = DashboardState::new();
    state.set_current_capital(&d(150.0));
    state.set_current_capital(&d(120.0));
    let drawdown = f(state.get_drawdown_percent());
    assert!((drawdown - 20.0).abs() < 0.01);
}

#[test]
fn drawdowns_lie_between_zero_and_a_hundred() {
    let mut state = DashboardState::with_components(&d(0.0));
    assert_eq!(f(state.get_drawdown_percent()), 0.0);
    state.set_current_capital(&d(33.33));
    assert_eq!(f(state.get_drawdown_percent()), 0.0);
    state.set_current_capital(&d(-5.0));
    assert_eq!(state.current_capital_cents, 0);
    assert_eq!(f(state.get_drawdown_percent()), 100.0);
}

#[test]
fn test_kill_switch() {
    let mut state = DashboardState::new();
    assert!(!state.kill_switch_active);

    let events = state.activate_kill_switch();
    assert!(state.kill_switch_active);
    assert_eq!(state.system_status, SystemStatus::Halted);
    assert_eq!(events.len(), 2);
    assert_eq!(events[0].event_type(), "status");
    assert_eq!(events[1].event_type(), "alert");

    state.deactivate_kill_switch();
    assert!(!state.kill_switch_active);
    assert_eq!(state.system_status, SystemStatus::Running);
}

#[test]
fn test_trading_mode() {
    let mut state = DashboardState::new();
    assert_eq!(state.trading_mode, TradingMode::Paper);
    state.set_trading_mode(TradingMode::Live);
    assert_eq!(state.trading_mode, TradingMode::Live);
}

#[test]
fn the_kill_switch_is_controlled_by_requests() {
    let mut state = DashboardState::default();
    let request = |action: &str| KillSwitchRequest { action: action.to_string() };
    let (response, events) = api_kill_switch(&mut state, &request("activate"));
    assert!(response.success && response.active);
    assert_eq!(response.message, "Kill switch activated - all trading halted");
    assert_eq!(events.len(), 2);
    let (response, events) = api_kill_switch(&mut state, &request("Deactivate"));
    assert!(!response.success && response.active);
    assert_eq!(response.message, "Invalid action. Use 'activate' or 'deactivate'");
    assert!(events.is_empty());
    let (response, _) = api_kill_switch(&mut state, &request("deactivate"));
    assert!(response.success && !response.active);
    assert_eq!(response.message, "Kill switch deactivated - trading resumed");
}

#[test]
fn the_mode_is_controlled_by_requests() {
    let mut state = DashboardState::new();
    let request = |mode: &str| ModeRequest { mode: mode.to_string() };
    let (response, event) = api_mode(&mut state, &request("LIVE"));
    assert!(response.success);
    assert_eq!(response.mode, "live");
    assert_eq!(response.message, "Switched to live trading mode - BE CAREFUL!");
    match event {
        Some(DashboardEvent::Status { mode, .. }) => assert_eq!(mode, TradingMode::Live),
        _ => panic!("Expected a status"),
    }
    let (response, event) = api_mode(&mut state, &request("test"));
    assert!(!response.success);
    assert_eq!(response.mode, "live");
    assert_eq!(response.message, "Invalid mode. Use 'paper' or 'live'");
    assert!(event.is_none());
    let (response, _) = api_mode(&mut state, &request("Paper"));
    assert_eq!((response.mode.as_str(), state.trading_mode), ("paper", TradingMode::Paper));
}

#[test]
fn updates_are_restricted_to_their_ranges() {
    let mut state = DashboardState::new();
    let none = ConfigUpdate {
        max_drawdown_pct: None,
        base_probability_threshold: None,
        max_hours_to_expiry: None,
        kelly_multiplier: None,
        min_liquidity_usd: None,
    };
    let (response, event) = api_config_update(&mut state, &none);
    assert!(response.success);
    assert_eq!(response.config, SystemConfig::default());
    assert_eq!(response.message, "Configuration updated successfully");
    assert_eq!(event.event_type(), "alert");
    let high = ConfigUpdate {
        max_drawdown_pct: Some(d(9.0)),
        base_probability_threshold: Some(d(9.0)),
        max_hours_to_expiry: Some(d(999.0)),
        kelly_multiplier: Some(d(9.0)),
        min_liquidity_usd: Some(d(99999.0)),
    };
    let config = api_config_update(&mut state, &high).0.config;
    assert_eq!(f(config.max_drawdown_pct), 0.5);
    assert_eq!(f(config.base_probability_threshold), 0.99);
    assert_eq!(f(config.max_hours_to_expiry), 168.0);
    assert_eq!(f(config.kelly_multiplier), 1.0);
    assert_eq!(f(config.min_liquidity_usd), 10000.0);
    let low = ConfigUpdate {
        max_drawdown_pct: Some(d(0.0)),
        base_probability_threshold: Some(d(0.0)),
        max_hours_to_expiry: Some(d(0.0)),
        kelly_multiplier: Some(d(0.3)),
        min_liquidity_usd: None,
    };
    let config = api_config_update(&mut state, &low).0.config;
    assert_eq!(f(config.max_drawdown_pct), 0.01);
    assert_eq!(f(config.base_probability_threshold), 0.5);
    assert_eq!(f(config.max_hours_to_expiry), 1.0);
    assert_eq!(f(config.kelly_multiplier), 0.3);
    assert_eq!(f(config.min_liquidity_usd), 10000.0);
}

#[test]
fn health_is_reported() {
    let health = health_check("2.0.0", 17);
    assert_eq!((health.status.as_str(), health.version.as_str()), ("healthy", "2.0.0"));
    assert_eq!(health.uptime_secs, 17);
}

fn summary() -> PositionsSummary {
    PositionsSummary {
        open_positions: 2,
        resolved_positions: 3,
        total_cost_basis: d(42.0),
        daily_pnl: d(-5.0),
        all_time_pnl: d(30.0),
    }
}

fn open_position() -> OpenPosition {
    OpenPosition {
        market_id: "m1".to_string(),
        description: "A <b> market".to_string(),
        total_cost: d(9.5),
        guaranteed_profit: d(0.5),
        matched_contracts: d(10.0),
    }
}

#[test]
fn stats_sum_up_the_state() {
    let mut state = DashboardState::with_components(&d(200.0));
    state.set_current_capital(&d(250.0));
    state.set_current_capital(&d(225.0));
    let stats = state.get_stats(&summary());
    assert_eq!(f(stats.current_capital), 225.0);
    assert_eq!(f(stats.starting_capital), 200.0);
    assert_eq!(f(stats.high_water_mark), 250.0);
    assert_eq!(f(stats.today_pnl_percent), -5.0 / 200.0 * 100.0);
    assert_eq!(f(stats.all_time_pnl_percent), 30.0 / 200.0 * 100.0);
    assert_eq!(f(stats.drawdown_percent), (250.0 - 225.0) / 250.0 * 100.0);
    assert_eq!((stats.open_positions_count, stats.total_trades), (2, 5));
    assert_eq!(f(stats.win_rate), 50.0);
    assert_eq!(f(stats.open_positions_value), 42.0);
    assert!(stats.exposure_by_category.is_empty());
    let none = PositionsSummary { resolved_positions: 0, ..summary() };
    assert_eq!(f(state.get_stats(&none).win_rate), 0.0);
    let broke = DashboardState::with_components(&d(0.0));
    assert_eq!(f(broke.get_stats(&summary()).all_time_pnl_percent), 0.0);
}

#[test]
fn positions_are_displayed_per_matched_pair() {
    let shown = DashboardState::get_display_positions(&vec![open_position()]);
    assert_eq!(shown.len(), 1);
    assert_eq!(f(shown[0].entry_price), 0.95);
    assert_eq!(f(shown[0].current_price), 1.0);
    assert_eq!(f(shown[0].pnl_percent), 0.5 / 9.5 * 100.0);
    assert_eq!((shown[0].platform.as_str(), shown[0].side.as_str()), ("multi", "arb"));
    let unmatched = OpenPosition { matched_contracts: d(0.0), total_cost: d(0.0), ..open_position() };
    let shown = DashboardState::get_display_positions(&vec![unmatched]);
    assert_eq!(f(shown[0].entry_price), 0.0);
    assert_eq!(f(shown[0].pnl_percent), 0.0);
}

fn point(i: i64) -> PnlDataPoint {
    PnlDataPoint {
        timestamp: i,
        date: format!("day-{i}"),
        cumulative_pnl: d(i as f64 - 2.5),
        daily_pnl: d(1.0 - i as f64),
    }
}

#[test]
fn the_history_keeps_a_year() {
    let mut state = DashboardState::new();
    for i in 0..400 {
        state.add_pnl_datapoint(point(i));
    }
    let history = state.get_pnl_history();
    assert_eq!(history.len(), 365);
    assert_eq!(history[0].timestamp, 35);
    assert_eq!(history[364].timestamp, 399);
}

fn opportunity(ev: f64) -> Opportunity {
    Opportunity {
        id: "arb-1".to_string(),
        market_title: "Tom & Jerry".to_string(),
        strategy: "grinding".to_string(),
        expected_value: d(ev),
        kelly_size: d(12.345),
        probability: d(0.955),
        expiry_hours: d(6.25),
        platform: "Kalshi".to_string(),
        timestamp: 7,
    }
}

#[test]
fn clients_are_sent_the_whole_state_first() {
    let mut state = DashboardState::new();
    let event = state.update_opportunities(vec![opportunity(0.01)]);
    match event {
        DashboardEvent::Opportunities(list) => assert_eq!(list[0].market_title, "Tom & Jerry"),
        _ => panic!("Expected opportunities"),
    }
    let events = state.initial_events(&summary(), &vec![open_position()]);
    let names: Vec<&str> = events.iter().map(|e| e.event_type()).collect();
    assert_eq!(names, vec!["stats", "positions", "opportunities", "status"]);
    let tagged: Vec<bool> = events.iter().map(|e| e.is_sent_with_tag()).collect();
    assert_eq!(tagged, vec![false, false, false, true]);
    assert_eq!(state.stats_events(&summary(), &vec![]).len(), 2);
    assert_eq!((STATS_INTERVAL_SECS, HEARTBEAT_INTERVAL_SECS, KEEP_ALIVE_SECS), (5, 30, 15));
}

#[test]
fn streams_go_on_until_the_channel_is_closed() {
    let state = DashboardState::new();
    let price = DashboardEvent::PriceUpdate {
        market_id: "m".to_string(),
        platform: "Kalshi".to_string(),
        price: d(0.5),
    };
    assert_eq!(price.event_type(), "price_update");
    assert!(matches!(after_reception(Reception::Event(state.status_event())), StreamStep::Send(_)));
    assert!(matches!(after_reception(Reception::Lagged(3)), StreamStep::Receive));
    assert!(matches!(after_reception(Reception::Closed), StreamStep::End));
    assert!(frame("alert", None).is_none());
    let sent = frame("alert", Some("{}".to_string())).unwrap();
    assert_eq!((sent.event_type, sent.data.as_str()), ("alert", "{}"));
}

fn position(pnl: f64) -> DisplayPosition {
    DisplayPosition {
        id: "m1".to_string(),
        market: "A <b> market".to_string(),
        platform: "multi".to_string(),
        side: "arb".to_string(),
        entry_price: d(0.95),
        current_price: d(1.0),
        quantity: d(10.0),
        pnl: d(pnl),
        pnl_percent: d(pnl * 10.0),
    }
}

#[test]
fn positions_are_rendered_as_rows() {
    let html = render_positions_table(&[position(0.5), position(-1.25)]);
    assert!(html.contains(">A &lt;b&gt; market</td>"));
    assert!(html.contains("text-gray-900 text-right\">95.0c</td>"));
    assert!(html.contains("text-gray-900 text-right\">100.0c</td>"));
    assert!(html.contains("text-gray-900 text-right\">10</td>"));
    assert!(html.contains("text-green-600 text-right font-medium\">+$0.50 (+5.0%)</td>"));
    assert!(html.contains("text-red-600 text-right font-medium\">$1.25 (12.5%)</td>"));
    assert!(html.ends_with("</tbody></table>"));
    assert_eq!(html.matches("<tr class=\"hover:bg-gray-50\">").count(), 2);
}

#[test]
fn opportunities_are_rendered_as_rows() {
    let html = render_opportunities_table(&[
        opportunity(0.02),
        opportunity(0.015),
        opportunity(0.001),
    ]);
    assert!(html.contains(">Tom &amp; Jerry</td>"));
    assert!(html.contains("text-sm text-green-600 font-bold text-right\">2.00%</td>"));
    assert!(html.contains("text-sm text-green-600 text-right\">1.50%</td>"));
    assert!(html.contains("text-sm text-yellow-600 text-right\">0.10%</td>"));
    assert!(html.contains(&format!("text-right\">{:.1}%</td>", 0.955 * 100.0)));
    assert!(html.contains(&format!("text-right\">${:.2}</td>", 12.345)));
    assert!(html.contains(&format!("text-right\">{:.1}h</td>", 6.25)));
}

#[test]
fn the_history_is_rendered_latest_first() {
    assert!(render_history_table(&[]).contains("No trading history yet"));
    let points: Vec<PnlDataPoint> = (0..40).map(point).collect();
    let html = render_history_table(&points);
    assert_eq!(html.matches("hover:bg-gray-50").count(), 30);
    assert!(html.find("day-39").unwrap() < html.find("day-38").unwrap());
    assert!(html.contains("day-10<"));
    assert!(!html.contains("day-9<"));
    assert!(html.contains("text-red-600 text-right\">$38.00</td>"));
    assert!(html.contains("text-green-600 text-right font-medium\">+$36.50</td>"));
}

#[test]
fn analytics_show_a_chart() {
    let state = DashboardState::new();
    let stats = state.get_stats(&summary());
    let html = render_analytics(&stats, &[point(1), point(2)]);
    assert!(html.contains("labels: [\"day-1\", \"day-2\"],"));
    assert!(html.contains("data: [-1.50, -0.50],"));
    assert!(html.contains("text-gray-900\">5</div>"));
    assert!(html.contains("text-gray-900\">50.0%</div>"));
    assert!(html.contains("text-red-600\">0.00%</div>"));
    assert!(html.contains("text-green-600\">$100.00</div>"));
    assert!(html.contains("new Chart(ctx, {\n"));
    assert!(!html.contains("{{"));
}

#[test]
fn settings_show_the_configuration() {
    let html = render_settings(&SystemConfig::default(), TradingMode::Live);
    assert!(html.contains("<option value=\"paper\" >Paper Trading</option>"));
    assert!(html.contains("<option value=\"live\" selected>Live Trading</option>"));
    assert!(html.contains("name=\"max_drawdown_pct\" value=\"5\" min=\"1\""));
    assert!(html.contains("name=\"kelly_multiplier\" value=\"0.50\" min=\"0.1\""));
    assert!(html.contains("name=\"base_probability_threshold\" value=\"90\" min=\"50\""));
    assert!(html.contains("name=\"max_hours_to_expiry\" value=\"24\" min=\"1\""));
    assert!(html.contains("name=\"min_liquidity_usd\" value=\"10\" min=\"1\""));
    assert!(html.contains("js:{mode: document"));
}

#[test]
fn the_two_drawdowns_agree() {
    for (high, current) in [(250.0, 225.0), (100.0, 33.33), (0.03, 0.01), (1e12, 0.07), (7.0, 7.0)] {
        let mut state = DashboardState::with_components(&d(high));
        state.set_current_capital(&d(current));
        let from_dollars = f(state.get_stats(&summary()).drawdown_percent);
        assert!((from_dollars - f(state.get_drawdown_percent())).abs() < 1e-9);
    }
    let broke = DashboardState::with_components(&d(0.0));
    assert_eq!(f(broke.get_stats(&summary()).drawdown_percent), 0.0);
}

#[test]
fn default_stats_are_all_zero() {
    let stats = DashboardStats::default();
    assert_eq!(f(stats.current_capital), 0.0);
    assert_eq!((stats.open_positions_count, stats.total_trades), (0, 0));
    assert!(stats.exposure_by_category.is_empty());
}
