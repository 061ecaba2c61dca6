use prediction_market_arbitrage::binary64::Binary64;
use prediction_market_arbitrage::discord::alert::{build_embed, build_payload};
use prediction_market_arbitrage::discord::delivery::{
    check_text_slot, classify_reply, classify_text_reply, Delivery, MessageCounts, ReplyStep,
    SlotStep, DEFAULT_RETRY_AFTER, NANOS_PER_SEC,
};
use prediction_market_arbitrage::discord::{
    format_daily_summary, format_trade_alert, AlertLevel, AlertType, DailyStats, DiscordConfig,
    DiscordError, Embed, RateLimiter,
};
use prediction_market_arbitrage::time::{CivilDate, Timestamp};

fn d(x: f64) -> Binary64 {
    Binary64::from_bits(x.to_bits())
}

fn now() -> Timestamp {
    Timestamp::new(1735516800, 0).unwrap()
}

#[test]
fn test_alert_level_ordering() {
    assert!(AlertLevel::Info < AlertLevel::Warning);
    assert!(AlertLevel::Warning < AlertLevel::Critical);
}

#[test]
fn test_alert_level_colors() {
    assert_eq!(AlertLevel::Info.color(), 0x3498DB);
    assert_eq!(AlertLevel::Warning.color(), 0xF39C12);
    assert_eq!(AlertLevel::Critical.color(), 0xE74C3C);
}

#[test]
fn discord_test_config_default() {
    let config = DiscordConfig::default();
    assert!(config.webhook_url.is_none());
    assert!(config.mention_user_id.is_none());
    assert!(config.enabled);
    assert!(!config.is_active());
}

#[test]
fn test_config_is_active() {
    let mut config = DiscordConfig::default();
    assert!(!config.is_active());

    config.webhook_url = Some("https://discord.com/api/webhooks/test".to_string());
    assert!(config.is_active());

    config.enabled = false;
    assert!(!config.is_active());
}

#[test]
fn notifications_are_configured_by_variables() {
    let some = |s: &str| Some(s.to_string());
    let config = DiscordConfig::from_vars(some("https://a"), some(""), None);
    assert_eq!(config.webhook_url.as_deref(), Some("https://a"));
    assert!(config.mention_user_id.is_none());
    assert!(config.enabled);
    let config = DiscordConfig::from_vars(some(""), some("42"), some("TRUE"));
    assert!(config.webhook_url.is_none());
    assert_eq!(config.mention_user_id.as_deref(), Some("42"));
    assert!(config.enabled);
    assert!(!DiscordConfig::from_vars(None, None, some("0")).enabled);
}

fn trade() -> AlertType {
    AlertType::TradeExecuted {
        market_title: "Test".to_string(),
        side: "YES".to_string(),
        price_cents: 50,
        size_usd: d(100.0),
        strategy: "grinding".to_string(),
        platform: "polymarket".to_string(),
    }
}

fn closed(pnl: f64) -> AlertType {
    AlertType::PositionClosed {
        market_title: "Test".to_string(),
        entry_price_cents: 60,
        exit_price_cents: 40,
        pnl_usd: d(pnl),
        hold_duration: "1h".to_string(),
    }
}

#[test]
fn test_alert_type_default_level() {
    assert_eq!(trade().default_level(), AlertLevel::Info);

    let circuit_breaker = AlertType::CircuitBreakerTriggered {
        reason: "Max drawdown".to_string(),
        current_drawdown_pct: d(0.06),
        consecutive_losses: 3,
    };
    assert_eq!(circuit_breaker.default_level(), AlertLevel::Critical);

    let position_loss = closed(-10.0);
    assert_eq!(position_loss.default_level(), AlertLevel::Warning);
}

#[test]
fn test_format_trade_alert() {
    let msg = format_trade_alert("Chelsea vs Arsenal", "YES", 45, d(50.0), "grinding");
    assert!(msg.contains("Chelsea vs Arsenal"));
    assert!(msg.contains("YES"));
    assert!(msg.contains("45c"));
    assert!(msg.contains("$50.00"));
}

fn stats() -> DailyStats {
    DailyStats {
        date: CivilDate::new(2024, 12, 30).unwrap(),
        starting_capital: d(100.0),
        ending_capital: d(110.0),
        realized_pnl: d(10.0),
        trades_count: 10,
        win_count: 8,
        max_drawdown: d(0.02),
    }
}

#[test]
fn test_format_daily_summary() {
    let msg = format_daily_summary(&stats());
    assert!(msg.contains("2024-12-30"));
    assert!(msg.contains("$100.00"));
    assert!(msg.contains("$110.00"));
    assert!(msg.contains("80.0%"));
}

#[test]
fn test_daily_stats_to_alert_type() {
    let alert: AlertType = stats().into();
    match alert {
        AlertType::DailySummary { trades_count, win_count, .. } => {
            assert_eq!(trades_count, 10);
            assert_eq!(win_count, 8);
        }
        _ => panic!("Expected DailySummary"),
    }
}

#[test]
fn test_rate_limiter() {
    let mut limiter = RateLimiter::new(3, 1);
    let start = 5 * NANOS_PER_SEC;
    assert!(limiter.acquire(start));
    assert!(limiter.acquire(start));
    assert!(limiter.acquire(start));
    assert!(!limiter.acquire(start));
    assert_eq!(limiter.time_until_available(start), Some(NANOS_PER_SEC));
    assert!(limiter.acquire(start + NANOS_PER_SEC));
}

#[test]
fn a_window_never_holds_too_many_requests() {
    let mut limiter = RateLimiter::new(5, 2);
    let mut granted: Vec<u64> = Vec::new();
    for step in 0..200u64 {
        let at = step * 130_000_000;
        if limiter.acquire(at) {
            granted.push(at);
        }
    }
    for i in 5..granted.len() {
        assert!(granted[i] >= granted[i - 5] + 2 * NANOS_PER_SEC);
    }
    assert!(granted.len() > 5);
}

#[test]
fn test_notifier_creation() {
    let config = DiscordConfig {
        webhook_url: Some("https://test.com".to_string()),
        enabled: true,
        ..Default::default()
    };
    assert!(config.is_active());

    let counts = MessageCounts::new();
    assert_eq!(counts.sent, 0);
    assert_eq!(counts.failed, 0);
}

#[test]
fn test_disabled_notifier() {
    let config = DiscordConfig {
        webhook_url: Some("https://test.com".to_string()),
        enabled: false,
        ..Default::default()
    };
    assert!(!config.is_active());
    assert!(matches!(config.webhook(), Err(DiscordError::Disabled)));
    assert!(matches!(DiscordConfig::default().webhook(), Err(DiscordError::NotConfigured)));
}

#[test]
fn alerts_are_filtered_by_level_and_kind() {
    let mut config = DiscordConfig {
        webhook_url: Some("https://test.com".to_string()),
        ..Default::default()
    };
    assert!(matches!(config.destination(AlertLevel::Info, &trade()), Ok(Some(_))));
    config.min_alert_level = AlertLevel::Warning;
    assert!(matches!(config.destination(AlertLevel::Info, &trade()), Ok(None)));
    assert!(matches!(config.destination(AlertLevel::Critical, &trade()), Ok(Some(_))));
    config.alert_on_trades = false;
    assert!(matches!(config.destination(AlertLevel::Critical, &trade()), Ok(None)));
    config.enabled = false;
    assert!(matches!(config.destination(AlertLevel::Info, &trade()), Err(DiscordError::Disabled)));
}

fn fields(embed: &Embed) -> Vec<(&str, &str, bool)> {
    embed.fields.iter().map(|x| (x.name.as_str(), x.value.as_str(), x.inline)).collect()
}

#[test]
fn embeds_tell_about_trades() {
    let embed = build_embed(AlertLevel::Info, &trade(), &now());
    assert_eq!(embed.color, Some(0x3498DB));
    assert_eq!(embed.timestamp.as_deref(), Some("2024-12-30T00:00:00+00:00"));
    assert!(embed.title.unwrap().contains("Trade Executed"));
    let embed = build_embed(AlertLevel::Info, &trade(), &now());
    let all = fields(&embed);
    assert!(all.iter().any(|x| x.1.contains("YES")));
    assert!(all.iter().any(|x| x.1.contains("50c")));
    assert!(all.iter().any(|x| x.1.contains("$100.00")));
    assert!(all.iter().any(|x| x.1.contains("Polymarket")));
    assert!(all.iter().any(|x| x.1.contains("Grinding")));
}

#[test]
fn sides_and_modes_are_shown_in_capitals() {
    let alert = AlertType::TradeExecuted {
        market_title: "Test".to_string(),
        side: "yes".to_string(),
        price_cents: 50,
        size_usd: d(100.0),
        strategy: "grinding".to_string(),
        platform: "polymarket".to_string(),
    };
    let embed = build_embed(AlertLevel::Info, &alert, &now());
    assert!(fields(&embed).iter().any(|x| x.1.contains("YES")));
    let startup = AlertType::SystemStartup {
        mode: "paper".to_string(),
        capital: d(100.0),
        open_positions: 2,
    };
    let embed = build_embed(AlertLevel::Info, &startup, &now());
    assert!(embed.description.as_ref().unwrap().contains("**PAPER** mode"));
}

#[test]
fn embeds_tell_profits_from_losses() {
    let profit = build_embed(AlertLevel::Info, &closed(12.5), &now());
    assert!(profit.title.as_ref().unwrap().contains("Position Closed (Profit)"));
    assert!(fields(&profit).iter().any(|x| x.1.contains("12.50")));
    let loss = build_embed(AlertLevel::Warning, &closed(-3.25), &now());
    assert!(loss.title.as_ref().unwrap().contains("Position Closed (Loss)"));
    assert!(fields(&loss).iter().any(|x| x.1.contains("3.25")));
    assert_eq!(loss.color, Some(0xF39C12));
}

#[test]
fn critical_alerts_mention_a_user() {
    let user = Some("42".to_string());
    let payload = build_payload(&user, AlertLevel::Critical, &trade(), &now());
    assert!(payload.content.as_ref().unwrap().contains("<@42>"));
    assert_eq!(payload.embeds.len(), 1);
    let payload = build_payload(&user, AlertLevel::Warning, &trade(), &now());
    assert!(payload.content.is_none());
    let payload = build_payload(&None, AlertLevel::Critical, &trade(), &now());
    assert!(payload.content.is_none());
}

#[test]
fn every_kind_of_alert_is_built() {
    let all = vec![
        (AlertType::OpportunityFound {
            market_title: "M".to_string(),
            expected_value_pct: d(3.5),
            profit_cents: 4,
            arb_type: "Poly_YES + Kalshi_NO".to_string(),
        }, "Opportunity Found: Poly_YES + Kalshi_NO"),
        (AlertType::CircuitBreakerTriggered {
            reason: "Max drawdown".to_string(),
            current_drawdown_pct: d(0.06),
            consecutive_losses: 3,
        }, "Circuit Breaker Triggered"),
        (AlertType::Error { message: "boom".to_string(), context: Some("db".to_string()) }, "Error"),
        (stats().into(), "Daily Summary (2024-12-30)"),
        (AlertType::SystemStartup {
            mode: "paper".to_string(),
            capital: d(100.0),
            open_positions: 2,
        }, "System Started (Paper)"),
        (AlertType::SystemShutdown { reason: "bye".to_string(), final_capital: d(99.0) },
            "System Shutdown"),
        (AlertType::Custom {
            title: "Hello".to_string(),
            description: "World".to_string(),
            fields: vec![("a".to_string(), "b".to_string(), true)],
        }, "Hello"),
    ];
    for (alert, title) in all {
        let level = alert.default_level();
        let embed = build_embed(level, &alert, &now());
        assert!(embed.title.as_ref().unwrap().contains(title), "{:?}", embed.title);
        assert_eq!(embed.color, Some(level.color()));
        assert!(embed.description.is_some());
    }
}

#[test]
fn replies_are_classified() {
    assert!(classify_reply(204, "204 No Content", None, "").is_ok());
    match classify_reply(429, "429", Some(7), "slow down") {
        Err(DiscordError::RateLimited(wait)) => assert_eq!(wait, 7),
        _ => panic!("Expected a rate limit"),
    }
    match classify_reply(429, "429", None, "slow down") {
        Err(DiscordError::RateLimited(wait)) => assert_eq!(wait, DEFAULT_RETRY_AFTER),
        _ => panic!("Expected a rate limit"),
    }
    match classify_reply(404, "404 Not Found", None, "gone") {
        Err(e) => assert_eq!(
            e.message(""),
            "Webhook returned error status: Status 404 Not Found: gone"
        ),
        Ok(()) => panic!("Expected an error"),
    }
    assert!(classify_text_reply(200, "").is_ok());
    assert!(matches!(classify_text_reply(500, "x"), Err(DiscordError::WebhookError(_))));
    assert!(check_text_slot(true, None).is_ok());
    assert!(check_text_slot(false, None).is_ok());
    assert!(matches!(check_text_slot(false, Some(3)), Err(DiscordError::RateLimited(3))));
}

#[test]
fn errors_have_messages() {
    let cases = vec![
        (DiscordError::NotConfigured, "Discord notifications not configured"),
        (DiscordError::Disabled, "Discord notifications disabled"),
        (DiscordError::RateLimited(5), "Rate limited, retry after 5ns"),
        (DiscordError::Http("x".to_string()), "HTTP error: x"),
        (DiscordError::Serialization("x".to_string()), "Serialization error: x"),
        (DiscordError::MaxRetriesExceeded, "Max retries exceeded"),
    ];
    for (error, text) in cases {
        assert_eq!(error.message("5ns"), text);
    }
}

#[test]
fn deliveries_back_off_and_give_up() {
    let mut delivery = Delivery::new();
    let mut waits: Vec<u64> = Vec::new();
    let mut posts = 0;
    loop {
        if !delivery.has_attempt() {
            assert!(matches!(delivery.exhausted(), DiscordError::MaxRetriesExceeded));
            break;
        }
        assert_eq!(delivery.on_slot(true, None), SlotStep::Post);
        posts += 1;
        match delivery.on_reply(Err(DiscordError::Http("down".to_string()))) {
            ReplyStep::BackOff(ms) => waits.push(ms),
            ReplyStep::Failed(_) => break,
            _ => panic!("Expected a failure"),
        }
    }
    assert!(posts <= 4);
    assert_eq!(waits[0], 1000);
    for pair in waits.windows(2) {
        assert_eq!(pair[1], pair[0] * 2);
    }
    let mut delivery = Delivery::new();
    assert!(matches!(delivery.on_slot(false, Some(9)), SlotStep::Wait(9)));
    assert!(matches!(delivery.on_reply(Ok(())), ReplyStep::Sent));
}

#[test]
fn messages_are_counted() {
    let mut counts = MessageCounts::new();
    counts.count(true);
    counts.count(true);
    counts.count(false);
    assert_eq!((counts.sent, counts.failed), (2, 1));
}

#[test]
fn default_daily_stats_are_of_the_first_day() {
    let stats = DailyStats::default();
    assert_eq!(stats.date.to_text(), "1970-01-01");
    assert_eq!((stats.trades_count, stats.win_count), (0, 0));
    assert_eq!(stats.realized_pnl, d(0.0));
}

#[test]
fn a_delivery_counts_one_message() {
    let mut counts = MessageCounts::new();
    assert!(counts.count_ending(ReplyStep::Wait(5)).is_none());
    assert!(counts.count_ending(ReplyStep::BackOff(1000)).is_none());
    assert_eq!((counts.sent, counts.failed), (0, 0));
    assert!(matches!(counts.count_ending(ReplyStep::Sent), Some(Ok(()))));
    assert_eq!((counts.sent, counts.failed), (1, 0));
    let failed = ReplyStep::Failed(DiscordError::Http("down".to_string()));
    assert!(matches!(counts.count_ending(failed), Some(Err(DiscordError::Http(_)))));
    assert_eq!((counts.sent, counts.failed), (1, 1));
    let mut delivery = Delivery::new();
    while delivery.has_attempt() {
        delivery.on_slot(false, Some(1));
    }
    assert!(matches!(counts.count_exhausted(&delivery), DiscordError::MaxRetriesExceeded));
    assert_eq!((counts.sent, counts.failed), (1, 2));
    counts.count_text_reply(204);
    counts.count_text_reply(500);
    assert_eq!((counts.sent, counts.failed), (2, 3));
}
