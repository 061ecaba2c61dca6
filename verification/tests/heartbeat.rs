use prediction_market_arbitrage::binary64::Binary64;
use prediction_market_arbitrage::discord::AlertType;
use prediction_market_arbitrage::heartbeat::{observe, report, MarketTick};
use prediction_market_arbitrage::kalman::MarketFilterMap;
use prediction_market_arbitrage::market::Quote;
use prediction_market_arbitrage::time::Timestamp;

fn f(x: Binary64) -> f64 {
    f64::from_bits(x.bits)
}

fn quote(yes: u16, no: u16) -> Quote {
    Quote { yes_ask: yes, no_ask: no, yes_size: 100, no_size: 100 }
}

fn tick(id: u16, kalshi: (u16, u16), poly: (u16, u16)) -> MarketTick {
    MarketTick {
        market_id: id,
        description: Some(format!("Market {id}")),
        kalshi: quote(kalshi.0, kalshi.1),
        poly: quote(poly.0, poly.1),
        yes_fee: 2,
        no_fee: 2,
    }
}

#[test]
fn the_cheapest_pair_is_reported() {
    let ticks = vec![
        tick(0, (60, 45), (50, 48)),
        tick(1, (45, 50), (40, 45)),
        tick(2, (0, 45), (50, 48)),
        tick(3, (50, 40), (50, 40)),
        tick(4, (0, 0), (0, 0)),
    ];
    let r = report(&ticks, 95, 7);
    assert_eq!((r.market_count, r.with_kalshi, r.with_poly, r.with_both), (5, 4, 4, 3));
    let best = r.best.as_ref().unwrap();
    assert_eq!(best.market_id, 1);
    assert_eq!(best.cost, 92);
    // Both pairs cost 92, so yes is bought on Polymarket.
    assert!(best.is_poly_yes);
    assert_eq!(best.leg_breakdown(), "P_yes(40c) + K_no(50c) + K_fee(2c) = 92c");
    assert_eq!(best.gap_cents(95), -3);
    assert_eq!(
        best.report_line(95),
        "   Best opportunity: Market 1 | P_yes(40c) + K_no(50c) + K_fee(2c) = 92c | gap=-3c | \
         [Poly_yes=40c Kalshi_no=50c Kalshi_yes=45c Poly_no=45c]"
    );
    assert_eq!(
        r.summary_line(95),
        "System heartbeat | Markets: 5 total, 4 with Kalshi prices, 4 with Polymarket prices, \
         3 with both | threshold=95c"
    );
    let ids: Vec<&str> = r.opportunities.iter().map(|o| o.id.as_str()).collect();
    // Markets 1 and 3 cost the same and keep their order.
    assert_eq!(ids, vec!["arb-1", "arb-3", "arb-0"]);
    assert_eq!(f(r.opportunities[0].expected_value), (100.0 - 92.0) / 92.0 * 100.0);
    assert_eq!(r.opportunities[0].platform, "Poly→Kalshi");
    assert_eq!(f(r.opportunities[0].probability), 0.4);
    assert_eq!(r.opportunities[0].timestamp, 7);
}

#[test]
fn profitable_pairs_raise_an_alert() {
    let ticks = vec![tick(1, (44, 60), (45, 45))];
    let r = report(&ticks, 95, 7);
    let best = r.best.unwrap();
    assert!(!best.is_poly_yes);
    assert_eq!(best.leg_breakdown(), "K_yes(44c) + P_no(45c) + K_fee(2c) = 91c");
    match best.alert(95) {
        Some(AlertType::OpportunityFound { expected_value_pct, profit_cents, arb_type, .. }) => {
            assert_eq!(f(expected_value_pct), 4.0);
            assert_eq!(profit_cents, 4);
            assert_eq!(arb_type, "Kalshi_YES + Poly_NO");
        }
        _ => panic!("Expected an opportunity"),
    }
    assert!(best.alert(90).is_none());
    assert_eq!(
        best.report_line(80),
        "   Best opportunity: Market 1 | K_yes(44c) + P_no(45c) + K_fee(2c) = 91c | gap=+11c \
         (market efficient)"
    );
}

#[test]
fn expensive_pairs_lose() {
    let mut ticks = vec![tick(1, (55, 50), (50, 60))];
    ticks[0].description = None;
    let r = report(&ticks, 95, 7);
    assert_eq!(r.opportunities[0].market_title, "Unknown");
    assert_eq!(f(r.opportunities[0].expected_value), -(102.0 - 100.0) / 100.0 * 100.0);
    // More than ten cents above the threshold is not shown.
    assert!(report(&ticks, 91, 7).opportunities.is_empty());
}

#[test]
fn at_most_ten_opportunities_are_shown() {
    let ticks: Vec<MarketTick> =
        (0..25).map(|i| tick(i, (45, 60 - i), (40, 60))).collect();
    let r = report(&ticks, 95, 7);
    assert_eq!(r.opportunities.len(), 10);
    assert_eq!(r.opportunities[0].id, "arb-24");
    for pair in r.opportunities.windows(2) {
        assert!(f(pair[0].expected_value) >= f(pair[1].expected_value));
    }
}

#[test]
fn costs_that_do_not_fit_are_recognised() {
    assert!(tick(1, (45, 50), (40, 45)).is_in_range(95));
    assert!(!tick(1, (60000, 50), (40, 60000)).is_in_range(95));
    assert!(tick(1, (60000, 0), (40, 60000)).is_in_range(95));
}

#[test]
fn quotes_update_the_filters() {
    let mut filters = MarketFilterMap::default();
    let now = Timestamp::new(1735516800, 0).unwrap();
    observe(&mut filters, &tick(1, (0, 0), (45, 0)), now);
    assert!(filters.is_empty());
    observe(&mut filters, &tick(1, (0, 0), (46, 58)), now);
    assert_eq!(f(filters.estimate(1).unwrap()), (46.0 + 42.0) / 2.0 / 100.0);
}
