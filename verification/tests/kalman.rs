use prediction_market_arbitrage::binary64::Binary64;
use prediction_market_arbitrage::kalman::filter::to_probability;
use prediction_market_arbitrage::kalman::fusion::{
    fuse_estimates, fuse_two_platforms, Platform, PlatformObservation,
};
use prediction_market_arbitrage::kalman::{
    hours_to_expiry, hours_to_expiry_from_timestamp, KalmanConfig, KalmanFilter, KalmanState,
    MarketFilterMap,
};
use prediction_market_arbitrage::time::Timestamp;

fn d(x: f64) -> Binary64 {
    Binary64::from_bits(x.to_bits())
}

fn f(x: Binary64) -> f64 {
    f64::from_bits(x.bits)
}

fn now() -> Timestamp {
    Timestamp::new(1735516800, 0).unwrap()
}

fn new_filter(estimate: f64, config: &KalmanConfig) -> KalmanFilter {
    KalmanFilter::new(&d(estimate), config, now())
}

fn update(filter: &mut KalmanFilter, price: f64, hours: f64, config: &KalmanConfig) -> f64 {
    f(filter.update(&d(price), &d(hours), config, now()))
}

fn process_noise(config: &KalmanConfig, hours: f64) -> f64 {
    f(config.calculate_process_noise(&d(hours)))
}

#[test]
fn test_config_default_values() {
    let config = KalmanConfig::default();
    assert_eq!(f(config.initial_variance), 0.1);
    assert_eq!(f(config.measurement_noise), 0.01);
    assert_eq!(f(config.base_process_noise), 0.001);
    assert_eq!(f(config.expiry_noise_multiplier), 10.0);
    assert_eq!(f(config.max_hours_for_scaling), 24.0);
}

#[test]
fn test_process_noise_at_24_hours() {
    let config = KalmanConfig::default();
    let noise = process_noise(&config, 24.0);
    assert!((noise - 0.001).abs() < 1e-10);
}

#[test]
fn test_process_noise_at_12_hours() {
    let config = KalmanConfig::default();
    let noise = process_noise(&config, 12.0);
    let expected = 0.001 * 6.0;
    assert!((noise - expected).abs() < 1e-10);
}

#[test]
fn test_process_noise_at_6_hours() {
    let config = KalmanConfig::default();
    let noise = process_noise(&config, 6.0);
    let expected = 0.001 * 8.5;
    assert!((noise - expected).abs() < 1e-10);
}

#[test]
fn test_process_noise_at_1_hour() {
    let config = KalmanConfig::default();
    let noise = process_noise(&config, 1.0);
    let expected = 0.001 * (1.0 + 10.0 * (23.0 / 24.0));
    assert!((noise - expected).abs() < 1e-10);
}

#[test]
fn test_process_noise_at_0_hours() {
    let config = KalmanConfig::default();
    let noise = process_noise(&config, 0.0);
    let expected = 0.001 * 11.0;
    assert!((noise - expected).abs() < 1e-10);
}

#[test]
fn test_process_noise_beyond_max_hours() {
    let config = KalmanConfig::default();
    let noise = process_noise(&config, 48.0);
    assert!((noise - 0.001).abs() < 1e-10);
}

#[test]
fn test_process_noise_negative_hours() {
    let config = KalmanConfig::default();
    let noise = process_noise(&config, -5.0);
    let expected = 0.001 * 11.0;
    assert!((noise - expected).abs() < 1e-10);
}

#[test]
fn process_noise_grows_towards_expiry() {
    for config in [
        KalmanConfig::default(),
        KalmanConfig::high_frequency(),
        KalmanConfig::low_frequency(),
        KalmanConfig::stable_market(),
        KalmanConfig::volatile_market(),
    ] {
        let mut last = process_noise(&config, 30.0);
        assert_eq!(last, f(config.base_process_noise));
        for step in 0..60 {
            let noise = process_noise(&config, 29.5 - step as f64 * 0.5);
            assert!(noise >= last);
            last = noise;
        }
    }
}

#[test]
fn test_state_new() {
    let config = KalmanConfig::default();
    let state = KalmanState::new(&d(0.5), &config, now());
    assert_eq!(f(state.estimate), 0.5);
    assert_eq!(f(state.variance), 0.1);
    assert_eq!(state.update_count, 0);
}

#[test]
fn test_state_clamps_estimate() {
    let config = KalmanConfig::default();
    let state1 = KalmanState::new(&d(1.5), &config, now());
    assert_eq!(f(state1.estimate), 1.0);
    let state2 = KalmanState::new(&d(-0.5), &config, now());
    assert_eq!(f(state2.estimate), 0.0);
}

#[test]
fn test_state_confidence() {
    let config = KalmanConfig::default();
    let state = KalmanState::new(&d(0.5), &config, now());
    assert!((f(state.confidence()) - 10.0).abs() < 1e-10);
}

#[test]
fn states_grow_stale() {
    let config = KalmanConfig::default();
    let state = KalmanState::new(&d(0.5), &config, now());
    let later = Timestamp::new(1735516900, 0).unwrap();
    assert!(!state.is_stale(100, &later));
    assert!(state.is_stale(99, &later));
}

#[test]
fn test_filter_new() {
    let config = KalmanConfig::default();
    let filter = new_filter(0.5, &config);
    assert_eq!(f(filter.estimate()), 0.5);
    assert_eq!(f(filter.variance()), 0.1);
}

#[test]
fn test_filter_single_update() {
    let config = KalmanConfig::default();
    let mut filter = new_filter(0.5, &config);
    let new_estimate = update(&mut filter, 0.6, 24.0, &config);
    assert!(new_estimate > 0.5);
    assert!(new_estimate < 0.6);
    assert!(f(filter.variance()) < f(config.initial_variance));
}

#[test]
fn an_update_is_computed_exactly() {
    let config = KalmanConfig::default();
    let mut filter = new_filter(0.5, &config);
    let estimate = update(&mut filter, 0.6, 24.0, &config);
    let predicted: f64 = 0.1 + 0.001 * (1.0 + 10.0 * (1.0 - 24.0 / 24.0));
    let gain = predicted / (predicted + 0.01);
    assert_eq!(estimate, 0.5 + gain * (0.6 - 0.5));
    assert!((f(filter.variance()) - (1.0 - gain) * predicted).abs() < 1e-15);
}

#[test]
fn test_filter_converges_to_measurement() {
    let config = KalmanConfig::default();
    let mut filter = new_filter(0.3, &config);
    for _ in 0..100 {
        update(&mut filter, 0.7, 24.0, &config);
    }
    assert!((f(filter.estimate()) - 0.7).abs() < 0.01);
}

#[test]
fn test_filter_variance_bounded() {
    let config = KalmanConfig::default();
    let mut filter = new_filter(0.5, &config);
    for _ in 0..1000 {
        update(&mut filter, 0.5, 24.0, &config);
    }
    assert!(f(filter.variance()) >= f(config.min_variance));

    filter.reset(&d(0.5), &config, now());
    for _ in 0..1000 {
        filter.predict(&d(0.0), &config);
    }
    assert!(f(filter.variance()) <= f(config.max_variance));
}

#[test]
fn test_filter_estimate_bounded() {
    let config = KalmanConfig::default();
    let mut filter = new_filter(0.5, &config);
    update(&mut filter, 1.5, 24.0, &config);
    assert!(f(filter.estimate()) <= 1.0);
    update(&mut filter, -0.5, 24.0, &config);
    assert!(f(filter.estimate()) >= 0.0);
}

#[test]
fn test_filter_confidence_interval() {
    let config = KalmanConfig::default();
    let filter = new_filter(0.5, &config);
    let (lower, upper) = filter.confidence_interval();
    assert!(f(lower) < f(filter.estimate()));
    assert!(f(upper) > f(filter.estimate()));
    assert!(f(lower) >= 0.0);
    assert!(f(upper) <= 1.0);
}

#[test]
fn test_filter_update_count() {
    let config = KalmanConfig::default();
    let mut filter = new_filter(0.5, &config);
    assert_eq!(filter.state().update_count, 0);
    update(&mut filter, 0.6, 24.0, &config);
    assert_eq!(filter.state().update_count, 1);
    update(&mut filter, 0.7, 24.0, &config);
    assert_eq!(filter.state().update_count, 2);
}

#[test]
fn test_filter_predict_only() {
    let config = KalmanConfig::default();
    let mut filter = new_filter(0.5, &config);
    let initial_variance = f(filter.variance());
    let initial_estimate = f(filter.estimate());
    filter.predict(&d(24.0), &config);
    assert_eq!(f(filter.estimate()), initial_estimate);
    assert!(f(filter.variance()) > initial_variance);
}

#[test]
fn test_filter_near_expiry_more_responsive() {
    let config = KalmanConfig::default();
    let mut filter_24h = new_filter(0.5, &config);
    let mut filter_1h = new_filter(0.5, &config);
    update(&mut filter_24h, 0.7, 24.0, &config);
    update(&mut filter_1h, 0.7, 1.0, &config);
    assert!(f(filter_24h.estimate()) != f(filter_1h.estimate()));
}

#[test]
fn filters_can_be_restored() {
    let state = KalmanState::with_variance(&d(0.42), &d(0.003), now());
    let mut filter = KalmanFilter::from_state(state);
    assert_eq!(f(filter.estimate()), 0.42);
    assert_eq!(f(filter.variance()), 0.003);
    filter.state_mut().update_count = 7;
    assert_eq!(filter.state().update_count, 7);
    let config = KalmanConfig::default();
    let mut noisy = KalmanFilter::from_state(state);
    noisy.update_with_noise(&d(0.6), &d(1.0), &d(24.0), &config, now());
    update(&mut filter, 0.6, 24.0, &config);
    assert!(f(noisy.estimate()) < f(filter.estimate()));
}

#[test]
fn probabilities_are_clamped() {
    assert_eq!(f(to_probability(&d(-1.0))), 0.0);
    assert_eq!(f(to_probability(&d(2.0))), 1.0);
    assert_eq!(f(to_probability(&d(0.25))), 0.25);
}

fn fuse_two(poly: f64, poly_volume: f64, kalshi: f64, kalshi_volume: f64) -> f64 {
    f(fuse_two_platforms(&d(poly), &d(poly_volume), &d(kalshi), &d(kalshi_volume)))
}

#[test]
fn test_fuse_two_platforms_equal_volume() {
    let result = fuse_two(0.6, 1000.0, 0.4, 1000.0);
    assert!((result - 0.5).abs() < 1e-10);
}

#[test]
fn test_fuse_two_platforms_weighted() {
    let result = fuse_two(0.6, 2000.0, 0.3, 1000.0);
    assert!((result - 0.5).abs() < 1e-10);
}

#[test]
fn test_fuse_two_platforms_zero_volume() {
    let result = fuse_two(0.6, 0.0, 0.4, 0.0);
    assert!((result - 0.5).abs() < 1e-10);
}

fn observation(price: f64, volume: f64, platform: Platform) -> PlatformObservation {
    PlatformObservation { price: d(price), volume: d(volume), platform }
}

#[test]
fn test_fuse_estimates_empty() {
    let result = fuse_estimates(&vec![]);
    assert!(result.is_none());
}

#[test]
fn test_fuse_estimates_single() {
    let obs = observation(0.6, 1000.0, Platform::Polymarket);
    let result = fuse_estimates(&vec![obs]);
    assert!((f(result.unwrap()) - 0.6).abs() < 1e-10);
}

#[test]
fn test_fuse_estimates_multiple() {
    let obs = vec![
        observation(0.6, 1000.0, Platform::Polymarket),
        observation(0.4, 1000.0, Platform::Kalshi),
    ];
    let result = fuse_estimates(&obs);
    assert!((f(result.unwrap()) - 0.5).abs() < 1e-10);
}

#[test]
fn test_fuse_estimates_ignores_invalid() {
    let obs = vec![
        observation(0.6, 1000.0, Platform::Polymarket),
        observation(-0.5, 1000.0, Platform::Kalshi),
    ];
    let result = fuse_estimates(&obs);
    assert!((f(result.unwrap()) - 0.6).abs() < 1e-10);
}

#[test]
fn observations_that_are_all_invalid_give_no_estimate() {
    let obs = vec![observation(1.5, 1000.0, Platform::Polymarket)];
    assert!(fuse_estimates(&obs).is_none());
    assert_eq!(Platform::Polymarket.label(), "Polymarket");
    assert_eq!(Platform::Kalshi.label(), "Kalshi");
}

#[test]
fn test_market_filter_map_basic() {
    let mut map = MarketFilterMap::default();
    assert!(map.is_empty());
    let _ = map.get_or_create(0, &d(0.5), now());
    assert_eq!(map.len(), 1);
    let filter = map.get(0);
    assert!(filter.is_some());
    assert!((f(filter.unwrap().estimate()) - 0.5).abs() < 1e-10);
}

#[test]
fn test_market_filter_map_update() {
    let mut map = MarketFilterMap::default();
    let estimate = f(map.update(0, &d(0.6), &d(24.0), now()));
    assert!(estimate > 0.5);
    let estimate2 = f(map.update(0, &d(0.7), &d(24.0), now()));
    assert!(estimate2 > estimate);
}

#[test]
fn test_market_filter_map_multiple_markets() {
    let mut map = MarketFilterMap::default();
    map.update(0, &d(0.5), &d(24.0), now());
    map.update(1, &d(0.6), &d(24.0), now());
    map.update(2, &d(0.7), &d(24.0), now());
    assert_eq!(map.len(), 3);
    let mut ids = map.market_ids();
    assert_eq!(ids.len(), 3);
    ids.sort();
    assert_eq!(ids, vec![0, 1, 2]);
}

#[test]
fn test_market_filter_map_remove() {
    let mut map = MarketFilterMap::default();
    map.update(0, &d(0.5), &d(24.0), now());
    assert_eq!(map.len(), 1);
    let removed = map.remove(0);
    assert_eq!(f(removed.unwrap().estimate()), 0.5);
    assert_eq!(map.len(), 0);
    assert!(map.get(0).is_none());
    assert!(map.remove(0).is_none());
}

#[test]
fn the_configuration_of_a_map_can_change() {
    let mut map = MarketFilterMap::default();
    map.update(3, &d(0.5), &d(24.0), now());
    map.set_config(KalmanConfig::volatile_market());
    assert_eq!(
        f(map.config().measurement_noise),
        f(KalmanConfig::volatile_market().measurement_noise)
    );
    assert_eq!(f(map.estimate(3).unwrap()), 0.5);
    assert_eq!(map.state(3).unwrap().update_count, 1);
    assert!(map.estimate(4).is_none());
}

#[test]
fn test_hours_to_expiry_from_timestamp() {
    let now = 1735516800;
    let hours = f(hours_to_expiry_from_timestamp(now + 3600, now));
    assert!((hours - 1.0).abs() < 0.01);
    let hours_past = f(hours_to_expiry_from_timestamp(now - 3600, now));
    assert_eq!(hours_past, 0.0);
}

#[test]
fn hours_to_expiry_count_whole_minutes() {
    let later = Timestamp::new(1735516800 + 5400, 0).unwrap();
    assert_eq!(f(hours_to_expiry(&later, &now())), 1.5);
    assert_eq!(f(hours_to_expiry(&now(), &later)), 0.0);
}

#[test]
fn test_full_workflow() {
    let config = KalmanConfig::default();
    let mut filter = new_filter(0.5, &config);
    assert_eq!(f(filter.estimate()), 0.5);

    update(&mut filter, 0.55, 20.0, &config);
    update(&mut filter, 0.58, 18.0, &config);
    update(&mut filter, 0.60, 16.0, &config);
    assert!(f(filter.estimate()) > 0.55);

    for _ in 0..10 {
        update(&mut filter, 0.62, 12.0, &config);
    }
    assert!((f(filter.estimate()) - 0.62).abs() < 0.02);

    update(&mut filter, 0.85, 6.0, &config);
    assert!(f(filter.estimate()) > 0.62);
    assert!(f(filter.estimate()) < 0.85);

    update(&mut filter, 0.90, 1.0, &config);
    update(&mut filter, 0.92, 0.5, &config);
    assert!(f(filter.estimate()) > 0.85);
}

#[test]
fn test_cross_platform_workflow() {
    let config = KalmanConfig::default();
    let mut map = MarketFilterMap::new(config);
    let poly_price = 0.65;
    let poly_volume = 10000.0;
    let kalshi_price = 0.63;
    let kalshi_volume = 5000.0;
    let fused = fuse_two(poly_price, poly_volume, kalshi_price, kalshi_volume);
    let estimate = f(map.update(0, &d(fused), &d(12.0), now()));
    assert!((fused - 0.6433).abs() < 0.01);
    assert!((estimate - fused).abs() < 0.1);
}

#[test]
fn a_filter_is_updated_through_its_handle() {
    let config = KalmanConfig::default();
    let mut map = MarketFilterMap::new(config);
    assert!(map.get_mut(7).is_none());
    let estimate = f(map.get_or_create(7, &d(0.5), now()).update(
        &d(0.9),
        &d(24.0),
        &config,
        now(),
    ));
    assert!(estimate > 0.5);
    assert_eq!(f(map.estimate(7).unwrap()), estimate);
    let again = f(map.get_mut(7).unwrap().update(&d(0.9), &d(24.0), &config, now()));
    assert!(again > estimate);
    assert_eq!(f(map.estimate(7).unwrap()), again);
    assert_eq!(map.state(7).unwrap().update_count, 2);
    assert_eq!(f(map.get_or_create(7, &d(0.1), now()).estimate()), again);
    assert_eq!(map.len(), 1);
}

#[test]
fn updates_do_not_pass_the_measurement() {
    for config in [KalmanConfig::default(), KalmanConfig::volatile_market()] {
        for (start, price) in [(0.1, 0.3), (0.7, 0.2), (0.5, 0.5), (0.0, 1.0), (0.3, 0.1 + 0.2)] {
            let mut filter = new_filter(start, &config);
            for _ in 0..200 {
                let before = f(filter.estimate());
                let after = update(&mut filter, price, 1.0, &config);
                if before <= price {
                    assert!(before <= after && after <= price + 1e-12);
                } else {
                    assert!(price - 1e-12 <= after && after <= before);
                }
            }
        }
    }
}

#[test]
fn estimates_lie_between_the_prices() {
    let obs = vec![
        observation(0.3, 1000.0, Platform::Polymarket),
        observation(0.31, 7.0, Platform::Kalshi),
        observation(2.0, 1e9, Platform::Kalshi),
        observation(0.29, 0.1, Platform::Kalshi),
    ];
    let fused = f(fuse_estimates(&obs).unwrap());
    assert!(0.29 - 1e-14 <= fused && fused <= 0.31 + 1e-14);
    let same = vec![observation(0.1, 0.3, Platform::Kalshi), observation(0.1, 0.7, Platform::Kalshi)];
    assert!((f(fuse_estimates(&same).unwrap()) - 0.1).abs() < 1e-14);
    let pair = f(fuse_two_platforms(&d(0.3), &d(1000.0), &d(0.31), &d(7.0)));
    assert_eq!(f(fuse_estimates(&obs[..2].to_vec()).unwrap()), pair);
}

#[test]
fn a_filter_without_process_noise_keeps_its_bounds() {
    let config = KalmanConfig { base_process_noise: d(0.0), ..KalmanConfig::default() };
    let mut filter = new_filter(0.5, &config);
    for _ in 0..500 {
        let estimate = update(&mut filter, 0.9, 0.5, &config);
        assert!((0.5..=0.9 + 1e-12).contains(&estimate));
        assert!(f(filter.variance()) >= f(config.min_variance));
        assert!(f(filter.variance()) <= f(config.max_variance));
    }
}
