//! The filters of all markets, by market number.
use super::filter::{KalmanConfig, KalmanFilter, KalmanState};
use crate::binary64::Binary64;
use crate::time::Timestamp;
use rustc_hash::FxHashMap;
use vstd::prelude::*;

verus! {

/// The hasher of the maps of the `rustc-hash` crate.
#[verifier::external_type_specification]
#[verifier::external_body]
pub struct ExFxBuildHasher(rustc_hash::FxBuildHasher);

/// No filters at all.
pub open spec fn no_filters() -> Map<u16, KalmanFilter> {
    Map::empty()
}

/// `FxHashMap::default`: an empty map.
#[verifier::external_body]
fn empty_map() -> (r: FxHashMap<u16, KalmanFilter>)
    ensures
        r@ == no_filters(),
{
    FxHashMap::default()
}

/// `HashMap::get` on an `FxHashMap`: the value of a key, if the map holds the key.
#[verifier::external_body]
fn map_get(map: &FxHashMap<u16, KalmanFilter>, key: u16) -> (r: Option<&KalmanFilter>)
    ensures
        r is Some <==> map@.contains_key(key),
        r matches Some(v) ==> *v == map@[key],
{
    map.get(&key)
}

/// `HashMap::get_mut` on an `FxHashMap`: the value of a key to be changed in place, if the map
/// holds the key. Nothing else changes.
#[verifier::external_body]
fn map_get_mut(map: &mut FxHashMap<u16, KalmanFilter>, key: u16) -> (r: Option<&mut KalmanFilter>)
    ensures
        r is Some <==> old(map)@.contains_key(key),
        match r {
            Some(v) => *v == old(map)@[key] && final(map)@ == old(map)@.insert(key, *final(v)),
            None => final(map)@ == old(map)@,
        },
{
    map.get_mut(&key)
}

/// `HashMap::insert` on an `FxHashMap`: the key has the new value afterwards, and nothing else
/// changes.
#[verifier::external_body]
fn map_insert(map: &mut FxHashMap<u16, KalmanFilter>, key: u16, value: KalmanFilter)
    ensures
        final(map)@ == old(map)@.insert(key, value),
{
    map.insert(key, value);
}

/// `HashMap::remove` on an `FxHashMap`: the key is gone afterwards; its value is handed out, if
/// it had one.
#[verifier::external_body]
fn map_remove(map: &mut FxHashMap<u16, KalmanFilter>, key: u16) -> (r: Option<KalmanFilter>)
    ensures
        final(map)@ == old(map)@.remove(key),
        r is Some <==> old(map)@.contains_key(key),
        r matches Some(v) ==> v == old(map)@[key],
{
    map.remove(&key)
}

/// `HashMap::len` on an `FxHashMap`: the number of keys.
#[verifier::external_body]
fn map_len(map: &FxHashMap<u16, KalmanFilter>) -> (n: usize)
    ensures
        n == map@.dom().len(),
{
    map.len()
}

/// `HashMap::is_empty` on an `FxHashMap`: whether the map holds no key.
#[verifier::external_body]
fn map_is_empty(map: &FxHashMap<u16, KalmanFilter>) -> (r: bool)
    ensures
        r == (map@ == no_filters()),
{
    map.is_empty()
}

/// `HashMap::keys` on an `FxHashMap`: every key once, in an order that is left open.
#[verifier::external_body]
fn map_keys(map: &FxHashMap<u16, KalmanFilter>) -> (keys: Vec<u16>)
    ensures
        keys@.no_duplicates(),
        keys@.to_set() == map@.dom(),
{
    map.keys().copied().collect()
}

/// Manager for multiple market Kalman filters.
#[derive(Debug)]
pub struct MarketFilterMap {
    filters: FxHashMap<u16, KalmanFilter>,
    config: KalmanConfig,
}

impl View for MarketFilterMap {
    type V = Map<u16, KalmanFilter>;

    closed spec fn view(&self) -> Map<u16, KalmanFilter> {
        self.filters@
    }
}

impl MarketFilterMap {
    /// The configuration of the filters.
    pub closed spec fn configuration(self) -> KalmanConfig {
        self.config
    }

    /// The filter of a market, or the one that it would start with.
    pub open spec fn filter_of(self, market_id: u16, start: Binary64, now: Timestamp) -> KalmanFilter {
        if self@.contains_key(market_id) {
            self@[market_id]
        } else {
            KalmanFilter { state: KalmanState::initial(start, self.configuration(), now) }
        }
    }

    /// Create a new market filter map with given configuration.
    pub fn new(config: KalmanConfig) -> (r: Self)
        ensures
            r@ == no_filters(),
            r.configuration() == config,
    {
        MarketFilterMap { filters: empty_map(), config }
    }

    /// Get or create a filter for a market, to be updated in place.
    pub fn get_or_create(
        &mut self,
        market_id: u16,
        initial_estimate: &Binary64,
        now: Timestamp,
    ) -> (filter: &mut KalmanFilter)
        ensures
            *filter == old(self).filter_of(market_id, *initial_estimate, now),
            final(self)@ == old(self)@.insert(market_id, *final(filter)),
            final(self).configuration() == old(self).configuration(),
    {
        if map_get(&self.filters, market_id).is_none() {
            let filter = KalmanFilter::new(initial_estimate, &self.config, now);
            map_insert(&mut self.filters, market_id, filter);
        }
        assert(forall|filter: KalmanFilter|
            self@.insert(market_id, filter) =~= #[trigger] old(self)@.insert(market_id, filter));
        match map_get_mut(&mut self.filters, market_id) {
            Some(filter) => filter,
            None => vstd::pervasive::unreached(),
        }
    }

    /// Get existing filter (returns None if not found).
    pub fn get(&self, market_id: u16) -> (r: Option<&KalmanFilter>)
        ensures
            r is Some <==> self@.contains_key(market_id),
            r matches Some(filter) ==> *filter == self@[market_id],
    {
        map_get(&self.filters, market_id)
    }

    /// Get existing filter to be updated in place (returns None if not found).
    pub fn get_mut(&mut self, market_id: u16) -> (r: Option<&mut KalmanFilter>)
        ensures
            r is Some <==> old(self)@.contains_key(market_id),
            match r {
                Some(filter) => *filter == old(self)@[market_id] && final(self)@ == old(
                    self,
                )@.insert(market_id, *final(filter)),
                None => final(self)@ == old(self)@,
            },
            final(self).configuration() == old(self).configuration(),
    {
        map_get_mut(&mut self.filters, market_id)
    }

    /// Update a market's filter with new observation. Creates the filter if it doesn't exist.
    pub fn update(
        &mut self,
        market_id: u16,
        measurement: &Binary64,
        hours_to_expiry: &Binary64,
        now: Timestamp,
    ) -> (r: Binary64)
        requires
            old(self).configuration().wf(),
            old(self).filter_of(market_id, *measurement, now).state.update_count < u64::MAX,
        ensures
            ({
                let config = old(self).configuration();
                let state = old(self).filter_of(market_id, *measurement, now).state.updated(
                    *measurement,
                    config.measurement_noise,
                    *hours_to_expiry,
                    config,
                    now,
                );
                &&& final(self)@ == old(self)@.insert(market_id, KalmanFilter { state })
                &&& r == state.estimate
            }),
            final(self).configuration() == old(self).configuration(),
    {
        let config = self.config;
        let filter = self.get_or_create(market_id, measurement, now);
        filter.update(measurement, hours_to_expiry, &config, now)
    }

    /// Get estimate for a market.
    pub fn estimate(&self, market_id: u16) -> (r: Option<Binary64>)
        ensures
            r is Some <==> self@.contains_key(market_id),
            r matches Some(estimate) ==> estimate == self@[market_id].state.estimate,
    {
        match self.get(market_id) {
            Some(filter) => Some(filter.estimate()),
            None => None,
        }
    }

    /// Get state for a market.
    pub fn state(&self, market_id: u16) -> (r: Option<KalmanState>)
        ensures
            r is Some <==> self@.contains_key(market_id),
            r matches Some(state) ==> state == self@[market_id].state,
    {
        match self.get(market_id) {
            Some(filter) => Some(*filter.state()),
            None => None,
        }
    }

    /// Remove a market's filter.
    pub fn remove(&mut self, market_id: u16) -> (r: Option<KalmanFilter>)
        ensures
            final(self)@ == old(self)@.remove(market_id),
            final(self).configuration() == old(self).configuration(),
            r is Some <==> old(self)@.contains_key(market_id),
            r matches Some(filter) ==> filter == old(self)@[market_id],
    {
        map_remove(&mut self.filters, market_id)
    }

    /// Get number of tracked markets.
    pub fn len(&self) -> (n: usize)
        ensures
            n == self@.dom().len(),
    {
        map_len(&self.filters)
    }

    /// Check if empty.
    pub fn is_empty(&self) -> (r: bool)
        ensures
            r == (self@ == no_filters()),
    {
        map_is_empty(&self.filters)
    }

    /// Get all market IDs.
    pub fn market_ids(&self) -> (ids: Vec<u16>)
        ensures
            ids@.no_duplicates(),
            ids@.to_set() == self@.dom(),
    {
        map_keys(&self.filters)
    }

    /// Get configuration.
    pub fn config(&self) -> (r: &KalmanConfig)
        ensures
            *r == self.configuration(),
    {
        &self.config
    }

    /// Update configuration (affects future operations).
    pub fn set_config(&mut self, config: KalmanConfig)
        ensures
            final(self).configuration() == config,
            final(self)@ == old(self)@,
    {
        self.config = config;
    }
}

impl Default for MarketFilterMap {
    fn default() -> (r: Self)
        ensures
            r@ == no_filters(),
            r.configuration() == KalmanConfig::usual(),
    {
        Self::new(KalmanConfig::default())
    }
}

} // verus!
