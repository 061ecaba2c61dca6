//! Kalman filter probability estimation: the filter of one market, the fusion of prices from
//! several platforms, and the filters of all markets.
pub mod blend;
pub mod filter;
pub mod filter_map;
pub mod fusion;

pub use filter::{
    hours_to_expiry, hours_to_expiry_from_timestamp, KalmanConfig, KalmanFilter, KalmanState,
};
pub use filter_map::MarketFilterMap;
pub use fusion::{fuse_estimates, fuse_two_platforms, Platform, PlatformObservation};
