//! High-probability grinding: buying outcomes that are nearly certain shortly before they
//! resolve.
pub mod config;
pub mod figures;
pub mod outcomes;
pub mod ranking;
pub mod runner;
pub mod scanning;
pub mod sizing;
pub mod strategy;

pub use config::{GrindingConfig, GrindingOverrides, KellyConfig, Platform, Side};
pub use ranking::GrindingOpportunity;
pub use runner::GrindingRunnerConfig;
pub use sizing::{expected_value, kalshi_fee_pct, kelly_size};
pub use strategy::{GrindingExecutionRequest, GrindingStrategy};
