//! Decision logic of a prediction-market trading system.
pub mod binary64;
pub mod text;
pub mod time;
pub mod persistence;
pub mod discord;
pub mod kalman;
pub mod market;
pub mod grinding;
pub mod pairs;
pub mod paper_trading;
pub mod dashboard;
pub mod heartbeat;
pub mod system;
