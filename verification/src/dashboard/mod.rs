//! The web dashboard: its state, its controls, its events and its pages.
pub mod control;
pub mod figures;
pub mod pages;
pub mod server;
pub mod sse;
pub mod state;

pub use server::DashboardConfig;
pub use state::DashboardState;
