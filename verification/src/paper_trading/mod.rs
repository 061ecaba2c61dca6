//! Paper trading: simulated fills, paper positions and paper capital.
pub mod executor;
pub mod payouts;
pub mod position;
pub mod simulation;
pub mod tracker;

pub use executor::PaperOrderExecutor;
pub use position::{PaperPosition, PaperPositionLeg};
pub use simulation::{
    simulate_fill, ExecutionFill, SimulatedFill, SimulatedOrderbook, SimulationConfig, TradingMode,
};
pub use tracker::{PaperCapitalTracker, PaperStats};
