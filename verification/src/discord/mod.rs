//! Discord notifications: which alerts are sent, what the messages hold, and how they are
//! delivered.
pub mod alert;
pub mod config;
pub mod delivery;
pub mod figures;
pub mod level;

pub use crate::text::capitalize;
pub use alert::{
    format_daily_summary, format_trade_alert, AlertType, DailyStats, Embed, EmbedField,
    EmbedFooter, WebhookPayload,
};
pub use config::DiscordConfig;
pub use delivery::{DiscordError, DiscordResult, RateLimiter};
pub use level::AlertLevel;
