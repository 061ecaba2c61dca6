//! Configuration of the notifications, and which alerts it lets through.
use super::alert::AlertType;
use super::delivery::{DiscordError, DiscordResult};
use super::level::AlertLevel;
use crate::text::{ascii_lowered, flag_is_on, is_ascii_text, is_on_flag, lowercase};
use vstd::prelude::*;

verus! {

/// Discord webhook configuration
#[derive(Debug, Clone)]
pub struct DiscordConfig {
    /// Discord webhook URL (optional - if None, notifications are disabled)
    pub webhook_url: Option<String>,
    /// Discord user ID to mention for critical alerts (optional)
    pub mention_user_id: Option<String>,
    /// Whether Discord notifications are enabled
    pub enabled: bool,
    /// Minimum alert level to send (default: Info)
    pub min_alert_level: AlertLevel,
    /// Whether to send trade execution alerts
    pub alert_on_trades: bool,
    /// Whether to send opportunity found alerts
    pub alert_on_opportunities: bool,
    /// Whether to send error alerts
    pub alert_on_errors: bool,
    /// Whether to send daily summary
    pub send_daily_summary: bool,
    /// UTC hour to send daily summary (0-23)
    pub daily_summary_utc_hour: u32,
}

impl Default for DiscordConfig {
    fn default() -> (r: Self)
        ensures
            r.webhook_url is None,
            r.mention_user_id is None,
            r.enabled,
            r.has_default_filters(),
    {
        DiscordConfig {
            webhook_url: None,
            mention_user_id: None,
            enabled: true,
            min_alert_level: AlertLevel::Info,
            alert_on_trades: true,
            alert_on_opportunities: true,
            alert_on_errors: true,
            send_daily_summary: true,
            daily_summary_utc_hour: 0,
        }
    }
}

/// A variable, where it is set to something.
pub open spec fn is_nonempty(variable: Option<String>, r: Option<String>) -> bool {
    match variable {
        Some(s) => if s@.len() == 0 {
            r is None
        } else {
            r == Some(s)
        },
        None => r is None,
    }
}

fn nonempty(variable: Option<String>) -> (r: Option<String>)
    ensures
        is_nonempty(variable, r),
{
    match variable {
        Some(s) => if s.as_str().is_empty() {
            None
        } else {
            Some(s)
        },
        None => None,
    }
}

impl DiscordConfig {
    /// Whether every kind of alert at every level is let through.
    pub open spec fn has_default_filters(self) -> bool {
        &&& self.min_alert_level == AlertLevel::Info
        &&& self.alert_on_trades
        &&& self.alert_on_opportunities
        &&& self.alert_on_errors
        &&& self.send_daily_summary
        &&& self.daily_summary_utc_hour == 0
    }

    /// Create config from the values of the environment variables for the webhook URL, the
    /// user to mention and the switch. Without a switch the notifications are enabled where
    /// there is a webhook URL.
    pub fn from_vars(
        webhook_url: Option<String>,
        mention_user_id: Option<String>,
        enabled: Option<String>,
    ) -> (r: Self)
        ensures
            is_nonempty(webhook_url, r.webhook_url),
            is_nonempty(mention_user_id, r.mention_user_id),
            enabled matches Some(flag) ==> {
                &&& r.enabled == is_on_flag(flag@, lowercase(flag@))
                &&& is_ascii_text(flag@) ==> r.enabled == is_on_flag(flag@, ascii_lowered(flag@))
            },
            enabled is None ==> r.enabled == (r.webhook_url is Some),
            r.has_default_filters(),
    {
        let webhook_url = nonempty(webhook_url);
        let mention_user_id = nonempty(mention_user_id);
        let enabled = match enabled {
            Some(flag) => flag_is_on(&flag),
            None => webhook_url.is_some(),
        };
        let defaults = DiscordConfig::default();
        DiscordConfig {
            webhook_url,
            mention_user_id,
            enabled,
            min_alert_level: defaults.min_alert_level,
            alert_on_trades: defaults.alert_on_trades,
            alert_on_opportunities: defaults.alert_on_opportunities,
            alert_on_errors: defaults.alert_on_errors,
            send_daily_summary: defaults.send_daily_summary,
            daily_summary_utc_hour: defaults.daily_summary_utc_hour,
        }
    }

    /// Whether notifications are effectively enabled.
    pub open spec fn active(self) -> bool {
        self.enabled && self.webhook_url is Some
    }

    /// Check if notifications are effectively enabled
    pub fn is_active(&self) -> (r: bool)
        ensures
            r == self.active(),
    {
        self.enabled && self.webhook_url.is_some()
    }

    /// Whether the filters let an alert through.
    pub open spec fn admits(self, level: AlertLevel, alert: AlertType) -> bool {
        &&& level.severity() >= self.min_alert_level.severity()
        &&& alert is TradeExecuted ==> self.alert_on_trades
        &&& alert is OpportunityFound ==> self.alert_on_opportunities
        &&& alert is Error ==> self.alert_on_errors
        &&& alert is DailySummary ==> self.send_daily_summary
    }

    fn admits_alert(&self, level: AlertLevel, alert: &AlertType) -> (r: bool)
        ensures
            r == self.admits(level, *alert),
    {
        if level < self.min_alert_level {
            return false;
        }
        match alert {
            AlertType::TradeExecuted { .. } => self.alert_on_trades,
            AlertType::OpportunityFound { .. } => self.alert_on_opportunities,
            AlertType::Error { .. } => self.alert_on_errors,
            AlertType::DailySummary { .. } => self.send_daily_summary,
            _ => true,
        }
    }

    /// The webhook that a message is posted to. Notifications that are disabled, and those
    /// without a webhook, are refused.
    pub fn webhook(&self) -> (r: DiscordResult<&String>)
        ensures
            r is Ok <==> self.active(),
            r matches Ok(url) ==> *url == self.webhook_url->0,
            r matches Err(e) ==> e == (if !self.enabled {
                DiscordError::Disabled
            } else {
                DiscordError::NotConfigured
            }),
    {
        if !self.enabled {
            return Err(DiscordError::Disabled);
        }
        match &self.webhook_url {
            Some(url) => Ok(url),
            None => Err(DiscordError::NotConfigured),
        }
    }

    /// Where an alert is sent: to the webhook, or nowhere where the filters hold it back.
    /// Notifications that are disabled, and those without a webhook, are refused before the
    /// filters are asked.
    pub fn destination(&self, level: AlertLevel, alert: &AlertType) -> (r: DiscordResult<
        Option<&String>,
    >)
        ensures
            r is Ok <==> self.active(),
            r matches Ok(d) ==> (d is Some <==> self.admits(level, *alert)),
            r matches Ok(Some(url)) ==> *url == self.webhook_url->0,
            r matches Err(e) ==> e == (if !self.enabled {
                DiscordError::Disabled
            } else {
                DiscordError::NotConfigured
            }),
    {
        match self.webhook() {
            Ok(url) => if self.admits_alert(level, alert) {
                Ok(Some(url))
            } else {
                Ok(None)
            },
            Err(e) => Err(e),
        }
    }
}

/// A critical alert is let through whatever the minimum level is, unless its kind is
/// switched off; an alert that is let through at one level is let through at every level
/// above it.
pub proof fn law_filters_are_monotone(
    config: DiscordConfig,
    low: AlertLevel,
    high: AlertLevel,
    alert: AlertType,
)
    requires
        low.severity() <= high.severity(),
    ensures
        config.admits(low, alert) ==> config.admits(high, alert),
        alert is CircuitBreakerTriggered ==> config.admits(AlertLevel::Critical, alert),
{
}

} // verus!
