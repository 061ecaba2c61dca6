//! Requests that control the system: the kill switch, the trading mode, the configuration and
//! the health check.
use super::state::{
    ConfigUpdate, DashboardEvent, DashboardState, SystemConfig, SystemStatus, TradingMode,
};
use crate::binary64::numbers::{
    D_0_01, D_0_05, D_0_1, D_0_5, D_0_9, D_0_99, D_10, D_10000, D_168, D_24,
};
use crate::binary64::{lemma_scaled_magnitude_increases, Binary64, ONE_BITS};
use crate::text::{ascii_lowered, is_ascii_text, lowercase, same_text, to_lowercase};
use vstd::prelude::*;

verus! {

// ---------------------------------------------------------------------------
// Kill switch
// ---------------------------------------------------------------------------

/// A request to the kill switch.
#[derive(Debug)]
pub struct KillSwitchRequest {
    /// "activate" or "deactivate"
    pub action: String,
}

/// The answer to a request to the kill switch.
#[derive(Debug)]
pub struct KillSwitchResponse {
    pub success: bool,
    pub active: bool,
    pub message: String,
}

/// Kill switch control endpoint. The events are to be broadcast in order.
pub fn api_kill_switch(state: &mut DashboardState, request: &KillSwitchRequest) -> (r: (
    KillSwitchResponse,
    Vec<DashboardEvent>,
))
    ensures
        r.0.active == final(state).kill_switch_active,
        r.0.success <==> request.action@ == "activate"@ || request.action@ == "deactivate"@,
        request.action@ == "activate"@ ==> {
            &&& *final(state) == (DashboardState {
                kill_switch_active: true,
                system_status: SystemStatus::Halted,
                ..*old(state)
            })
            &&& r.0.message@ == "Kill switch activated - all trading halted"@
            &&& r.1.len() == 2
            &&& final(state).is_told_by(r.1[0])
            &&& r.1[1].alerts("critical"@, r.0.message@)
        },
        request.action@ == "deactivate"@ ==> {
            &&& *final(state) == (DashboardState {
                kill_switch_active: false,
                system_status: SystemStatus::Running,
                ..*old(state)
            })
            &&& r.0.message@ == "Kill switch deactivated - trading resumed"@
            &&& r.1.len() == 2
            &&& final(state).is_told_by(r.1[0])
            &&& r.1[1].alerts("info"@, r.0.message@)
        },
        !r.0.success ==> {
            &&& *final(state) == *old(state)
            &&& r.0.message@ == "Invalid action. Use 'activate' or 'deactivate'"@
            &&& r.1.len() == 0
        },
{
    proof {
        reveal_strlit("activate");
        reveal_strlit("deactivate");
        assert("activate"@.len() != "deactivate"@.len());
    }
    if same_text(&request.action, "activate") {
        let events = state.activate_kill_switch();
        let response = KillSwitchResponse {
            success: true,
            active: true,
            message: "Kill switch activated - all trading halted".to_string(),
        };
        (response, events)
    } else if same_text(&request.action, "deactivate") {
        let events = state.deactivate_kill_switch();
        let response = KillSwitchResponse {
            success: true,
            active: false,
            message: "Kill switch deactivated - trading resumed".to_string(),
        };
        (response, events)
    } else {
        let response = KillSwitchResponse {
            success: false,
            active: state.kill_switch_active,
            message: "Invalid action. Use 'activate' or 'deactivate'".to_string(),
        };
        (response, Vec::new())
    }
}

// ---------------------------------------------------------------------------
// Trading mode
// ---------------------------------------------------------------------------

/// A request for a trading mode.
#[derive(Debug)]
pub struct ModeRequest {
    /// "paper" or "live"
    pub mode: String,
}

/// The answer to a request for a trading mode.
#[derive(Debug)]
pub struct ModeResponse {
    pub success: bool,
    pub mode: String,
    pub message: String,
}

/// The trading mode that a word in lower case asks for.
pub open spec fn mode_asked_for(lowered: Seq<char>) -> Option<TradingMode> {
    if lowered == "paper"@ {
        Some(TradingMode::Paper)
    } else if lowered == "live"@ {
        Some(TradingMode::Live)
    } else {
        None
    }
}

/// What a request for a trading mode is told.
pub open spec fn mode_message(asked: Option<TradingMode>) -> Seq<char> {
    match asked {
        Some(TradingMode::Paper) => "Switched to paper trading mode"@,
        Some(TradingMode::Live) => "Switched to live trading mode - BE CAREFUL!"@,
        None => "Invalid mode. Use 'paper' or 'live'"@,
    }
}

impl DashboardState {
    /// The state after a request for a trading mode.
    pub open spec fn after_mode_request(self, asked: Option<TradingMode>) -> Self {
        match asked {
            Some(mode) => DashboardState { trading_mode: mode, ..self },
            None => self,
        }
    }
}

/// Set the trading mode that a word in lower case asks for. The event is to be broadcast.
pub fn request_mode(state: &mut DashboardState, lowered: &str) -> (r: (
    ModeResponse,
    Option<DashboardEvent>,
))
    ensures
        *final(state) == old(state).after_mode_request(mode_asked_for(lowered@)),
        r.0.success == (mode_asked_for(lowered@) is Some),
        r.0.mode@ == final(state).trading_mode.word(),
        r.0.message@ == mode_message(mode_asked_for(lowered@)),
        r.1 is Some == r.0.success,
        r.1 matches Some(event) ==> final(state).is_told_by(event),
{
    if same_text(lowered, "paper") {
        let event = state.set_trading_mode(TradingMode::Paper);
        let response = ModeResponse {
            success: true,
            mode: "paper".to_string(),
            message: "Switched to paper trading mode".to_string(),
        };
        (response, Some(event))
    } else if same_text(lowered, "live") {
        let event = state.set_trading_mode(TradingMode::Live);
        let response = ModeResponse {
            success: true,
            mode: "live".to_string(),
            message: "Switched to live trading mode - BE CAREFUL!".to_string(),
        };
        (response, Some(event))
    } else {
        let response = ModeResponse {
            success: false,
            mode: state.trading_mode.as_str().to_string(),
            message: "Invalid mode. Use 'paper' or 'live'".to_string(),
        };
        (response, None)
    }
}

/// Trading mode control endpoint. The event is to be broadcast.
pub fn api_mode(state: &mut DashboardState, request: &ModeRequest) -> (r: (
    ModeResponse,
    Option<DashboardEvent>,
))
    ensures
        *final(state) == old(state).after_mode_request(mode_asked_for(lowercase(request.mode@))),
        is_ascii_text(request.mode@) ==> *final(state) == old(state).after_mode_request(
            mode_asked_for(ascii_lowered(request.mode@)),
        ),
        r.0.success == (mode_asked_for(lowercase(request.mode@)) is Some),
        r.0.mode@ == final(state).trading_mode.word(),
        r.0.message@ == mode_message(mode_asked_for(lowercase(request.mode@))),
        is_ascii_text(request.mode@) ==> r.0.success == (mode_asked_for(
            ascii_lowered(request.mode@),
        ) is Some) && r.0.message@ == mode_message(mode_asked_for(ascii_lowered(request.mode@))),
        r.1 is Some == r.0.success,
        r.1 matches Some(event) ==> final(state).is_told_by(event),
{
    let lowered = to_lowercase(&request.mode);
    request_mode(state, &lowered)
}

// ---------------------------------------------------------------------------
// Configuration
// ---------------------------------------------------------------------------

/// The answer to a configuration update.
#[derive(Debug)]
pub struct ConfigResponse {
    pub success: bool,
    pub config: SystemConfig,
    pub message: String,
}

/// A value of the configuration after an update: the new value, if one is given, restricted to
/// its range.
pub open spec fn updated(
    current: Binary64,
    update: Option<Binary64>,
    low: u64,
    high: u64,
) -> Binary64 {
    match update {
        Some(value) => value.clamped(Binary64::of_bits(low), Binary64::of_bits(high)),
        None => current,
    }
}

fn update_value(current: Binary64, update: Option<Binary64>, low: u64, high: u64) -> (r: Binary64)
    requires
        Binary64::is_range(Binary64::of_bits(low), Binary64::of_bits(high)),
    ensures
        r == updated(current, update, low, high),
{
    match update {
        Some(value) => value.clamp(&Binary64::from_bits(low), &Binary64::from_bits(high)),
        None => current,
    }
}

impl SystemConfig {
    /// The configuration after an update.
    pub open spec fn after_update(self, update: ConfigUpdate) -> Self {
        SystemConfig {
            max_drawdown_pct: updated(
                self.max_drawdown_pct,
                update.max_drawdown_pct,
                D_0_01,
                D_0_5,
            ),
            base_probability_threshold: updated(
                self.base_probability_threshold,
                update.base_probability_threshold,
                D_0_5,
                D_0_99,
            ),
            max_hours_to_expiry: updated(
                self.max_hours_to_expiry,
                update.max_hours_to_expiry,
                ONE_BITS,
                D_168,
            ),
            kelly_multiplier: updated(
                self.kelly_multiplier,
                update.kelly_multiplier,
                D_0_1,
                ONE_BITS,
            ),
            min_liquidity_usd: updated(
                self.min_liquidity_usd,
                update.min_liquidity_usd,
                ONE_BITS,
                D_10000,
            ),
            ..self
        }
    }

    /// Whether each value lies in its range.
    pub open spec fn in_range(self) -> bool {
        &&& within(self.max_drawdown_pct, D_0_01, D_0_5)
        &&& within(self.base_probability_threshold, D_0_5, D_0_99)
        &&& within(self.max_hours_to_expiry, ONE_BITS, D_168)
        &&& within(self.kelly_multiplier, D_0_1, ONE_BITS)
        &&& within(self.min_liquidity_usd, ONE_BITS, D_10000)
    }
}

/// Whether a number lies between two bounds.
pub open spec fn within(value: Binary64, low: u64, high: u64) -> bool {
    Binary64::of_bits(low).at_most(value) && value.at_most(Binary64::of_bits(high))
}

proof fn lemma_ranges()
    ensures
        Binary64::is_range(Binary64::of_bits(D_0_01), Binary64::of_bits(D_0_5)),
        Binary64::is_range(Binary64::of_bits(D_0_5), Binary64::of_bits(D_0_99)),
        Binary64::is_range(Binary64::of_bits(ONE_BITS), Binary64::of_bits(D_168)),
        Binary64::is_range(Binary64::of_bits(D_0_1), Binary64::of_bits(ONE_BITS)),
        Binary64::is_range(Binary64::of_bits(ONE_BITS), Binary64::of_bits(D_10000)),
{
    lemma_scaled_magnitude_increases(D_0_01 as int, D_0_5 as int);
    lemma_scaled_magnitude_increases(D_0_5 as int, D_0_99 as int);
    lemma_scaled_magnitude_increases(ONE_BITS as int, D_168 as int);
    lemma_scaled_magnitude_increases(D_0_1 as int, ONE_BITS as int);
    lemma_scaled_magnitude_increases(ONE_BITS as int, D_10000 as int);
}

/// Configuration update endpoint. The event is to be broadcast.
pub fn api_config_update(state: &mut DashboardState, update: &ConfigUpdate) -> (r: (
    ConfigResponse,
    DashboardEvent,
))
    ensures
        *final(state) == (DashboardState {
            config: old(state).config.after_update(*update),
            ..*old(state)
        }),
        r.0.success,
        r.0.config == final(state).config,
        r.0.message@ == "Configuration updated successfully"@,
        r.1.alerts("info"@, "Configuration updated"@),
{
    proof {
        lemma_ranges();
    }
    let config = state.config;
    state.config =
    SystemConfig {
        max_drawdown_pct: update_value(
            config.max_drawdown_pct,
            update.max_drawdown_pct,
            D_0_01,
            D_0_5,
        ),
        base_probability_threshold: update_value(
            config.base_probability_threshold,
            update.base_probability_threshold,
            D_0_5,
            D_0_99,
        ),
        max_hours_to_expiry: update_value(
            config.max_hours_to_expiry,
            update.max_hours_to_expiry,
            ONE_BITS,
            D_168,
        ),
        kelly_multiplier: update_value(
            config.kelly_multiplier,
            update.kelly_multiplier,
            D_0_1,
            ONE_BITS,
        ),
        min_liquidity_usd: update_value(
            config.min_liquidity_usd,
            update.min_liquidity_usd,
            ONE_BITS,
            D_10000,
        ),
        circuit_breaker_enabled: config.circuit_breaker_enabled,
        max_daily_loss: config.max_daily_loss,
        max_position_per_market: config.max_position_per_market,
    };
    let response = ConfigResponse {
        success: true,
        config: state.config,
        message: "Configuration updated successfully".to_string(),
    };
    let event = DashboardEvent::Alert {
        level: "info".to_string(),
        message: "Configuration updated".to_string(),
    };
    (response, event)
}

/// Whether none of the values of an update is a not-a-number.
pub open spec fn holds_numbers(update: ConfigUpdate) -> bool {
    &&& !(update.max_drawdown_pct matches Some(v) && v.nan())
    &&& !(update.base_probability_threshold matches Some(v) && v.nan())
    &&& !(update.max_hours_to_expiry matches Some(v) && v.nan())
    &&& !(update.kelly_multiplier matches Some(v) && v.nan())
    &&& !(update.min_liquidity_usd matches Some(v) && v.nan())
}

/// An update of numbers keeps each value of the configuration in its range, whatever is asked
/// for.
pub proof fn law_updates_stay_in_range(config: SystemConfig, update: ConfigUpdate)
    requires
        config.in_range(),
        holds_numbers(update),
    ensures
        config.after_update(update).in_range(),
{
    lemma_ranges();
}

/// An update sets the values that it names, each where it lies in its range, and keeps all others;
/// asking again for what was asked for changes nothing.
pub proof fn law_an_update_sets_what_it_names(config: SystemConfig, update: ConfigUpdate)
    requires
        holds_numbers(update),
    ensures
        ({
            let after = config.after_update(update);
            &&& match update.max_drawdown_pct {
                Some(v) => within(v, D_0_01, D_0_5) ==> after.max_drawdown_pct == v,
                None => after.max_drawdown_pct == config.max_drawdown_pct,
            }
            &&& match update.base_probability_threshold {
                Some(v) => within(v, D_0_5, D_0_99) ==> after.base_probability_threshold == v,
                None => after.base_probability_threshold == config.base_probability_threshold,
            }
            &&& match update.max_hours_to_expiry {
                Some(v) => within(v, ONE_BITS, D_168) ==> after.max_hours_to_expiry == v,
                None => after.max_hours_to_expiry == config.max_hours_to_expiry,
            }
            &&& match update.kelly_multiplier {
                Some(v) => within(v, D_0_1, ONE_BITS) ==> after.kelly_multiplier == v,
                None => after.kelly_multiplier == config.kelly_multiplier,
            }
            &&& match update.min_liquidity_usd {
                Some(v) => within(v, ONE_BITS, D_10000) ==> after.min_liquidity_usd == v,
                None => after.min_liquidity_usd == config.min_liquidity_usd,
            }
            &&& after.after_update(update) == after
        }),
{
    lemma_ranges();
}

/// The word for a trading mode asks for that mode, and its answer tells which mode it is.
pub proof fn law_a_mode_is_asked_for_by_its_word(mode: TradingMode, state: DashboardState)
    ensures
        mode_asked_for(mode.word()) == Some(mode),
        state.after_mode_request(mode_asked_for(mode.word())).trading_mode == mode,
        state.after_mode_request(None) == state,
{
    reveal_strlit("paper");
    reveal_strlit("live");
    assert("paper"@.len() != "live"@.len());
}

/// The configuration that the system starts with is in range.
pub proof fn law_usual_config_is_in_range()
    ensures
        SystemConfig::usual().in_range(),
{
    lemma_ranges();
    lemma_scaled_magnitude_increases(D_0_01 as int, D_0_05 as int);
    lemma_scaled_magnitude_increases(D_0_05 as int, D_0_5 as int);
    lemma_scaled_magnitude_increases(D_0_5 as int, D_0_9 as int);
    lemma_scaled_magnitude_increases(D_0_9 as int, D_0_99 as int);
    lemma_scaled_magnitude_increases(ONE_BITS as int, D_24 as int);
    lemma_scaled_magnitude_increases(D_24 as int, D_168 as int);
    lemma_scaled_magnitude_increases(D_0_1 as int, D_0_5 as int);
    lemma_scaled_magnitude_increases(D_0_5 as int, ONE_BITS as int);
    lemma_scaled_magnitude_increases(ONE_BITS as int, D_10 as int);
    lemma_scaled_magnitude_increases(D_10 as int, D_10000 as int);
}

// ---------------------------------------------------------------------------
// Health check
// ---------------------------------------------------------------------------

/// The answer to a health check.
#[derive(Debug)]
pub struct HealthResponse {
    pub status: String,
    pub version: String,
    pub uptime_secs: u64,
}

/// Health check endpoint
pub fn health_check(version: &str, uptime_secs: u64) -> (r: HealthResponse)
    ensures
        r.status@ == "healthy"@,
        r.version@ == version@,
        r.uptime_secs == uptime_secs,
{
    HealthResponse { status: "healthy".to_string(), version: version.to_string(), uptime_secs }
}

} // verus!
