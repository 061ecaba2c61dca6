//! Alerts and the Discord messages that are made of them.
use super::level::AlertLevel;
use crate::binary64::numbers::D_100;
use crate::binary64::{zero, zero_value, Binary64};
use crate::binary64::figures::{
    fixed, fixed_field, fixed_signed, fixed_text, signed_field, signed_text,
};
use crate::text::{
    capitalize, capitalized, concat2, concat3, i64_text, int_text, pad_left, padded, to_uppercase,
    uppercase, Line,
};
use crate::time::{rfc3339, text_of_date, CivilDate, Timestamp};
use vstd::prelude::*;

verus! {

/// Types of alerts that can be sent
#[derive(Debug, Clone)]
pub enum AlertType {
    /// Trade was executed
    TradeExecuted {
        market_title: String,
        side: String,
        price_cents: u16,
        size_usd: Binary64,
        strategy: String,
        platform: String,
    },
    /// Arbitrage opportunity found
    OpportunityFound {
        market_title: String,
        expected_value_pct: Binary64,
        profit_cents: i16,
        arb_type: String,
    },
    /// Position was closed
    PositionClosed {
        market_title: String,
        entry_price_cents: u16,
        exit_price_cents: u16,
        pnl_usd: Binary64,
        hold_duration: String,
    },
    /// Circuit breaker triggered
    CircuitBreakerTriggered {
        reason: String,
        current_drawdown_pct: Binary64,
        consecutive_losses: u32,
    },
    /// Error occurred
    Error { message: String, context: Option<String> },
    /// Daily trading summary
    DailySummary {
        date: CivilDate,
        starting_capital: Binary64,
        ending_capital: Binary64,
        realized_pnl: Binary64,
        trades_count: i32,
        win_count: i32,
        max_drawdown_pct: Binary64,
    },
    /// System startup notification; the mode is "live" or "paper"
    SystemStartup { mode: String, capital: Binary64, open_positions: usize },
    /// System shutdown notification
    SystemShutdown { reason: String, final_capital: Binary64 },
    /// Custom alert with arbitrary content
    Custom { title: String, description: String, fields: Vec<(String, String, bool)> },
}

/// Informational, or a warning where the amount is a loss.
pub open spec fn level_of_result(amount: Binary64) -> AlertLevel {
    if amount.less(zero_value()) {
        AlertLevel::Warning
    } else {
        AlertLevel::Info
    }
}

fn level_for(amount: &Binary64) -> (r: AlertLevel)
    ensures
        r == level_of_result(*amount),
{
    if amount.lt(&zero()) {
        AlertLevel::Warning
    } else {
        AlertLevel::Info
    }
}

impl AlertType {
    /// The alert level that an alert has unless another one is given.
    pub open spec fn level(self) -> AlertLevel {
        match self {
            AlertType::TradeExecuted { .. } => AlertLevel::Info,
            AlertType::OpportunityFound { .. } => AlertLevel::Info,
            AlertType::PositionClosed { pnl_usd, .. } => level_of_result(pnl_usd),
            AlertType::CircuitBreakerTriggered { .. } => AlertLevel::Critical,
            AlertType::Error { .. } => AlertLevel::Warning,
            AlertType::DailySummary { realized_pnl, .. } => level_of_result(realized_pnl),
            AlertType::SystemStartup { .. } => AlertLevel::Info,
            AlertType::SystemShutdown { .. } => AlertLevel::Warning,
            AlertType::Custom { .. } => AlertLevel::Info,
        }
    }

    /// The title of the message.
    pub open spec fn title_text(self) -> Seq<char> {
        match self {
            AlertType::TradeExecuted { platform, .. } => "Trade Executed on "@ + capitalized(
                platform@,
            ),
            AlertType::OpportunityFound { arb_type, .. } => "Opportunity Found: "@ + arb_type@,
            AlertType::PositionClosed { pnl_usd, .. } => if zero_value().at_most(pnl_usd) {
                "Position Closed (Profit)"@
            } else {
                "Position Closed (Loss)"@
            },
            AlertType::CircuitBreakerTriggered { .. } => "Circuit Breaker Triggered"@,
            AlertType::Error { .. } => "Error"@,
            AlertType::DailySummary { date, .. } => "Daily Summary ("@ + text_of_date(date) + ")"@,
            AlertType::SystemStartup { mode, .. } => "System Started ("@ + capitalized(mode@)
                + ")"@,
            AlertType::SystemShutdown { .. } => "System Shutdown"@,
            AlertType::Custom { title, .. } => title@,
        }
    }

    /// Get the default alert level for this alert type
    pub fn default_level(&self) -> (r: AlertLevel)
        ensures
            r == self.level(),
    {
        match self {
            AlertType::TradeExecuted { .. } => AlertLevel::Info,
            AlertType::OpportunityFound { .. } => AlertLevel::Info,
            AlertType::PositionClosed { pnl_usd, .. } => level_for(pnl_usd),
            AlertType::CircuitBreakerTriggered { .. } => AlertLevel::Critical,
            AlertType::Error { .. } => AlertLevel::Warning,
            AlertType::DailySummary { realized_pnl, .. } => level_for(realized_pnl),
            AlertType::SystemStartup { .. } => AlertLevel::Info,
            AlertType::SystemShutdown { .. } => AlertLevel::Warning,
            AlertType::Custom { .. } => AlertLevel::Info,
        }
    }

    /// Get title for this alert type
    pub fn title(&self) -> (r: String)
        ensures
            r@ == self.title_text(),
    {
        match self {
            AlertType::TradeExecuted { platform, .. } => concat2(
                "Trade Executed on ",
                &capitalize(platform),
            ),
            AlertType::OpportunityFound { arb_type, .. } => concat2("Opportunity Found: ", arb_type),
            AlertType::PositionClosed { pnl_usd, .. } => if pnl_usd.ge(&zero()) {
                "Position Closed (Profit)".to_string()
            } else {
                "Position Closed (Loss)".to_string()
            },
            AlertType::CircuitBreakerTriggered { .. } => "Circuit Breaker Triggered".to_string(),
            AlertType::Error { .. } => "Error".to_string(),
            AlertType::DailySummary { date, .. } => concat3("Daily Summary (", &date.to_text(), ")"),
            AlertType::SystemStartup { mode, .. } => concat3(
                "System Started (",
                &capitalize(mode),
                ")",
            ),
            AlertType::SystemShutdown { .. } => "System Shutdown".to_string(),
            AlertType::Custom { title, .. } => title.clone(),
        }
    }

    /// Whether the count of losses of a daily summary is a number that can be shown.
    pub open spec fn has_loss_count(self) -> bool {
        self matches AlertType::DailySummary { trades_count, win_count, .. } ==> i32::MIN
            <= trades_count - win_count <= i32::MAX
    }
}

// ---------------------------------------------------------------------------
// Messages
// ---------------------------------------------------------------------------

/// Discord embed field
#[derive(Debug)]
pub struct EmbedField {
    pub name: String,
    pub value: String,
    pub inline: bool,
}

/// A field by what it holds.
pub struct FieldView {
    pub name: Seq<char>,
    pub value: Seq<char>,
    pub inline: bool,
}

impl View for EmbedField {
    type V = FieldView;

    open spec fn view(&self) -> FieldView {
        FieldView { name: self.name@, value: self.value@, inline: self.inline }
    }
}

/// A field that stands beside its neighbours.
pub open spec fn inline_field(name: Seq<char>, value: Seq<char>) -> FieldView {
    FieldView { name, value, inline: true }
}

fn inline(name: &str, value: String) -> (r: EmbedField)
    ensures
        r@ == inline_field(name@, value@),
{
    EmbedField { name: name.to_string(), value, inline: true }
}

fn inline_text(name: &str, value: &str) -> (r: EmbedField)
    ensures
        r@ == inline_field(name@, value@),
{
    inline(name, value.to_string())
}

/// The fields of a message by what they hold.
pub open spec fn fields_view(fields: Seq<EmbedField>) -> Seq<FieldView> {
    fields.map_values(|field: EmbedField| field@)
}

/// The body of a message: its description and its fields.
#[derive(Debug)]
pub struct EmbedBody {
    pub description: String,
    pub fields: Vec<EmbedField>,
}

/// The body of a message by what it holds.
#[verifier::ext_equal]
pub struct BodyView {
    pub description: Seq<char>,
    pub fields: Seq<FieldView>,
}

impl View for EmbedBody {
    type V = BodyView;

    open spec fn view(&self) -> BodyView {
        BodyView { description: self.description@, fields: fields_view(self.fields@) }
    }
}

/// A title in bold type.
pub open spec fn bold(title: Seq<char>) -> Seq<char> {
    "**"@ + title + "**"@
}

fn bold_text(title: &str) -> (r: String)
    ensures
        r@ == bold(title@),
{
    Line::of("**").add(title).add("**").done()
}

/// A price in cents.
pub open spec fn cents(price: int) -> Seq<char> {
    int_text(price) + "c"@
}

fn cents_text(price: u16) -> (r: String)
    ensures
        r@ == cents(price as int),
{
    Line::of(&i64_text(price as i64)).add("c").done()
}

/// An amount of dollars with two decimals.
pub open spec fn dollars(amount: Binary64) -> Seq<char> {
    "$"@ + fixed(amount, 2)
}

fn dollars_text(amount: Binary64) -> (r: String)
    ensures
        r@ == dollars(amount),
{
    Line::of("$").add(&fixed_text(&amount, 2)).done()
}

/// A fraction as a percentage with two decimals.
pub open spec fn percent(fraction: Binary64) -> Seq<char> {
    fixed(fraction.times(hundred_value()), 2) + "%"@
}

fn percent_text(fraction: Binary64) -> (r: String)
    ensures
        r@ == percent(fraction),
{
    Line::of(&fixed_text(&fraction.mul(&hundred()), 2)).add("%").done()
}

/// A profit or a loss in dollars, with its sign in front.
pub open spec fn gain(amount: Binary64) -> Seq<char> {
    if zero_value().at_most(amount) {
        "+$"@ + fixed(amount, 2)
    } else {
        "-$"@ + fixed(amount.absolute(), 2)
    }
}

fn gain_text(amount: Binary64) -> (r: String)
    ensures
        r@ == gain(amount),
{
    if amount.ge(&zero()) {
        Line::of("+$").add(&fixed_text(&amount, 2)).done()
    } else {
        Line::of("-$").add(&fixed_text(&amount.abs(), 2)).done()
    }
}

/// The body for an executed trade; the side is given in upper case, the platform and the
/// strategy with a capital letter.
pub open spec fn trade_body(
    market_title: Seq<char>,
    side_upper: Seq<char>,
    price_cents: u16,
    size_usd: Binary64,
    platform_capital: Seq<char>,
    strategy_capital: Seq<char>,
) -> BodyView {
    BodyView {
        description: bold(market_title),
        fields: seq![
            inline_field("Side"@, side_upper),
            inline_field("Price"@, cents(price_cents as int)),
            inline_field("Size"@, dollars(size_usd)),
            inline_field("Platform"@, platform_capital),
            inline_field("Strategy"@, strategy_capital),
        ],
    }
}

/// Lay out the body for an executed trade.
pub fn build_trade_body(
    market_title: &str,
    side_upper: &str,
    price_cents: u16,
    size_usd: Binary64,
    platform_capital: &str,
    strategy_capital: &str,
) -> (r: EmbedBody)
    ensures
        r@ == trade_body(
            market_title@,
            side_upper@,
            price_cents,
            size_usd,
            platform_capital@,
            strategy_capital@,
        ),
{
    let fields = vec![
        inline_text("Side", side_upper),
        inline("Price", cents_text(price_cents)),
        inline("Size", dollars_text(size_usd)),
        inline_text("Platform", platform_capital),
        inline_text("Strategy", strategy_capital),
    ];
    let r = EmbedBody { description: bold_text(market_title), fields };
    assert(r@.fields =~= trade_body(
        market_title@,
        side_upper@,
        price_cents,
        size_usd,
        platform_capital@,
        strategy_capital@,
    ).fields);
    r
}

/// The body for an opportunity.
pub open spec fn opportunity_body(
    market_title: Seq<char>,
    expected_value_pct: Binary64,
    profit_cents: i16,
    arb_type: Seq<char>,
) -> BodyView {
    BodyView {
        description: bold(market_title),
        fields: seq![
            inline_field("Type"@, arb_type),
            inline_field(
                "Expected Value"@,
                fixed_signed(expected_value_pct, 2) + "%"@,
            ),
            inline_field("Profit"@, int_text(profit_cents as int) + "c/contract"@),
        ],
    }
}

/// Lay out the body for an opportunity.
pub fn build_opportunity_body(
    market_title: &str,
    expected_value_pct: Binary64,
    profit_cents: i16,
    arb_type: &str,
) -> (r: EmbedBody)
    ensures
        r@ == opportunity_body(market_title@, expected_value_pct, profit_cents, arb_type@),
{
    let value = Line::of(&signed_text(&expected_value_pct, 2)).add("%").done();
    let profit = Line::of(&i64_text(profit_cents as i64)).add("c/contract").done();
    let fields = vec![
        inline_text("Type", arb_type),
        inline("Expected Value", value),
        inline("Profit", profit),
    ];
    let r = EmbedBody { description: bold_text(market_title), fields };
    assert(r@.fields =~= opportunity_body(
        market_title@,
        expected_value_pct,
        profit_cents,
        arb_type@,
    ).fields);
    r
}

/// The body for a closed position.
pub open spec fn closed_body(
    market_title: Seq<char>,
    entry_price_cents: u16,
    exit_price_cents: u16,
    pnl_usd: Binary64,
    hold_duration: Seq<char>,
) -> BodyView {
    BodyView {
        description: bold(market_title),
        fields: seq![
            inline_field("Entry"@, cents(entry_price_cents as int)),
            inline_field("Exit"@, cents(exit_price_cents as int)),
            inline_field("P&L"@, gain(pnl_usd)),
            inline_field("Duration"@, hold_duration),
        ],
    }
}

/// Lay out the body for a closed position.
pub fn build_closed_body(
    market_title: &str,
    entry_price_cents: u16,
    exit_price_cents: u16,
    pnl_usd: Binary64,
    hold_duration: &str,
) -> (r: EmbedBody)
    ensures
        r@ == closed_body(
            market_title@,
            entry_price_cents,
            exit_price_cents,
            pnl_usd,
            hold_duration@,
        ),
{
    let fields = vec![
        inline("Entry", cents_text(entry_price_cents)),
        inline("Exit", cents_text(exit_price_cents)),
        inline("P&L", gain_text(pnl_usd)),
        inline_text("Duration", hold_duration),
    ];
    let r = EmbedBody { description: bold_text(market_title), fields };
    assert(r@.fields =~= closed_body(
        market_title@,
        entry_price_cents,
        exit_price_cents,
        pnl_usd,
        hold_duration@,
    ).fields);
    r
}

/// The body for a triggered circuit breaker.
pub open spec fn breaker_body(
    reason: Seq<char>,
    current_drawdown_pct: Binary64,
    consecutive_losses: u32,
) -> BodyView {
    BodyView {
        description: "**Trading halted: "@ + reason + "**"@,
        fields: seq![
            inline_field("Current Drawdown"@, percent(current_drawdown_pct)),
            inline_field("Consecutive Losses"@, int_text(consecutive_losses as int)),
        ],
    }
}

/// Lay out the body for a triggered circuit breaker.
pub fn build_breaker_body(
    reason: &str,
    current_drawdown_pct: Binary64,
    consecutive_losses: u32,
) -> (r: EmbedBody)
    ensures
        r@ == breaker_body(reason@, current_drawdown_pct, consecutive_losses),
{
    let description = Line::of("**Trading halted: ").add(reason).add("**").done();
    let fields = vec![
        inline("Current Drawdown", percent_text(current_drawdown_pct)),
        inline_text("Consecutive Losses", &i64_text(consecutive_losses as i64)),
    ];
    let r = EmbedBody { description, fields };
    let ghost expected = breaker_body(reason@, current_drawdown_pct, consecutive_losses);
    assert(r@.fields =~= expected.fields);
    r
}

/// The body for an error.
pub open spec fn error_body(message: Seq<char>, context: Option<Seq<char>>) -> BodyView {
    BodyView {
        description: "```\n"@ + message + "\n```"@,
        fields: match context {
            Some(context) => seq![
                FieldView { name: "Context"@, value: context, inline: false },
            ],
            None => seq![],
        },
    }
}

/// A text that may be missing, by what it holds.
pub open spec fn optional_text(text: Option<String>) -> Option<Seq<char>> {
    match text {
        Some(s) => Some(s@),
        None => None,
    }
}

/// Lay out the body for an error.
pub fn build_error_body(message: &str, context: &Option<String>) -> (r: EmbedBody)
    ensures
        r@ == error_body(message@, optional_text(*context)),
{
    let description = Line::of("```\n").add(message).add("\n```").done();
    let mut fields: Vec<EmbedField> = Vec::new();
    if let Some(context) = context {
        fields.push(
            EmbedField {
                name: "Context".to_string(),
                value: context.clone(),
                inline: false,
            },
        );
    }
    let r = EmbedBody { description, fields };
    let ghost expected = error_body(message@, optional_text(*context));
    assert(r@.fields =~= expected.fields);
    r
}

// ---------------------------------------------------------------------------
// Daily summaries
// ---------------------------------------------------------------------------

/// `100.0`
pub open spec fn hundred_value() -> Binary64 {
    Binary64 { bits: D_100 }
}

fn hundred() -> (r: Binary64)
    ensures
        r == hundred_value(),
{
    Binary64 { bits: D_100 }
}

/// The share of trades that won, in percent; zero where there were none.
pub open spec fn win_rate(trades_count: i32, win_count: i32) -> Binary64 {
    if trades_count > 0 {
        Binary64::of_int(win_count as int).over(Binary64::of_int(trades_count as int)).times(
            hundred_value(),
        )
    } else {
        zero_value()
    }
}

fn win_rate_number(trades_count: i32, win_count: i32) -> (r: Binary64)
    ensures
        r == win_rate(trades_count, win_count),
{
    if trades_count > 0 {
        Binary64::from_i64(win_count as i64).div(&Binary64::from_i64(trades_count as i64)).mul(
            &hundred(),
        )
    } else {
        zero()
    }
}

/// The profit in percent of the capital; zero where there was no capital.
pub open spec fn profit_rate(profit: Binary64, capital: Binary64) -> Binary64 {
    if zero_value().less(capital) {
        profit.over(capital).times(hundred_value())
    } else {
        zero_value()
    }
}

fn profit_rate_number(profit: &Binary64, capital: &Binary64) -> (r: Binary64)
    ensures
        r == profit_rate(*profit, *capital),
{
    if capital.gt(&zero()) {
        profit.div(capital).mul(&hundred())
    } else {
        zero()
    }
}

/// The growth of the capital in percent; zero where there was no capital.
pub open spec fn growth_rate(starting: Binary64, ending: Binary64) -> Binary64 {
    if zero_value().less(starting) {
        ending.minus(starting).over(starting).times(hundred_value())
    } else {
        zero_value()
    }
}

fn growth_rate_number(starting: &Binary64, ending: &Binary64) -> (r: Binary64)
    ensures
        r == growth_rate(*starting, *ending),
{
    if starting.gt(&zero()) {
        ending.sub(starting).div(starting).mul(&hundred())
    } else {
        zero()
    }
}

/// A rule of the daily table.
pub const TABLE_RULE: &'static str = "+---------------------------+\n";

/// The daily summary as a table.
pub open spec fn summary_table(
    date: Seq<char>,
    starting_capital: Binary64,
    ending_capital: Binary64,
    realized_pnl: Binary64,
    trades_count: i32,
    win_count: i32,
    max_drawdown_pct: Binary64,
) -> Seq<char> {
    "```\n"@ + TABLE_RULE@ + "|     DAILY REPORT "@ + date + "    |\n"@ + TABLE_RULE@
        + "| Starting    | $"@ + padded(fixed(starting_capital, 2), 10)
        + " |\n| Ending      | $"@ + padded(fixed(ending_capital, 2), 10)
        + " |\n| P&L         | $"@ + padded(fixed_signed(realized_pnl, 2), 10)
        + " |\n| Return      | "@
        + padded(fixed_signed(growth_rate(starting_capital, ending_capital), 1), 10) + "% |\n"@
        + TABLE_RULE@ + "| Trades      | "@ + padded(int_text(trades_count as int), 10)
        + "  |\n| Wins        | "@ + padded(int_text(win_count as int), 10)
        + "  |\n| Losses      | "@ + padded(int_text(trades_count - win_count), 10)
        + "  |\n| Win Rate    | "@ + padded(fixed(win_rate(trades_count, win_count), 1), 9)
        + "%  |\n"@ + TABLE_RULE@ + "| Max DD      | "@
        + padded(fixed(max_drawdown_pct.times(hundred_value()), 2), 9) + "%  |\n"@ + TABLE_RULE@
        + "```"@
}

/// Format daily summary as a nice table
pub fn format_daily_summary_table(
    date: &str,
    starting_capital: Binary64,
    ending_capital: Binary64,
    realized_pnl: Binary64,
    trades_count: i32,
    win_count: i32,
    max_drawdown_pct: Binary64,
) -> (r: String)
    requires
        i32::MIN <= trades_count - win_count <= i32::MAX,
    ensures
        r@ == summary_table(
            date@,
            starting_capital,
            ending_capital,
            realized_pnl,
            trades_count,
            win_count,
            max_drawdown_pct,
        ),
{
    let loss_count: i32 = trades_count - win_count;
    let growth = growth_rate_number(&starting_capital, &ending_capital);
    let rate = win_rate_number(trades_count, win_count);
    let head = Line::of("```\n").add(TABLE_RULE).add("|     DAILY REPORT ").add(date)
        .add("    |\n").add(TABLE_RULE);
    let capital = head.add("| Starting    | $").add(&fixed_field(&starting_capital, 2, 10))
        .add(" |\n| Ending      | $").add(&fixed_field(&ending_capital, 2, 10))
        .add(" |\n| P&L         | $").add(&signed_field(&realized_pnl, 2, 10))
        .add(" |\n| Return      | ").add(&signed_field(&growth, 1, 10)).add("% |\n")
        .add(TABLE_RULE);
    let trades = capital.add("| Trades      | ")
        .add(&pad_left(&i64_text(trades_count as i64), 10)).add("  |\n| Wins        | ")
        .add(&pad_left(&i64_text(win_count as i64), 10)).add("  |\n| Losses      | ")
        .add(&pad_left(&i64_text(loss_count as i64), 10)).add("  |\n| Win Rate    | ")
        .add(&fixed_field(&rate, 1, 9)).add("%  |\n").add(TABLE_RULE);
    trades.add("| Max DD      | ").add(&fixed_field(&max_drawdown_pct.mul(&hundred()), 2, 9))
        .add("%  |\n").add(TABLE_RULE).add("```").done()
}

/// The profit of a day, in dollars and in percent of the starting capital.
pub open spec fn daily_gain(realized_pnl: Binary64, starting_capital: Binary64) -> Seq<char> {
    let rate = fixed(profit_rate(realized_pnl, starting_capital), 1);
    if zero_value().at_most(realized_pnl) {
        "+$"@ + fixed(realized_pnl, 2) + " (+"@ + rate + "%)"@
    } else {
        "-$"@ + fixed(realized_pnl.absolute(), 2) + " ("@ + rate + "%)"@
    }
}

fn daily_gain_text(realized_pnl: Binary64, starting_capital: Binary64) -> (r: String)
    ensures
        r@ == daily_gain(realized_pnl, starting_capital),
{
    let rate = fixed_text(&profit_rate_number(&realized_pnl, &starting_capital), 1);
    if realized_pnl.ge(&zero()) {
        Line::of("+$").add(&fixed_text(&realized_pnl, 2)).add(" (+").add(&rate).add("%)").done()
    } else {
        Line::of("-$").add(&fixed_text(&realized_pnl.abs(), 2)).add(" (").add(&rate).add("%)")
            .done()
    }
}

/// The body for a daily summary.
pub open spec fn summary_body(
    date: Seq<char>,
    starting_capital: Binary64,
    ending_capital: Binary64,
    realized_pnl: Binary64,
    trades_count: i32,
    win_count: i32,
    max_drawdown_pct: Binary64,
) -> BodyView {
    BodyView {
        description: summary_table(
            date,
            starting_capital,
            ending_capital,
            realized_pnl,
            trades_count,
            win_count,
            max_drawdown_pct,
        ),
        fields: seq![
            inline_field("Starting Capital"@, dollars(starting_capital)),
            inline_field("Ending Capital"@, dollars(ending_capital)),
            inline_field("Realized P&L"@, daily_gain(realized_pnl, starting_capital)),
            inline_field(
                "Trades"@,
                int_text(trades_count as int) + " ("@ + int_text(win_count as int) + " W / "@
                    + int_text(trades_count - win_count) + " L)"@,
            ),
            inline_field(
                "Win Rate"@,
                fixed(win_rate(trades_count, win_count), 1) + "%"@,
            ),
            inline_field("Max Drawdown"@, percent(max_drawdown_pct)),
        ],
    }
}

/// Lay out the body for a daily summary.
pub fn build_summary_body(
    date: &str,
    starting_capital: Binary64,
    ending_capital: Binary64,
    realized_pnl: Binary64,
    trades_count: i32,
    win_count: i32,
    max_drawdown_pct: Binary64,
) -> (r: EmbedBody)
    requires
        i32::MIN <= trades_count - win_count <= i32::MAX,
    ensures
        r@ == summary_body(
            date@,
            starting_capital,
            ending_capital,
            realized_pnl,
            trades_count,
            win_count,
            max_drawdown_pct,
        ),
{
    let loss_count: i32 = trades_count - win_count;
    let description = format_daily_summary_table(
        date,
        starting_capital,
        ending_capital,
        realized_pnl,
        trades_count,
        win_count,
        max_drawdown_pct,
    );
    let trades = Line::of(&i64_text(trades_count as i64)).add(" (")
        .add(&i64_text(win_count as i64)).add(" W / ").add(&i64_text(loss_count as i64))
        .add(" L)").done();
    let rate = Line::of(&fixed_text(&win_rate_number(trades_count, win_count), 1)).add("%").done();
    let fields = vec![
        inline("Starting Capital", dollars_text(starting_capital)),
        inline("Ending Capital", dollars_text(ending_capital)),
        inline("Realized P&L", daily_gain_text(realized_pnl, starting_capital)),
        inline("Trades", trades),
        inline("Win Rate", rate),
        inline("Max Drawdown", percent_text(max_drawdown_pct)),
    ];
    let ghost expected = summary_body(
        date@,
        starting_capital,
        ending_capital,
        realized_pnl,
        trades_count,
        win_count,
        max_drawdown_pct,
    );
    let r = EmbedBody { description, fields };
    assert(r@.fields =~= expected.fields);
    r
}

/// The body for a start of the system; the mode is given in upper case.
pub open spec fn startup_body(
    mode_upper: Seq<char>,
    capital: Binary64,
    open_positions: usize,
) -> BodyView {
    BodyView {
        description: "Trading system initialized in **"@ + mode_upper + "** mode"@,
        fields: seq![
            inline_field("Capital"@, dollars(capital)),
            inline_field("Open Positions"@, int_text(open_positions as int)),
        ],
    }
}

/// Lay out the body for a start of the system.
pub fn build_startup_body(
    mode_upper: &str,
    capital: Binary64,
    open_positions: usize,
) -> (r: EmbedBody)
    ensures
        r@ == startup_body(mode_upper@, capital, open_positions),
{
    let description = Line::of("Trading system initialized in **").add(mode_upper)
        .add("** mode").done();
    let fields = vec![
        inline("Capital", dollars_text(capital)),
        inline_text("Open Positions", &crate::text::u64_text(open_positions as u64)),
    ];
    let r = EmbedBody { description, fields };
    let ghost expected = startup_body(mode_upper@, capital, open_positions);
    assert(r@.fields =~= expected.fields);
    r
}

/// The body for a shutdown of the system.
pub open spec fn shutdown_body(reason: Seq<char>, final_capital: Binary64) -> BodyView {
    BodyView {
        description: "**Reason:** "@ + reason,
        fields: seq![inline_field("Final Capital"@, dollars(final_capital))],
    }
}

/// Lay out the body for a shutdown of the system.
pub fn build_shutdown_body(reason: &str, final_capital: Binary64) -> (r: EmbedBody)
    ensures
        r@ == shutdown_body(reason@, final_capital),
{
    let description = Line::of("**Reason:** ").add(reason).done();
    let fields = vec![inline("Final Capital", dollars_text(final_capital))];
    let r = EmbedBody { description, fields };
    let ghost expected = shutdown_body(reason@, final_capital);
    assert(r@.fields =~= expected.fields);
    r
}

/// The body for a custom alert.
pub open spec fn custom_body(
    description: Seq<char>,
    fields: Seq<(String, String, bool)>,
) -> BodyView {
    BodyView {
        description: description,
        fields: fields.map_values(
            |field: (String, String, bool)|
                FieldView { name: field.0@, value: field.1@, inline: field.2 },
        ),
    }
}

/// Lay out the body for a custom alert.
pub fn build_custom_body(description: &str, fields: &Vec<(String, String, bool)>) -> (r: EmbedBody)
    ensures
        r@ == custom_body(description@, fields@),
{
    let ghost expected = custom_body(description@, fields@).fields;
    let mut laid_out: Vec<EmbedField> = Vec::new();
    let mut i: usize = 0;
    assert(fields_view(laid_out@) =~= expected.take(0));
    while i < fields.len()
        invariant
            i <= fields.len(),
            expected == custom_body(description@, fields@).fields,
            fields_view(laid_out@) == expected.take(i as int),
        decreases fields.len() - i,
    {
        let field = &fields[i];
        let ghost before = laid_out@;
        laid_out.push(
            EmbedField {
                name: field.0.clone(),
                value: field.1.clone(),
                inline: field.2,
            },
        );
        i += 1;
        assert(laid_out@.last()@ == expected[i - 1]);
        assert(fields_view(laid_out@) =~= fields_view(before).push(laid_out@.last()@));
        assert(expected.take(i as int) =~= expected.take(i - 1).push(expected[i - 1]));
    }
    assert(expected.take(fields.len() as int) =~= expected);
    EmbedBody { description: description.to_string(), fields: laid_out }
}

impl AlertType {
    /// The body of the message.
    pub open spec fn body(self) -> BodyView {
        match self {
            AlertType::TradeExecuted {
                market_title,
                side,
                price_cents,
                size_usd,
                strategy,
                platform,
            } => trade_body(
                market_title@,
                uppercase(side@),
                price_cents,
                size_usd,
                capitalized(platform@),
                capitalized(strategy@),
            ),
            AlertType::OpportunityFound {
                market_title,
                expected_value_pct,
                profit_cents,
                arb_type,
            } => opportunity_body(market_title@, expected_value_pct, profit_cents, arb_type@),
            AlertType::PositionClosed {
                market_title,
                entry_price_cents,
                exit_price_cents,
                pnl_usd,
                hold_duration,
            } => closed_body(
                market_title@,
                entry_price_cents,
                exit_price_cents,
                pnl_usd,
                hold_duration@,
            ),
            AlertType::CircuitBreakerTriggered {
                reason,
                current_drawdown_pct,
                consecutive_losses,
            } => breaker_body(reason@, current_drawdown_pct, consecutive_losses),
            AlertType::Error { message, context } => error_body(message@, optional_text(context)),
            AlertType::DailySummary {
                date,
                starting_capital,
                ending_capital,
                realized_pnl,
                trades_count,
                win_count,
                max_drawdown_pct,
            } => summary_body(
                text_of_date(date),
                starting_capital,
                ending_capital,
                realized_pnl,
                trades_count,
                win_count,
                max_drawdown_pct,
            ),
            AlertType::SystemStartup { mode, capital, open_positions } => startup_body(
                uppercase(mode@),
                capital,
                open_positions,
            ),
            AlertType::SystemShutdown { reason, final_capital } => shutdown_body(
                reason@,
                final_capital,
            ),
            AlertType::Custom { description, fields, .. } => custom_body(description@, fields@),
        }
    }
}

/// Lay out the body of the message for an alert.
pub fn build_body(alert: &AlertType) -> (r: EmbedBody)
    requires
        alert.has_loss_count(),
    ensures
        r@ == alert.body(),
{
    match alert {
        AlertType::TradeExecuted {
            market_title,
            side,
            price_cents,
            size_usd,
            strategy,
            platform,
        } => build_trade_body(
            market_title,
            &to_uppercase(side),
            *price_cents,
            *size_usd,
            &capitalize(platform),
            &capitalize(strategy),
        ),
        AlertType::OpportunityFound {
            market_title,
            expected_value_pct,
            profit_cents,
            arb_type,
        } => build_opportunity_body(market_title, *expected_value_pct, *profit_cents, arb_type),
        AlertType::PositionClosed {
            market_title,
            entry_price_cents,
            exit_price_cents,
            pnl_usd,
            hold_duration,
        } => build_closed_body(
            market_title,
            *entry_price_cents,
            *exit_price_cents,
            *pnl_usd,
            hold_duration,
        ),
        AlertType::CircuitBreakerTriggered { reason, current_drawdown_pct, consecutive_losses } =>
        build_breaker_body(reason, *current_drawdown_pct, *consecutive_losses),
        AlertType::Error { message, context } => build_error_body(message, context),
        AlertType::DailySummary {
            date,
            starting_capital,
            ending_capital,
            realized_pnl,
            trades_count,
            win_count,
            max_drawdown_pct,
        } => build_summary_body(
            &date.to_text(),
            *starting_capital,
            *ending_capital,
            *realized_pnl,
            *trades_count,
            *win_count,
            *max_drawdown_pct,
        ),
        AlertType::SystemStartup { mode, capital, open_positions } => build_startup_body(
            &to_uppercase(mode),
            *capital,
            *open_positions,
        ),
        AlertType::SystemShutdown { reason, final_capital } => build_shutdown_body(
            reason,
            *final_capital,
        ),
        AlertType::Custom { description, fields, .. } => build_custom_body(description, fields),
    }
}

/// Discord embed footer
#[derive(Debug)]
pub struct EmbedFooter {
    pub text: String,
}

/// Discord embed structure
#[derive(Debug)]
pub struct Embed {
    /// Embed title
    pub title: Option<String>,
    /// Embed description
    pub description: Option<String>,
    /// Embed color (integer)
    pub color: Option<u32>,
    /// Embed fields
    pub fields: Vec<EmbedField>,
    /// Footer
    pub footer: Option<EmbedFooter>,
    /// Timestamp (ISO 8601)
    pub timestamp: Option<String>,
}

impl Embed {
    /// Whether the embed is the one for an alert at the given level and time.
    pub open spec fn shows(self, level: AlertLevel, alert: AlertType, now: Timestamp) -> bool {
        &&& self.title matches Some(title) && title@ == ""@ + " "@ + alert.title_text()
        &&& self.description matches Some(d) && d@ == alert.body().description
        &&& self.color == Some(level.embed_color())
        &&& fields_view(self.fields@) == alert.body().fields
        &&& self.footer matches Some(footer) && footer.text@ == "Prediction Market Trading Bot"@
        &&& self.timestamp matches Some(time) && time@ == rfc3339(now@.0, now@.1)
    }
}

/// Build Discord embed from alert
pub fn build_embed(level: AlertLevel, alert: &AlertType, now: &Timestamp) -> (embed: Embed)
    requires
        alert.has_loss_count(),
    ensures
        embed.shows(level, *alert, *now),
{
    let title = concat3(level.emoji(), " ", &alert.title());
    let body = build_body(alert);
    Embed {
        title: Some(title),
        description: Some(body.description),
        color: Some(level.color()),
        fields: body.fields,
        footer: Some(EmbedFooter { text: "Prediction Market Trading Bot".to_string() }),
        timestamp: Some(now.to_rfc3339()),
    }
}

/// Discord webhook message payload
#[derive(Debug)]
pub struct WebhookPayload {
    /// Plain text content (for mentions)
    pub content: Option<String>,
    /// Username override
    pub username: Option<String>,
    /// Embedded rich content
    pub embeds: Vec<Embed>,
}

impl WebhookPayload {
    /// Whether the payload carries an alert: one embed, and a mention where the alert is
    /// critical and there is somebody to mention.
    pub open spec fn carries(
        self,
        mention_user_id: Option<String>,
        level: AlertLevel,
        alert: AlertType,
        now: Timestamp,
    ) -> bool {
        &&& self.content is Some <==> level == AlertLevel::Critical && mention_user_id is Some
        &&& self.content matches Some(content) ==> content@ == "<@"@ + mention_user_id->0@ + ">"@
        &&& self.username matches Some(name) && name@ == "Trading Bot"@
        &&& self.embeds.len() == 1
        &&& self.embeds[0].shows(level, alert, now)
    }
}

/// Build webhook payload from alert
pub fn build_payload(
    mention_user_id: &Option<String>,
    level: AlertLevel,
    alert: &AlertType,
    now: &Timestamp,
) -> (payload: WebhookPayload)
    requires
        alert.has_loss_count(),
    ensures
        payload.carries(*mention_user_id, level, *alert, *now),
{
    let embed = build_embed(level, alert, now);
    let content = if level == AlertLevel::Critical {
        match mention_user_id {
            Some(id) => Some(concat3("<@", id, ">")),
            None => None,
        }
    } else {
        None
    };
    let mut embeds: Vec<Embed> = Vec::new();
    embeds.push(embed);
    WebhookPayload { content, username: Some("Trading Bot".to_string()), embeds }
}

// ---------------------------------------------------------------------------
// Plain messages
// ---------------------------------------------------------------------------

/// Daily trading statistics for summary alerts
#[derive(Debug, Clone)]
pub struct DailyStats {
    pub date: CivilDate,
    pub starting_capital: Binary64,
    pub ending_capital: Binary64,
    pub realized_pnl: Binary64,
    pub trades_count: i32,
    pub win_count: i32,
    pub max_drawdown: Binary64,
}

impl Default for DailyStats {
    fn default() -> (r: Self)
        ensures
            r.date@ == (1970i32, 1u32, 1u32),
            r.starting_capital == zero_value(),
            r.ending_capital == zero_value(),
            r.realized_pnl == zero_value(),
            r.trades_count == 0,
            r.win_count == 0,
            r.max_drawdown == zero_value(),
    {
        DailyStats {
            date: CivilDate::default(),
            starting_capital: zero(),
            ending_capital: zero(),
            realized_pnl: zero(),
            trades_count: 0,
            win_count: 0,
            max_drawdown: zero(),
        }
    }
}

impl From<DailyStats> for AlertType {
    fn from(stats: DailyStats) -> (r: AlertType) {
        AlertType::DailySummary {
            date: stats.date,
            starting_capital: stats.starting_capital,
            ending_capital: stats.ending_capital,
            realized_pnl: stats.realized_pnl,
            trades_count: stats.trades_count,
            win_count: stats.win_count,
            max_drawdown_pct: stats.max_drawdown,
        }
    }
}

impl vstd::std_specs::convert::FromSpecImpl<DailyStats> for AlertType {
    open spec fn obeys_from_spec() -> bool {
        true
    }

    open spec fn from_spec(stats: DailyStats) -> AlertType {
        AlertType::DailySummary {
            date: stats.date,
            starting_capital: stats.starting_capital,
            ending_capital: stats.ending_capital,
            realized_pnl: stats.realized_pnl,
            trades_count: stats.trades_count,
            win_count: stats.win_count,
            max_drawdown_pct: stats.max_drawdown,
        }
    }
}

/// A trade alert as one message.
pub open spec fn trade_message(
    market_title: Seq<char>,
    side: Seq<char>,
    price_cents: u16,
    size_usd: Binary64,
    strategy: Seq<char>,
) -> Seq<char> {
    "**Trade Executed**\nMarket: "@ + market_title + "\nSide: "@ + side + " @ "@
        + int_text(price_cents as int) + "c\nSize: $"@ + fixed(size_usd, 2) + "\nStrategy: "@
        + strategy
}

/// Format a trade alert message
pub fn format_trade_alert(
    market_title: &str,
    side: &str,
    price_cents: u16,
    size_usd: Binary64,
    strategy: &str,
) -> (r: String)
    ensures
        r@ == trade_message(market_title@, side@, price_cents, size_usd, strategy@),
{
    Line::of("**Trade Executed**\nMarket: ").add(market_title).add("\nSide: ").add(side)
        .add(" @ ").add(&i64_text(price_cents as i64)).add("c\nSize: $")
        .add(&fixed_text(&size_usd, 2)).add("\nStrategy: ").add(strategy).done()
}

/// A daily summary as one message.
pub open spec fn summary_message(stats: DailyStats) -> Seq<char> {
    "**Daily Summary ("@ + text_of_date(stats.date) + ")**\nStarting Capital: $"@
        + fixed(stats.starting_capital, 2) + "\nEnding Capital: $"@
        + fixed(stats.ending_capital, 2) + "\nRealized P&L: $"@
        + fixed_signed(stats.realized_pnl, 2) + " ("@
        + fixed_signed(profit_rate(stats.realized_pnl, stats.starting_capital), 1)
        + "%)\nTrades: "@ + int_text(stats.trades_count as int) + " ("@
        + int_text(stats.win_count as int) + " wins, "@
        + int_text(stats.trades_count - stats.win_count) + " losses)\nWin Rate: "@
        + fixed(win_rate(stats.trades_count, stats.win_count), 1) + "%\nMax Drawdown: "@
        + fixed(stats.max_drawdown.times(hundred_value()), 2) + "%"@
}

/// Format a daily summary message
pub fn format_daily_summary(stats: &DailyStats) -> (r: String)
    requires
        i32::MIN <= stats.trades_count - stats.win_count <= i32::MAX,
    ensures
        r@ == summary_message(*stats),
{
    let loss_count: i32 = stats.trades_count - stats.win_count;
    let rate = win_rate_number(stats.trades_count, stats.win_count);
    let profit = profit_rate_number(&stats.realized_pnl, &stats.starting_capital);
    let capital = Line::of("**Daily Summary (").add(&stats.date.to_text())
        .add(")**\nStarting Capital: $").add(&fixed_text(&stats.starting_capital, 2))
        .add("\nEnding Capital: $").add(&fixed_text(&stats.ending_capital, 2))
        .add("\nRealized P&L: $").add(&signed_text(&stats.realized_pnl, 2)).add(" (")
        .add(&signed_text(&profit, 1));
    capital.add("%)\nTrades: ").add(&i64_text(stats.trades_count as i64)).add(" (")
        .add(&i64_text(stats.win_count as i64)).add(" wins, ").add(&i64_text(loss_count as i64))
        .add(" losses)\nWin Rate: ").add(&fixed_text(&rate, 1)).add("%\nMax Drawdown: ")
        .add(&fixed_text(&stats.max_drawdown.mul(&hundred()), 2)).add("%").done()
}

} // verus!
