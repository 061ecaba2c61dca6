//! The parts of the pages that the server renders.
use super::state::{
    DashboardStats, DisplayPosition, DisplayPositionView, Opportunity, OpportunityView,
    PnlDataPoint, SystemConfig, TradingMode,
};
use crate::binary64::figures::{fixed, fixed_text};
use crate::binary64::numbers::{D_0_01, D_0_02, D_100};
use crate::binary64::{zero, zero_value, Binary64};
use crate::text::{decimal, escaped, html_escape, join, joined, u64_text, Line};
use vstd::prelude::*;

verus! {

// ---------------------------------------------------------------------------
// Parts of the pages
// ---------------------------------------------------------------------------

/// The page without open positions.
pub const NO_POSITIONS: &'static str = r#"
        <div class="text-center py-8 text-gray-500">
            <svg class="mx-auto h-12 w-12 text-gray-400" fill="none" viewBox="0 0 24 24" stroke="currentColor">
                <path stroke-linecap="round" stroke-linejoin="round" stroke-width="2" d="M20 13V6a2 2 0 00-2-2H6a2 2 0 00-2 2v7m16 0v5a2 2 0 01-2 2H6a2 2 0 01-2-2v-5m16 0h-2.586a1 1 0 00-.707.293l-2.414 2.414a1 1 0 01-.707.293h-3.172a1 1 0 01-.707-.293l-2.414-2.414A1 1 0 006.586 13H4" />
            </svg>
            <p class="mt-2">No open positions</p>
        </div>
        "#;

/// The head of the table of positions.
pub const POSITIONS_HEAD: &'static str = r#"
    <table class="min-w-full divide-y divide-gray-200">
        <thead class="bg-gray-50">
            <tr>
                <th class="px-6 py-3 text-left text-xs font-medium text-gray-500 uppercase tracking-wider">Market</th>
                <th class="px-6 py-3 text-left text-xs font-medium text-gray-500 uppercase tracking-wider">Platform</th>
                <th class="px-6 py-3 text-left text-xs font-medium text-gray-500 uppercase tracking-wider">Side</th>
                <th class="px-6 py-3 text-right text-xs font-medium text-gray-500 uppercase tracking-wider">Entry</th>
                <th class="px-6 py-3 text-right text-xs font-medium text-gray-500 uppercase tracking-wider">Current</th>
                <th class="px-6 py-3 text-right text-xs font-medium text-gray-500 uppercase tracking-wider">Qty</th>
                <th class="px-6 py-3 text-right text-xs font-medium text-gray-500 uppercase tracking-wider">P&L</th>
            </tr>
        </thead>
        <tbody class="bg-white divide-y divide-gray-200">
    "#;

/// The page without opportunities.
pub const NO_OPPORTUNITIES: &'static str = r#"
        <div class="text-center py-8 text-gray-500">
            <svg class="mx-auto h-12 w-12 text-gray-400" fill="none" viewBox="0 0 24 24" stroke="currentColor">
                <path stroke-linecap="round" stroke-linejoin="round" stroke-width="2" d="M21 21l-6-6m2-5a7 7 0 11-14 0 7 7 0 0114 0z" />
            </svg>
            <p class="mt-2">Scanning for opportunities...</p>
        </div>
        "#;

/// The head of the table of opportunities.
pub const OPPORTUNITIES_HEAD: &'static str = r#"
    <table class="min-w-full divide-y divide-gray-200">
        <thead class="bg-gray-50">
            <tr>
                <th class="px-6 py-3 text-left text-xs font-medium text-gray-500 uppercase tracking-wider">Market</th>
                <th class="px-6 py-3 text-left text-xs font-medium text-gray-500 uppercase tracking-wider">Strategy</th>
                <th class="px-6 py-3 text-right text-xs font-medium text-gray-500 uppercase tracking-wider">EV</th>
                <th class="px-6 py-3 text-right text-xs font-medium text-gray-500 uppercase tracking-wider">Probability</th>
                <th class="px-6 py-3 text-right text-xs font-medium text-gray-500 uppercase tracking-wider">Kelly Size</th>
                <th class="px-6 py-3 text-right text-xs font-medium text-gray-500 uppercase tracking-wider">Expiry</th>
            </tr>
        </thead>
        <tbody class="bg-white divide-y divide-gray-200">
    "#;

/// The page without history.
pub const NO_HISTORY: &'static str = r#"
        <div class="text-center py-8 text-gray-500">
            <svg class="mx-auto h-12 w-12 text-gray-400" fill="none" viewBox="0 0 24 24" stroke="currentColor">
                <path stroke-linecap="round" stroke-linejoin="round" stroke-width="2" d="M9 19v-6a2 2 0 00-2-2H5a2 2 0 00-2 2v6a2 2 0 002 2h2a2 2 0 002-2zm0 0V9a2 2 0 012-2h2a2 2 0 012 2v10m-6 0a2 2 0 002 2h2a2 2 0 002-2m0 0V5a2 2 0 012-2h2a2 2 0 012 2v14a2 2 0 01-2 2h-2a2 2 0 01-2-2z" />
            </svg>
            <p class="mt-2">No trading history yet</p>
        </div>
        "#;

/// The head of the table of the history.
pub const HISTORY_HEAD: &'static str = r#"
    <table class="min-w-full divide-y divide-gray-200">
        <thead class="bg-gray-50">
            <tr>
                <th class="px-6 py-3 text-left text-xs font-medium text-gray-500 uppercase tracking-wider">Date</th>
                <th class="px-6 py-3 text-right text-xs font-medium text-gray-500 uppercase tracking-wider">Daily P&L</th>
                <th class="px-6 py-3 text-right text-xs font-medium text-gray-500 uppercase tracking-wider">Cumulative P&L</th>
            </tr>
        </thead>
        <tbody class="bg-white divide-y divide-gray-200">
    "#;

/// The end of a table.
pub const TABLE_END: &'static str = "</tbody></table>";

/// What stands before the market in the row of a position.
pub const POSITION_MARKET: &'static str = r#"
            <tr class="hover:bg-gray-50">
                <td class="px-6 py-4 whitespace-nowrap text-sm font-medium text-gray-900">"#;

/// What stands before the platform in the row of a position.
pub const POSITION_PLATFORM: &'static str = r#"</td>
                <td class="px-6 py-4 whitespace-nowrap text-sm text-gray-500">"#;

/// What stands before the side in the row of a position.
pub const POSITION_SIDE: &'static str = r#"</td>
                <td class="px-6 py-4 whitespace-nowrap text-sm text-gray-500">"#;

/// What stands before the entry price in the row of a position.
pub const POSITION_ENTRY_PRICE: &'static str = r#"</td>
                <td class="px-6 py-4 whitespace-nowrap text-sm text-gray-900 text-right">"#;

/// What stands before the current price in the row of a position.
pub const POSITION_CURRENT_PRICE: &'static str = r#"c</td>
                <td class="px-6 py-4 whitespace-nowrap text-sm text-gray-900 text-right">"#;

/// What stands before the quantity in the row of a position.
pub const POSITION_QUANTITY: &'static str = r#"c</td>
                <td class="px-6 py-4 whitespace-nowrap text-sm text-gray-900 text-right">"#;

/// What stands before the profit class in the row of a position.
pub const POSITION_PROFIT_CLASS: &'static str = r#"</td>
                <td class="px-6 py-4 whitespace-nowrap text-sm "#;

/// What stands before the profit sign in the row of a position.
pub const POSITION_PROFIT_SIGN: &'static str = r#" text-right font-medium">"#;

/// The end of the row of a position.
pub const POSITION_END: &'static str = r#"%)</td>
            </tr>
        "#;

/// What stands before the market in the row of an opportunity.
pub const OPPORTUNITY_MARKET: &'static str = r#"
            <tr class="hover:bg-gray-50">
                <td class="px-6 py-4 whitespace-nowrap text-sm font-medium text-gray-900">"#;

/// What stands before the strategy in the row of an opportunity.
pub const OPPORTUNITY_STRATEGY: &'static str = r#"</td>
                <td class="px-6 py-4 whitespace-nowrap text-sm text-gray-500">
                    <span class="px-2 py-1 text-xs font-medium rounded-full bg-blue-100 text-blue-800">"#;

/// What stands before the value class in the row of an opportunity.
pub const OPPORTUNITY_VALUE_CLASS: &'static str = r#"</span>
                </td>
                <td class="px-6 py-4 whitespace-nowrap text-sm "#;

/// What stands before the expected value in the row of an opportunity.
pub const OPPORTUNITY_EXPECTED_VALUE: &'static str = r#" text-right">"#;

/// What stands before the probability in the row of an opportunity.
pub const OPPORTUNITY_PROBABILITY: &'static str = r#"%</td>
                <td class="px-6 py-4 whitespace-nowrap text-sm text-gray-900 text-right">"#;

/// What stands before the size in the row of an opportunity.
pub const OPPORTUNITY_SIZE: &'static str = r#"%</td>
                <td class="px-6 py-4 whitespace-nowrap text-sm text-gray-900 text-right">$"#;

/// What stands before the expiry in the row of an opportunity.
pub const OPPORTUNITY_EXPIRY: &'static str = r#"</td>
                <td class="px-6 py-4 whitespace-nowrap text-sm text-gray-500 text-right">"#;

/// The end of the row of an opportunity.
pub const OPPORTUNITY_END: &'static str = r#"h</td>
            </tr>
        "#;

/// What stands before the date in the row of a day.
pub const HISTORY_DATE: &'static str = r#"
            <tr class="hover:bg-gray-50">
                <td class="px-6 py-4 whitespace-nowrap text-sm text-gray-900">"#;

/// What stands before the daily class in the row of a day.
pub const HISTORY_DAILY_CLASS: &'static str = r#"</td>
                <td class="px-6 py-4 whitespace-nowrap text-sm "#;

/// What stands before the daily sign in the row of a day.
pub const HISTORY_DAILY_SIGN: &'static str = r#" text-right">"#;

/// What stands before the cumulative class in the row of a day.
pub const HISTORY_CUMULATIVE_CLASS: &'static str = r#"</td>
                <td class="px-6 py-4 whitespace-nowrap text-sm "#;

/// What stands before the cumulative sign in the row of a day.
pub const HISTORY_CUMULATIVE_SIGN: &'static str = r#" text-right font-medium">"#;

/// The end of the row of a day.
pub const HISTORY_END: &'static str = r#"</td>
            </tr>
        "#;

/// What stands before the trades on the page of analytics.
pub const ANALYTICS_TRADES: &'static str = r#"
    <div class="space-y-6">
        <!-- Summary Cards -->
        <div class="grid grid-cols-1 md:grid-cols-4 gap-4">
            <div class="bg-white rounded-lg shadow p-4">
                <div class="text-sm font-medium text-gray-500">Total Trades</div>
                <div class="text-2xl font-bold text-gray-900">"#;

/// What stands before the win rate on the page of analytics.
pub const ANALYTICS_WIN_RATE: &'static str = r#"</div>
            </div>
            <div class="bg-white rounded-lg shadow p-4">
                <div class="text-sm font-medium text-gray-500">Win Rate</div>
                <div class="text-2xl font-bold text-gray-900">"#;

/// What stands before the drawdown on the page of analytics.
pub const ANALYTICS_DRAWDOWN: &'static str = r#"%</div>
            </div>
            <div class="bg-white rounded-lg shadow p-4">
                <div class="text-sm font-medium text-gray-500">Max Drawdown</div>
                <div class="text-2xl font-bold text-red-600">"#;

/// What stands before the high water mark on the page of analytics.
pub const ANALYTICS_HIGH_WATER_MARK: &'static str = r#"%</div>
            </div>
            <div class="bg-white rounded-lg shadow p-4">
                <div class="text-sm font-medium text-gray-500">High Water Mark</div>
                <div class="text-2xl font-bold text-green-600">$"#;

/// What stands before the labels on the page of analytics.
pub const ANALYTICS_LABELS: &'static str = r#"</div>
            </div>
        </div>

        <!-- P&L Chart -->
        <div class="bg-white rounded-lg shadow p-6">
            <h3 class="text-lg font-medium text-gray-900 mb-4">Cumulative P&L</h3>
            <canvas id="pnlChart" height="300"></canvas>
        </div>
    </div>

    <script>
        const ctx = document.getElementById('pnlChart').getContext('2d');
        new Chart(ctx, {
            type: 'line',
            data: {
                labels: ["#;

/// What stands before the profits on the page of analytics.
pub const ANALYTICS_PROFITS: &'static str = r#"],
                datasets: [{
                    label: 'Cumulative P&L ($)',
                    data: ["#;

/// The end of the page of analytics.
pub const ANALYTICS_END: &'static str = r#"],
                    borderColor: 'rgb(34, 197, 94)',
                    backgroundColor: 'rgba(34, 197, 94, 0.1)',
                    fill: true,
                    tension: 0.4
                }]
            },
            options: {
                responsive: true,
                plugins: {
                    legend: {
                        display: false
                    }
                },
                scales: {
                    y: {
                        beginAtZero: true,
                        ticks: {
                            callback: function(value) {
                                return '$' + value.toFixed(2);
                            }
                        }
                    }
                }
            }
        });
    </script>
    "#;

/// What stands before the paper option on the page of settings.
pub const SETTINGS_PAPER_OPTION: &'static str = r#"
    <form hx-post="/api/config" hx-swap="none" class="space-y-6">
        <!-- Trading Mode -->
        <div class="bg-white rounded-lg shadow p-6">
            <h3 class="text-lg font-medium text-gray-900 mb-4">Trading Mode</h3>
            <div class="flex items-center space-x-4">
                <select
                    id="trading-mode"
                    name="mode"
                    class="block w-full rounded-md border-gray-300 shadow-sm focus:border-blue-500 focus:ring-blue-500"
                    hx-post="/api/mode"
                    hx-swap="none"
                    hx-vals='js:{mode: document.getElementById("trading-mode").value}'
                >
                    <option value="paper" "#;

/// What stands before the live option on the page of settings.
pub const SETTINGS_LIVE_OPTION: &'static str = r#">Paper Trading</option>
                    <option value="live" "#;

/// What stands before the max drawdown on the page of settings.
pub const SETTINGS_MAX_DRAWDOWN: &'static str = r#">Live Trading</option>
                </select>
            </div>
            <p class="mt-2 text-sm text-gray-500">
                Paper trading simulates orders without real execution. Use Live mode with caution.
            </p>
        </div>

        <!-- Risk Parameters -->
        <div class="bg-white rounded-lg shadow p-6">
            <h3 class="text-lg font-medium text-gray-900 mb-4">Risk Parameters</h3>
            <div class="grid grid-cols-1 md:grid-cols-2 gap-6">
                <div>
                    <label class="block text-sm font-medium text-gray-700">Max Drawdown %</label>
                    <input type="number" name="max_drawdown_pct" value=""#;

/// What stands before the kelly multiplier on the page of settings.
pub const SETTINGS_KELLY_MULTIPLIER: &'static str = r#"" min="1" max="50" step="1"
                           class="mt-1 block w-full rounded-md border-gray-300 shadow-sm focus:border-blue-500 focus:ring-blue-500" />
                    <p class="mt-1 text-xs text-gray-500">Circuit breaker triggers at this drawdown level</p>
                </div>
                <div>
                    <label class="block text-sm font-medium text-gray-700">Kelly Multiplier</label>
                    <input type="number" name="kelly_multiplier" value=""#;

/// What stands before the threshold on the page of settings.
pub const SETTINGS_THRESHOLD: &'static str = r#"" min="0.1" max="1.0" step="0.1"
                           class="mt-1 block w-full rounded-md border-gray-300 shadow-sm focus:border-blue-500 focus:ring-blue-500" />
                    <p class="mt-1 text-xs text-gray-500">Fraction of full Kelly criterion (0.5 = half Kelly)</p>
                </div>
            </div>
        </div>

        <!-- Strategy Parameters -->
        <div class="bg-white rounded-lg shadow p-6">
            <h3 class="text-lg font-medium text-gray-900 mb-4">Strategy Parameters</h3>
            <div class="grid grid-cols-1 md:grid-cols-2 gap-6">
                <div>
                    <label class="block text-sm font-medium text-gray-700">Min Probability Threshold %</label>
                    <input type="number" name="base_probability_threshold" value=""#;

/// What stands before the max hours on the page of settings.
pub const SETTINGS_MAX_HOURS: &'static str = r#"" min="50" max="99" step="1"
                           class="mt-1 block w-full rounded-md border-gray-300 shadow-sm focus:border-blue-500 focus:ring-blue-500" />
                    <p class="mt-1 text-xs text-gray-500">Minimum probability for grinding strategy</p>
                </div>
                <div>
                    <label class="block text-sm font-medium text-gray-700">Max Hours to Expiry</label>
                    <input type="number" name="max_hours_to_expiry" value=""#;

/// What stands before the min liquidity on the page of settings.
pub const SETTINGS_MIN_LIQUIDITY: &'static str = r#"" min="1" max="168" step="1"
                           class="mt-1 block w-full rounded-md border-gray-300 shadow-sm focus:border-blue-500 focus:ring-blue-500" />
                    <p class="mt-1 text-xs text-gray-500">Maximum time until market resolution</p>
                </div>
                <div>
                    <label class="block text-sm font-medium text-gray-700">Min Liquidity (USD)</label>
                    <input type="number" name="min_liquidity_usd" value=""#;

/// The end of the page of settings.
pub const SETTINGS_END: &'static str = r#"" min="1" max="10000" step="1"
                           class="mt-1 block w-full rounded-md border-gray-300 shadow-sm focus:border-blue-500 focus:ring-blue-500" />
                    <p class="mt-1 text-xs text-gray-500">Minimum liquidity required for entry</p>
                </div>
            </div>
        </div>

        <!-- Save Button -->
        <div class="flex justify-end">
            <button type="submit" class="px-4 py-2 bg-blue-600 text-white rounded-md hover:bg-blue-700 focus:outline-none focus:ring-2 focus:ring-blue-500 focus:ring-offset-2">
                Save Configuration
            </button>
        </div>
    </form>
    "#;

/// How many days the table of the history shows.
pub const HISTORY_ROWS: usize = 30;

// ---------------------------------------------------------------------------
// Colours and signs
// ---------------------------------------------------------------------------

/// The class of a profit or a loss.
pub open spec fn class_of(amount: Binary64) -> Seq<char> {
    if zero_value().at_most(amount) {
        "text-green-600"@
    } else {
        "text-red-600"@
    }
}

/// The sign of a profit; a loss has none.
pub open spec fn sign_of(amount: Binary64) -> Seq<char> {
    if zero_value().at_most(amount) {
        "+"@
    } else {
        ""@
    }
}

/// The class of an expected value: bold from two percent on, green from one percent on.
pub open spec fn class_of_value(value: Binary64) -> Seq<char> {
    if Binary64::of_bits(D_0_02).at_most(value) {
        "text-green-600 font-bold"@
    } else if Binary64::of_bits(D_0_01).at_most(value) {
        "text-green-600"@
    } else {
        "text-yellow-600"@
    }
}

fn result_class(amount: &Binary64) -> (r: &'static str)
    ensures
        r@ == class_of(*amount),
{
    if amount.ge(&zero()) {
        "text-green-600"
    } else {
        "text-red-600"
    }
}

fn result_sign(amount: &Binary64) -> (r: &'static str)
    ensures
        r@ == sign_of(*amount),
{
    if amount.ge(&zero()) {
        "+"
    } else {
        ""
    }
}

fn value_class(value: &Binary64) -> (r: &'static str)
    ensures
        r@ == class_of_value(*value),
{
    if value.ge(&Binary64::from_bits(D_0_02)) {
        "text-green-600 font-bold"
    } else if value.ge(&Binary64::from_bits(D_0_01)) {
        "text-green-600"
    } else {
        "text-yellow-600"
    }
}

// ---------------------------------------------------------------------------
// Positions
// ---------------------------------------------------------------------------

/// The row of a position.
pub open spec fn position_row(position: DisplayPositionView) -> Seq<char> {
    POSITION_MARKET@
        + escaped(position.market)
        + POSITION_PLATFORM@
        + position.platform
        + POSITION_SIDE@
        + position.side
        + POSITION_ENTRY_PRICE@
        + fixed(position.entry_price.times(Binary64::of_bits(D_100)), 1)
        + POSITION_CURRENT_PRICE@
        + fixed(position.current_price.times(Binary64::of_bits(D_100)), 1)
        + POSITION_QUANTITY@
        + fixed(position.quantity, 0)
        + POSITION_PROFIT_CLASS@
        + class_of(position.pnl)
        + POSITION_PROFIT_SIGN@
        + sign_of(position.pnl)
        + "$"@
        + fixed(position.pnl.absolute(), 2)
        + " ("@
        + sign_of(position.pnl)
        + fixed(position.pnl_percent.absolute(), 1)
        + POSITION_END@
}

/// The rows of the positions, in order.
pub open spec fn position_rows(positions: Seq<DisplayPosition>) -> Seq<char>
    decreases positions.len(),
{
    if positions.len() == 0 {
        seq![]
    } else {
        position_rows(positions.drop_last()) + position_row(positions.last()@)
    }
}

fn render_position(position: &DisplayPosition) -> (r: String)
    ensures
        r@ == position_row(position@),
{
    let hundred = Binary64::from_bits(D_100);
    Line::of(POSITION_MARKET).add(&html_escape(&position.market)).add(POSITION_PLATFORM)
        .add(&position.platform).add(POSITION_SIDE).add(&position.side)
        .add(POSITION_ENTRY_PRICE).add(&fixed_text(&position.entry_price.mul(&hundred), 1))
        .add(POSITION_CURRENT_PRICE).add(&fixed_text(&position.current_price.mul(&hundred), 1))
        .add(POSITION_QUANTITY).add(&fixed_text(&position.quantity, 0))
        .add(POSITION_PROFIT_CLASS).add(result_class(&position.pnl)).add(POSITION_PROFIT_SIGN)
        .add(result_sign(&position.pnl)).add("$").add(&fixed_text(&position.pnl.abs(), 2))
        .add(" (").add(result_sign(&position.pnl))
        .add(&fixed_text(&position.pnl_percent.abs(), 1)).add(POSITION_END).done()
}

/// The table of the positions.
pub fn render_positions_table(positions: &[DisplayPosition]) -> (html: String)
    ensures
        html@ == (if positions@.len() == 0 {
            NO_POSITIONS@
        } else {
            POSITIONS_HEAD@ + position_rows(positions@) + TABLE_END@
        }),
{
    let n: usize = positions.len();
    if n == 0 {
        return NO_POSITIONS.to_string();
    }
    let ghost all = positions@;
    let mut html = POSITIONS_HEAD.to_string();
    let mut i: usize = 0;
    assert(all.take(0) =~= seq![]);
    assert(html@ =~= POSITIONS_HEAD@ + position_rows(all.take(0)));
    while i < n
        invariant
            all == positions@,
            n == all.len(),
            i <= n,
            html@ == POSITIONS_HEAD@ + position_rows(all.take(i as int)),
        decreases n - i,
    {
        let row = render_position(&positions[i]);
        html.push_str(&row);
        assert(all.take(i + 1).drop_last() =~= all.take(i as int));
        assert(html@ =~= POSITIONS_HEAD@ + position_rows(all.take(i + 1)));
        i += 1;
    }
    assert(all.take(n as int) =~= all);
    html.push_str(TABLE_END);
    html
}

// ---------------------------------------------------------------------------
// Opportunities
// ---------------------------------------------------------------------------

/// The row of an opportunity.
pub open spec fn opportunity_row(opportunity: OpportunityView) -> Seq<char> {
    OPPORTUNITY_MARKET@
        + escaped(opportunity.market_title)
        + OPPORTUNITY_STRATEGY@
        + opportunity.strategy
        + OPPORTUNITY_VALUE_CLASS@
        + class_of_value(opportunity.expected_value)
        + OPPORTUNITY_EXPECTED_VALUE@
        + fixed(opportunity.expected_value.times(Binary64::of_bits(D_100)), 2)
        + OPPORTUNITY_PROBABILITY@
        + fixed(opportunity.probability.times(Binary64::of_bits(D_100)), 1)
        + OPPORTUNITY_SIZE@
        + fixed(opportunity.kelly_size, 2)
        + OPPORTUNITY_EXPIRY@
        + fixed(opportunity.expiry_hours, 1)
        + OPPORTUNITY_END@
}

/// The rows of the opportunities, in order.
pub open spec fn opportunity_rows(opportunities: Seq<Opportunity>) -> Seq<char>
    decreases opportunities.len(),
{
    if opportunities.len() == 0 {
        seq![]
    } else {
        opportunity_rows(opportunities.drop_last()) + opportunity_row(opportunities.last()@)
    }
}

fn render_opportunity(opportunity: &Opportunity) -> (r: String)
    ensures
        r@ == opportunity_row(opportunity@),
{
    let hundred = Binary64::from_bits(D_100);
    Line::of(OPPORTUNITY_MARKET).add(&html_escape(&opportunity.market_title))
        .add(OPPORTUNITY_STRATEGY).add(&opportunity.strategy).add(OPPORTUNITY_VALUE_CLASS)
        .add(value_class(&opportunity.expected_value)).add(OPPORTUNITY_EXPECTED_VALUE)
        .add(&fixed_text(&opportunity.expected_value.mul(&hundred), 2))
        .add(OPPORTUNITY_PROBABILITY)
        .add(&fixed_text(&opportunity.probability.mul(&hundred), 1)).add(OPPORTUNITY_SIZE)
        .add(&fixed_text(&opportunity.kelly_size, 2)).add(OPPORTUNITY_EXPIRY)
        .add(&fixed_text(&opportunity.expiry_hours, 1)).add(OPPORTUNITY_END).done()
}

/// The table of the opportunities.
pub fn render_opportunities_table(opportunities: &[Opportunity]) -> (html: String)
    ensures
        html@ == (if opportunities@.len() == 0 {
            NO_OPPORTUNITIES@
        } else {
            OPPORTUNITIES_HEAD@ + opportunity_rows(opportunities@) + TABLE_END@
        }),
{
    let n: usize = opportunities.len();
    if n == 0 {
        return NO_OPPORTUNITIES.to_string();
    }
    let ghost all = opportunities@;
    let mut html = OPPORTUNITIES_HEAD.to_string();
    let mut i: usize = 0;
    assert(all.take(0) =~= seq![]);
    assert(html@ =~= OPPORTUNITIES_HEAD@ + opportunity_rows(all.take(0)));
    while i < n
        invariant
            all == opportunities@,
            n == all.len(),
            i <= n,
            html@ == OPPORTUNITIES_HEAD@ + opportunity_rows(all.take(i as int)),
        decreases n - i,
    {
        let row = render_opportunity(&opportunities[i]);
        html.push_str(&row);
        assert(all.take(i + 1).drop_last() =~= all.take(i as int));
        assert(html@ =~= OPPORTUNITIES_HEAD@ + opportunity_rows(all.take(i + 1)));
        i += 1;
    }
    assert(all.take(n as int) =~= all);
    html.push_str(TABLE_END);
    html
}

// ---------------------------------------------------------------------------
// History
// ---------------------------------------------------------------------------

/// The row of a day.
pub open spec fn history_row(point: PnlDataPoint) -> Seq<char> {
    HISTORY_DATE@
        + point.date@
        + HISTORY_DAILY_CLASS@
        + class_of(point.daily_pnl)
        + HISTORY_DAILY_SIGN@
        + sign_of(point.daily_pnl)
        + "$"@
        + fixed(point.daily_pnl.absolute(), 2)
        + HISTORY_CUMULATIVE_CLASS@
        + class_of(point.cumulative_pnl)
        + HISTORY_CUMULATIVE_SIGN@
        + sign_of(point.cumulative_pnl)
        + "$"@
        + fixed(point.cumulative_pnl.absolute(), 2)
        + HISTORY_END@
}

/// The rows of the latest days, the latest first.
pub open spec fn history_rows(history: Seq<PnlDataPoint>, count: nat) -> Seq<char>
    decreases count,
{
    if count == 0 {
        seq![]
    } else {
        history_rows(history, (count - 1) as nat) + history_row(history[history.len() - count])
    }
}

fn render_day(point: &PnlDataPoint) -> (r: String)
    ensures
        r@ == history_row(*point),
{
    Line::of(HISTORY_DATE).add(&point.date).add(HISTORY_DAILY_CLASS)
        .add(result_class(&point.daily_pnl)).add(HISTORY_DAILY_SIGN)
        .add(result_sign(&point.daily_pnl)).add("$").add(&fixed_text(&point.daily_pnl.abs(), 2))
        .add(HISTORY_CUMULATIVE_CLASS).add(result_class(&point.cumulative_pnl))
        .add(HISTORY_CUMULATIVE_SIGN).add(result_sign(&point.cumulative_pnl)).add("$")
        .add(&fixed_text(&point.cumulative_pnl.abs(), 2)).add(HISTORY_END).done()
}

/// The table of the latest days.
pub fn render_history_table(history: &[PnlDataPoint]) -> (html: String)
    ensures
        html@ == (if history@.len() == 0 {
            NO_HISTORY@
        } else {
            let count = if history@.len() < HISTORY_ROWS {
                history@.len()
            } else {
                HISTORY_ROWS as nat
            };
            HISTORY_HEAD@ + history_rows(history@, count) + TABLE_END@
        }),
{
    let n: usize = history.len();
    if n == 0 {
        return NO_HISTORY.to_string();
    }
    let count: usize = if n < HISTORY_ROWS {
        n
    } else {
        HISTORY_ROWS
    };
    let mut html = HISTORY_HEAD.to_string();
    let mut i: usize = 0;
    assert(html@ =~= HISTORY_HEAD@ + history_rows(history@, 0));
    while i < count
        invariant
            n == history@.len(),
            i <= count <= n,
            html@ == HISTORY_HEAD@ + history_rows(history@, i as nat),
        decreases count - i,
    {
        let row = render_day(&history[n - 1 - i]);
        html.push_str(&row);
        assert(html@ =~= HISTORY_HEAD@ + history_rows(history@, (i + 1) as nat));
        i += 1;
    }
    html.push_str(TABLE_END);
    html
}

// ---------------------------------------------------------------------------
// Analytics
// ---------------------------------------------------------------------------

/// The labels of the chart: the dates, in quotes.
pub open spec fn chart_labels(history: Seq<PnlDataPoint>) -> Seq<Seq<char>> {
    history.map_values(|p: PnlDataPoint| "\""@ + p.date@ + "\""@)
}

/// The values of the chart.
pub open spec fn chart_values(history: Seq<PnlDataPoint>) -> Seq<Seq<char>> {
    history.map_values(|p: PnlDataPoint| fixed(p.cumulative_pnl, 2))
}

/// The page of analytics.
pub open spec fn analytics_page_text(stats: DashboardStats, history: Seq<PnlDataPoint>) -> Seq<
    char,
> {
    ANALYTICS_TRADES@
        + decimal(stats.total_trades as nat)
        + ANALYTICS_WIN_RATE@
        + fixed(stats.win_rate, 1)
        + ANALYTICS_DRAWDOWN@
        + fixed(stats.drawdown_percent, 2)
        + ANALYTICS_HIGH_WATER_MARK@
        + fixed(stats.high_water_mark, 2)
        + ANALYTICS_LABELS@
        + joined(chart_labels(history))
        + ANALYTICS_PROFITS@
        + joined(chart_values(history))
        + ANALYTICS_END@
}

/// The page of analytics.
pub fn render_analytics(stats: &DashboardStats, history: &[PnlDataPoint]) -> (html: String)
    ensures
        html@ == analytics_page_text(*stats, history@),
{
    let mut labels: Vec<String> = Vec::new();
    let mut values: Vec<String> = Vec::new();
    let n: usize = history.len();
    let mut i: usize = 0;
    while i < n
        invariant
            n == history@.len(),
            i <= n,
            labels.len() == i,
            values.len() == i,
            forall|k: int| 0 <= k < i ==> (#[trigger] labels[k])@ == chart_labels(history@)[k],
            forall|k: int| 0 <= k < i ==> (#[trigger] values[k])@ == chart_values(history@)[k],
        decreases n - i,
    {
        labels.push(Line::of("\"").add(&history[i].date).add("\"").done());
        values.push(fixed_text(&history[i].cumulative_pnl, 2));
        i += 1;
    }
    assert(crate::text::texts(labels@) =~= chart_labels(history@));
    assert(crate::text::texts(values@) =~= chart_values(history@));
    Line::of(ANALYTICS_TRADES).add(&u64_text(stats.total_trades as u64)).add(ANALYTICS_WIN_RATE)
        .add(&fixed_text(&stats.win_rate, 1)).add(ANALYTICS_DRAWDOWN)
        .add(&fixed_text(&stats.drawdown_percent, 2)).add(ANALYTICS_HIGH_WATER_MARK)
        .add(&fixed_text(&stats.high_water_mark, 2)).add(ANALYTICS_LABELS).add(&join(&labels))
        .add(ANALYTICS_PROFITS).add(&join(&values)).add(ANALYTICS_END).done()
}

// ---------------------------------------------------------------------------
// Settings
// ---------------------------------------------------------------------------

/// The mark of the option that is chosen.
pub open spec fn chosen(is_chosen: bool) -> Seq<char> {
    if is_chosen {
        "selected"@
    } else {
        ""@
    }
}

/// The page of settings.
pub open spec fn settings_page_text(config: SystemConfig, mode: TradingMode) -> Seq<char> {
    SETTINGS_PAPER_OPTION@
        + chosen(mode == TradingMode::Paper)
        + SETTINGS_LIVE_OPTION@
        + chosen(mode == TradingMode::Live)
        + SETTINGS_MAX_DRAWDOWN@
        + fixed(config.max_drawdown_pct.times(Binary64::of_bits(D_100)), 0)
        + SETTINGS_KELLY_MULTIPLIER@
        + fixed(config.kelly_multiplier, 2)
        + SETTINGS_THRESHOLD@
        + fixed(config.base_probability_threshold.times(Binary64::of_bits(D_100)), 0)
        + SETTINGS_MAX_HOURS@
        + fixed(config.max_hours_to_expiry, 0)
        + SETTINGS_MIN_LIQUIDITY@
        + fixed(config.min_liquidity_usd, 0)
        + SETTINGS_END@
}

/// The page of settings.
pub fn render_settings(config: &SystemConfig, mode: TradingMode) -> (html: String)
    ensures
        html@ == settings_page_text(*config, mode),
{
    let paper_selected = if mode == TradingMode::Paper {
        "selected"
    } else {
        ""
    };
    let live_selected = if mode == TradingMode::Live {
        "selected"
    } else {
        ""
    };
    let hundred = Binary64::from_bits(D_100);
    Line::of(SETTINGS_PAPER_OPTION).add(paper_selected).add(SETTINGS_LIVE_OPTION)
        .add(live_selected).add(SETTINGS_MAX_DRAWDOWN)
        .add(&fixed_text(&config.max_drawdown_pct.mul(&hundred), 0))
        .add(SETTINGS_KELLY_MULTIPLIER).add(&fixed_text(&config.kelly_multiplier, 2))
        .add(SETTINGS_THRESHOLD)
        .add(&fixed_text(&config.base_probability_threshold.mul(&hundred), 0))
        .add(SETTINGS_MAX_HOURS).add(&fixed_text(&config.max_hours_to_expiry, 0))
        .add(SETTINGS_MIN_LIQUIDITY).add(&fixed_text(&config.min_liquidity_usd, 0))
        .add(SETTINGS_END).done()
}

/// What was earned is green and carries a plus sign, and what was lost is red and carries none.
pub proof fn law_profits_are_green_and_losses_red(amount: Binary64)
    requires
        !amount.nan(),
    ensures
        class_of(amount) == (if amount.scaled() >= 0 {
            "text-green-600"@
        } else {
            "text-red-600"@
        }),
        sign_of(amount) == (if amount.scaled() >= 0 {
            "+"@
        } else {
            ""@
        }),
{
    crate::binary64::ranges::lemma_one();
}

/// The latest day comes first, and the days before it follow in the same way.
pub proof fn law_the_latest_day_comes_first(history: Seq<PnlDataPoint>, count: nat)
    requires
        0 < count <= history.len(),
    ensures
        history_rows(history, count) == history_row(history.last()) + history_rows(
            history.drop_last(),
            (count - 1) as nat,
        ),
    decreases count,
{
    let rest = history.drop_last();
    if count == 1 {
        reveal_with_fuel(history_rows, 2);
        assert(history_rows(history, 1) =~= history_row(history.last()) + history_rows(rest, 0));
    } else {
        law_the_latest_day_comes_first(history, (count - 1) as nat);
        assert(rest[rest.len() - (count - 1)] == history[history.len() - count]);
        assert(history_rows(history, count) =~= history_row(history.last()) + history_rows(
            rest,
            (count - 1) as nat,
        ));
    }
}

} // verus!
