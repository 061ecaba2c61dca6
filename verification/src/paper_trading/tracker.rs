//! Paper capital, positions and statistics.
use super::position::{Leg, PaperPosition, PositionView};
use crate::binary64::arithmetic::one_in_units;
use crate::binary64::numbers::{D_0_0001, D_100};
use crate::binary64::ranges::{lemma_adding_nothing, lemma_one, lemma_units, lemma_with_sign};
use crate::binary64::rounding::{lemma_nearest, nearest};
use crate::binary64::{zero, zero_value, Binary64, INFINITE_BITS};
use crate::text::{ascii_lowered, is_ascii_text, lowercase, same_text, to_lowercase};
use crate::time::{text_of_date, CivilDate};
use vstd::prelude::*;

verus! {

/// Paper trading statistics
#[derive(Debug, Clone, Copy, PartialEq, Eq, Structural)]
pub struct PaperStats {
    /// Total number of simulated trades
    pub total_trades: u64,
    /// Number of winning trades
    pub winning_trades: u64,
    /// Number of losing trades
    pub losing_trades: u64,
    /// Total realized profit (in dollars)
    pub realized_profit: Binary64,
    /// Total realized loss (in dollars)
    pub realized_loss: Binary64,
    /// Maximum drawdown encountered
    pub max_drawdown: Binary64,
    /// Peak capital achieved
    pub peak_capital: Binary64,
    /// Trading start time (Unix timestamp)
    pub started_at_secs: Option<i64>,
}

impl Default for PaperStats {
    fn default() -> (r: Self)
        ensures
            r == Self::none(),
    {
        PaperStats {
            total_trades: 0,
            winning_trades: 0,
            losing_trades: 0,
            realized_profit: zero(),
            realized_loss: zero(),
            max_drawdown: zero(),
            peak_capital: zero(),
            started_at_secs: None,
        }
    }
}

impl PaperStats {
    /// No trades so far.
    pub open spec fn none() -> Self {
        PaperStats {
            total_trades: 0,
            winning_trades: 0,
            losing_trades: 0,
            realized_profit: zero_value(),
            realized_loss: zero_value(),
            max_drawdown: zero_value(),
            peak_capital: zero_value(),
            started_at_secs: None,
        }
    }

    /// Calculate win rate as percentage
    pub fn win_rate(&self) -> (r: Binary64)
        ensures
            r == (if self.total_trades == 0 {
                zero_value()
            } else {
                Binary64::of_int(self.winning_trades as int).over(
                    Binary64::of_int(self.total_trades as int),
                ).times(Binary64::of_bits(D_100))
            }),
    {
        if self.total_trades == 0 {
            return zero();
        }
        Binary64::from_u64(self.winning_trades).div(&Binary64::from_u64(self.total_trades)).mul(
            &Binary64::from_bits(D_100),
        )
    }

    /// Calculate net P&L
    pub fn net_pnl(&self) -> (r: Binary64)
        ensures
            r == self.realized_profit.minus(self.realized_loss.absolute()),
    {
        self.realized_profit.sub(&self.realized_loss.abs())
    }

    /// Calculate profit factor (gross profit / gross loss); infinite without losses
    pub fn profit_factor(&self) -> (r: Binary64)
        ensures
            r == (if self.realized_loss.absolute().less(Binary64::of_bits(D_0_0001)) {
                Binary64::of_bits(INFINITE_BITS)
            } else {
                self.realized_profit.over(self.realized_loss.absolute())
            }),
    {
        if self.realized_loss.abs().lt(&Binary64::from_bits(D_0_0001)) {
            return Binary64::from_bits(INFINITE_BITS);
        }
        self.realized_profit.div(&self.realized_loss.abs())
    }
}

/// Paper capital and position tracker. A market has at most one position.
#[derive(Debug)]
pub struct PaperCapitalTracker {
    /// Current available capital (in dollars)
    pub capital: Binary64,
    /// Initial starting capital
    pub starting_capital: Binary64,
    /// All paper positions, each with another market_id
    pub positions: Vec<PaperPosition>,
    /// Accumulated trading statistics
    pub stats: PaperStats,
    /// Daily P&L tracking
    pub daily_pnl: Binary64,
    /// Current trading date
    pub trading_date: String,
}

/// A tracker by what it holds.
pub struct TrackerView {
    pub capital: Binary64,
    pub starting_capital: Binary64,
    pub positions: Seq<PositionView>,
    pub stats: PaperStats,
    pub daily_pnl: Binary64,
    pub trading_date: Seq<char>,
}

/// The positions by what they hold.
pub open spec fn position_views(positions: Seq<PaperPosition>) -> Seq<PositionView> {
    positions.map_values(|p: PaperPosition| p@)
}

impl View for PaperCapitalTracker {
    type V = TrackerView;

    open spec fn view(&self) -> TrackerView {
        TrackerView {
            capital: self.capital,
            starting_capital: self.starting_capital,
            positions: position_views(self.positions@),
            stats: self.stats,
            daily_pnl: self.daily_pnl,
            trading_date: self.trading_date@,
        }
    }
}

/// Whether no market has two positions.
pub open spec fn has_distinct_positions(positions: Seq<PositionView>) -> bool {
    forall|i: int, j: int|
        0 <= i < j < positions.len() ==> (#[trigger] positions[i]).market_id != (
        #[trigger] positions[j]).market_id
}

/// Where the position of a market stands; the length of the list where there is none.
pub open spec fn position_of(positions: Seq<PositionView>, market_id: Seq<char>) -> int
    decreases positions.len(),
{
    if positions.len() == 0 || positions[0].market_id == market_id {
        0
    } else {
        1 + position_of(positions.drop_first(), market_id)
    }
}

proof fn lemma_position_of(positions: Seq<PositionView>, market_id: Seq<char>)
    ensures
        0 <= position_of(positions, market_id) <= positions.len(),
        position_of(positions, market_id) < positions.len() ==> positions[position_of(
            positions,
            market_id,
        )].market_id == market_id,
        position_of(positions, market_id) == positions.len() ==> forall|i: int|
            0 <= i < positions.len() ==> (#[trigger] positions[i]).market_id != market_id,
    decreases positions.len(),
{
    if positions.len() > 0 && positions[0].market_id != market_id {
        let rest = positions.drop_first();
        lemma_position_of(rest, market_id);
        if position_of(rest, market_id) == rest.len() {
            assert forall|i: int| 0 <= i < positions.len() implies (
            #[trigger] positions[i]).market_id != market_id by {
                if i > 0 {
                    assert(positions[i] == rest[i - 1]);
                }
            }
        }
    }
}

/// The statistics after a profit or a loss, and the capital that it leaves.
pub open spec fn stats_after(stats: PaperStats, pnl: Binary64, capital: Binary64) -> PaperStats {
    let won = zero_value().at_most(pnl);
    let peak = if stats.peak_capital.less(capital) {
        capital
    } else {
        stats.peak_capital
    };
    let drawdown = peak.minus(capital).over(peak);
    PaperStats {
        total_trades: (stats.total_trades + 1) as u64,
        winning_trades: if won {
            (stats.winning_trades + 1) as u64
        } else {
            stats.winning_trades
        },
        losing_trades: if won {
            stats.losing_trades
        } else {
            (stats.losing_trades + 1) as u64
        },
        realized_profit: if won {
            stats.realized_profit.plus(pnl)
        } else {
            stats.realized_profit
        },
        realized_loss: if won {
            stats.realized_loss
        } else {
            stats.realized_loss.plus(pnl.absolute())
        },
        max_drawdown: if stats.max_drawdown.less(drawdown) {
            drawdown
        } else {
            stats.max_drawdown
        },
        peak_capital: peak,
        started_at_secs: stats.started_at_secs,
    }
}

impl TrackerView {
    /// Whether the tracker is in order: no market has two positions, and every trade was won or
    /// lost.
    pub open spec fn wf(self) -> bool {
        &&& has_distinct_positions(self.positions)
        &&& self.stats.total_trades == self.stats.winning_trades + self.stats.losing_trades
    }

    /// A tracker that starts with some capital.
    pub open spec fn fresh(
        starting_capital: Binary64,
        now_secs: i64,
        trading_date: Seq<char>,
    ) -> Self {
        TrackerView {
            capital: starting_capital,
            starting_capital,
            positions: Seq::empty(),
            stats: PaperStats {
                peak_capital: starting_capital,
                started_at_secs: Some(now_secs),
                ..PaperStats::none()
            },
            daily_pnl: zero_value(),
            trading_date,
        }
    }

    /// The tracker after a profit or a loss.
    pub open spec fn after_pnl(self, pnl: Binary64) -> Self {
        let capital = self.capital.plus(pnl);
        TrackerView {
            capital,
            stats: stats_after(self.stats, pnl, capital),
            daily_pnl: self.daily_pnl.plus(pnl),
            ..self
        }
    }

    /// The positions with contracts added to that of a market, which is opened where there is
    /// none.
    pub open spec fn filled_positions(
        self,
        market_id: Seq<char>,
        description: Seq<char>,
        leg: Option<Leg>,
        contracts: Binary64,
        price: Binary64,
        fees: Binary64,
        now_secs: i64,
    ) -> Seq<PositionView> {
        let i = position_of(self.positions, market_id);
        if i < self.positions.len() {
            self.positions.update(i, self.positions[i].filled(leg, contracts, price, fees))
        } else {
            self.positions.push(
                PositionView::opened(market_id, description, now_secs).filled(
                    leg,
                    contracts,
                    price,
                    fees,
                ),
            )
        }
    }

    /// The tracker after a fill: its cost and its fees are taken from the capital.
    pub open spec fn after_fill(
        self,
        market_id: Seq<char>,
        description: Seq<char>,
        leg: Option<Leg>,
        contracts: Binary64,
        price: Binary64,
        fees: Binary64,
        now_secs: i64,
    ) -> Self {
        TrackerView {
            capital: self.capital.minus(contracts.times(price).plus(fees)),
            positions: self.filled_positions(
                market_id,
                description,
                leg,
                contracts,
                price,
                fees,
                now_secs,
            ),
            ..self
        }
    }

    /// The tracker and the profit after the market of a position was resolved, if there is one.
    /// The cost of an open position, which the fills took from the capital, comes back together
    /// with the profit. The cost of a position that is no longer open came back before, so that
    /// only the profit of the new outcome is booked.
    pub open spec fn after_resolution(self, market_id: Seq<char>, yes_won: bool) -> (
        Self,
        Option<Binary64>,
    ) {
        let i = position_of(self.positions, market_id);
        if i < self.positions.len() {
            let position = self.positions[i].resolved(yes_won);
            let pnl = position.realized_pnl->0;
            let capital = if self.positions[i].is_open() {
                self.capital.plus(position.cost())
            } else {
                self.capital
            };
            (
                (TrackerView {
                    capital,
                    positions: self.positions.update(i, position),
                    ..self
                }).after_pnl(pnl),
                Some(pnl),
            )
        } else {
            (self, None)
        }
    }

    /// Whether another trade can be counted.
    pub open spec fn can_count(self) -> bool {
        &&& self.stats.total_trades < u64::MAX
        &&& self.stats.winning_trades < u64::MAX
        &&& self.stats.losing_trades < u64::MAX
    }
}

/// The open positions among the first ones: how many, what they cost and what they are sure to
/// earn, added up in order.
pub open spec fn open_summary(positions: Seq<PositionView>) -> (int, Binary64, Binary64)
    decreases positions.len(),
{
    if positions.len() == 0 {
        (0, zero_value(), zero_value())
    } else {
        let (count, cost, profit) = open_summary(positions.drop_last());
        let last = positions.last();
        if last.is_open() {
            (count + 1, cost.plus(last.cost()), profit.plus(last.matched().minus(last.cost())))
        } else {
            (count, cost, profit)
        }
    }
}

impl PaperCapitalTracker {
    /// Create new tracker with starting capital
    pub fn new(starting_capital: &Binary64, now_secs: i64, today: &CivilDate) -> (r: Self)
        ensures
            r@ == TrackerView::fresh(*starting_capital, now_secs, text_of_date(*today)),
            r@.wf(),
    {
        let positions: Vec<PaperPosition> = Vec::new();
        assert(position_views(positions@) =~= Seq::<PositionView>::empty());
        PaperCapitalTracker {
            capital: *starting_capital,
            starting_capital: *starting_capital,
            positions,
            stats: PaperStats {
                peak_capital: *starting_capital,
                started_at_secs: Some(now_secs),
                ..PaperStats::default()
            },
            daily_pnl: zero(),
            trading_date: today.to_text(),
        }
    }

    /// Create new tracker with the default starting capital of 100 dollars
    pub fn with_default_capital(now_secs: i64, today: &CivilDate) -> (r: Self)
        ensures
            r@ == TrackerView::fresh(Binary64::of_bits(D_100), now_secs, text_of_date(*today)),
            r@.wf(),
    {
        Self::new(&Binary64::from_bits(D_100), now_secs, today)
    }

    fn find(&self, market_id: &str) -> (i: usize)
        ensures
            i == position_of(self@.positions, market_id@),
            i <= self.positions.len(),
    {
        let ghost all = self@.positions;
        let mut i: usize = 0;
        assert(all.skip(0) =~= all);
        while i < self.positions.len()
            invariant
                all == self@.positions,
                i <= self.positions.len(),
                position_of(all, market_id@) == i + position_of(all.skip(i as int), market_id@),
            decreases self.positions.len() - i,
        {
            assert(all.skip(i as int)[0] == self.positions@[i as int]@);
            if same_text(&self.positions[i].market_id, market_id) {
                return i;
            }
            assert(all.skip(i as int).drop_first() =~= all.skip(i + 1));
            i += 1;
        }
        i
    }

    /// Start a new trading day, if the date has changed: the daily profit starts from zero.
    pub fn start_day(&mut self, today: &CivilDate) -> (changed: bool)
        ensures
            changed == (old(self)@.trading_date != text_of_date(*today)),
            final(self)@ == (if changed {
                TrackerView {
                    daily_pnl: zero_value(),
                    trading_date: text_of_date(*today),
                    ..old(self)@
                }
            } else {
                old(self)@
            }),
    {
        let date = today.to_text();
        if same_text(&self.trading_date, &date) {
            false
        } else {
            self.daily_pnl = zero();
            self.trading_date = date;
            true
        }
    }

    /// Record a simulated fill on a leg; a fill without a leg only costs.
    pub fn record_leg_fill(
        &mut self,
        market_id: &str,
        description: &str,
        leg: Option<Leg>,
        contracts: &Binary64,
        price: &Binary64,
        fees: &Binary64,
        now_secs: i64,
    )
        ensures
            final(self)@ == old(self)@.after_fill(
                market_id@,
                description@,
                leg,
                *contracts,
                *price,
                *fees,
                now_secs,
            ),
    {
        let i: usize = self.find(market_id);
        let ghost before = self.positions@;
        if i < self.positions.len() {
            let mut position = self.positions.remove(i);
            position.fill(leg, contracts, price, fees);
            self.positions.insert(i, position);
            assert(position_views(self.positions@) =~= position_views(before).update(
                i as int,
                position@,
            ));
        } else {
            let mut position = PaperPosition::new(market_id, description, now_secs);
            position.fill(leg, contracts, price, fees);
            self.positions.push(position);
            assert(position_views(self.positions@) =~= position_views(before).push(position@));
        }
        let total_cost = contracts.mul(price).add(fees);
        self.capital = self.capital.sub(&total_cost);
    }

    /// Record a simulated fill
    pub fn record_fill(
        &mut self,
        market_id: &str,
        description: &str,
        platform: &str,
        side: &str,
        contracts: &Binary64,
        price: &Binary64,
        fees: &Binary64,
        now_secs: i64,
    )
        ensures
            final(self)@ == old(self)@.after_fill(
                market_id@,
                description@,
                Leg::of(lowercase(platform@), lowercase(side@)),
                *contracts,
                *price,
                *fees,
                now_secs,
            ),
            is_ascii_text(platform@) && is_ascii_text(side@) ==> final(self)@ == old(
                self,
            )@.after_fill(
                market_id@,
                description@,
                Leg::of(ascii_lowered(platform@), ascii_lowered(side@)),
                *contracts,
                *price,
                *fees,
                now_secs,
            ),
    {
        let leg = Leg::from_lowercase(&to_lowercase(platform), &to_lowercase(side));
        self.record_leg_fill(market_id, description, leg, contracts, price, fees, now_secs);
    }

    /// Record realized P&L from a closed position
    pub fn record_pnl(&mut self, pnl: &Binary64)
        requires
            old(self)@.can_count(),
        ensures
            final(self)@ == old(self)@.after_pnl(*pnl),
    {
        self.stats.total_trades = self.stats.total_trades + 1;
        if pnl.ge(&zero()) {
            self.stats.winning_trades = self.stats.winning_trades + 1;
            self.stats.realized_profit = self.stats.realized_profit.add(pnl);
        } else {
            self.stats.losing_trades = self.stats.losing_trades + 1;
            self.stats.realized_loss = self.stats.realized_loss.add(&pnl.abs());
        }
        self.capital = self.capital.add(pnl);
        self.daily_pnl = self.daily_pnl.add(pnl);
        if self.capital.gt(&self.stats.peak_capital) {
            self.stats.peak_capital = self.capital;
        }
        let drawdown = self.stats.peak_capital.sub(&self.capital).div(&self.stats.peak_capital);
        if drawdown.gt(&self.stats.max_drawdown) {
            self.stats.max_drawdown = drawdown;
        }
    }

    /// Resolve a position with outcome
    pub fn resolve_position(&mut self, market_id: &str, yes_won: bool) -> (r: Option<Binary64>)
        requires
            old(self)@.can_count(),
        ensures
            (final(self)@, r) == old(self)@.after_resolution(market_id@, yes_won),
    {
        let i: usize = self.find(market_id);
        let ghost before = self.positions@;
        if i < self.positions.len() {
            let mut position = self.positions.remove(i);
            if same_text(&position.status, "open") {
                self.capital = self.capital.add(&position.total_cost());
            }
            position.resolve(yes_won);
            let realized = position.realized_pnl;
            let ghost view = position@;
            self.positions.insert(i, position);
            assert(position_views(self.positions@) =~= position_views(before).update(
                i as int,
                view,
            ));
            match realized {
                Some(pnl) => {
                    self.record_pnl(&pnl);
                    Some(pnl)
                },
                None => None,
            }
        } else {
            None
        }
    }

    /// Get current capital
    pub fn get_capital(&self) -> (r: Binary64)
        ensures
            r == self@.capital,
    {
        self.capital
    }

    /// Get total P&L since start
    pub fn total_pnl(&self) -> (r: Binary64)
        ensures
            r == self@.capital.minus(self@.starting_capital),
    {
        self.capital.sub(&self.starting_capital)
    }

    /// Get return percentage
    pub fn return_pct(&self) -> (r: Binary64)
        ensures
            r == (if self@.starting_capital.less(Binary64::of_bits(D_0_0001)) {
                zero_value()
            } else {
                self@.capital.minus(self@.starting_capital).over(self@.starting_capital).times(
                    Binary64::of_bits(D_100),
                )
            }),
    {
        if self.starting_capital.lt(&Binary64::from_bits(D_0_0001)) {
            return zero();
        }
        self.capital.sub(&self.starting_capital).div(&self.starting_capital).mul(
            &Binary64::from_bits(D_100),
        )
    }

    /// Get summary of open positions: how many, what they cost and what they are sure to earn
    pub fn open_positions_summary(&self) -> (r: (usize, Binary64, Binary64))
        ensures
            (r.0 as int, r.1, r.2) == open_summary(self@.positions),
    {
        let ghost all = self@.positions;
        let mut count: usize = 0;
        let mut cost = zero();
        let mut profit = zero();
        let mut i: usize = 0;
        assert(all.take(0) =~= seq![]);
        while i < self.positions.len()
            invariant
                all == self@.positions,
                i <= self.positions.len(),
                count <= i,
                (count as int, cost, profit) == open_summary(all.take(i as int)),
            decreases self.positions.len() - i,
        {
            assert(all.take(i + 1).drop_last() =~= all.take(i as int));
            assert(all.take(i + 1).last() == self.positions@[i as int]@);
            let position = &self.positions[i];
            if same_text(&position.status, "open") {
                count += 1;
                cost = cost.add(&position.total_cost());
                profit = profit.add(&position.guaranteed_profit());
            }
            i += 1;
        }
        assert(all.take(all.len() as int) =~= all);
        (count, cost, profit)
    }

    /// Check if we have sufficient capital for a trade
    pub fn can_afford(&self, cost: &Binary64) -> (r: bool)
        ensures
            r == cost.at_most(self@.capital),
    {
        self.capital.ge(cost)
    }

    /// Reset daily counters (call at midnight)
    pub fn reset_daily(&mut self, today: &CivilDate)
        ensures
            final(self)@ == (TrackerView {
                daily_pnl: zero_value(),
                trading_date: text_of_date(*today),
                ..old(self)@
            }),
    {
        self.daily_pnl = zero();
        self.trading_date = today.to_text();
    }
}

proof fn lemma_update_keeps_positions_distinct(
    positions: Seq<PositionView>,
    i: int,
    position: PositionView,
)
    requires
        has_distinct_positions(positions),
        0 <= i < positions.len(),
        position.market_id == positions[i].market_id,
    ensures
        has_distinct_positions(positions.update(i, position)),
{
    let after = positions.update(i, position);
    assert forall|a: int, b: int| 0 <= a < b < after.len() implies (#[trigger] after[a]).market_id
        != (#[trigger] after[b]).market_id by {
        assert(positions[a].market_id != positions[b].market_id);
    }
}

/// A fill keeps the tracker in order, opens at most one position, and leaves the positions of
/// all other markets as they were.
pub proof fn law_fills_keep_the_tracker_in_order(
    tracker: TrackerView,
    market_id: Seq<char>,
    description: Seq<char>,
    leg: Option<Leg>,
    contracts: Binary64,
    price: Binary64,
    fees: Binary64,
    now_secs: i64,
)
    requires
        tracker.wf(),
    ensures
        ({
            let after = tracker.after_fill(
                market_id,
                description,
                leg,
                contracts,
                price,
                fees,
                now_secs,
            );
            &&& after.wf()
            &&& tracker.positions.len() <= after.positions.len() <= tracker.positions.len() + 1
            &&& forall|i: int|
                0 <= i < tracker.positions.len() && (#[trigger] tracker.positions[i]).market_id
                    != market_id ==> after.positions[i] == tracker.positions[i]
        }),
{
    lemma_position_of(tracker.positions, market_id);
    let i = position_of(tracker.positions, market_id);
    let after = tracker.filled_positions(
        market_id,
        description,
        leg,
        contracts,
        price,
        fees,
        now_secs,
    );
    if i < tracker.positions.len() {
        lemma_update_keeps_positions_distinct(
            tracker.positions,
            i,
            tracker.positions[i].filled(leg, contracts, price, fees),
        );
    } else {
        assert forall|a: int, b: int| 0 <= a < b < after.len() implies (
        #[trigger] after[a]).market_id != (#[trigger] after[b]).market_id by {
            if b < tracker.positions.len() {
                assert(tracker.positions[a].market_id != tracker.positions[b].market_id);
            } else {
                assert(after[a] == tracker.positions[a]);
            }
        }
    }
}

/// A profit or a loss keeps the tracker in order; the peak and the largest drawdown never fall,
/// and the peak is never below the capital.
pub proof fn law_profits_keep_the_tracker_in_order(tracker: TrackerView, pnl: Binary64)
    requires
        tracker.wf(),
        tracker.stats.total_trades < u64::MAX,
    ensures
        ({
            let after = tracker.after_pnl(pnl);
            &&& after.wf()
            &&& after.stats.total_trades == tracker.stats.total_trades + 1
            &&& !after.stats.peak_capital.less(tracker.stats.peak_capital)
            &&& !after.stats.max_drawdown.less(tracker.stats.max_drawdown)
            &&& !after.stats.peak_capital.less(after.capital)
        }),
{
}

/// Resolving a position keeps the tracker in order, and gives a profit if and only if the market
/// has a position.
pub proof fn law_resolutions_keep_the_tracker_in_order(
    tracker: TrackerView,
    market_id: Seq<char>,
    yes_won: bool,
)
    requires
        tracker.wf(),
        tracker.stats.total_trades < u64::MAX,
    ensures
        tracker.after_resolution(market_id, yes_won).0.wf(),
        tracker.after_resolution(market_id, yes_won).1 is Some <==> exists|i: int|
            0 <= i < tracker.positions.len() && (#[trigger] tracker.positions[i]).market_id
                == market_id,
{
    lemma_position_of(tracker.positions, market_id);
    let i = position_of(tracker.positions, market_id);
    if i < tracker.positions.len() {
        lemma_update_keeps_positions_distinct(
            tracker.positions,
            i,
            tracker.positions[i].resolved(yes_won),
        );
        assert(tracker.positions[i].market_id == market_id);
    }
}

/// Resolving an open position raises the capital by what the position cost and by its profit,
/// and counts one trade. The positions of all other markets stay as they were.
pub proof fn law_a_resolution_pays_cost_and_profit(
    tracker: TrackerView,
    i: int,
    yes_won: bool,
)
    requires
        tracker.wf(),
        tracker.can_count(),
        0 <= i < tracker.positions.len(),
        tracker.positions[i].is_open(),
    ensures
        ({
            let position = tracker.positions[i].resolved(yes_won);
            let pnl = position.realized_pnl->0;
            let (after, r) = tracker.after_resolution(position.market_id, yes_won);
            &&& r == Some(pnl)
            &&& after.capital == tracker.capital.plus(position.cost()).plus(pnl)
            &&& after.starting_capital == tracker.starting_capital
            &&& after.daily_pnl == tracker.daily_pnl.plus(pnl)
            &&& after.stats.total_trades == tracker.stats.total_trades + 1
            &&& after.positions == tracker.positions.update(i, position)
        }),
{
    lemma_position_of(tracker.positions, tracker.positions[i].market_id);
}

/// The cost of a position comes back once: resolving its market again books the profit of the
/// outcome that is given then, and nothing more.
pub proof fn law_the_cost_comes_back_once(
    tracker: TrackerView,
    market_id: Seq<char>,
    yes_won: bool,
    yes_won_again: bool,
)
    ensures
        ({
            let (after, r) = tracker.after_resolution(market_id, yes_won);
            let (again, r_again) = after.after_resolution(market_id, yes_won_again);
            &&& r is Some == r_again is Some
            &&& r is None ==> again == tracker
            &&& r is Some ==> again.capital == after.capital.plus(r_again->0)
            &&& yes_won_again == yes_won ==> r_again == r
        }),
{
    lemma_position_of(tracker.positions, market_id);
    let i = position_of(tracker.positions, market_id);
    if i < tracker.positions.len() {
        let position = tracker.positions[i].resolved(yes_won);
        lemma_update_keeps_the_place(tracker.positions, i, position, market_id);
        reveal_strlit("open");
        reveal_strlit("resolved");
        assert("open"@.len() != "resolved"@.len());
    }
}

proof fn lemma_update_keeps_the_place(
    positions: Seq<PositionView>,
    i: int,
    position: PositionView,
    market_id: Seq<char>,
)
    requires
        i == position_of(positions, market_id),
        i < positions.len(),
        position.market_id == market_id,
    ensures
        position_of(positions.update(i, position), market_id) == i,
    decreases positions.len(),
{
    lemma_position_of(positions, market_id);
    if i > 0 {
        lemma_update_keeps_the_place(positions.drop_first(), i - 1, position, market_id);
        assert(positions.update(i, position).drop_first() =~= positions.drop_first().update(
            i - 1,
            position,
        ));
    }
}

/// A position that was just opened cost what its fill took from the capital.
pub proof fn lemma_a_fill_costs_what_it_takes(
    market_id: Seq<char>,
    description: Seq<char>,
    leg: Leg,
    contracts: Binary64,
    price: Binary64,
    fees: Binary64,
    now_secs: i64,
)
    requires
        contracts.positive(),
        price.positive(),
        contracts.times(price).finite(),
        fees.finite(),
        fees.nonnegative(),
    ensures
        PositionView::opened(market_id, description, now_secs).filled(
            Some(leg),
            contracts,
            price,
            fees,
        ).cost() == contracts.times(price).plus(fees),
{
    let spent = contracts.times(price);
    lemma_one();
    lemma_units(contracts);
    lemma_units(price);
    lemma_units(fees);
    lemma_positive_product_has_no_sign(contracts, price);
    lemma_adding_nothing(spent, zero_value());
    lemma_adding_nothing(zero_value(), zero_value());
    if fees.zero() {
        lemma_adding_nothing(spent, fees);
        lemma_adding_nothing(zero_value(), fees);
    } else {
        lemma_adding_nothing(fees, zero_value());
    }
}

proof fn lemma_positive_product_has_no_sign(a: Binary64, b: Binary64)
    requires
        a.positive(),
        b.positive(),
        a.times(b).finite(),
    ensures
        !a.times(b).sign(),
{
    lemma_one();
    lemma_units(a);
    lemma_units(b);
    lemma_nearest(a.units() * b.units(), one_in_units());
    lemma_with_sign(false, nearest(a.units() * b.units(), one_in_units()));
}

/// What a position costs comes back when its market is resolved: after one fill of a new
/// position and its resolution, the capital has changed by the profit alone, but for the rounding
/// of what was taken and given back.
pub proof fn law_a_fill_is_paid_back(
    tracker: TrackerView,
    market_id: Seq<char>,
    description: Seq<char>,
    leg: Leg,
    contracts: Binary64,
    price: Binary64,
    fees: Binary64,
    now_secs: i64,
    yes_won: bool,
)
    requires
        tracker.wf(),
        tracker.can_count(),
        forall|i: int|
            0 <= i < tracker.positions.len() ==> (#[trigger] tracker.positions[i]).market_id
                != market_id,
        contracts.positive(),
        price.positive(),
        contracts.times(price).finite(),
        fees.finite(),
        fees.nonnegative(),
    ensures
        ({
            let spent = contracts.times(price).plus(fees);
            let filled = tracker.after_fill(
                market_id,
                description,
                Some(leg),
                contracts,
                price,
                fees,
                now_secs,
            );
            let (after, r) = filled.after_resolution(market_id, yes_won);
            &&& filled.capital == tracker.capital.minus(spent)
            &&& r is Some
            &&& after.capital == tracker.capital.minus(spent).plus(spent).plus(r->0)
            &&& after.starting_capital == tracker.starting_capital
        }),
{
    lemma_position_of(tracker.positions, market_id);
    lemma_a_fill_costs_what_it_takes(
        market_id,
        description,
        leg,
        contracts,
        price,
        fees,
        now_secs,
    );
    law_fills_keep_the_tracker_in_order(
        tracker,
        market_id,
        description,
        Some(leg),
        contracts,
        price,
        fees,
        now_secs,
    );
    let filled = tracker.after_fill(
        market_id,
        description,
        Some(leg),
        contracts,
        price,
        fees,
        now_secs,
    );
    law_a_resolution_pays_cost_and_profit(filled, tracker.positions.len() as int, yes_won);
}

} // verus!
