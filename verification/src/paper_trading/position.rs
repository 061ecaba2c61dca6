//! Paper positions: contracts on two platforms and two sides.
use crate::binary64::monotone::{law_difference_is_monotone, lemma_equal_differences};
use crate::binary64::{zero, zero_value, Binary64};
use vstd::prelude::*;

verus! {

/// A single paper trading position leg
#[derive(Debug, Clone, Copy, PartialEq, Eq, Structural)]
pub struct PaperPositionLeg {
    /// Number of contracts held
    pub contracts: Binary64,
    /// Total cost basis (in dollars)
    pub cost_basis: Binary64,
    /// Average entry price per contract
    pub avg_price: Binary64,
}

impl Default for PaperPositionLeg {
    fn default() -> (r: Self)
        ensures
            r == Self::empty(),
    {
        PaperPositionLeg { contracts: zero(), cost_basis: zero(), avg_price: zero() }
    }
}

impl PaperPositionLeg {
    /// A leg without contracts.
    pub open spec fn empty() -> Self {
        PaperPositionLeg {
            contracts: zero_value(),
            cost_basis: zero_value(),
            avg_price: zero_value(),
        }
    }

    /// The leg with more contracts, bought at a price.
    pub open spec fn added(self, contracts: Binary64, price: Binary64) -> Self {
        let cost_basis = self.cost_basis.plus(contracts.times(price));
        let total = self.contracts.plus(contracts);
        PaperPositionLeg {
            contracts: total,
            cost_basis,
            avg_price: if zero_value().less(total) {
                cost_basis.over(total)
            } else {
                self.avg_price
            },
        }
    }

    /// Add contracts to this position leg
    pub fn add(&mut self, contracts: &Binary64, price: &Binary64)
        ensures
            *final(self) == old(self).added(*contracts, *price),
    {
        let cost = contracts.mul(price);
        self.cost_basis = self.cost_basis.add(&cost);
        self.contracts = self.contracts.add(contracts);
        if self.contracts.gt(&zero()) {
            self.avg_price = self.cost_basis.div(&self.contracts);
        }
    }

    /// The leg with contracts taken out, at most as many as it holds, and what they cost.
    pub open spec fn removed(self, contracts: Binary64) -> (Self, Binary64) {
        let count = contracts.smaller(self.contracts);
        if count.at_most(zero_value()) {
            (self, zero_value())
        } else {
            let cost = count.times(self.avg_price);
            (
                PaperPositionLeg {
                    contracts: self.contracts.minus(count),
                    cost_basis: self.cost_basis.minus(cost),
                    avg_price: self.avg_price,
                },
                cost,
            )
        }
    }

    /// Remove contracts from this position leg (for closing/selling)
    pub fn remove(&mut self, contracts: &Binary64) -> (cost: Binary64)
        ensures
            (*final(self), cost) == old(self).removed(*contracts),
    {
        let count = contracts.min(&self.contracts);
        if count.le(&zero()) {
            return zero();
        }
        let cost = count.mul(&self.avg_price);
        self.contracts = self.contracts.sub(&count);
        self.cost_basis = self.cost_basis.sub(&cost);
        cost
    }

    /// Calculate unrealized P&L at current price
    pub fn unrealized_pnl(&self, current_price: &Binary64) -> (r: Binary64)
        ensures
            r == self.contracts.times(*current_price).minus(self.cost_basis),
    {
        self.contracts.mul(current_price).sub(&self.cost_basis)
    }

    /// Calculate value if this position resolves as winner ($1 per contract)
    pub fn value_if_win(&self) -> (r: Binary64)
        ensures
            r == self.contracts,
    {
        self.contracts
    }

    /// Calculate profit if this position wins
    pub fn profit_if_win(&self) -> (r: Binary64)
        ensures
            r == self.contracts.minus(self.cost_basis),
    {
        self.value_if_win().sub(&self.cost_basis)
    }
}

/// Taking nothing out of a leg changes nothing, and no more is taken out than the leg holds.
pub proof fn law_no_more_is_removed_than_is_held(leg: PaperPositionLeg, contracts: Binary64)
    ensures
        contracts.at_most(zero_value()) && leg.contracts.nonnegative() ==> leg.removed(contracts)
            == (leg, zero_value()),
        !leg.contracts.nan() ==> !leg.contracts.less(contracts.smaller(leg.contracts)),
{
}

/// One of the four legs of a position.
#[derive(Debug, Clone, Copy, PartialEq, Eq, Structural)]
pub enum Leg {
    KalshiYes,
    KalshiNo,
    PolyYes,
    PolyNo,
}

impl Leg {
    /// The leg of a platform and a side, both in lower case.
    pub open spec fn of(platform: Seq<char>, side: Seq<char>) -> Option<Self> {
        if platform == "kalshi"@ && side == "yes"@ {
            Some(Leg::KalshiYes)
        } else if platform == "kalshi"@ && side == "no"@ {
            Some(Leg::KalshiNo)
        } else if platform == "polymarket"@ && side == "yes"@ {
            Some(Leg::PolyYes)
        } else if platform == "polymarket"@ && side == "no"@ {
            Some(Leg::PolyNo)
        } else {
            None
        }
    }

    /// The leg of a platform and a side, both in lower case.
    pub fn from_lowercase(platform: &str, side: &str) -> (r: Option<Self>)
        ensures
            r == Self::of(platform@, side@),
    {
        let kalshi = crate::text::same_text(platform, "kalshi");
        let poly = crate::text::same_text(platform, "polymarket");
        let yes = crate::text::same_text(side, "yes");
        let no = crate::text::same_text(side, "no");
        if kalshi && yes {
            Some(Leg::KalshiYes)
        } else if kalshi && no {
            Some(Leg::KalshiNo)
        } else if poly && yes {
            Some(Leg::PolyYes)
        } else if poly && no {
            Some(Leg::PolyNo)
        } else {
            None
        }
    }
}

/// A complete paper trading position (both platforms, YES and NO)
#[derive(Debug, Clone)]
pub struct PaperPosition {
    /// Market identifier
    pub market_id: String,
    /// Human-readable description
    pub description: String,
    /// Kalshi YES position
    pub kalshi_yes: PaperPositionLeg,
    /// Kalshi NO position
    pub kalshi_no: PaperPositionLeg,
    /// Polymarket YES position
    pub poly_yes: PaperPositionLeg,
    /// Polymarket NO position
    pub poly_no: PaperPositionLeg,
    /// Total fees paid
    pub total_fees: Binary64,
    /// When position was opened (Unix timestamp)
    pub opened_at_secs: i64,
    /// Position status: "open", "closed", "resolved"
    pub status: String,
    /// Realized P&L (set when closed/resolved)
    pub realized_pnl: Option<Binary64>,
}

/// A position by what it holds.
pub struct PositionView {
    pub market_id: Seq<char>,
    pub description: Seq<char>,
    pub kalshi_yes: PaperPositionLeg,
    pub kalshi_no: PaperPositionLeg,
    pub poly_yes: PaperPositionLeg,
    pub poly_no: PaperPositionLeg,
    pub total_fees: Binary64,
    pub opened_at_secs: i64,
    pub status: Seq<char>,
    pub realized_pnl: Option<Binary64>,
}

impl View for PaperPosition {
    type V = PositionView;

    open spec fn view(&self) -> PositionView {
        PositionView {
            market_id: self.market_id@,
            description: self.description@,
            kalshi_yes: self.kalshi_yes,
            kalshi_no: self.kalshi_no,
            poly_yes: self.poly_yes,
            poly_no: self.poly_no,
            total_fees: self.total_fees,
            opened_at_secs: self.opened_at_secs,
            status: self.status@,
            realized_pnl: self.realized_pnl,
        }
    }
}

impl PositionView {
    /// An open position without contracts.
    pub open spec fn opened(
        market_id: Seq<char>,
        description: Seq<char>,
        opened_at_secs: i64,
    ) -> Self {
        PositionView {
            market_id,
            description,
            kalshi_yes: PaperPositionLeg::empty(),
            kalshi_no: PaperPositionLeg::empty(),
            poly_yes: PaperPositionLeg::empty(),
            poly_no: PaperPositionLeg::empty(),
            total_fees: zero_value(),
            opened_at_secs,
            status: "open"@,
            realized_pnl: None,
        }
    }

    /// Whether the market of the position is still to be resolved.
    pub open spec fn is_open(self) -> bool {
        self.status == "open"@
    }

    /// The contracts on the yes side.
    pub open spec fn yes_contracts(self) -> Binary64 {
        self.kalshi_yes.contracts.plus(self.poly_yes.contracts)
    }

    /// The contracts on the no side.
    pub open spec fn no_contracts(self) -> Binary64 {
        self.kalshi_no.contracts.plus(self.poly_no.contracts)
    }

    /// What all legs cost, and the fees.
    pub open spec fn cost(self) -> Binary64 {
        self.kalshi_yes.cost_basis.plus(self.kalshi_no.cost_basis).plus(
            self.poly_yes.cost_basis,
        ).plus(self.poly_no.cost_basis).plus(self.total_fees)
    }

    /// The contracts of one side that the other side offsets.
    pub open spec fn matched(self) -> Binary64 {
        self.yes_contracts().smaller(self.no_contracts())
    }

    /// The position once its market is resolved: the winning side pays a dollar per contract.
    pub open spec fn resolved(self, yes_won: bool) -> Self {
        let payout = if yes_won {
            self.yes_contracts()
        } else {
            self.no_contracts()
        };
        PositionView {
            realized_pnl: Some(payout.minus(self.cost())),
            status: "resolved"@,
            ..self
        }
    }

    /// The position with contracts added to one of its legs, if a leg is named, and fees.
    pub open spec fn filled(
        self,
        leg: Option<Leg>,
        contracts: Binary64,
        price: Binary64,
        fees: Binary64,
    ) -> Self {
        let total_fees = self.total_fees.plus(fees);
        match leg {
            Some(Leg::KalshiYes) => PositionView {
                kalshi_yes: self.kalshi_yes.added(contracts, price),
                total_fees,
                ..self
            },
            Some(Leg::KalshiNo) => PositionView {
                kalshi_no: self.kalshi_no.added(contracts, price),
                total_fees,
                ..self
            },
            Some(Leg::PolyYes) => PositionView {
                poly_yes: self.poly_yes.added(contracts, price),
                total_fees,
                ..self
            },
            Some(Leg::PolyNo) => PositionView {
                poly_no: self.poly_no.added(contracts, price),
                total_fees,
                ..self
            },
            None => PositionView { total_fees, ..self },
        }
    }
}

impl Default for PaperPosition {
    fn default() -> (r: Self)
        ensures
            r@ == (PositionView { status: Seq::empty(), ..PositionView::opened(
                Seq::empty(),
                Seq::empty(),
                0,
            ) }),
    {
        PaperPosition {
            market_id: String::new(),
            description: String::new(),
            kalshi_yes: PaperPositionLeg::default(),
            kalshi_no: PaperPositionLeg::default(),
            poly_yes: PaperPositionLeg::default(),
            poly_no: PaperPositionLeg::default(),
            total_fees: zero(),
            opened_at_secs: 0,
            status: String::new(),
            realized_pnl: None,
        }
    }
}

impl PaperPosition {
    /// Create a new paper position
    pub fn new(market_id: &str, description: &str, opened_at_secs: i64) -> (r: Self)
        ensures
            r@ == PositionView::opened(market_id@, description@, opened_at_secs),
    {
        PaperPosition {
            market_id: market_id.to_string(),
            description: description.to_string(),
            kalshi_yes: PaperPositionLeg::default(),
            kalshi_no: PaperPositionLeg::default(),
            poly_yes: PaperPositionLeg::default(),
            poly_no: PaperPositionLeg::default(),
            total_fees: zero(),
            opened_at_secs,
            status: "open".to_string(),
            realized_pnl: None,
        }
    }

    /// Total contracts across all legs
    pub fn total_contracts(&self) -> (r: Binary64)
        ensures
            r == self.kalshi_yes.contracts.plus(self.kalshi_no.contracts).plus(
                self.poly_yes.contracts,
            ).plus(self.poly_no.contracts),
    {
        self.kalshi_yes.contracts.add(&self.kalshi_no.contracts).add(
            &self.poly_yes.contracts,
        ).add(&self.poly_no.contracts)
    }

    /// Total cost basis including fees
    pub fn total_cost(&self) -> (r: Binary64)
        ensures
            r == self@.cost(),
    {
        self.kalshi_yes.cost_basis.add(&self.kalshi_no.cost_basis).add(
            &self.poly_yes.cost_basis,
        ).add(&self.poly_no.cost_basis).add(&self.total_fees)
    }

    /// Number of matched contract pairs (guaranteed profit from arb)
    pub fn matched_contracts(&self) -> (r: Binary64)
        ensures
            r == self@.matched(),
    {
        let yes = self.kalshi_yes.contracts.add(&self.poly_yes.contracts);
        let no = self.kalshi_no.contracts.add(&self.poly_no.contracts);
        yes.min(&no)
    }

    /// Guaranteed profit from matched arb positions
    pub fn guaranteed_profit(&self) -> (r: Binary64)
        ensures
            r == self@.matched().minus(self@.cost()),
    {
        self.matched_contracts().sub(&self.total_cost())
    }

    /// Unmatched exposure (contracts without offsetting position)
    pub fn unmatched_exposure(&self) -> (r: Binary64)
        ensures
            r == self@.yes_contracts().minus(self@.no_contracts()).absolute(),
    {
        let yes = self.kalshi_yes.contracts.add(&self.poly_yes.contracts);
        let no = self.kalshi_no.contracts.add(&self.poly_no.contracts);
        yes.sub(&no).abs()
    }

    /// Mark position as resolved
    pub fn resolve(&mut self, yes_won: bool)
        ensures
            final(self)@ == old(self)@.resolved(yes_won),
    {
        let payout = if yes_won {
            self.kalshi_yes.contracts.add(&self.poly_yes.contracts)
        } else {
            self.kalshi_no.contracts.add(&self.poly_no.contracts)
        };
        self.realized_pnl = Some(payout.sub(&self.total_cost()));
        self.status = "resolved".to_string();
    }

    /// Add contracts to one of the legs, if a leg is named, and fees.
    pub fn fill(
        &mut self,
        leg: Option<Leg>,
        contracts: &Binary64,
        price: &Binary64,
        fees: &Binary64,
    )
        ensures
            final(self)@ == old(self)@.filled(leg, *contracts, *price, *fees),
    {
        match leg {
            Some(Leg::KalshiYes) => self.kalshi_yes.add(contracts, price),
            Some(Leg::KalshiNo) => self.kalshi_no.add(contracts, price),
            Some(Leg::PolyYes) => self.poly_yes.add(contracts, price),
            Some(Leg::PolyNo) => self.poly_no.add(contracts, price),
            None => {},
        }
        self.total_fees = self.total_fees.add(fees);
    }
}

/// Whichever side wins, a resolved position earns at least its guaranteed profit, and the
/// guaranteed profit is what the worse of the two outcomes earns, as long as its contracts and
/// costs are finite.
pub proof fn law_guaranteed_profit_is_guaranteed(position: PositionView, yes_won: bool)
    requires
        position.yes_contracts().finite(),
        position.no_contracts().finite(),
        position.cost().finite(),
    ensures
        position.matched().minus(position.cost()).at_most(
            position.resolved(yes_won).realized_pnl->0,
        ),
        position.matched().minus(position.cost()) == position.resolved(
            true,
        ).realized_pnl->0.smaller(position.resolved(false).realized_pnl->0),
{
    let (yes, no, cost) = (
        position.yes_contracts(),
        position.no_contracts(),
        position.cost(),
    );
    law_difference_is_monotone(position.matched(), yes, cost);
    law_difference_is_monotone(position.matched(), no, cost);
    if !yes.at_most(no) && yes.minus(cost).at_most(no.minus(cost)) {
        lemma_equal_differences(yes, no, cost);
    }
}

} // verus!
