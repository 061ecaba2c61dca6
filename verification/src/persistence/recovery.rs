//! Reconciliation of the stored positions with what the exchanges report.
use super::kinds::{Platform, PositionStatus};
use super::records::Position;
use crate::binary64::numbers::D_0_0001;
use crate::binary64::arithmetic::one_in_units;
use crate::binary64::errors::size;
use crate::binary64::monotone::lemma_difference_is_rounded;
use crate::binary64::ranges::{lemma_one, lemma_order_of_patterns, lemma_units};
use crate::binary64::rounding::{
    law_a_double_is_not_rounded, law_rounding_is_monotone, lemma_nearest, lemma_pattern_value,
    nearest, pattern,
};
use crate::binary64::{scaled_magnitude, zero, zero_value, Binary64};
use crate::text::same_text;
use vstd::arithmetic::power2::{lemma2_to64, lemma2_to64_rest, lemma_pow2_adds, lemma_pow2_pos};
use vstd::prelude::*;

verus! {

/// What an exchange reports of one market: how much is held there.
#[derive(Debug, Clone)]
pub struct Holding {
    pub market_id: String,
    pub quantity: Binary64,
}

/// Whether no market occurs twice.
pub open spec fn has_distinct_markets(holdings: Seq<Holding>) -> bool {
    forall|i: int, j: int|
        0 <= i < j < holdings.len() ==> (#[trigger] holdings[i]).market_id@ != (
        #[trigger] holdings[j]).market_id@
}

/// How much of a market an exchange holds: what it reports first of the market.
pub open spec fn held(holdings: Seq<Holding>, market_id: Seq<char>) -> Option<Binary64>
    decreases holdings.len(),
{
    if holdings.len() == 0 {
        None
    } else if holdings[0].market_id@ == market_id {
        Some(holdings[0].quantity)
    } else {
        held(holdings.drop_first(), market_id)
    }
}

/// How much of a market an exchange holds.
pub fn held_quantity(holdings: &Vec<Holding>, market_id: &str) -> (r: Option<Binary64>)
    ensures
        r == held(holdings@, market_id@),
{
    let mut i: usize = 0;
    assert(holdings@.skip(0) =~= holdings@);
    while i < holdings.len()
        invariant
            i <= holdings.len(),
            held(holdings@, market_id@) == held(holdings@.skip(i as int), market_id@),
        decreases holdings.len() - i,
    {
        assert(holdings@.skip(i as int)[0] == holdings@[i as int]);
        if same_text(&holdings[i].market_id, market_id) {
            return Some(holdings[i].quantity);
        }
        assert(holdings@.skip(i as int).drop_first() =~= holdings@.skip(i + 1));
        i += 1;
    }
    None
}

/// Where an exchange reports each market once, every market that it reports is held in the
/// reported quantity, and no other market is held.
pub proof fn law_held_is_what_is_reported(holdings: Seq<Holding>, market_id: Seq<char>)
    requires
        has_distinct_markets(holdings),
    ensures
        forall|i: int|
            0 <= i < holdings.len() && (#[trigger] holdings[i]).market_id@ == market_id ==> held(
                holdings,
                market_id,
            ) == Some(holdings[i].quantity),
        held(holdings, market_id) is Some ==> exists|i: int|
            0 <= i < holdings.len() && (#[trigger] holdings[i]).market_id@ == market_id,
    decreases holdings.len(),
{
    if holdings.len() > 0 {
        let rest = holdings.drop_first();
        assert forall|i: int, j: int| 0 <= i < j < rest.len() implies (#[trigger] rest[i]).market_id@
            != (#[trigger] rest[j]).market_id@ by {
            assert(rest[i] == holdings[i + 1] && rest[j] == holdings[j + 1]);
        }
        law_held_is_what_is_reported(rest, market_id);
        assert forall|i: int|
            0 <= i < holdings.len() && (#[trigger] holdings[i]).market_id@ == market_id implies held(
            holdings,
            market_id,
        ) == Some(holdings[i].quantity) by {
            if i > 0 {
                assert(rest[i - 1] == holdings[i]);
                assert(holdings[0].market_id@ != holdings[i].market_id@);
            }
        }
        if held(holdings, market_id) is Some && holdings[0].market_id@ != market_id {
            let k = choose|k: int|
                0 <= k < rest.len() && (#[trigger] rest[k]).market_id@ == market_id;
            assert(holdings[k + 1].market_id@ == market_id);
        }
    }
}

/// What becomes of a stored position.
#[derive(Debug, Clone, Copy, PartialEq, Eq, Structural)]
pub enum Reconciliation {
    /// The exchange holds what is stored.
    Verified,
    /// The exchange holds another quantity, which is to be stored.
    SetQuantity(Binary64),
    /// The exchange holds nothing; the position was closed there and is to be marked as closed.
    Close,
}

/// What becomes of a stored position. `actual` is what the exchange holds and `saved` what is
/// stored.
pub open spec fn reconciliation(actual: Option<Binary64>, saved: Binary64) -> Reconciliation {
    match actual {
        None => Reconciliation::Close,
        Some(quantity) => if (Binary64 { bits: D_0_0001 }).less(
            quantity.minus(saved).absolute(),
        ) {
            if zero_value().less(quantity) {
                Reconciliation::SetQuantity(quantity)
            } else {
                Reconciliation::Close
            }
        } else {
            Reconciliation::Verified
        },
    }
}

/// Decide what becomes of a stored position.
pub fn reconcile(actual: Option<Binary64>, saved: &Binary64) -> (r: Reconciliation)
    ensures
        r == reconciliation(actual, *saved),
{
    match actual {
        None => Reconciliation::Close,
        Some(quantity) => {
            let tolerance = Binary64::from_bits(D_0_0001);
            if quantity.sub(saved).abs().gt(&tolerance) {
                if quantity.gt(&zero()) {
                    Reconciliation::SetQuantity(quantity)
                } else {
                    Reconciliation::Close
                }
            } else {
                Reconciliation::Verified
            }
        },
    }
}

/// Details of a quantity mismatch during recovery
#[derive(Debug)]
pub struct QuantityMismatch {
    pub position_id: i64,
    pub market_id: String,
    pub saved_quantity: Binary64,
    pub actual_quantity: Binary64,
}

/// An exchange position not found in the database
#[derive(Debug)]
pub struct OrphanedPosition {
    pub platform: Platform,
    pub market_id: String,
    pub quantity: Binary64,
}

/// A mismatch by what it holds.
pub struct MismatchView {
    pub position_id: i64,
    pub market_id: Seq<char>,
    pub saved_quantity: Binary64,
    pub actual_quantity: Binary64,
}

impl View for QuantityMismatch {
    type V = MismatchView;

    open spec fn view(&self) -> MismatchView {
        MismatchView {
            position_id: self.position_id,
            market_id: self.market_id@,
            saved_quantity: self.saved_quantity,
            actual_quantity: self.actual_quantity,
        }
    }
}

/// Report from state recovery operation
#[derive(Debug)]
pub struct RecoveryReport {
    /// Positions that were verified as matching exchange state
    pub verified_positions: Vec<i64>,
    /// Positions that had quantity mismatches and were updated
    pub quantity_mismatches: Vec<QuantityMismatch>,
    /// Positions that were closed because they no longer exist on exchange
    pub closed_positions: Vec<i64>,
    /// Positions found on exchange but not in database
    pub orphaned_positions: Vec<OrphanedPosition>,
}

impl Default for RecoveryReport {
    fn default() -> (r: Self)
        ensures
            r.verified_positions@ == Seq::<i64>::empty(),
            r.quantity_mismatches@ == Seq::<QuantityMismatch>::empty(),
            r.closed_positions@ == Seq::<i64>::empty(),
            r.orphaned_positions@ == Seq::<OrphanedPosition>::empty(),
    {
        RecoveryReport {
            verified_positions: Vec::new(),
            quantity_mismatches: Vec::new(),
            closed_positions: Vec::new(),
            orphaned_positions: Vec::new(),
        }
    }
}

/// The ids of the positions that the decisions verify, in their order.
pub open spec fn verified_ids(saved: Seq<Position>, actions: Seq<Reconciliation>) -> Seq<i64>
    decreases actions.len(),
{
    if actions.len() == 0 || saved.len() < actions.len() {
        seq![]
    } else {
        let front = verified_ids(saved, actions.drop_last());
        if actions.last() is Verified {
            front.push(saved[actions.len() - 1].id)
        } else {
            front
        }
    }
}

/// The ids of the positions that the decisions close, in their order.
pub open spec fn closed_ids(saved: Seq<Position>, actions: Seq<Reconciliation>) -> Seq<i64>
    decreases actions.len(),
{
    if actions.len() == 0 || saved.len() < actions.len() {
        seq![]
    } else {
        let front = closed_ids(saved, actions.drop_last());
        if actions.last() is Close {
            front.push(saved[actions.len() - 1].id)
        } else {
            front
        }
    }
}

/// The mismatches that the decisions find, in their order.
pub open spec fn mismatches(saved: Seq<Position>, actions: Seq<Reconciliation>) -> Seq<MismatchView>
    decreases actions.len(),
{
    if actions.len() == 0 || saved.len() < actions.len() {
        seq![]
    } else {
        let front = mismatches(saved, actions.drop_last());
        match actions.last() {
            Reconciliation::SetQuantity(quantity) => {
                let position = saved[actions.len() - 1];
                front.push(
                    MismatchView {
                        position_id: position.id,
                        market_id: position.market_id@,
                        saved_quantity: position.quantity,
                        actual_quantity: quantity,
                    },
                )
            },
            _ => front,
        }
    }
}

/// What the exchange of a position holds of its market.
pub open spec fn actual(
    position: Position,
    poly: Seq<Holding>,
    kalshi: Seq<Holding>,
) -> Option<Binary64> {
    match position.platform {
        Platform::Polymarket => held(poly, position.market_id@),
        Platform::Kalshi => held(kalshi, position.market_id@),
    }
}

/// What the exchange of a position holds of its market.
pub fn actual_quantity(
    position: &Position,
    poly_positions: &Vec<Holding>,
    kalshi_positions: &Vec<Holding>,
) -> (r: Option<Binary64>)
    ensures
        r == actual(*position, poly_positions@, kalshi_positions@),
{
    match position.platform {
        Platform::Polymarket => held_quantity(poly_positions, &position.market_id),
        Platform::Kalshi => held_quantity(kalshi_positions, &position.market_id),
    }
}

/// Reconcile the open positions with the exchanges: what becomes of each position, and the
/// report.
pub fn recover_state(
    saved: &Vec<Position>,
    poly_positions: &Vec<Holding>,
    kalshi_positions: &Vec<Holding>,
) -> (r: (Vec<Reconciliation>, RecoveryReport))
    ensures
        r.0@ == decisions(saved@, poly_positions@, kalshi_positions@),
        r.1.verified_positions@ == verified_ids(saved@, r.0@),
        r.1.closed_positions@ == closed_ids(saved@, r.0@),
        r.1.quantity_mismatches@.map_values(|m: QuantityMismatch| m@) == mismatches(saved@, r.0@),
        r.1.orphaned_positions.len() == 0,
{
    let mut report = RecoveryReport::default();
    let mut actions: Vec<Reconciliation> = Vec::new();
    let mut i: usize = 0;
    proof {
        assert(report.quantity_mismatches@.map_values(|m: QuantityMismatch| m@) =~= seq![]);
    }
    while i < saved.len()
        invariant
            i <= saved.len(),
            actions.len() == i,
            forall|k: int|
                0 <= k < i ==> (#[trigger] actions[k]) == reconciliation(
                    actual(saved[k], poly_positions@, kalshi_positions@),
                    saved[k].quantity,
                ),
            report.verified_positions@ == verified_ids(saved@, actions@),
            report.closed_positions@ == closed_ids(saved@, actions@),
            report.quantity_mismatches@.map_values(|m: QuantityMismatch| m@) == mismatches(
                saved@,
                actions@,
            ),
            report.orphaned_positions.len() == 0,
        decreases saved.len() - i,
    {
        let position = &saved[i];
        let quantity = actual_quantity(position, poly_positions, kalshi_positions);
        let action = reconcile(quantity, &position.quantity);
        let ghost before = actions@;
        let ghost listed = report.quantity_mismatches@;
        actions.push(action);
        proof {
            assert(actions@.drop_last() =~= before);
        }
        match action {
            Reconciliation::Verified => {
                report.verified_positions.push(position.id);
            },
            Reconciliation::SetQuantity(quantity) => {
                let mismatch = QuantityMismatch {
                    position_id: position.id,
                    market_id: position.market_id.clone(),
                    saved_quantity: position.quantity,
                    actual_quantity: quantity,
                };
                report.quantity_mismatches.push(mismatch);
                assert(report.quantity_mismatches@.map_values(|m: QuantityMismatch| m@)
                    =~= listed.map_values(|m: QuantityMismatch| m@).push(mismatch@));
            },
            Reconciliation::Close => {
                report.closed_positions.push(position.id);
            },
        }
        i += 1;
    }
    assert(actions@ =~= decisions(saved@, poly_positions@, kalshi_positions@));
    (actions, report)
}

/// Every stored position is reported exactly once: as verified, as mismatched or as closed.
pub proof fn law_recovery_reports_each_position_once(
    saved: Seq<Position>,
    actions: Seq<Reconciliation>,
)
    requires
        actions.len() <= saved.len(),
    ensures
        verified_ids(saved, actions).len() + closed_ids(saved, actions).len() + mismatches(
            saved,
            actions,
        ).len() == actions.len(),
        forall|i: int|
            0 <= i < actions.len() ==> match #[trigger] actions[i] {
                Reconciliation::Verified => verified_ids(saved, actions).contains(saved[i].id),
                Reconciliation::Close => closed_ids(saved, actions).contains(saved[i].id),
                Reconciliation::SetQuantity(q) => mismatches(saved, actions).contains(
                    MismatchView {
                        position_id: saved[i].id,
                        market_id: saved[i].market_id@,
                        saved_quantity: saved[i].quantity,
                        actual_quantity: q,
                    },
                ),
            },
    decreases actions.len(),
{
    if actions.len() > 0 {
        let front = actions.drop_last();
        law_recovery_reports_each_position_once(saved, front);
        broadcast use vstd::seq_lib::group_seq_properties;

        assert forall|i: int| 0 <= i < actions.len() implies match #[trigger] actions[i] {
            Reconciliation::Verified => verified_ids(saved, actions).contains(saved[i].id),
            Reconciliation::Close => closed_ids(saved, actions).contains(saved[i].id),
            Reconciliation::SetQuantity(q) => mismatches(saved, actions).contains(
                MismatchView {
                    position_id: saved[i].id,
                    market_id: saved[i].market_id@,
                    saved_quantity: saved[i].quantity,
                    actual_quantity: q,
                },
            ),
        } by {
            if i < front.len() {
                assert(front[i] == actions[i]);
            } else {
                assert(actions[i] == actions.last());
            }
        }
    }
}

/// What becomes of each stored position.
pub open spec fn decisions(
    saved: Seq<Position>,
    poly: Seq<Holding>,
    kalshi: Seq<Holding>,
) -> Seq<Reconciliation> {
    Seq::new(
        saved.len(),
        |i: int| reconciliation(actual(saved[i], poly, kalshi), saved[i].quantity),
    )
}

/// Whether an exchange reports a market with a quantity, and reports it once.
pub open spec fn reports_once(
    holdings: Seq<Holding>,
    market_id: Seq<char>,
    quantity: Binary64,
) -> bool {
    exists|k: int|
        #![trigger holdings[k]]
        0 <= k < holdings.len() && holdings[k].market_id@ == market_id && holdings[k].quantity
            == quantity && forall|j: int|
            0 <= j < holdings.len() && (#[trigger] holdings[j]).market_id@ == market_id ==> j == k
}

/// Whether an exchange does not report a market.
pub open spec fn is_silent_on(holdings: Seq<Holding>, market_id: Seq<char>) -> bool {
    forall|j: int| 0 <= j < holdings.len() ==> (#[trigger] holdings[j]).market_id@ != market_id
}

proof fn lemma_held(holdings: Seq<Holding>, market_id: Seq<char>)
    ensures
        is_silent_on(holdings, market_id) ==> held(holdings, market_id) is None,
        forall|quantity: Binary64|
            #[trigger] reports_once(holdings, market_id, quantity) ==> held(holdings, market_id)
                == Some(quantity),
    decreases holdings.len(),
{
    if holdings.len() > 0 {
        let rest = holdings.drop_first();
        lemma_held(rest, market_id);
        if is_silent_on(holdings, market_id) {
            assert forall|j: int| 0 <= j < rest.len() implies (#[trigger] rest[j]).market_id@
                != market_id by {
                assert(rest[j] == holdings[j + 1]);
            }
            assert(holdings[0].market_id@ != market_id);
        }
        assert forall|quantity: Binary64| #[trigger]
            reports_once(holdings, market_id, quantity) implies held(holdings, market_id) == Some(
            quantity,
        ) by {
            let k = choose|k: int|
                #![trigger holdings[k]]
                0 <= k < holdings.len() && holdings[k].market_id@ == market_id
                    && holdings[k].quantity == quantity && forall|j: int|
                    0 <= j < holdings.len() && (#[trigger] holdings[j]).market_id@ == market_id
                        ==> j == k;
            if k > 0 {
                assert(holdings[0].market_id@ != market_id);
                assert(rest[k - 1] == holdings[k]);
                assert forall|j: int|
                    0 <= j < rest.len() && (#[trigger] rest[j]).market_id@ == market_id implies j
                    == k - 1 by {
                    assert(holdings[j + 1].market_id@ == market_id);
                }
                assert(reports_once(rest, market_id, quantity));
            }
        }
    }
}

/// Two quantities that are a ten-thousandth apart or less are taken for the same, and two that
/// are more than a 9999th apart are not.
proof fn lemma_tolerance(quantity: Binary64, saved: Binary64)
    requires
        quantity.finite(),
        saved.finite(),
    ensures
        ({
            let apart = size(quantity.scaled() - saved.scaled());
            let differs = (Binary64 { bits: D_0_0001 }).less(quantity.minus(saved).absolute());
            &&& 10_000 * apart <= one_in_units() ==> !differs
            &&& 9_999 * apart >= one_in_units() ==> differs
        }),
{
    lemma_a_ten_thousandth();
    lemma_one();
    let d = quantity.minus(saved);
    let x = quantity.scaled() - saved.scaled();
    lemma_difference_is_rounded(quantity, saved);
    lemma_nearest(size(x), 1);
    let p = nearest(size(x), 1);
    let t = D_0_0001 as int;
    lemma_units(d);
    lemma_units(d.absolute());
    lemma_units(Binary64 { bits: D_0_0001 });
    if 10_000 * size(x) <= one_in_units() {
        law_rounding_is_monotone(size(x), 1, scaled_magnitude(t), 1);
        law_a_double_is_not_rounded(t);
        lemma_order_of_patterns(p, t);
    }
    if 9_999 * size(x) >= one_in_units() {
        law_rounding_is_monotone(scaled_magnitude(t + 1), 1, size(x), 1);
        law_a_double_is_not_rounded(t + 1);
        lemma_order_of_patterns(t, p);
    }
}

/// The double for a ten-thousandth and the one after it.
proof fn lemma_a_ten_thousandth()
    ensures
        10_000 * scaled_magnitude(D_0_0001 as int) >= one_in_units(),
        9_999 * scaled_magnitude(D_0_0001 + 1) <= one_in_units(),
{
    lemma_pattern_value(0x1A_36E2_EB1C_432D, 1008);
    assert(pattern(0x1A_36E2_EB1C_432D, 1008) == D_0_0001);
    lemma2_to64();
    lemma2_to64_rest();
    lemma_pow2_adds(64, 1008);
    lemma_pow2_adds(2, 1072);
    lemma_pow2_pos(1008);
}

/// What becomes of a stored position is decided by its own exchange alone: Kalshi for a position
/// on Kalshi and Polymarket for one on Polymarket. A market that the exchange reports with the
/// stored quantity, up to a ten-thousandth, is verified; one that it reports with another
/// quantity is set to that quantity where something is held, and closed where nothing is; and one
/// that it does not report is closed.
pub proof fn law_a_position_is_reconciled_with_its_exchange(
    saved: Seq<Position>,
    poly: Seq<Holding>,
    kalshi: Seq<Holding>,
    i: int,
    quantity: Binary64,
)
    requires
        0 <= i < saved.len(),
        saved[i].quantity.finite(),
        quantity.finite(),
    ensures
        ({
            let own = if saved[i].platform == Platform::Kalshi {
                kalshi
            } else {
                poly
            };
            let market_id = saved[i].market_id@;
            let apart = size(quantity.scaled() - saved[i].quantity.scaled());
            let decision = decisions(saved, poly, kalshi)[i];
            &&& is_silent_on(own, market_id) ==> decision == Reconciliation::Close
            &&& reports_once(own, market_id, quantity) ==> {
                &&& 10_000 * apart <= one_in_units() ==> decision == Reconciliation::Verified
                &&& 9_999 * apart >= one_in_units() && quantity.scaled() > 0 ==> decision
                    == Reconciliation::SetQuantity(quantity)
                &&& 9_999 * apart >= one_in_units() && quantity.scaled() <= 0 ==> decision
                    == Reconciliation::Close
            }
        }),
{
    lemma_one();
    lemma_held(poly, saved[i].market_id@);
    lemma_held(kalshi, saved[i].market_id@);
    lemma_tolerance(quantity, saved[i].quantity);
}

/// What becomes of a stored position does not depend on what the other exchange reports, nor on
/// the other positions.
pub proof fn law_the_other_exchange_does_not_matter(
    saved: Seq<Position>,
    other_saved: Seq<Position>,
    poly: Seq<Holding>,
    kalshi: Seq<Holding>,
    other: Seq<Holding>,
    i: int,
    k: int,
)
    requires
        0 <= i < saved.len(),
        0 <= k < other_saved.len(),
        saved[i] == other_saved[k],
    ensures
        saved[i].platform == Platform::Kalshi ==> decisions(saved, poly, kalshi)[i] == decisions(
            other_saved,
            other,
            kalshi,
        )[k],
        saved[i].platform == Platform::Polymarket ==> decisions(saved, poly, kalshi)[i]
            == decisions(other_saved, poly, other)[k],
{
}

/// The positions that are still open once the decisions were carried out, in their order, with
/// the quantities that are then stored.
pub open spec fn left_open(saved: Seq<Position>, actions: Seq<Reconciliation>) -> Seq<Position>
    decreases actions.len(),
{
    if actions.len() == 0 || saved.len() < actions.len() {
        seq![]
    } else {
        let front = left_open(saved, actions.drop_last());
        let position = saved[actions.len() - 1];
        match actions.last() {
            Reconciliation::Verified => front.push(position),
            Reconciliation::SetQuantity(quantity) => front.push(Position { quantity, ..position }),
            Reconciliation::Close => front,
        }
    }
}

/// A quantity that was just stored is verified.
proof fn lemma_a_stored_quantity_is_verified(held: Option<Binary64>, saved: Binary64)
    ensures
        match reconciliation(held, saved) {
            Reconciliation::SetQuantity(quantity) => reconciliation(held, quantity)
                == Reconciliation::Verified,
            _ => true,
        },
{
    if let Reconciliation::SetQuantity(quantity) = reconciliation(held, saved) {
        crate::binary64::arithmetic::lemma_minus_itself(quantity);
    }
}

proof fn lemma_left_open(
    saved: Seq<Position>,
    actions: Seq<Reconciliation>,
    poly: Seq<Holding>,
    kalshi: Seq<Holding>,
)
    requires
        actions.len() <= saved.len(),
        actions == decisions(saved, poly, kalshi).take(actions.len() as int),
    ensures
        forall|i: int|
            0 <= i < left_open(saved, actions).len() ==> reconciliation(
                actual(#[trigger] left_open(saved, actions)[i], poly, kalshi),
                left_open(saved, actions)[i].quantity,
            ) == Reconciliation::Verified,
        left_open(saved, actions).len() + closed_ids(saved, actions).len() == actions.len(),
    decreases actions.len(),
{
    if actions.len() > 0 {
        let all = decisions(saved, poly, kalshi);
        let front = actions.drop_last();
        assert(front =~= all.take(front.len() as int));
        lemma_left_open(saved, front, poly, kalshi);
        let position = saved[actions.len() - 1];
        assert(actions.last() == all[actions.len() - 1]);
        lemma_a_stored_quantity_is_verified(actual(position, poly, kalshi), position.quantity);
        let left = left_open(saved, actions);
        assert forall|i: int| 0 <= i < left.len() implies reconciliation(
            actual(#[trigger] left[i], poly, kalshi),
            left[i].quantity,
        ) == Reconciliation::Verified by {
            if i < left_open(saved, front).len() {
                assert(left[i] == left_open(saved, front)[i]);
            }
        }
    }
}

proof fn lemma_verified_alone(saved: Seq<Position>, actions: Seq<Reconciliation>)
    requires
        actions.len() <= saved.len(),
        forall|i: int| 0 <= i < actions.len() ==> (#[trigger] actions[i]) is Verified,
    ensures
        closed_ids(saved, actions) == Seq::<i64>::empty(),
        mismatches(saved, actions) == Seq::<MismatchView>::empty(),
        verified_ids(saved, actions) == Seq::new(actions.len(), |i: int| saved[i].id),
    decreases actions.len(),
{
    if actions.len() > 0 {
        let front = actions.drop_last();
        assert forall|i: int| 0 <= i < front.len() implies (#[trigger] front[i]) is Verified by {
            assert(front[i] == actions[i]);
        }
        lemma_verified_alone(saved, front);
        assert(actions.last() == actions[actions.len() - 1]);
    }
    assert(verified_ids(saved, actions) =~= Seq::new(actions.len(), |i: int| saved[i].id));
}

/// A recovery settles matters: every position that it does not close is left as its exchange
/// holds it, so that a second recovery with the same holdings verifies all that is left, finds
/// no mismatch and closes nothing.
pub proof fn law_a_second_recovery_changes_nothing(
    saved: Seq<Position>,
    poly: Seq<Holding>,
    kalshi: Seq<Holding>,
)
    ensures
        ({
            let first = decisions(saved, poly, kalshi);
            let left = left_open(saved, first);
            let second = decisions(left, poly, kalshi);
            &&& left.len() + closed_ids(saved, first).len() == saved.len()
            &&& forall|i: int| 0 <= i < second.len() ==> (#[trigger] second[i]) is Verified
            &&& verified_ids(left, second) == Seq::new(left.len(), |i: int| left[i].id)
            &&& mismatches(left, second) == Seq::<MismatchView>::empty()
            &&& closed_ids(left, second) == Seq::<i64>::empty()
            &&& left_open(left, second) == left
        }),
{
    let first = decisions(saved, poly, kalshi);
    let left = left_open(saved, first);
    let second = decisions(left, poly, kalshi);
    assert(first =~= first.take(first.len() as int));
    lemma_left_open(saved, first, poly, kalshi);
    assert forall|i: int| 0 <= i < second.len() implies (#[trigger] second[i]) is Verified by {
        assert(reconciliation(actual(left[i], poly, kalshi), left[i].quantity)
            == Reconciliation::Verified);
    }
    lemma_verified_alone(left, second);
    lemma_verified_are_left(left, second);
    assert(left.take(second.len() as int) =~= left);
}

proof fn lemma_verified_are_left(saved: Seq<Position>, actions: Seq<Reconciliation>)
    requires
        actions.len() <= saved.len(),
        forall|i: int| 0 <= i < actions.len() ==> (#[trigger] actions[i]) is Verified,
    ensures
        left_open(saved, actions) == saved.take(actions.len() as int),
    decreases actions.len(),
{
    if actions.len() > 0 {
        let front = actions.drop_last();
        assert forall|i: int| 0 <= i < front.len() implies (#[trigger] front[i]) is Verified by {
            assert(front[i] == actions[i]);
        }
        lemma_verified_are_left(saved, front);
        assert(actions.last() == actions[actions.len() - 1]);
    }
    assert(left_open(saved, actions) =~= saved.take(actions.len() as int));
}

/// Whether the database holds an open position of a platform among the given ones.
pub open spec fn has_open(positions: Seq<Position>, platform: Platform) -> bool {
    exists|i: int|
        0 <= i < positions.len() && (#[trigger] positions[i]).platform == platform
            && positions[i].status == PositionStatus::Open
}

/// Whether the database holds an open position of a platform among the given ones.
pub fn holds_open_position(positions: &Vec<Position>, platform: Platform) -> (r: bool)
    ensures
        r == has_open(positions@, platform),
{
    let mut i: usize = 0;
    while i < positions.len()
        invariant
            i <= positions.len(),
            forall|k: int|
                0 <= k < i ==> !((#[trigger] positions[k]).platform == platform
                    && positions[k].status == PositionStatus::Open),
        decreases positions.len() - i,
    {
        if positions[i].platform == platform && positions[i].status == PositionStatus::Open {
            assert(has_open(positions@, platform));
            return true;
        }
        i += 1;
    }
    false
}

/// The holdings that the database does not know: something is held, and no open position of
/// the platform is stored for the market.
pub open spec fn orphans(
    platform: Platform,
    holdings: Seq<Holding>,
    stored: Seq<Vec<Position>>,
) -> Seq<Holding>
    decreases holdings.len(),
{
    if holdings.len() == 0 || stored.len() < holdings.len() {
        seq![]
    } else {
        let front = orphans(platform, holdings.drop_last(), stored);
        let last = holdings.last();
        if !has_open(stored[holdings.len() - 1]@, platform) && zero_value().less(last.quantity) {
            front.push(last)
        } else {
            front
        }
    }
}

/// Whether the reported orphans are the given holdings of a platform, one by one.
pub open spec fn reports(
    found: Seq<OrphanedPosition>,
    platform: Platform,
    holdings: Seq<Holding>,
) -> bool {
    &&& found.len() == holdings.len()
    &&& forall|i: int|
        0 <= i < found.len() ==> {
            &&& (#[trigger] found[i]).platform == platform
            &&& found[i].market_id@ == holdings[i].market_id@
            &&& found[i].quantity == holdings[i].quantity
        }
}

/// Find the holdings of an exchange that the database does not know. `stored` holds, for each
/// holding, the positions that the database has for its market.
pub fn orphaned_positions(
    platform: Platform,
    holdings: &Vec<Holding>,
    stored: &Vec<Vec<Position>>,
) -> (found: Vec<OrphanedPosition>)
    requires
        stored.len() == holdings.len(),
    ensures
        reports(found@, platform, orphans(platform, holdings@, stored@)),
{
    let mut found: Vec<OrphanedPosition> = Vec::new();
    let mut i: usize = 0;
    assert(holdings@.take(0) =~= seq![]);
    while i < holdings.len()
        invariant
            i <= holdings.len(),
            stored.len() == holdings.len(),
            reports(found@, platform, orphans(platform, holdings@.take(i as int), stored@)),
        decreases holdings.len() - i,
    {
        assert(holdings@.take(i + 1).drop_last() =~= holdings@.take(i as int));
        assert(holdings@.take(i + 1).last() == holdings@[i as int]);
        if !holds_open_position(&stored[i], platform) && holdings[i].quantity.gt(&zero()) {
            found.push(
                OrphanedPosition {
                    platform,
                    market_id: holdings[i].market_id.clone(),
                    quantity: holdings[i].quantity,
                },
            );
        }
        i += 1;
    }
    assert(holdings@.take(holdings.len() as int) =~= holdings@);
    found
}

/// Whether a holding is not known to the database: something is held, and none of the positions
/// that are stored for its market is open on the platform.
pub open spec fn is_unknown(
    platform: Platform,
    holding: Holding,
    stored: Seq<Position>,
) -> bool {
    &&& holding.quantity.positive()
    &&& forall|k: int|
        0 <= k < stored.len() && (#[trigger] stored[k]).platform == platform ==> stored[k].status
            != PositionStatus::Open
}

/// The orphans are the holdings that the database does not know, all of them, and no others.
pub proof fn law_orphans_are_the_unknown_holdings(
    platform: Platform,
    holdings: Seq<Holding>,
    stored: Seq<Vec<Position>>,
    holding: Holding,
)
    requires
        holdings.len() <= stored.len(),
    ensures
        orphans(platform, holdings, stored).contains(holding) <==> exists|i: int|
            0 <= i < holdings.len() && holding == #[trigger] holdings[i] && is_unknown(
                platform,
                holding,
                stored[i]@,
            ),
    decreases holdings.len(),
{
    if holdings.len() > 0 {
        let rest = holdings.drop_last();
        let last = holdings.last();
        let at = holdings.len() - 1;
        law_orphans_are_the_unknown_holdings(platform, rest, stored, holding);
        let front = orphans(platform, rest, stored);
        let all = orphans(platform, holdings, stored);
        lemma_one();
        lemma_units(last.quantity);
        assert(last == holdings[at]);
        let known = has_open(stored[at]@, platform);
        if known {
            let k = choose|k: int|
                0 <= k < stored[at]@.len() && (#[trigger] stored[at]@[k]).platform == platform
                    && stored[at]@[k].status == PositionStatus::Open;
            assert(stored[at]@[k].platform == platform);
        }
        assert(is_unknown(platform, last, stored[at]@) == (!known && zero_value().less(
            last.quantity,
        )));
        if is_unknown(platform, last, stored[at]@) {
            assert(all == front.push(last));
            assert(all[front.len() as int] == last);
            if front.contains(holding) {
                let j = choose|j: int| 0 <= j < front.len() && front[j] == holding;
                assert(all[j] == holding);
            }
            if all.contains(holding) && holding != last {
                let j = choose|j: int| 0 <= j < all.len() && all[j] == holding;
                assert(front[j] == holding);
            }
        }
        if exists|i: int|
            0 <= i < rest.len() && holding == #[trigger] rest[i] && is_unknown(
                platform,
                holding,
                stored[i]@,
            ) {
            let i = choose|i: int|
                0 <= i < rest.len() && holding == #[trigger] rest[i] && is_unknown(
                    platform,
                    holding,
                    stored[i]@,
                );
            assert(holdings[i] == holding);
        }
        if exists|i: int|
            0 <= i < holdings.len() && holding == #[trigger] holdings[i] && is_unknown(
                platform,
                holding,
                stored[i]@,
            ) {
            let i = choose|i: int|
                0 <= i < holdings.len() && holding == #[trigger] holdings[i] && is_unknown(
                    platform,
                    holding,
                    stored[i]@,
                );
            if i < at {
                assert(rest[i] == holding);
            }
        }
    }
}

} // verus!
