//! What closing a position and storing a correlation do to their tables. The database runs the
//! statements; here stands what they are to do.
use super::kinds::{CorrelationType, PositionStatus};
use super::records::{
    close_externally, close_position, stored_pair, ClosePlan, Correlation, Position,
};
use super::{open_position_not_found, DbResult};
use crate::binary64::Binary64;
use crate::text::int_text;
use crate::time::Timestamp;
use vstd::prelude::*;

verus! {

// ---------------------------------------------------------------------------
// Positions
// ---------------------------------------------------------------------------

/// Whether no two positions have the same id.
pub open spec fn has_distinct_ids(table: Seq<Position>) -> bool {
    forall|i: int, j: int|
        0 <= i < j < table.len() ==> (#[trigger] table[i]).id != (#[trigger] table[j]).id
}

/// The open position with an id, if there is one.
pub open spec fn find_open(table: Seq<Position>, id: i64) -> Option<Position>
    decreases table.len(),
{
    if table.len() == 0 {
        None
    } else if table[0].id == id && table[0].status == PositionStatus::Open {
        Some(table[0])
    } else {
        find_open(table.drop_first(), id)
    }
}

impl Position {
    /// The position once it is closed as planned.
    pub open spec fn closed_by(self, plan: ClosePlan, at: Timestamp) -> Self {
        Position {
            exit_price: Some(plan.exit_price),
            exit_time: Some(at),
            pnl: Some(plan.pnl),
            status: plan.status,
            ..self
        }
    }
}

/// The table once the positions with an id are closed as planned.
pub open spec fn with_closed(
    table: Seq<Position>,
    id: i64,
    plan: ClosePlan,
    at: Timestamp,
) -> Seq<Position> {
    table.map_values(
        |p: Position|
            if p.id == id {
                p.closed_by(plan, at)
            } else {
                p
            },
    )
}

/// The table and the profit once a position is closed; nothing changes where no open position
/// has the id.
pub open spec fn close_in(
    table: Seq<Position>,
    id: i64,
    exit_price: Option<Binary64>,
    at: Timestamp,
) -> (Seq<Position>, Option<Binary64>) {
    match find_open(table, id) {
        Some(position) => {
            let plan = ClosePlan::of(position, exit_price);
            (with_closed(table, id, plan, at), Some(plan.pnl))
        },
        None => (table, None),
    }
}

/// Plan to close the open position with an id, which is refused where none was found.
pub fn plan_close(found: &Option<Position>, id: i64, exit_price: Option<Binary64>) -> (r: DbResult<
    ClosePlan,
>)
    ensures
        match *found {
            Some(position) => r is Ok && r->Ok_0 == ClosePlan::of(position, exit_price),
            None => r is Err && r->Err_0.is_missing(
                "Open position not found: "@ + int_text(id as int),
            ),
        },
{
    match found {
        Some(position) => Ok(close_position(position, exit_price)),
        None => Err(open_position_not_found(id)),
    }
}

/// Plan to close the open position with an id that its exchange no longer holds, which is refused
/// where none was found.
pub fn plan_external_close(found: &Option<Position>, id: i64) -> (r: DbResult<ClosePlan>)
    ensures
        match *found {
            Some(position) => r is Ok && r->Ok_0 == ClosePlan::external(position),
            None => r is Err && r->Err_0.is_missing(
                "Open position not found: "@ + int_text(id as int),
            ),
        },
{
    match found {
        Some(position) => Ok(close_externally(position)),
        None => Err(open_position_not_found(id)),
    }
}

proof fn lemma_find_open(table: Seq<Position>, id: i64)
    ensures
        match find_open(table, id) {
            Some(position) => exists|i: int|
                0 <= i < table.len() && (#[trigger] table[i]) == position && position.id == id
                    && position.status == PositionStatus::Open,
            None => forall|i: int|
                0 <= i < table.len() && (#[trigger] table[i]).id == id ==> table[i].status
                    != PositionStatus::Open,
        },
    decreases table.len(),
{
    if table.len() > 0 {
        let rest = table.drop_first();
        lemma_find_open(rest, id);
        if !(table[0].id == id && table[0].status == PositionStatus::Open) {
            match find_open(table, id) {
                Some(position) => {
                    let i = choose|i: int|
                        0 <= i < rest.len() && (#[trigger] rest[i]) == position && position.id
                            == id && position.status == PositionStatus::Open;
                    assert(table[i + 1] == position);
                },
                None => {
                    assert forall|i: int|
                        0 <= i < table.len() && (#[trigger] table[i]).id == id implies
                        table[i].status != PositionStatus::Open by {
                        if i > 0 {
                            assert(rest[i - 1] == table[i]);
                        }
                    }
                },
            }
        }
    }
}

/// A closed position carries the price, the profit and the status of its plan and the time of its
/// end; everything else of it stays as it was.
pub proof fn law_closing_changes_only_the_end(position: Position, plan: ClosePlan, at: Timestamp)
    ensures
        ({
            let after = position.closed_by(plan, at);
            &&& after.exit_price == Some(plan.exit_price)
            &&& after.exit_time == Some(at)
            &&& after.pnl == Some(plan.pnl)
            &&& after.status == plan.status
            &&& after.id == position.id
            &&& after.market_id == position.market_id
            &&& after.platform == position.platform
            &&& after.side == position.side
            &&& after.entry_price == position.entry_price
            &&& after.quantity == position.quantity
            &&& after.entry_time == position.entry_time
            &&& after.strategy == position.strategy
            &&& after.notes == position.notes
        }),
{
}

/// Closing an open position gives its profit and changes nothing but that position, which gets
/// the price, the profit and the status of the plan and is no longer among the open ones. Closing
/// it again is refused and changes nothing.
pub proof fn law_a_position_is_closed_once(
    table: Seq<Position>,
    i: int,
    exit_price: Option<Binary64>,
    at: Timestamp,
    exit_price_again: Option<Binary64>,
    at_again: Timestamp,
)
    requires
        has_distinct_ids(table),
        0 <= i < table.len(),
        table[i].status == PositionStatus::Open,
    ensures
        ({
            let id = table[i].id;
            let plan = ClosePlan::of(table[i], exit_price);
            let (after, r) = close_in(table, id, exit_price, at);
            &&& r == Some(plan.pnl)
            &&& after == table.update(i, table[i].closed_by(plan, at))
            &&& after[i].status != PositionStatus::Open
            &&& find_open(after, id) is None
            &&& close_in(after, id, exit_price_again, at_again) == (
                after,
                None::<Binary64>,
            )
        }),
{
    let id = table[i].id;
    lemma_find_open(table, id);
    let found = find_open(table, id)->0;
    let k = choose|k: int|
        0 <= k < table.len() && (#[trigger] table[k]) == found && found.id == id && found.status
            == PositionStatus::Open;
    assert(k == i) by {
        if k < i {
            assert(table[k].id != table[i].id);
        } else if i < k {
            assert(table[i].id != table[k].id);
        }
    }
    let plan = ClosePlan::of(table[i], exit_price);
    let after = close_in(table, id, exit_price, at).0;
    assert forall|j: int| 0 <= j < table.len() && j != i implies (#[trigger] table[j]).id != id by {
        if j < i {
            assert(table[j].id != table[i].id);
        } else {
            assert(table[i].id != table[j].id);
        }
    }
    assert(after =~= table.update(i, table[i].closed_by(plan, at)));
    lemma_find_open(after, id);
    if find_open(after, id) is Some {
        let p = find_open(after, id)->0;
        let j = choose|j: int|
            0 <= j < after.len() && (#[trigger] after[j]) == p && p.id == id && p.status
                == PositionStatus::Open;
        if j != i {
            assert(after[j] == table[j]);
        }
    }
}

// ---------------------------------------------------------------------------
// Correlations
// ---------------------------------------------------------------------------

/// A stored correlation by what it holds.
pub struct StoredCorrelation {
    pub key: (Seq<char>, Seq<char>),
    pub correlation_type: CorrelationType,
    pub confidence: Binary64,
    pub created_at: Timestamp,
    pub validated_at: Option<Timestamp>,
    pub notes: Option<Seq<char>>,
}

/// What is stored of a correlation: its pair in the order of the key, its type, its confidence
/// and its notes.
pub struct NewCorrelation {
    pub key: (Seq<char>, Seq<char>),
    pub correlation_type: CorrelationType,
    pub confidence: Binary64,
    pub notes: Option<Seq<char>>,
}

impl NewCorrelation {
    /// What is stored of a correlation.
    pub open spec fn of(c: Correlation) -> Self {
        NewCorrelation {
            key: stored_pair(c.market_id_1@, c.market_id_2@),
            correlation_type: c.correlation_type,
            confidence: c.confidence,
            notes: match c.notes {
                Some(notes) => Some(notes@),
                None => None,
            },
        }
    }
}

impl StoredCorrelation {
    /// The row once it is stored anew: when it was created stays.
    pub open spec fn renewed(self, new: NewCorrelation, now: Timestamp) -> Self {
        StoredCorrelation {
            correlation_type: new.correlation_type,
            confidence: new.confidence,
            validated_at: Some(now),
            notes: new.notes,
            ..self
        }
    }

    /// The market that the row correlates with a given one, if it does.
    pub open spec fn other_end(self, market_id: Seq<char>) -> Option<Seq<char>> {
        if self.key.0 == market_id {
            Some(self.key.1)
        } else if self.key.1 == market_id {
            Some(self.key.0)
        } else {
            None
        }
    }

    /// Whether the row carries what was stored.
    pub open spec fn carries(self, new: NewCorrelation) -> bool {
        &&& self.key == new.key
        &&& self.correlation_type == new.correlation_type
        &&& self.confidence == new.confidence
        &&& self.notes == new.notes
    }
}

/// Whether every row has another key, and every key is in its order.
pub open spec fn has_distinct_keys(table: Seq<StoredCorrelation>) -> bool {
    &&& forall|i: int, j: int|
        0 <= i < j < table.len() ==> (#[trigger] table[i]).key != (#[trigger] table[j]).key
    &&& forall|i: int|
        0 <= i < table.len() ==> stored_pair(
            (#[trigger] table[i]).key.0,
            table[i].key.1,
        ) == table[i].key
}

/// Whether a row has a key.
pub open spec fn has_key(table: Seq<StoredCorrelation>, key: (Seq<char>, Seq<char>)) -> bool {
    exists|i: int| 0 <= i < table.len() && (#[trigger] table[i]).key == key
}

/// The table once a correlation is stored: the row of its key is renewed, or one is added.
pub open spec fn upsert_in(
    table: Seq<StoredCorrelation>,
    new: NewCorrelation,
    now: Timestamp,
) -> Seq<StoredCorrelation> {
    if has_key(table, new.key) {
        table.map_values(
            |row: StoredCorrelation|
                if row.key == new.key {
                    row.renewed(new, now)
                } else {
                    row
                },
        )
    } else {
        table.push(
            StoredCorrelation {
                key: new.key,
                correlation_type: new.correlation_type,
                confidence: new.confidence,
                created_at: now,
                validated_at: None,
                notes: new.notes,
            },
        )
    }
}

/// Whether exactly one row has a key, at the given place.
pub open spec fn is_only_row(
    table: Seq<StoredCorrelation>,
    key: (Seq<char>, Seq<char>),
    at: int,
) -> bool {
    &&& 0 <= at < table.len()
    &&& table[at].key == key
    &&& forall|i: int| 0 <= i < table.len() && (#[trigger] table[i]).key == key ==> i == at
}

/// Whether exactly one row correlates a market with another one, at the given place.
pub open spec fn is_only_end(
    table: Seq<StoredCorrelation>,
    market_id: Seq<char>,
    other: Seq<char>,
    at: int,
) -> bool {
    &&& 0 <= at < table.len()
    &&& table[at].other_end(market_id) == Some(other)
    &&& forall|i: int|
        0 <= i < table.len() && (#[trigger] table[i]).other_end(market_id) == Some(other) ==> i
            == at
}

/// Storing a correlation leaves exactly one row with its key, which carries what was stored;
/// every other row stays as it was. A row keeps the time of its creation, and is validated where
/// it is stored again.
pub proof fn law_a_correlation_has_one_row(
    table: Seq<StoredCorrelation>,
    new: NewCorrelation,
    now: Timestamp,
) -> (at: int)
    requires
        has_distinct_keys(table),
        stored_pair(new.key.0, new.key.1) == new.key,
    ensures
        ({
            let after = upsert_in(table, new, now);
            &&& has_distinct_keys(after)
            &&& is_only_row(after, new.key, at)
            &&& after[at].carries(new)
            &&& has_key(table, new.key) ==> at < table.len() && after[at].created_at
                == table[at].created_at && after[at].validated_at == Some(now)
            &&& !has_key(table, new.key) ==> after[at].created_at == now
                && after[at].validated_at is None
            &&& after.len() == (if has_key(table, new.key) {
                table.len()
            } else {
                table.len() + 1
            })
            &&& forall|i: int|
                0 <= i < table.len() && (#[trigger] table[i]).key != new.key ==> after[i]
                    == table[i]
        }),
{
    let after = upsert_in(table, new, now);
    if has_key(table, new.key) {
        let at = choose|i: int| 0 <= i < table.len() && (#[trigger] table[i]).key == new.key;
        assert forall|i: int| 0 <= i < after.len() implies (#[trigger] after[i]).key
            == table[i].key by {}
        assert forall|i: int, j: int| 0 <= i < j < after.len() implies (#[trigger] after[i]).key
            != (#[trigger] after[j]).key by {
            assert(table[i].key != table[j].key);
        }
        assert forall|i: int| 0 <= i < after.len() && (#[trigger] after[i]).key == new.key implies i
            == at by {
            assert(table[i].key == new.key);
        }
        at
    } else {
        assert forall|i: int| 0 <= i < table.len() implies (#[trigger] after[i]) == table[i] by {}
        assert forall|i: int, j: int| 0 <= i < j < after.len() implies (#[trigger] after[i]).key
            != (#[trigger] after[j]).key by {
            assert(after[i] == table[i]);
            if j < table.len() {
                assert(table[i].key != table[j].key);
            }
        }
        assert forall|i: int| 0 <= i < after.len() && (#[trigger] after[i]).key == new.key implies i
            == table.len() by {
            if i < table.len() {
                assert(table[i].key == new.key);
            }
        }
        table.len() as int
    }
}

/// Storing the correlation of two markets and then that of the same markets in the other order
/// leaves one row for both, under the lesser id and then the greater one, with the values of the
/// later one. Each of the markets is correlated with the other exactly once.
pub proof fn law_both_orders_share_one_row(
    table: Seq<StoredCorrelation>,
    first: Correlation,
    second: Correlation,
    now: Timestamp,
    later: Timestamp,
) -> (at: int)
    requires
        has_distinct_keys(table),
        first.market_id_1@ != first.market_id_2@,
        second.market_id_1@ == first.market_id_2@,
        second.market_id_2@ == first.market_id_1@,
    ensures
        ({
            let (a, b) = (first.market_id_1@, first.market_id_2@);
            let new = NewCorrelation::of(second);
            let after = upsert_in(
                upsert_in(table, NewCorrelation::of(first), now),
                new,
                later,
            );
            &&& has_distinct_keys(after)
            &&& is_only_row(after, stored_pair(a, b), at)
            &&& after[at].carries(new)
            &&& crate::text::lex_less(after[at].key.0, after[at].key.1)
            &&& is_only_end(after, a, b, at)
            &&& is_only_end(after, b, a, at)
            &&& after.len() == (if has_key(table, stored_pair(a, b)) {
                table.len()
            } else {
                table.len() + 1
            })
        }),
{
    let (a, b) = (first.market_id_1@, first.market_id_2@);
    super::records::law_stored_pair_is_symmetric(a, b);
    let key = stored_pair(a, b);
    super::records::law_stored_pair_is_symmetric(key.0, key.1);
    let middle = upsert_in(table, NewCorrelation::of(first), now);
    let place = law_a_correlation_has_one_row(table, NewCorrelation::of(first), now);
    assert(middle[place].key == key);
    let after = upsert_in(middle, NewCorrelation::of(second), later);
    let at = law_a_correlation_has_one_row(middle, NewCorrelation::of(second), later);
    lemma_only_end(after, a, b, at);
    lemma_only_end(after, b, a, at);
    at
}

/// The only row of a key is the only one that correlates its markets.
proof fn lemma_only_end(
    table: Seq<StoredCorrelation>,
    market_id: Seq<char>,
    other: Seq<char>,
    at: int,
)
    requires
        has_distinct_keys(table),
        market_id != other,
        is_only_row(table, stored_pair(market_id, other), at),
    ensures
        is_only_end(table, market_id, other, at),
{
    super::records::law_stored_pair_is_symmetric(market_id, other);
    assert forall|i: int|
        0 <= i < table.len() && (#[trigger] table[i]).other_end(market_id) == Some(other) implies i
        == at by {
        assert(stored_pair(table[i].key.0, table[i].key.1) == table[i].key);
        assert(table[i].key == stored_pair(market_id, other));
    }
}

} // verus!
