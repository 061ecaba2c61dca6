//! Values of the system state: how they are written, read and used.
//!
//! Decimal text of a double is written and read by the caller, who hands in what came of it.
use super::{DbError, DbResult};
use crate::binary64::{zero, zero_value, Binary64};
use crate::text::{
    bool_text, bool_value, concat2, i64_text, i64_value, int_text, law_bool_text_reads_back,
    law_int_text_reads_back, parse_bool, parse_i64, same_text,
};
use crate::time::{has_four_digit_year, rfc3339, rfc3339_instant, Timestamp};
use vstd::prelude::*;

verus! {

/// System state value types
#[derive(Debug, Clone)]
pub enum StateValue {
    String(String),
    Int(i64),
    Float(Binary64),
    Bool(bool),
    DateTime(Timestamp),
    Json(String),
}

/// A state value by what it holds.
pub enum StateView {
    Text(Seq<char>),
    Int(i64),
    Float(Binary64),
    Bool(bool),
    DateTime((i64, u32)),
    Json(Seq<char>),
}

impl View for StateValue {
    type V = StateView;

    open spec fn view(&self) -> StateView {
        match *self {
            StateValue::String(s) => StateView::Text(s@),
            StateValue::Int(i) => StateView::Int(i),
            StateValue::Float(f) => StateView::Float(f),
            StateValue::Bool(b) => StateView::Bool(b),
            StateValue::DateTime(t) => StateView::DateTime(t@),
            StateValue::Json(j) => StateView::Json(j@),
        }
    }
}

/// State values are compared by what they hold, and doubles by their value.
impl PartialEq for StateValue {
    fn eq(&self, other: &Self) -> (r: bool) {
        match (self, other) {
            (StateValue::String(a), StateValue::String(b)) => same_text(a, b),
            (StateValue::Int(a), StateValue::Int(b)) => *a == *b,
            (StateValue::Float(a), StateValue::Float(b)) => a.has_value_of(b),
            (StateValue::Bool(a), StateValue::Bool(b)) => *a == *b,
            (StateValue::DateTime(a), StateValue::DateTime(b)) => *a == *b,
            (StateValue::Json(a), StateValue::Json(b)) => same_text(a, b),
            _ => false,
        }
    }
}

impl vstd::std_specs::cmp::PartialEqSpecImpl for StateValue {
    open spec fn obeys_eq_spec() -> bool {
        true
    }

    open spec fn eq_spec(&self, other: &Self) -> bool {
        match (*self, *other) {
            (StateValue::String(a), StateValue::String(b)) => a@ == b@,
            (StateValue::Int(a), StateValue::Int(b)) => a == b,
            (StateValue::Float(a), StateValue::Float(b)) => a.same_value(b),
            (StateValue::Bool(a), StateValue::Bool(b)) => a == b,
            (StateValue::DateTime(a), StateValue::DateTime(b)) => a == b,
            (StateValue::Json(a), StateValue::Json(b)) => a@ == b@,
            _ => false,
        }
    }
}

impl StateView {
    /// The text that is stored; `float_text` is the text of a double.
    pub open spec fn db_text(self, float_text: Seq<char>) -> Seq<char> {
        match self {
            StateView::Text(s) => s,
            StateView::Int(i) => int_text(i as int),
            StateView::Float(_) => float_text,
            StateView::Bool(b) => bool_text(b),
            StateView::DateTime(t) => rfc3339(t.0, t.1),
            StateView::Json(j) => j,
        }
    }

    /// The name of the type that is stored beside the text.
    pub open spec fn kind_name(self) -> Seq<char> {
        match self {
            StateView::Text(_) => "string"@,
            StateView::Int(_) => "int"@,
            StateView::Float(_) => "float"@,
            StateView::Bool(_) => "bool"@,
            StateView::DateTime(_) => "datetime"@,
            StateView::Json(_) => "json"@,
        }
    }

    /// What a text of a named type stands for; `float_value` is the double that the text
    /// stands for, if it does.
    pub open spec fn parsed(
        text: Seq<char>,
        kind_name: Seq<char>,
        float_value: Option<Binary64>,
    ) -> Option<StateView> {
        if kind_name == "string"@ {
            Some(StateView::Text(text))
        } else if kind_name == "int"@ {
            match i64_value(text) {
                Some(i) => Some(StateView::Int(i)),
                None => None,
            }
        } else if kind_name == "float"@ {
            match float_value {
                Some(f) => Some(StateView::Float(f)),
                None => None,
            }
        } else if kind_name == "bool"@ {
            match bool_value(text) {
                Some(b) => Some(StateView::Bool(b)),
                None => None,
            }
        } else if kind_name == "datetime"@ {
            match rfc3339_instant(text) {
                Some(t) => Some(StateView::DateTime(t)),
                None => None,
            }
        } else if kind_name == "json"@ {
            Some(StateView::Json(text))
        } else {
            None
        }
    }

    /// The truth value that a state value holds or spells.
    pub open spec fn as_bool(self) -> Option<bool> {
        match self {
            StateView::Bool(b) => Some(b),
            StateView::Text(s) => bool_value(s),
            _ => None,
        }
    }

    /// The double that a state value holds, or that its whole number is nearest to, or that it
    /// spells.
    pub open spec fn as_float(self, float_value: Option<Binary64>) -> Option<Binary64> {
        match self {
            StateView::Float(f) => Some(f),
            StateView::Int(i) => Some(Binary64::of_int(i as int)),
            StateView::Text(_) => float_value,
            _ => None,
        }
    }

    /// The whole number that a state value holds or spells.
    pub open spec fn as_int(self) -> Option<i64> {
        match self {
            StateView::Int(i) => Some(i),
            StateView::Text(s) => i64_value(s),
            _ => None,
        }
    }
}

/// Whether a value, where there is one, has the given view.
pub open spec fn has_view(r: Option<StateValue>, view: Option<StateView>) -> bool {
    match view {
        Some(v) => r is Some && r->0@ == v,
        None => r is None,
    }
}

impl StateValue {
    /// Convert to string representation for storage; `float_text` is the text of the double
    /// that the value holds, if it holds one.
    pub fn to_db_string(&self, float_text: &str) -> (text: String)
        ensures
            text@ == self@.db_text(float_text@),
            self@ matches StateView::DateTime(t) ==> has_four_digit_year(t.0 as int)
                ==> rfc3339_instant(text@) == Some(t),
    {
        match self {
            StateValue::String(s) => s.clone(),
            StateValue::Int(i) => i64_text(*i),
            StateValue::Float(_) => float_text.to_string(),
            StateValue::Bool(b) => if *b {
                "true".to_string()
            } else {
                "false".to_string()
            },
            StateValue::DateTime(t) => t.to_rfc3339(),
            StateValue::Json(j) => j.clone(),
        }
    }

    /// Get the type name for the value_type column
    pub fn value_type(&self) -> (name: &'static str)
        ensures
            name@ == self@.kind_name(),
    {
        match self {
            StateValue::String(_) => "string",
            StateValue::Int(_) => "int",
            StateValue::Float(_) => "float",
            StateValue::Bool(_) => "bool",
            StateValue::DateTime(_) => "datetime",
            StateValue::Json(_) => "json",
        }
    }

    /// Parse from database string and type; `float_value` is the double that the string
    /// stands for, if it stands for one.
    pub fn from_db(value: &str, value_type: &str, float_value: Option<Binary64>) -> (r: Option<Self>)
        ensures
            has_view(r, StateView::parsed(value@, value_type@, float_value)),
    {
        if same_text(value_type, "string") {
            Some(StateValue::String(value.to_string()))
        } else if same_text(value_type, "int") {
            match parse_i64(value) {
                Some(i) => Some(StateValue::Int(i)),
                None => None,
            }
        } else if same_text(value_type, "float") {
            match float_value {
                Some(f) => Some(StateValue::Float(f)),
                None => None,
            }
        } else if same_text(value_type, "bool") {
            match parse_bool(value) {
                Some(b) => Some(StateValue::Bool(b)),
                None => None,
            }
        } else if same_text(value_type, "datetime") {
            match Timestamp::parse_rfc3339(value) {
                Some(t) => Some(StateValue::DateTime(t)),
                None => None,
            }
        } else if same_text(value_type, "json") {
            Some(StateValue::Json(value.to_string()))
        } else {
            None
        }
    }

    /// Extract as bool if type matches
    pub fn as_bool(&self) -> (r: Option<bool>)
        ensures
            r == self@.as_bool(),
    {
        match self {
            StateValue::Bool(b) => Some(*b),
            StateValue::String(s) => parse_bool(s),
            _ => None,
        }
    }

    /// Extract as float if type matches; `float_value` is the double that the string stands
    /// for, if the value is a string that stands for one.
    pub fn as_float(&self, float_value: Option<Binary64>) -> (r: Option<Binary64>)
        ensures
            r == self@.as_float(float_value),
    {
        match self {
            StateValue::Float(f) => Some(*f),
            StateValue::Int(i) => Some(Binary64::from_i64(*i)),
            StateValue::String(_) => float_value,
            _ => None,
        }
    }

    /// Extract as int if type matches
    pub fn as_int(&self) -> (r: Option<i64>)
        ensures
            r == self@.as_int(),
    {
        match self {
            StateValue::Int(i) => Some(*i),
            StateValue::String(s) => parse_i64(s),
            _ => None,
        }
    }

    /// Extract as string
    pub fn as_string(&self, float_text: &str) -> (text: String)
        ensures
            text@ == self@.db_text(float_text@),
    {
        self.to_db_string(float_text)
    }
}

/// A state value that was stored is read back as what it was: every text, whole number, truth
/// value and JSON text; a double where its text reads back as that double; a time where its
/// text reads back as that time, as it does in the years 0 to 9999.
pub proof fn law_state_value_reads_back(
    v: StateView,
    float_text: Seq<char>,
    float_value: Option<Binary64>,
)
    requires
        v matches StateView::Float(f) ==> float_value == Some(f),
        v matches StateView::DateTime(t) ==> rfc3339_instant(rfc3339(t.0, t.1)) == Some(t),
    ensures
        StateView::parsed(v.db_text(float_text), v.kind_name(), float_value) == Some(v),
{
    reveal_strlit("string");
    reveal_strlit("int");
    reveal_strlit("float");
    reveal_strlit("bool");
    reveal_strlit("datetime");
    reveal_strlit("json");
    assert("string"@.len() == 6 && "int"@.len() == 3 && "float"@.len() == 5);
    assert("bool"@.len() == 4 && "datetime"@.len() == 8 && "json"@.len() == 4);
    assert("bool"@[0] != "json"@[0]);
    match v {
        StateView::Int(i) => law_int_text_reads_back(i as int),
        StateView::Bool(b) => law_bool_text_reads_back(b),
        _ => {},
    }
}

// ---------------------------------------------------------------------------
// Keys of the system state
// ---------------------------------------------------------------------------

/// The key of the flag that halts trading.
pub const TRADING_HALTED: &'static str = "trading_halted";

/// The key of the current capital.
pub const CURRENT_CAPITAL: &'static str = "current_capital";

/// The key of the highest capital so far.
pub const HIGH_WATER_MARK: &'static str = "high_water_mark";

/// The key of the number of losses in a row.
pub const CONSECUTIVE_LOSSES: &'static str = "consecutive_losses";

/// The key of the time of the last heartbeat.
pub const LAST_HEARTBEAT: &'static str = "last_heartbeat";

/// Get trading halted flag: trading goes on where the state holds no truth value.
pub fn is_trading_halted(state: &Option<StateValue>) -> (halted: bool)
    ensures
        halted == (state matches Some(v) && v@.as_bool() == Some(true)),
{
    match state {
        Some(v) => match v.as_bool() {
            Some(halted) => halted,
            None => false,
        },
        None => false,
    }
}

/// Get consecutive losses count: none where the state holds no whole number.
pub fn consecutive_losses(state: &Option<StateValue>) -> (count: i64)
    ensures
        count == (match state {
            Some(v) => match v@.as_int() {
                Some(n) => n,
                None => 0,
            },
            None => 0,
        }),
{
    match state {
        Some(v) => match v.as_int() {
            Some(n) => n,
            None => 0,
        },
        None => 0,
    }
}

/// A double of the system state that has to be there.
pub fn require_float(value: Option<Binary64>, key: &str) -> (r: DbResult<Binary64>)
    ensures
        value matches Some(v) ==> r == Ok::<Binary64, DbError>(v),
        value is None ==> r is Err && r->Err_0.is_invalid(key@ + " state not found"@),
{
    match value {
        Some(v) => Ok(v),
        None => Err(DbError::InvalidData(concat2(key, " state not found"))),
    }
}

/// The high water mark after a look at the capital: the higher of the two; a mark that is
/// not there counts as zero.
pub open spec fn raised_mark(current: Option<Binary64>, capital: Binary64) -> Option<Binary64> {
    let mark = match current {
        Some(m) => m,
        None => zero_value(),
    };
    if mark.less(capital) {
        Some(capital)
    } else {
        None
    }
}

/// Update high water mark (only if new value is higher): the value to store, if any
pub fn update_high_water_mark(current: Option<Binary64>, capital: Binary64) -> (r: Option<StateValue>)
    ensures
        has_view(
            r,
            match raised_mark(current, capital) {
                Some(m) => Some(StateView::Float(m)),
                None => None,
            },
        ),
{
    let mark = match current {
        Some(m) => m,
        None => zero(),
    };
    if capital.gt(&mark) {
        Some(StateValue::Float(capital))
    } else {
        None
    }
}

/// The high water mark never falls, and looking at the same capital again changes nothing.
pub proof fn law_high_water_mark_never_falls(current: Binary64, capital: Binary64)
    ensures
        raised_mark(Some(current), capital) matches Some(m) ==> current.less(m),
        raised_mark(Some(current), capital) matches Some(m) ==> raised_mark(Some(m), capital)
            is None,
{
}

/// A capital above the mark becomes the mark, and no other does; without a mark every positive
/// capital is above it.
pub proof fn law_a_higher_capital_becomes_the_mark(current: Binary64, capital: Binary64)
    requires
        !current.nan(),
        !capital.nan(),
    ensures
        raised_mark(Some(current), capital) == (if capital.scaled() > current.scaled() {
            Some(capital)
        } else {
            None
        }),
        raised_mark(None, capital) == (if capital.scaled() > 0 {
            Some(capital)
        } else {
            None
        }),
{
    crate::binary64::ranges::lemma_one();
}

/// A value is read as what it holds: a number as that number, a truth value as that truth value,
/// and a text as what it spells; a whole number also as a double.
pub proof fn law_a_value_is_read_as_what_it_holds(b: bool, i: i64, f: Binary64)
    ensures
        StateView::Bool(b).as_bool() == Some(b),
        StateView::Text(bool_text(b)).as_bool() == Some(b),
        StateView::Int(i).as_int() == Some(i),
        StateView::Text(int_text(i as int)).as_int() == Some(i),
        StateView::Float(f).as_float(None) == Some(f),
        0 <= i < crate::binary64::FRACTION_SPAN ==> StateView::Int(i).as_float(None)->0.scaled()
            == i * crate::binary64::arithmetic::one_in_units(),
        StateView::Bool(b).as_int() is None && StateView::Int(i).as_bool() is None,
        StateView::Float(f).as_int() is None && StateView::Float(f).as_bool() is None,
{
    crate::text::law_bool_text_reads_back(b);
    crate::text::law_int_text_reads_back(i as int);
    if 0 <= i < crate::binary64::FRACTION_SPAN {
        crate::binary64::accuracy::lemma_whole_number(i as int);
    }
}

/// Get last heartbeat time
pub fn last_heartbeat(state: Option<StateValue>) -> (r: Option<Timestamp>)
    ensures
        r == (match state {
            Some(StateValue::DateTime(t)) => Some(t),
            _ => None,
        }),
{
    match state {
        Some(StateValue::DateTime(t)) => Some(t),
        _ => None,
    }
}

} // verus!
