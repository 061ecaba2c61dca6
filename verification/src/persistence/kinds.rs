//! The kinds that the database stores as words: how each is written and read.
//!
//! A word is read in any letter case. `parse` says what the lower-case form of a word stands
//! for; `reads` says what comes of a word as it was stored.
use crate::text::{ascii_lowered, is_ascii_text, lowercase, same_text, to_lowercase};
use vstd::prelude::*;

verus! {

/// A word without capital letters is its own lower-case form.
proof fn lemma_lower_is_fixed(s: Seq<char>)
    requires
        forall|i: int| 0 <= i < s.len() ==> 95 <= (#[trigger] s[i] as u32) < 123,
    ensures
        is_ascii_text(s),
        ascii_lowered(s) == s,
{
    assert(ascii_lowered(s) =~= s);
}

/// Trading platform identifier
#[derive(Debug, Clone, Copy, PartialEq, Eq, Hash, Structural)]
pub enum Platform {
    Polymarket,
    Kalshi,
}

impl Platform {
    /// The word that is stored.
    pub open spec fn name(self) -> Seq<char> {
        match self {
            Platform::Polymarket => "polymarket"@,
            Platform::Kalshi => "kalshi"@,
        }
    }

    /// What a word in lower case stands for.
    pub open spec fn parse(lowered: Seq<char>) -> Option<Self> {
        if lowered == "polymarket"@ {
            Some(Platform::Polymarket)
        } else if lowered == "kalshi"@ {
            Some(Platform::Kalshi)
        } else {
            None
        }
    }

    /// Whether `r` is what a stored word is read as. For an ASCII word the lower-case form is
    /// given letter by letter.
    pub open spec fn reads(word: Seq<char>, r: Option<Self>) -> bool {
        &&& r == Self::parse(lowercase(word))
        &&& is_ascii_text(word) ==> r == Self::parse(ascii_lowered(word))
    }

    /// A kind, or the first of them where there is none.
    pub open spec fn or_first(kind: Option<Self>) -> Self {
        match kind {
            Some(k) => k,
            None => Platform::Polymarket,
        }
    }

    /// Whether `r` is what a column with the given word holds: what the word is read as, or
    /// the first kind where it is read as none.
    pub open spec fn in_column(word: Seq<char>, r: Self) -> bool {
        &&& r == Self::or_first(Self::parse(lowercase(word)))
        &&& is_ascii_text(word) ==> r == Self::or_first(Self::parse(ascii_lowered(word)))
    }

    /// The word that is stored.
    pub fn as_str(&self) -> (word: &'static str)
        ensures
            word@ == self.name(),
    {
        match self {
            Platform::Polymarket => "polymarket",
            Platform::Kalshi => "kalshi",
        }
    }

    /// What a word in lower case stands for.
    pub fn from_lowercase(lowered: &str) -> (r: Option<Self>)
        ensures
            r == Self::parse(lowered@),
    {
        if same_text(lowered, "polymarket") {
            Some(Platform::Polymarket)
        } else if same_text(lowered, "kalshi") {
            Some(Platform::Kalshi)
        } else {
            None
        }
    }

    /// What a stored word stands for, in any letter case.
    pub fn from_str(s: &str) -> (r: Option<Self>)
        ensures
            Self::reads(s@, r),
    {
        Self::from_lowercase(&to_lowercase(s))
    }

    /// What a column holds. A word that stands for nothing counts as the first kind.
    pub fn from_column(word: &str) -> (r: Self)
        ensures
            Self::in_column(word@, r),
    {
        match Self::from_str(word) {
            Some(kind) => kind,
            None => Platform::Polymarket,
        }
    }
}

/// A stored platform is read back as what it was, as a word and in a column.
pub proof fn law_platform_reads_back(kind: Platform, r: Option<Platform>, held: Platform)
    ensures
        Platform::reads(kind.name(), r) ==> r == Some(kind),
        Platform::in_column(kind.name(), held) ==> held == kind,
{
    reveal_strlit("polymarket");
    reveal_strlit("kalshi");
    assert("polymarket"@.len() != "kalshi"@.len());
    lemma_lower_is_fixed(kind.name());
}

/// Position side
#[derive(Debug, Clone, Copy, PartialEq, Eq, Structural)]
pub enum Side {
    Yes,
    No,
}

impl Side {
    /// The word that is stored.
    pub open spec fn name(self) -> Seq<char> {
        match self {
            Side::Yes => "yes"@,
            Side::No => "no"@,
        }
    }

    /// What a word in lower case stands for.
    pub open spec fn parse(lowered: Seq<char>) -> Option<Self> {
        if lowered == "yes"@ {
            Some(Side::Yes)
        } else if lowered == "no"@ {
            Some(Side::No)
        } else {
            None
        }
    }

    /// Whether `r` is what a stored word is read as. For an ASCII word the lower-case form is
    /// given letter by letter.
    pub open spec fn reads(word: Seq<char>, r: Option<Self>) -> bool {
        &&& r == Self::parse(lowercase(word))
        &&& is_ascii_text(word) ==> r == Self::parse(ascii_lowered(word))
    }

    /// A kind, or the first of them where there is none.
    pub open spec fn or_first(kind: Option<Self>) -> Self {
        match kind {
            Some(k) => k,
            None => Side::Yes,
        }
    }

    /// Whether `r` is what a column with the given word holds: what the word is read as, or
    /// the first kind where it is read as none.
    pub open spec fn in_column(word: Seq<char>, r: Self) -> bool {
        &&& r == Self::or_first(Self::parse(lowercase(word)))
        &&& is_ascii_text(word) ==> r == Self::or_first(Self::parse(ascii_lowered(word)))
    }

    /// The word that is stored.
    pub fn as_str(&self) -> (word: &'static str)
        ensures
            word@ == self.name(),
    {
        match self {
            Side::Yes => "yes",
            Side::No => "no",
        }
    }

    /// What a word in lower case stands for.
    pub fn from_lowercase(lowered: &str) -> (r: Option<Self>)
        ensures
            r == Self::parse(lowered@),
    {
        if same_text(lowered, "yes") {
            Some(Side::Yes)
        } else if same_text(lowered, "no") {
            Some(Side::No)
        } else {
            None
        }
    }

    /// What a stored word stands for, in any letter case.
    pub fn from_str(s: &str) -> (r: Option<Self>)
        ensures
            Self::reads(s@, r),
    {
        Self::from_lowercase(&to_lowercase(s))
    }

    /// What a column holds. A word that stands for nothing counts as the first kind.
    pub fn from_column(word: &str) -> (r: Self)
        ensures
            Self::in_column(word@, r),
    {
        match Self::from_str(word) {
            Some(kind) => kind,
            None => Side::Yes,
        }
    }
}

/// A stored side is read back as what it was, as a word and in a column.
pub proof fn law_side_reads_back(kind: Side, r: Option<Side>, held: Side)
    ensures
        Side::reads(kind.name(), r) ==> r == Some(kind),
        Side::in_column(kind.name(), held) ==> held == kind,
{
    reveal_strlit("yes");
    reveal_strlit("no");
    assert("yes"@.len() != "no"@.len());
    lemma_lower_is_fixed(kind.name());
}

/// Position status
#[derive(Debug, Clone, Copy, PartialEq, Eq, Structural)]
pub enum PositionStatus {
    Open,
    Closed,
    Resolved,
}

impl PositionStatus {
    /// The word that is stored.
    pub open spec fn name(self) -> Seq<char> {
        match self {
            PositionStatus::Open => "open"@,
            PositionStatus::Closed => "closed"@,
            PositionStatus::Resolved => "resolved"@,
        }
    }

    /// What a word in lower case stands for.
    pub open spec fn parse(lowered: Seq<char>) -> Option<Self> {
        if lowered == "open"@ {
            Some(PositionStatus::Open)
        } else if lowered == "closed"@ {
            Some(PositionStatus::Closed)
        } else if lowered == "resolved"@ {
            Some(PositionStatus::Resolved)
        } else {
            None
        }
    }

    /// Whether `r` is what a stored word is read as. For an ASCII word the lower-case form is
    /// given letter by letter.
    pub open spec fn reads(word: Seq<char>, r: Option<Self>) -> bool {
        &&& r == Self::parse(lowercase(word))
        &&& is_ascii_text(word) ==> r == Self::parse(ascii_lowered(word))
    }

    /// A kind, or the first of them where there is none.
    pub open spec fn or_first(kind: Option<Self>) -> Self {
        match kind {
            Some(k) => k,
            None => PositionStatus::Open,
        }
    }

    /// Whether `r` is what a column with the given word holds: what the word is read as, or
    /// the first kind where it is read as none.
    pub open spec fn in_column(word: Seq<char>, r: Self) -> bool {
        &&& r == Self::or_first(Self::parse(lowercase(word)))
        &&& is_ascii_text(word) ==> r == Self::or_first(Self::parse(ascii_lowered(word)))
    }

    /// The word that is stored.
    pub fn as_str(&self) -> (word: &'static str)
        ensures
            word@ == self.name(),
    {
        match self {
            PositionStatus::Open => "open",
            PositionStatus::Closed => "closed",
            PositionStatus::Resolved => "resolved",
        }
    }

    /// What a word in lower case stands for.
    pub fn from_lowercase(lowered: &str) -> (r: Option<Self>)
        ensures
            r == Self::parse(lowered@),
    {
        if same_text(lowered, "open") {
            Some(PositionStatus::Open)
        } else if same_text(lowered, "closed") {
            Some(PositionStatus::Closed)
        } else if same_text(lowered, "resolved") {
            Some(PositionStatus::Resolved)
        } else {
            None
        }
    }

    /// What a stored word stands for, in any letter case.
    pub fn from_str(s: &str) -> (r: Option<Self>)
        ensures
            Self::reads(s@, r),
    {
        Self::from_lowercase(&to_lowercase(s))
    }

    /// What a column holds. A word that stands for nothing counts as the first kind.
    pub fn from_column(word: &str) -> (r: Self)
        ensures
            Self::in_column(word@, r),
    {
        match Self::from_str(word) {
            Some(kind) => kind,
            None => PositionStatus::Open,
        }
    }
}

/// A stored position status is read back as what it was, as a word and in a column.
pub proof fn law_position_status_reads_back(
    kind: PositionStatus,
    r: Option<PositionStatus>,
    held: PositionStatus,
)
    ensures
        PositionStatus::reads(kind.name(), r) ==> r == Some(kind),
        PositionStatus::in_column(kind.name(), held) ==> held == kind,
{
    reveal_strlit("open");
    reveal_strlit("closed");
    reveal_strlit("resolved");
    assert("open"@.len() != "closed"@.len());
    assert("open"@.len() != "resolved"@.len());
    assert("closed"@.len() != "resolved"@.len());
    lemma_lower_is_fixed(kind.name());
}

/// Order type
#[derive(Debug, Clone, Copy, PartialEq, Eq, Structural)]
pub enum OrderType {
    Market,
    Limit,
    Twap,
}

impl OrderType {
    /// The word that is stored.
    pub open spec fn name(self) -> Seq<char> {
        match self {
            OrderType::Market => "market"@,
            OrderType::Limit => "limit"@,
            OrderType::Twap => "twap"@,
        }
    }

    /// What a word in lower case stands for.
    pub open spec fn parse(lowered: Seq<char>) -> Option<Self> {
        if lowered == "market"@ {
            Some(OrderType::Market)
        } else if lowered == "limit"@ {
            Some(OrderType::Limit)
        } else if lowered == "twap"@ {
            Some(OrderType::Twap)
        } else {
            None
        }
    }

    /// Whether `r` is what a stored word is read as. For an ASCII word the lower-case form is
    /// given letter by letter.
    pub open spec fn reads(word: Seq<char>, r: Option<Self>) -> bool {
        &&& r == Self::parse(lowercase(word))
        &&& is_ascii_text(word) ==> r == Self::parse(ascii_lowered(word))
    }

    /// A kind, or the first of them where there is none.
    pub open spec fn or_first(kind: Option<Self>) -> Self {
        match kind {
            Some(k) => k,
            None => OrderType::Market,
        }
    }

    /// Whether `r` is what a column with the given word holds: what the word is read as, or
    /// the first kind where it is read as none.
    pub open spec fn in_column(word: Seq<char>, r: Self) -> bool {
        &&& r == Self::or_first(Self::parse(lowercase(word)))
        &&& is_ascii_text(word) ==> r == Self::or_first(Self::parse(ascii_lowered(word)))
    }

    /// The word that is stored.
    pub fn as_str(&self) -> (word: &'static str)
        ensures
            word@ == self.name(),
    {
        match self {
            OrderType::Market => "market",
            OrderType::Limit => "limit",
            OrderType::Twap => "twap",
        }
    }

    /// What a word in lower case stands for.
    pub fn from_lowercase(lowered: &str) -> (r: Option<Self>)
        ensures
            r == Self::parse(lowered@),
    {
        if same_text(lowered, "market") {
            Some(OrderType::Market)
        } else if same_text(lowered, "limit") {
            Some(OrderType::Limit)
        } else if same_text(lowered, "twap") {
            Some(OrderType::Twap)
        } else {
            None
        }
    }

    /// What a stored word stands for, in any letter case.
    pub fn from_str(s: &str) -> (r: Option<Self>)
        ensures
            Self::reads(s@, r),
    {
        Self::from_lowercase(&to_lowercase(s))
    }

    /// What a column holds. A word that stands for nothing counts as the first kind.
    pub fn from_column(word: &str) -> (r: Self)
        ensures
            Self::in_column(word@, r),
    {
        match Self::from_str(word) {
            Some(kind) => kind,
            None => OrderType::Market,
        }
    }
}

/// A stored order type is read back as what it was, as a word and in a column.
pub proof fn law_order_type_reads_back(kind: OrderType, r: Option<OrderType>, held: OrderType)
    ensures
        OrderType::reads(kind.name(), r) ==> r == Some(kind),
        OrderType::in_column(kind.name(), held) ==> held == kind,
{
    reveal_strlit("market");
    reveal_strlit("limit");
    reveal_strlit("twap");
    assert("market"@.len() != "limit"@.len());
    assert("market"@.len() != "twap"@.len());
    assert("limit"@.len() != "twap"@.len());
    lemma_lower_is_fixed(kind.name());
}

/// Order side (buy/sell)
#[derive(Debug, Clone, Copy, PartialEq, Eq, Structural)]
pub enum OrderSide {
    Buy,
    Sell,
}

impl OrderSide {
    /// The word that is stored.
    pub open spec fn name(self) -> Seq<char> {
        match self {
            OrderSide::Buy => "buy"@,
            OrderSide::Sell => "sell"@,
        }
    }

    /// What a word in lower case stands for.
    pub open spec fn parse(lowered: Seq<char>) -> Option<Self> {
        if lowered == "buy"@ {
            Some(OrderSide::Buy)
        } else if lowered == "sell"@ {
            Some(OrderSide::Sell)
        } else {
            None
        }
    }

    /// Whether `r` is what a stored word is read as. For an ASCII word the lower-case form is
    /// given letter by letter.
    pub open spec fn reads(word: Seq<char>, r: Option<Self>) -> bool {
        &&& r == Self::parse(lowercase(word))
        &&& is_ascii_text(word) ==> r == Self::parse(ascii_lowered(word))
    }

    /// A kind, or the first of them where there is none.
    pub open spec fn or_first(kind: Option<Self>) -> Self {
        match kind {
            Some(k) => k,
            None => OrderSide::Buy,
        }
    }

    /// Whether `r` is what a column with the given word holds: what the word is read as, or
    /// the first kind where it is read as none.
    pub open spec fn in_column(word: Seq<char>, r: Self) -> bool {
        &&& r == Self::or_first(Self::parse(lowercase(word)))
        &&& is_ascii_text(word) ==> r == Self::or_first(Self::parse(ascii_lowered(word)))
    }

    /// The word that is stored.
    pub fn as_str(&self) -> (word: &'static str)
        ensures
            word@ == self.name(),
    {
        match self {
            OrderSide::Buy => "buy",
            OrderSide::Sell => "sell",
        }
    }

    /// What a word in lower case stands for.
    pub fn from_lowercase(lowered: &str) -> (r: Option<Self>)
        ensures
            r == Self::parse(lowered@),
    {
        if same_text(lowered, "buy") {
            Some(OrderSide::Buy)
        } else if same_text(lowered, "sell") {
            Some(OrderSide::Sell)
        } else {
            None
        }
    }

    /// What a stored word stands for, in any letter case.
    pub fn from_str(s: &str) -> (r: Option<Self>)
        ensures
            Self::reads(s@, r),
    {
        Self::from_lowercase(&to_lowercase(s))
    }

    /// What a column holds. A word that stands for nothing counts as the first kind.
    pub fn from_column(word: &str) -> (r: Self)
        ensures
            Self::in_column(word@, r),
    {
        match Self::from_str(word) {
            Some(kind) => kind,
            None => OrderSide::Buy,
        }
    }
}

/// A stored order side is read back as what it was, as a word and in a column.
pub proof fn law_order_side_reads_back(kind: OrderSide, r: Option<OrderSide>, held: OrderSide)
    ensures
        OrderSide::reads(kind.name(), r) ==> r == Some(kind),
        OrderSide::in_column(kind.name(), held) ==> held == kind,
{
    reveal_strlit("buy");
    reveal_strlit("sell");
    assert("buy"@.len() != "sell"@.len());
    lemma_lower_is_fixed(kind.name());
}

/// Order status
#[derive(Debug, Clone, Copy, PartialEq, Eq, Structural)]
pub enum OrderStatus {
    Pending,
    Submitted,
    PartiallyFilled,
    Filled,
    Cancelled,
    Failed,
    Expired,
}

impl OrderStatus {
    /// The word that is stored.
    pub open spec fn name(self) -> Seq<char> {
        match self {
            OrderStatus::Pending => "pending"@,
            OrderStatus::Submitted => "submitted"@,
            OrderStatus::PartiallyFilled => "partially_filled"@,
            OrderStatus::Filled => "filled"@,
            OrderStatus::Cancelled => "cancelled"@,
            OrderStatus::Failed => "failed"@,
            OrderStatus::Expired => "expired"@,
        }
    }

    /// What a word in lower case stands for.
    pub open spec fn parse(lowered: Seq<char>) -> Option<Self> {
        if lowered == "pending"@ {
            Some(OrderStatus::Pending)
        } else if lowered == "submitted"@ {
            Some(OrderStatus::Submitted)
        } else if lowered == "partially_filled"@ {
            Some(OrderStatus::PartiallyFilled)
        } else if lowered == "filled"@ {
            Some(OrderStatus::Filled)
        } else if lowered == "cancelled"@ {
            Some(OrderStatus::Cancelled)
        } else if lowered == "failed"@ {
            Some(OrderStatus::Failed)
        } else if lowered == "expired"@ {
            Some(OrderStatus::Expired)
        } else {
            None
        }
    }

    /// Whether `r` is what a stored word is read as. For an ASCII word the lower-case form is
    /// given letter by letter.
    pub open spec fn reads(word: Seq<char>, r: Option<Self>) -> bool {
        &&& r == Self::parse(lowercase(word))
        &&& is_ascii_text(word) ==> r == Self::parse(ascii_lowered(word))
    }

    /// A kind, or the first of them where there is none.
    pub open spec fn or_first(kind: Option<Self>) -> Self {
        match kind {
            Some(k) => k,
            None => OrderStatus::Pending,
        }
    }

    /// Whether `r` is what a column with the given word holds: what the word is read as, or
    /// the first kind where it is read as none.
    pub open spec fn in_column(word: Seq<char>, r: Self) -> bool {
        &&& r == Self::or_first(Self::parse(lowercase(word)))
        &&& is_ascii_text(word) ==> r == Self::or_first(Self::parse(ascii_lowered(word)))
    }

    /// The word that is stored.
    pub fn as_str(&self) -> (word: &'static str)
        ensures
            word@ == self.name(),
    {
        match self {
            OrderStatus::Pending => "pending",
            OrderStatus::Submitted => "submitted",
            OrderStatus::PartiallyFilled => "partially_filled",
            OrderStatus::Filled => "filled",
            OrderStatus::Cancelled => "cancelled",
            OrderStatus::Failed => "failed",
            OrderStatus::Expired => "expired",
        }
    }

    /// What a word in lower case stands for.
    pub fn from_lowercase(lowered: &str) -> (r: Option<Self>)
        ensures
            r == Self::parse(lowered@),
    {
        if same_text(lowered, "pending") {
            Some(OrderStatus::Pending)
        } else if same_text(lowered, "submitted") {
            Some(OrderStatus::Submitted)
        } else if same_text(lowered, "partially_filled") {
            Some(OrderStatus::PartiallyFilled)
        } else if same_text(lowered, "filled") {
            Some(OrderStatus::Filled)
        } else if same_text(lowered, "cancelled") {
            Some(OrderStatus::Cancelled)
        } else if same_text(lowered, "failed") {
            Some(OrderStatus::Failed)
        } else if same_text(lowered, "expired") {
            Some(OrderStatus::Expired)
        } else {
            None
        }
    }

    /// What a stored word stands for, in any letter case.
    pub fn from_str(s: &str) -> (r: Option<Self>)
        ensures
            Self::reads(s@, r),
    {
        Self::from_lowercase(&to_lowercase(s))
    }

    /// What a column holds. A word that stands for nothing counts as the first kind.
    pub fn from_column(word: &str) -> (r: Self)
        ensures
            Self::in_column(word@, r),
    {
        match Self::from_str(word) {
            Some(kind) => kind,
            None => OrderStatus::Pending,
        }
    }
}

/// A stored order status is read back as what it was, as a word and in a column.
pub proof fn law_order_status_reads_back(
    kind: OrderStatus,
    r: Option<OrderStatus>,
    held: OrderStatus,
)
    ensures
        OrderStatus::reads(kind.name(), r) ==> r == Some(kind),
        OrderStatus::in_column(kind.name(), held) ==> held == kind,
{
    reveal_strlit("pending");
    reveal_strlit("submitted");
    reveal_strlit("partially_filled");
    reveal_strlit("filled");
    reveal_strlit("cancelled");
    reveal_strlit("failed");
    reveal_strlit("expired");
    assert("pending"@.len() != "submitted"@.len());
    assert("pending"@.len() != "partially_filled"@.len());
    assert("pending"@.len() != "filled"@.len());
    assert("pending"@.len() != "cancelled"@.len());
    assert("pending"@.len() != "failed"@.len());
    assert("pending"@[0] != "expired"@[0]);
    assert("submitted"@.len() != "partially_filled"@.len());
    assert("submitted"@.len() != "filled"@.len());
    assert("submitted"@[0] != "cancelled"@[0]);
    assert("submitted"@.len() != "failed"@.len());
    assert("submitted"@.len() != "expired"@.len());
    assert("partially_filled"@.len() != "filled"@.len());
    assert("partially_filled"@.len() != "cancelled"@.len());
    assert("partially_filled"@.len() != "failed"@.len());
    assert("partially_filled"@.len() != "expired"@.len());
    assert("filled"@.len() != "cancelled"@.len());
    assert("filled"@[1] != "failed"@[1]);
    assert("filled"@.len() != "expired"@.len());
    assert("cancelled"@.len() != "failed"@.len());
    assert("cancelled"@.len() != "expired"@.len());
    assert("failed"@.len() != "expired"@.len());
    lemma_lower_is_fixed(kind.name());
}

/// Correlation type between markets
#[derive(Debug, Clone, Copy, PartialEq, Eq, Structural)]
pub enum CorrelationType {
    SameEvent,
    SameResolution,
    CategoryTime,
}

impl CorrelationType {
    /// The word that is stored.
    pub open spec fn name(self) -> Seq<char> {
        match self {
            CorrelationType::SameEvent => "same_event"@,
            CorrelationType::SameResolution => "same_resolution"@,
            CorrelationType::CategoryTime => "category_time"@,
        }
    }

    /// What a word in lower case stands for.
    pub open spec fn parse(lowered: Seq<char>) -> Option<Self> {
        if lowered == "same_event"@ {
            Some(CorrelationType::SameEvent)
        } else if lowered == "same_resolution"@ {
            Some(CorrelationType::SameResolution)
        } else if lowered == "category_time"@ {
            Some(CorrelationType::CategoryTime)
        } else {
            None
        }
    }

    /// Whether `r` is what a stored word is read as. For an ASCII word the lower-case form is
    /// given letter by letter.
    pub open spec fn reads(word: Seq<char>, r: Option<Self>) -> bool {
        &&& r == Self::parse(lowercase(word))
        &&& is_ascii_text(word) ==> r == Self::parse(ascii_lowered(word))
    }

    /// A kind, or the first of them where there is none.
    pub open spec fn or_first(kind: Option<Self>) -> Self {
        match kind {
            Some(k) => k,
            None => CorrelationType::SameEvent,
        }
    }

    /// Whether `r` is what a column with the given word holds: what the word is read as, or
    /// the first kind where it is read as none.
    pub open spec fn in_column(word: Seq<char>, r: Self) -> bool {
        &&& r == Self::or_first(Self::parse(lowercase(word)))
        &&& is_ascii_text(word) ==> r == Self::or_first(Self::parse(ascii_lowered(word)))
    }

    /// The word that is stored.
    pub fn as_str(&self) -> (word: &'static str)
        ensures
            word@ == self.name(),
    {
        match self {
            CorrelationType::SameEvent => "same_event",
            CorrelationType::SameResolution => "same_resolution",
            CorrelationType::CategoryTime => "category_time",
        }
    }

    /// What a word in lower case stands for.
    pub fn from_lowercase(lowered: &str) -> (r: Option<Self>)
        ensures
            r == Self::parse(lowered@),
    {
        if same_text(lowered, "same_event") {
            Some(CorrelationType::SameEvent)
        } else if same_text(lowered, "same_resolution") {
            Some(CorrelationType::SameResolution)
        } else if same_text(lowered, "category_time") {
            Some(CorrelationType::CategoryTime)
        } else {
            None
        }
    }

    /// What a stored word stands for, in any letter case.
    pub fn from_str(s: &str) -> (r: Option<Self>)
        ensures
            Self::reads(s@, r),
    {
        Self::from_lowercase(&to_lowercase(s))
    }

    /// What a column holds. A word that stands for nothing counts as the first kind.
    pub fn from_column(word: &str) -> (r: Self)
        ensures
            Self::in_column(word@, r),
    {
        match Self::from_str(word) {
            Some(kind) => kind,
            None => CorrelationType::SameEvent,
        }
    }
}

/// A stored correlation type is read back as what it was, as a word and in a column.
pub proof fn law_correlation_type_reads_back(
    kind: CorrelationType,
    r: Option<CorrelationType>,
    held: CorrelationType,
)
    ensures
        CorrelationType::reads(kind.name(), r) ==> r == Some(kind),
        CorrelationType::in_column(kind.name(), held) ==> held == kind,
{
    reveal_strlit("same_event");
    reveal_strlit("same_resolution");
    reveal_strlit("category_time");
    assert("same_event"@.len() != "same_resolution"@.len());
    assert("same_event"@.len() != "category_time"@.len());
    assert("same_resolution"@.len() != "category_time"@.len());
    lemma_lower_is_fixed(kind.name());
}

} // verus!
