//! Instants and calendar dates as plain values, with the text forms that the database and the
//! alerts use. Calendar work is done by the `chrono` crate.
use crate::binary64::figures::zero_padded;
use chrono::{DateTime, Datelike, NaiveDate, Utc};
use vstd::prelude::*;

verus! {

// ---------------------------------------------------------------------------
// Instants
// ---------------------------------------------------------------------------

/// The first second of the range of `DateTime<Utc>`.
pub const MIN_SECS: i64 = -8_334_601_228_800;

/// The last second of the range of `DateTime<Utc>`.
pub const MAX_SECS: i64 = 8_210_266_876_799;

/// The first second of the year 0.
pub const YEAR_0_SECS: i64 = -62_167_219_200;

/// The last second of the year 9999.
pub const YEAR_9999_SECS: i64 = 253_402_300_799;

/// Nanoseconds in a second.
pub const NANOS_PER_SEC: u32 = 1_000_000_000;

/// Whether seconds since 1970 and nanoseconds name an instant. Nanoseconds past the end of a
/// second stand for a leap second, which can only follow the last second of a minute.
pub open spec fn is_instant(secs: int, nanos: int) -> bool {
    &&& MIN_SECS <= secs <= MAX_SECS
    &&& 0 <= nanos
    &&& nanos < NANOS_PER_SEC || (nanos < 2 * NANOS_PER_SEC && secs % 60 == 59)
}

/// Whether an instant falls in the years 0 to 9999, which RFC 3339 can write.
pub open spec fn has_four_digit_year(secs: int) -> bool {
    YEAR_0_SECS <= secs <= YEAR_9999_SECS
}

/// An instant in UTC: seconds since 1970 and nanoseconds.
#[derive(Debug, Clone, Copy, PartialEq, Eq, Structural)]
pub struct Timestamp {
    secs: i64,
    nanos: u32,
}

/// What `DateTime::<Utc>::to_rfc3339` writes for an instant.
pub uninterp spec fn rfc3339(secs: i64, nanos: u32) -> Seq<char>;

/// What `DateTime::parse_from_rfc3339` reads from a text: seconds and nanoseconds in UTC.
pub uninterp spec fn rfc3339_instant(text: Seq<char>) -> Option<(i64, u32)>;

/// `DateTime::to_rfc3339`: the RFC 3339 text of an instant, which is named by [`rfc3339`].
/// `DateTime::parse_from_rfc3339` reads it back where the year has four digits.
#[verifier::external_body]
fn write_rfc3339(secs: i64, nanos: u32) -> (text: String)
    requires
        is_instant(secs as int, nanos as int),
    ensures
        text@ == rfc3339(secs, nanos),
        has_four_digit_year(secs as int) ==> rfc3339_instant(text@) == Some((secs, nanos)),
{
    DateTime::<Utc>::from_timestamp(secs, nanos).unwrap().to_rfc3339()
}

/// `DateTime::parse_from_rfc3339`: the instant that an RFC 3339 text stands for, in UTC,
/// which is named by [`rfc3339_instant`]. What comes back is an instant.
#[verifier::external_body]
fn read_rfc3339(text: &str) -> (r: Option<(i64, u32)>)
    ensures
        r == rfc3339_instant(text@),
        r matches Some(t) ==> is_instant(t.0 as int, t.1 as int),
{
    DateTime::parse_from_rfc3339(text).ok().map(|t| (t.timestamp(), t.timestamp_subsec_nanos()))
}

/// The second of the day that an instant falls in.
pub open spec fn second_of_day(secs: int) -> int {
    secs % 86_400
}

/// The whole seconds from `b` to `a`, cut off towards zero. A leap second that lies between
/// the two times of day counts.
pub open spec fn seconds_apart(a: (i64, u32), b: (i64, u32)) -> int {
    let leap: int = if second_of_day(a.0 as int) > second_of_day(b.0 as int) && b.1 >= NANOS_PER_SEC {
        1
    } else if second_of_day(a.0 as int) < second_of_day(b.0 as int) && a.1 >= NANOS_PER_SEC {
        -1
    } else {
        0
    };
    let nanos = a.1 - b.1;
    let secs = a.0 - b.0 + leap + nanos / (NANOS_PER_SEC as int);
    if secs < 0 && nanos % (NANOS_PER_SEC as int) > 0 {
        secs + 1
    } else {
        secs
    }
}

/// Division that cuts off towards zero.
pub open spec fn cut_div(n: int, d: int) -> int {
    if n >= 0 {
        n / d
    } else {
        -((-n) / d)
    }
}

/// `DateTime::signed_duration_since` and `TimeDelta::num_seconds`: the whole seconds from one
/// instant to another.
#[verifier::external_body]
fn num_seconds(a: (i64, u32), b: (i64, u32)) -> (r: i64)
    requires
        is_instant(a.0 as int, a.1 as int),
        is_instant(b.0 as int, b.1 as int),
    ensures
        r == seconds_apart(a, b),
{
    let a = DateTime::<Utc>::from_timestamp(a.0, a.1).unwrap();
    let b = DateTime::<Utc>::from_timestamp(b.0, b.1).unwrap();
    a.signed_duration_since(b).num_seconds()
}

/// `DateTime::signed_duration_since` and `TimeDelta::num_minutes`: the whole minutes from one
/// instant to another, which are the whole seconds by sixty, cut off towards zero.
#[verifier::external_body]
fn num_minutes(a: (i64, u32), b: (i64, u32)) -> (r: i64)
    requires
        is_instant(a.0 as int, a.1 as int),
        is_instant(b.0 as int, b.1 as int),
    ensures
        r == cut_div(seconds_apart(a, b), 60),
{
    let a = DateTime::<Utc>::from_timestamp(a.0, a.1).unwrap();
    let b = DateTime::<Utc>::from_timestamp(b.0, b.1).unwrap();
    a.signed_duration_since(b).num_minutes()
}

impl View for Timestamp {
    type V = (i64, u32);

    closed spec fn view(&self) -> (i64, u32) {
        (self.secs, self.nanos)
    }
}

impl Timestamp {
    #[verifier::type_invariant]
    spec fn is_valid(self) -> bool {
        is_instant(self.secs as int, self.nanos as int)
    }

    /// The instant at the given seconds and nanoseconds, where there is one.
    pub fn new(secs: i64, nanos: u32) -> (r: Option<Self>)
        ensures
            r is Some <==> is_instant(secs as int, nanos as int),
            r matches Some(t) ==> t@ == (secs, nanos),
    {
        let in_range = MIN_SECS <= secs && secs <= MAX_SECS;
        if !in_range {
            return None;
        }
        // The last second of a minute, counted so that the remainder is not negative.
        let second: i64 = (secs - MIN_SECS) % 60;
        proof {
            assert(MIN_SECS as int % 60 == 0);
            assert((secs - MIN_SECS) % 60 == secs as int % 60) by (nonlinear_arith)
                requires
                    MIN_SECS as int == -8_334_601_228_800int,
            ;
        }
        if nanos < NANOS_PER_SEC || (nanos < 2 * NANOS_PER_SEC && second == 59) {
            Some(Timestamp { secs, nanos })
        } else {
            None
        }
    }

    /// Seconds since 1970.
    pub fn timestamp(&self) -> (r: i64)
        ensures
            r == self@.0,
    {
        self.secs
    }

    /// Nanoseconds past the second.
    pub fn subsec_nanos(&self) -> (r: u32)
        ensures
            r == self@.1,
    {
        self.nanos
    }

    /// The instant as RFC 3339 text.
    pub fn to_rfc3339(&self) -> (text: String)
        ensures
            text@ == rfc3339(self@.0, self@.1),
            has_four_digit_year(self@.0 as int) ==> rfc3339_instant(text@) == Some(self@),
    {
        proof {
            use_type_invariant(self);
        }
        write_rfc3339(self.secs, self.nanos)
    }

    /// Whether `r` is the instant with the given parts, or none where there are none.
    pub open spec fn of_parts(parts: Option<(i64, u32)>, r: Option<Timestamp>) -> bool {
        match parts {
            Some(p) => r is Some && r->0@ == p,
            None => r is None,
        }
    }

    /// The instant that an RFC 3339 text stands for, in UTC.
    pub fn parse_rfc3339(text: &str) -> (r: Option<Self>)
        ensures
            Self::of_parts(rfc3339_instant(text@), r),
    {
        match read_rfc3339(text) {
            Some((secs, nanos)) => Some(Timestamp { secs, nanos }),
            None => None,
        }
    }

    /// The whole seconds since an earlier instant; negative where it is a later one.
    pub fn seconds_since(&self, earlier: &Timestamp) -> (r: i64)
        ensures
            r == seconds_apart(self@, earlier@),
    {
        proof {
            use_type_invariant(self);
            use_type_invariant(earlier);
        }
        num_seconds((self.secs, self.nanos), (earlier.secs, earlier.nanos))
    }

    /// The whole minutes since an earlier instant; negative where it is a later one.
    pub fn minutes_since(&self, earlier: &Timestamp) -> (r: i64)
        ensures
            r == cut_div(seconds_apart(self@, earlier@), 60),
    {
        proof {
            use_type_invariant(self);
            use_type_invariant(earlier);
        }
        num_minutes((self.secs, self.nanos), (earlier.secs, earlier.nanos))
    }
}

/// The seconds that are left until a Unix time; none where it has passed.
pub fn remaining_secs(resolution_unix: i64, now_unix: i64) -> (r: i64)
    requires
        i64::MIN <= resolution_unix - now_unix <= i64::MAX,
    ensures
        r == (if resolution_unix > now_unix {
            resolution_unix - now_unix
        } else {
            0
        }),
{
    let left: i64 = resolution_unix - now_unix;
    if left > 0 {
        left
    } else {
        0
    }
}

/// Division that cuts off towards zero leaves a rest that is smaller than the divisor and has the
/// sign of the number.
pub proof fn law_cutting_goes_towards_zero(n: int, d: int)
    requires
        d > 0,
    ensures
        n >= 0 ==> cut_div(n, d) * d <= n < cut_div(n, d) * d + d,
        n <= 0 ==> cut_div(n, d) * d - d < n <= cut_div(n, d) * d,
        cut_div(-n, d) == -cut_div(n, d),
{
    let m = if n >= 0 {
        n
    } else {
        -n
    };
    let q = m / d;
    assert(q * d <= m < q * d + d) by (nonlinear_arith)
        requires
            q == m / d,
            m >= 0,
            d > 0,
    ;
    assert((-q) * d == -(q * d)) by (nonlinear_arith);
    if n == 0 {
        assert(q == 0) by (nonlinear_arith)
            requires
                q == m / d,
                m == 0,
                d > 0,
        ;
    }
}

/// The seconds between two instants outside leap seconds are their distance in nanoseconds, cut
/// off to whole seconds; so the seconds there are the seconds back, with the other sign.
pub proof fn law_seconds_are_whole_seconds_of_the_distance(a: (i64, u32), b: (i64, u32))
    requires
        a.1 < NANOS_PER_SEC,
        b.1 < NANOS_PER_SEC,
    ensures
        seconds_apart(a, b) == cut_div(
            (a.0 - b.0) * NANOS_PER_SEC + (a.1 - b.1),
            NANOS_PER_SEC as int,
        ),
        seconds_apart(b, a) == -seconds_apart(a, b),
{
    lemma_seconds_apart(a, b);
    lemma_seconds_apart(b, a);
    let n = (a.0 - b.0) * NANOS_PER_SEC + (a.1 - b.1);
    assert((b.0 - a.0) * NANOS_PER_SEC + (b.1 - a.1) == -n);
    law_cutting_goes_towards_zero(n, NANOS_PER_SEC as int);
}

proof fn lemma_seconds_apart(a: (i64, u32), b: (i64, u32))
    requires
        a.1 < NANOS_PER_SEC,
        b.1 < NANOS_PER_SEC,
    ensures
        seconds_apart(a, b) == cut_div(
            (a.0 - b.0) * NANOS_PER_SEC + (a.1 - b.1),
            NANOS_PER_SEC as int,
        ),
{
}

/// No time lies between an instant and itself.
pub proof fn law_no_time_to_itself(a: (i64, u32))
    ensures
        seconds_apart(a, a) == 0,
{
}

// ---------------------------------------------------------------------------
// Calendar dates
// ---------------------------------------------------------------------------

/// The first year of the calendar.
pub const MIN_YEAR: i32 = -262_143;

/// The last year of the calendar.
pub const MAX_YEAR: i32 = 262_142;

/// Whether a year of the Gregorian calendar has a leap day.
pub open spec fn is_leap_year(year: int) -> bool {
    year % 4 == 0 && (year % 100 != 0 || year % 400 == 0)
}

/// The number of days of a month.
pub open spec fn days_in_month(year: int, month: int) -> int {
    if month == 2 {
        if is_leap_year(year) {
            29
        } else {
            28
        }
    } else if month == 4 || month == 6 || month == 9 || month == 11 {
        30
    } else {
        31
    }
}

/// Whether year, month and day name a day of the calendar.
pub open spec fn is_date(year: int, month: int, day: int) -> bool {
    &&& MIN_YEAR <= year <= MAX_YEAR
    &&& 1 <= month <= 12
    &&& 1 <= day <= days_in_month(year, month)
}

/// A year: four digits, with a sign in front where it lies outside 0 to 9999.
pub open spec fn year_text(year: int) -> Seq<char> {
    if 0 <= year <= 9999 {
        zero_padded(year as nat, 4)
    } else if year < 0 {
        seq!['-'] + zero_padded((-year) as nat, 4)
    } else {
        seq!['+'] + zero_padded(year as nat, 4)
    }
}

/// A date as `YYYY-MM-DD`.
pub open spec fn date_text(year: int, month: int, day: int) -> Seq<char> {
    year_text(year) + seq!['-'] + zero_padded(month as nat, 2) + seq!['-'] + zero_padded(
        day as nat,
        2,
    )
}

/// What `NaiveDate::parse_from_str` reads from a text in the form `%Y-%m-%d`.
pub uninterp spec fn parsed_date(text: Seq<char>) -> Option<(i32, u32, u32)>;

/// `NaiveDate`'s `Display`: the date as `YYYY-MM-DD`, with a sign in front of a year outside
/// 0 to 9999. `NaiveDate::parse_from_str` with `%Y-%m-%d` reads it back where the year has
/// four digits.
#[verifier::external_body]
fn write_date(year: i32, month: u32, day: u32) -> (text: String)
    requires
        is_date(year as int, month as int, day as int),
    ensures
        text@ == date_text(year as int, month as int, day as int),
        0 <= year <= 9999 ==> parsed_date(text@) == Some((year, month, day)),
{
    NaiveDate::from_ymd_opt(year, month, day).unwrap().to_string()
}

/// `NaiveDate::parse_from_str` with `%Y-%m-%d`: the date that a text stands for, which is named
/// by [`parsed_date`]. What comes back is a day of the calendar.
#[verifier::external_body]
fn read_date(text: &str) -> (r: Option<(i32, u32, u32)>)
    ensures
        r == parsed_date(text@),
        r matches Some(d) ==> is_date(d.0 as int, d.1 as int, d.2 as int),
{
    NaiveDate::parse_from_str(text, "%Y-%m-%d").ok().map(|d| (d.year(), d.month(), d.day()))
}

/// A day of the calendar.
#[derive(Debug, Clone, Copy, PartialEq, Eq, Structural)]
pub struct CivilDate {
    year: i32,
    month: u32,
    day: u32,
}

impl View for CivilDate {
    type V = (i32, u32, u32);

    closed spec fn view(&self) -> (i32, u32, u32) {
        (self.year, self.month, self.day)
    }
}

impl Default for CivilDate {
    /// The first of January 1970.
    fn default() -> (r: Self)
        ensures
            r@ == (1970i32, 1u32, 1u32),
    {
        CivilDate { year: 1970, month: 1, day: 1 }
    }
}

/// The text of a date.
pub open spec fn text_of_date(date: CivilDate) -> Seq<char> {
    date_text(date@.0 as int, date@.1 as int, date@.2 as int)
}

impl CivilDate {
    #[verifier::type_invariant]
    spec fn is_valid(self) -> bool {
        is_date(self.year as int, self.month as int, self.day as int)
    }

    /// The day with the given year, month and day of the month, where there is one.
    pub fn new(year: i32, month: u32, day: u32) -> (r: Option<Self>)
        ensures
            r is Some <==> is_date(year as int, month as int, day as int),
            r matches Some(d) ==> d@ == (year, month, day),
    {
        if year < MIN_YEAR || year > MAX_YEAR || month < 1 || month > 12 || day < 1 {
            return None;
        }
        // Shifted by whole cycles of 400 years, so that the remainders are not negative.
        let shifted: i32 = year + 262_400;
        let leap = shifted % 4 == 0 && (shifted % 100 != 0 || shifted % 400 == 0);
        assert(leap == is_leap_year(year as int));
        let last: u32 = if month == 2 {
            if leap {
                29
            } else {
                28
            }
        } else if month == 4 || month == 6 || month == 9 || month == 11 {
            30
        } else {
            31
        };
        if day > last {
            None
        } else {
            Some(CivilDate { year, month, day })
        }
    }

    /// The year.
    pub fn year(&self) -> (r: i32)
        ensures
            r == self@.0,
    {
        self.year
    }

    /// The month, from 1 to 12.
    pub fn month(&self) -> (r: u32)
        ensures
            r == self@.1,
    {
        self.month
    }

    /// The day of the month, from 1.
    pub fn day(&self) -> (r: u32)
        ensures
            r == self@.2,
    {
        self.day
    }

    /// The date as `YYYY-MM-DD`.
    pub fn to_text(&self) -> (text: String)
        ensures
            text@ == text_of_date(*self),
            0 <= self@.0 <= 9999 ==> parsed_date(text@) == Some(self@),
    {
        proof {
            use_type_invariant(self);
        }
        write_date(self.year, self.month, self.day)
    }

    /// Whether `r` is the date with the given parts, or none where there are none.
    pub open spec fn of_parts(parts: Option<(i32, u32, u32)>, r: Option<CivilDate>) -> bool {
        match parts {
            Some(p) => r is Some && r->0@ == p,
            None => r is None,
        }
    }

    /// The date that a text in the form `YYYY-MM-DD` stands for.
    pub fn parse(text: &str) -> (r: Option<Self>)
        ensures
            Self::of_parts(parsed_date(text@), r),
    {
        match read_date(text) {
            Some((year, month, day)) => Some(CivilDate { year, month, day }),
            None => None,
        }
    }
}

} // verus!
