use chrono::{DateTime, NaiveDate, TimeZone, Utc};
use prediction_market_arbitrage::time::{remaining_secs, CivilDate, Timestamp};

fn chrono_of(t: &Timestamp) -> DateTime<Utc> {
    Utc.timestamp_opt(t.timestamp(), t.subsec_nanos()).unwrap()
}

fn instants() -> Vec<Timestamp> {
    let mut all = Vec::new();
    for secs in [0i64, 1, -1, 59, 60, 1735516800, 1735516859, -62135596800, 253402300799] {
        for nanos in [0u32, 1, 500_000_000, 999_999_999] {
            all.push(Timestamp::new(secs, nanos).unwrap());
        }
    }
    // A leap second.
    all.push(Timestamp::new(1735516859, 1_500_000_000).unwrap());
    all
}

#[test]
fn instants_are_written_and_read_back() {
    for t in instants() {
        let text = t.to_rfc3339();
        assert_eq!(text, chrono_of(&t).to_rfc3339());
        let back = Timestamp::parse_rfc3339(&text).unwrap();
        assert_eq!(back.timestamp(), t.timestamp());
        assert_eq!(back.subsec_nanos(), t.subsec_nanos());
    }
    assert_eq!(Timestamp::new(1735516800, 0).unwrap().to_rfc3339(), "2024-12-30T00:00:00+00:00");
}

#[test]
fn other_zones_are_read_as_utc() {
    let t = Timestamp::parse_rfc3339("2024-12-30T01:00:00+01:00").unwrap();
    assert_eq!(t.timestamp(), 1735516800);
    assert!(Timestamp::parse_rfc3339("yesterday").is_none());
    assert!(Timestamp::parse_rfc3339("").is_none());
}

#[test]
fn only_instants_of_the_calendar_exist() {
    assert!(Timestamp::new(i64::MAX, 0).is_none());
    assert!(Timestamp::new(0, 2_000_000_000).is_none());
    // Fractions above a second are leap seconds, which end a minute.
    assert!(Timestamp::new(59, 1_000_000_000).is_some());
    assert!(Timestamp::new(0, 1_000_000_000).is_none());
}

#[test]
fn spans_are_those_of_the_calendar() {
    let all = instants();
    for a in &all {
        for b in &all {
            let span = chrono_of(a).signed_duration_since(chrono_of(b));
            assert_eq!(a.seconds_since(b), span.num_seconds());
            assert_eq!(a.minutes_since(b), span.num_minutes());
        }
        assert_eq!(a.seconds_since(a), 0);
    }
    assert_eq!(remaining_secs(100, 40), 60);
    assert_eq!(remaining_secs(40, 100), 0);
}

#[test]
fn dates_are_written_and_read_back() {
    for (y, m, day) in [(2024, 12, 30), (2024, 2, 29), (1, 1, 1), (9999, 12, 31), (0, 3, 1)] {
        let date = CivilDate::new(y, m, day).unwrap();
        let text = date.to_text();
        assert_eq!(text, NaiveDate::from_ymd_opt(y, m, day).unwrap().to_string());
        let back = CivilDate::parse(&text).unwrap();
        assert_eq!((back.year(), back.month(), back.day()), (y, m, day));
    }
    let far = CivilDate::new(12345, 6, 7).unwrap();
    assert_eq!(far.to_text(), NaiveDate::from_ymd_opt(12345, 6, 7).unwrap().to_string());
    let before = CivilDate::new(-5, 6, 7).unwrap();
    assert_eq!(before.to_text(), NaiveDate::from_ymd_opt(-5, 6, 7).unwrap().to_string());
    assert!(CivilDate::new(2023, 2, 29).is_none());
    assert!(CivilDate::new(2023, 13, 1).is_none());
    assert!(CivilDate::parse("30.12.2024").is_none());
}
