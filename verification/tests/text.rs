use prediction_market_arbitrage::text::{
    capitalize, flag_is_off, flag_is_on, html_escape, i64_text, join, pad_left, parse_bool,
    parse_i64, text_less, u64_text,
};

#[test]
fn test_html_escape() {
    assert_eq!(html_escape("<script>"), "&lt;script&gt;");
    assert_eq!(html_escape("a & b"), "a &amp; b");
    assert_eq!(html_escape("\"test\""), "&quot;test&quot;");
}

#[test]
fn escaping_covers_every_special_character_once() {
    assert_eq!(html_escape("&lt;'"), "&amp;lt;&#x27;");
    assert_eq!(html_escape("plain text"), "plain text");
    assert_eq!(html_escape(""), "");
    assert_eq!(html_escape("ü→"), "ü→");
}

#[test]
fn test_capitalize() {
    assert_eq!(capitalize("polymarket"), "Polymarket");
    assert_eq!(capitalize("kalshi"), "Kalshi");
    assert_eq!(capitalize(""), "");
    assert_eq!(capitalize("a"), "A");
}

#[test]
fn capitalizing_may_lengthen_the_text() {
    assert_eq!(capitalize("ßa"), "SSa");
    assert_eq!(capitalize("éa"), "Éa");
}

#[test]
fn numbers_are_written_as_by_the_formatter() {
    for n in [0u64, 7, 10, 99, 100, 12345, u64::MAX] {
        assert_eq!(u64_text(n), n.to_string());
    }
    for n in [0i64, -1, 10, -99, i64::MAX, i64::MIN] {
        assert_eq!(i64_text(n), n.to_string());
    }
}

#[test]
fn numbers_are_read_as_by_the_parser() {
    for text in [
        "0",
        "7",
        "-7",
        "+7",
        "007",
        "",
        "-",
        "+",
        "1a",
        " 1",
        "1 ",
        "--1",
        "9223372036854775807",
        "9223372036854775808",
        "-9223372036854775808",
        "-9223372036854775809",
        "99999999999999999999999",
        "٣",
    ] {
        assert_eq!(parse_i64(text), text.parse::<i64>().ok(), "{text:?}");
    }
    for n in [0i64, 1, -1, 42, i64::MIN, i64::MAX] {
        assert_eq!(parse_i64(&i64_text(n)), Some(n));
    }
    for text in ["true", "false", "True", "1", ""] {
        assert_eq!(parse_bool(text), text.parse::<bool>().ok());
    }
}

#[test]
fn flags_are_read_in_any_letter_case() {
    assert!(flag_is_on("1"));
    assert!(flag_is_on("true"));
    assert!(flag_is_on("TRUE"));
    assert!(!flag_is_on("yes"));
    assert!(!flag_is_on("0"));
    assert!(flag_is_off("0"));
    assert!(flag_is_off("False"));
    assert!(!flag_is_off("1"));
    assert!(!flag_is_off("no"));
}

#[test]
fn texts_are_ordered_as_by_the_machine() {
    let all = ["", "a", "ab", "b", "B", "market-1", "market-10", "market-2", "ü", "z", "→"];
    for a in all {
        for b in all {
            assert_eq!(text_less(a, b), a < b, "{a:?} < {b:?}");
        }
    }
}

#[test]
fn fields_are_padded_on_the_left() {
    assert_eq!(pad_left("12", 5), "   12");
    assert_eq!(pad_left("123456", 5), "123456");
    assert_eq!(pad_left("", 2), "  ");
}

#[test]
fn lists_are_joined_with_commas() {
    assert_eq!(join(&vec![]), "");
    assert_eq!(join(&vec!["a".to_string()]), "a");
    assert_eq!(join(&vec!["a".to_string(), "b".to_string(), "c".to_string()]), "a, b, c");
}
