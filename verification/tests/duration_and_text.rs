use memsanity::text::{format_u64, parse_u64, split_words, trim_chars};
use memsanity::{default_concurrency, parse_duration, Span};

fn chars(s: &str) -> Vec<char> {
    s.chars().collect()
}

#[test]
fn parse_duration_reads_milliseconds() {
    assert_eq!(parse_duration("250ms"), Some(Span { secs: 0, nanos: 250_000_000 }));
    assert_eq!(parse_duration("1500ms"), Some(Span { secs: 1, nanos: 500_000_000 }));
    assert_eq!(parse_duration("0ms"), Some(Span { secs: 0, nanos: 0 }));
}

#[test]
fn parse_duration_reads_seconds() {
    assert_eq!(parse_duration("3s"), Some(Span { secs: 3, nanos: 0 }));
    assert_eq!(parse_duration("+5s"), Some(Span { secs: 5, nanos: 0 }));
    assert_eq!(parse_duration("007s"), Some(Span { secs: 7, nanos: 0 }));
}

#[test]
fn parse_duration_refuses_other_texts() {
    assert_eq!(parse_duration(""), None);
    assert_eq!(parse_duration("5"), None);
    assert_eq!(parse_duration("s"), None);
    assert_eq!(parse_duration("ms"), None);
    assert_eq!(parse_duration("xs"), None);
    assert_eq!(parse_duration("-5s"), None);
    assert_eq!(parse_duration("+s"), None);
    assert_eq!(parse_duration("5m"), None);
    assert_eq!(parse_duration(" 5s"), None);
    assert_eq!(parse_duration("18446744073709551616s"), None);
    assert_eq!(parse_duration("1.5s"), None);
}

#[test]
fn parse_duration_largest_values() {
    assert_eq!(
        parse_duration("18446744073709551615s"),
        Some(Span { secs: u64::MAX, nanos: 0 })
    );
    assert_eq!(
        parse_duration("18446744073709551615ms"),
        Some(Span { secs: u64::MAX / 1000, nanos: 615_000_000 })
    );
}

#[test]
fn duration_text_round_trip_concrete() {
    for n in [0u64, 1, 9, 10, 999, 1000, 123456789, u64::MAX] {
        let text: String = format_u64(n).into_iter().collect();
        assert_eq!(parse_duration(&format!("{}ms", text)), Some(Span { secs: n / 1000, nanos: ((n % 1000) * 1_000_000) as u32 }));
        assert_eq!(parse_duration(&format!("{}s", text)), Some(Span { secs: n, nanos: 0 }));
    }
}

#[test]
fn format_and_parse_numbers() {
    assert_eq!(format_u64(0), chars("0"));
    assert_eq!(format_u64(42), chars("42"));
    assert_eq!(format_u64(u64::MAX), chars("18446744073709551615"));
    assert_eq!(parse_u64(&chars("42")), Some(42));
    assert_eq!(parse_u64(&chars("+42")), Some(42));
    assert_eq!(parse_u64(&chars("")), None);
    assert_eq!(parse_u64(&chars("+")), None);
    assert_eq!(parse_u64(&chars("4 2")), None);
    assert_eq!(parse_u64(&chars("18446744073709551616")), None);
    assert_eq!(parse_u64(&chars("99999999999999999999x")), None);
}

#[test]
fn split_words_like_split_whitespace() {
    let cases = ["VALUE k 0 5\r\n", "  a  b\tc ", "", "   ", "x", "a\u{3000}b"];
    for c in cases {
        let got: Vec<String> = split_words(&chars(c)).into_iter().map(|w| w.into_iter().collect()).collect();
        let want: Vec<String> = c.split_whitespace().map(|s| s.to_string()).collect();
        assert_eq!(got, want);
    }
}

#[test]
fn trim_like_str_trim() {
    let cases = ["  NOT_STORED \r\n", "", "   ", "x", "\u{a0}a b\u{2028}"];
    for c in cases {
        let got: String = trim_chars(&chars(c)).into_iter().collect();
        assert_eq!(got, c.trim());
    }
}

#[test]
fn default_concurrency_is_one() {
    assert_eq!(default_concurrency(), 1);
}
