use ytcli::format::parse;
use ytcli::youtube::YoutubeError;

#[test]
fn format_thousands() {
    assert_eq!(ytcli::format::format(1234), "1.23 K");
    assert_eq!(ytcli::format::format(1000), "1.00 K");
    assert_eq!(ytcli::format::format(999999), "999.99 K");
}

#[test]
fn format_millions_and_billions() {
    assert_eq!(ytcli::format::format(1500000), "1.50 M");
    assert_eq!(ytcli::format::format(3200000), "3.20 M");
    assert_eq!(ytcli::format::format(1000000000), "1.00 B");
    assert_eq!(ytcli::format::format(2340000000), "2.34 B");
}

#[test]
fn format_plain_below_thousand() {
    assert_eq!(ytcli::format::format(0), "0");
    assert_eq!(ytcli::format::format(999), "999");
    assert_eq!(ytcli::format::format(7), "7");
}

#[test]
fn parse_with_thousands_separator() {
    assert_eq!(parse("12,345").unwrap(), 12345);
}

#[test]
fn parse_with_suffixes() {
    assert_eq!(parse("3.2M").unwrap(), 3200000);
    assert_eq!(parse("1.23 K").unwrap(), 1230);
    assert_eq!(parse("1.5k").unwrap(), 1500);
    assert_eq!(parse("2B").unwrap(), 2000000000);
    assert_eq!(parse("5").unwrap(), 5);
    assert_eq!(parse(" 42 ").unwrap(), 42);
}

#[test]
fn parse_rejects_non_numbers() {
    assert!(matches!(parse("abc"), Err(YoutubeError::ParseError(_))));
    assert!(matches!(parse(""), Err(YoutubeError::ParseError(_))));
    assert!(matches!(parse("1.2.3"), Err(YoutubeError::ParseError(_))));
    assert!(matches!(parse("."), Err(YoutubeError::ParseError(_))));
    assert!(matches!(parse("-5"), Err(YoutubeError::ParseError(_))));
}

#[test]
fn parse_truncates_fraction() {
    // a fractional part below the suffix's precision is cut, not rounded
    assert_eq!(parse("1.9999K").unwrap(), 1999);
    assert_eq!(parse("12.7").unwrap(), 12);
}

#[test]
fn parse_saturates_at_max() {
    assert_eq!(parse("99999999999999999999B").unwrap(), u64::MAX);
}

#[test]
fn round_trip_within_tolerance() {
    for &n in &[0u64, 5, 999, 1000, 1234, 999999, 1000000, 3200000, 987654321, 2340000000] {
        let back = parse(&ytcli::format::format(n)).unwrap();
        let unit: u64 = if n >= 1_000_000_000 {
            10_000_000
        } else if n >= 1_000_000 {
            10_000
        } else if n >= 1_000 {
            10
        } else {
            1
        };
        assert_eq!(back, n - n % unit);
        assert!(back <= n && n - back < unit);
    }
}
