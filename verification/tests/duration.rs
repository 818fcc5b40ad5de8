use watch_time::duration::{parse_duration, Duration, ParseError, NANOS_PER_SECOND};

fn nanos(text: &str) -> u64 {
    parse_duration(text).unwrap().nanos
}

#[test]
fn whole_seconds() {
    assert_eq!(nanos("0"), 0);
    assert_eq!(nanos("1"), 1_000_000_000);
    assert_eq!(nanos("3600"), 3_600_000_000_000);
    assert_eq!(nanos("007"), 7_000_000_000);
}

#[test]
fn seconds_with_a_fraction() {
    assert_eq!(nanos("3661.9"), 3_661_900_000_000);
    assert_eq!(nanos("59.9"), 59_900_000_000);
    assert_eq!(nanos("12.345678"), 12_345_678_000);
    assert_eq!(nanos("0.000000001"), 1);
    assert_eq!(nanos("1.000000000"), 1_000_000_000);
}

#[test]
fn point_at_either_end() {
    assert_eq!(nanos(".5"), 500_000_000);
    assert_eq!(nanos("5."), 5_000_000_000);
    assert_eq!(nanos("0."), 0);
    assert_eq!(nanos(".0"), 0);
}

#[test]
fn digits_past_the_ninth_are_dropped() {
    assert_eq!(nanos("0.0000000019"), 1);
    assert_eq!(nanos("0.9999999999"), 999_999_999);
    assert_eq!(nanos("2.00000000099999999999999999999999999999999999"), 2_000_000_000);
    assert_eq!(nanos("0.1234567891234"), 123_456_789);
}

#[test]
fn not_a_numeral() {
    for text in [
        "", ".", "..", "1.2.3", "1..2", "-5", "+5", "1e3", "1E3", "inf", "NaN", "abc", "12a",
        "a12", " 1", "1 ", "1\n", "1,5", "0x10", "1_000", "٣", "1.٣", "１",
    ] {
        assert_eq!(parse_duration(text), Err(ParseError::Malformed), "{:?}", text);
    }
}

#[test]
fn largest_duration() {
    assert_eq!(nanos("18446744073.709551615"), u64::MAX);
    assert_eq!(nanos("18446744073.7095516159"), u64::MAX);
    assert_eq!(nanos("000000000000000000000000000018446744073.709551615"), u64::MAX);
}

#[test]
fn too_large() {
    for text in [
        "18446744073.709551616",
        "18446744074",
        "18446744073.71",
        "18446744073709551615",
        "18446744073709551616",
        "99999999999999999999999999999999999999999999",
        "99999999999999999999999999999999999999999999.5",
    ] {
        assert_eq!(parse_duration(text), Err(ParseError::OutOfRange), "{:?}", text);
    }
}

#[test]
fn malformed_wins_over_too_large() {
    assert_eq!(
        parse_duration("99999999999999999999999999999999999999999999x"),
        Err(ParseError::Malformed)
    );
    assert_eq!(
        parse_duration("99999999999999999999999999999999999999999999.1.2"),
        Err(ParseError::Malformed)
    );
}

#[test]
fn one_and_a_half_seconds() {
    assert_eq!(parse_duration("1.5"), Ok(Duration { nanos: 1_500_000_000 }));
    assert_eq!(parse_duration("1.5").unwrap().nanos, NANOS_PER_SECOND + NANOS_PER_SECOND / 2);
}

#[test]
fn agrees_with_floating_point_on_plain_numerals() {
    for text in ["0", "1.5", "59.9", "3661.9", "7200.123456", "0.25"] {
        let float: f64 = text.parse().unwrap();
        let exact = nanos(text) as f64 / 1e9;
        assert!((float - exact).abs() < 1e-9, "{}", text);
    }
}
