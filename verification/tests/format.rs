use watch_time::duration::parse_duration;
use watch_time::format::{fmt_seconds, push_numeral, push_two_digits};
use watch_time::total::{fmt_watch_time, summary_line, WatchTime};

fn shown(seconds: &str) -> String {
    let d = parse_duration(seconds).unwrap();
    fmt_watch_time(WatchTime { nanos: d.nanos as u128 })
}

#[test]
fn zero_seconds() {
    assert_eq!(shown("0"), "00 Hours, 00 Minutes, 00 Seconds");
}

#[test]
fn fraction_is_dropped() {
    assert_eq!(shown("3661.9"), "01 Hours, 01 Minutes, 01 Seconds");
    assert_eq!(shown("59.9"), "00 Hours, 00 Minutes, 59 Seconds");
    assert_eq!(shown("0.999999999"), "00 Hours, 00 Minutes, 00 Seconds");
}

#[test]
fn one_hour_exactly() {
    assert_eq!(shown("3600"), "01 Hours, 00 Minutes, 00 Seconds");
}

#[test]
fn carries_between_units() {
    assert_eq!(fmt_seconds(59), "00 Hours, 00 Minutes, 59 Seconds");
    assert_eq!(fmt_seconds(60), "00 Hours, 01 Minutes, 00 Seconds");
    assert_eq!(fmt_seconds(3599), "00 Hours, 59 Minutes, 59 Seconds");
    assert_eq!(fmt_seconds(86399), "23 Hours, 59 Minutes, 59 Seconds");
    assert_eq!(fmt_seconds(45296), "12 Hours, 34 Minutes, 56 Seconds");
}

#[test]
fn hours_may_take_more_than_two_digits() {
    assert_eq!(fmt_seconds(360_000), "100 Hours, 00 Minutes, 00 Seconds");
    assert_eq!(fmt_seconds(3_599_999), "999 Hours, 59 Minutes, 59 Seconds");
    assert_eq!(
        fmt_seconds(u128::MAX),
        format!("{} Hours, {:02} Minutes, {:02} Seconds", u128::MAX / 3600, u128::MAX % 3600 / 60, u128::MAX % 60)
    );
}

#[test]
fn numerals() {
    for n in [0u128, 1, 9, 10, 11, 99, 100, 101, 1234567890, u64::MAX as u128, u128::MAX] {
        let mut out = String::from("n=");
        push_numeral(&mut out, n);
        assert_eq!(out, format!("n={}", n));
        let mut out = String::new();
        push_two_digits(&mut out, n);
        assert_eq!(out, format!("{:02}", n));
    }
}

#[test]
fn summary_line_wraps_the_total() {
    assert_eq!(
        summary_line(WatchTime { nanos: 3_661_900_000_000 }),
        "You have 01 Hours, 01 Minutes, 01 Seconds worth of contents"
    );
    assert_eq!(
        summary_line(WatchTime { nanos: 0 }),
        "You have 00 Hours, 00 Minutes, 00 Seconds worth of contents"
    );
}
