//! Timestamps.

use filerecovery::times::{from_dos, from_filetime, from_unix, parse_date};

#[test]
fn unix_roundtrip() {
    let t = from_unix(1_600_000_000).unwrap();
    assert_eq!(t.secs, 1_600_000_000);
    assert_eq!(t.nanos, 0);
}

#[test]
fn dos_epoch_is_1980() {
    // 1980-01-01 00:00:00 => date day=1 month=1 year=0.
    let date = (1 << 5) | 1; // month=1, day=1, year=0
    let t = from_dos(date, 0).unwrap();
    assert_eq!(t.secs, 315_532_800); // 1980-01-01 UTC
}

#[test]
fn filetime_unix_epoch() {
    // FILETIME for 1970-01-01 is exactly EPOCH_DIFF_SECS * 10^7.
    let ft = 11_644_473_600u64 * 10_000_000;
    let t = from_filetime(ft).unwrap();
    assert_eq!(t.secs, 0);
}

#[test]
fn parse_date_handles_dates_and_datetimes() {
    // 2021-01-01 is 18628 days after the epoch.
    let t = parse_date("2021-01-01").unwrap();
    assert_eq!((t.secs, t.nanos), (18628 * 86400, 0));
    assert_eq!(parse_date("1970-01-01").unwrap().secs, 0);
    let dt = 18628 * 86400 + 12 * 3600 + 30 * 60 + 5;
    assert_eq!(parse_date("2021-01-01T12:30:05").unwrap().secs, dt);
    assert_eq!(parse_date("2021-01-01 12:30:05").unwrap().secs, dt);
}

#[test]
fn parse_date_rejects_bad_input() {
    assert!(parse_date("2021-13-01").is_err());
    assert!(parse_date("2021-01-32").is_err());
    assert!(parse_date("not-a-date").is_err());
    assert!(parse_date("2021-01-01T25:00").is_err());
    assert!(parse_date("1969-01-01").is_err());
}

#[test]
fn each_day_begins_a_day_after_the_one_before() {
    let days = [
        ("1970-01-01", "1970-01-02"),
        ("1999-12-31", "2000-01-01"),
        ("2000-02-28", "2000-02-29"),
        ("2000-02-29", "2000-03-01"),
        ("2100-02-28", "2100-03-01"),
    ];
    for (a, b) in days {
        assert_eq!(parse_date(b).unwrap().secs - parse_date(a).unwrap().secs, 86400);
    }
}

#[test]
fn a_dos_time_is_that_of_its_text() {
    // 2000-02-29 12:34:56.
    let t = from_dos((20 << 9) | (2 << 5) | 29, (12 << 11) | (34 << 5) | 28).unwrap();
    assert_eq!(t.secs, parse_date("2000-02-29T12:34:56").unwrap().secs);
}
