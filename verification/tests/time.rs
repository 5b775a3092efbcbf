//! Window bounds.

use awsdiag::common::time::{parse_instant, Instant, TimeError};
use chrono::{TimeZone, Utc};

fn now() -> Instant {
    at(2026, 9, 4, 14, 0, 0)
}

fn at(y: i32, mo: u32, d: u32, h: u32, mi: u32, s: u32) -> Instant {
    let t = Utc.with_ymd_and_hms(y, mo, d, h, mi, s).unwrap();
    Instant {
        secs: t.timestamp(),
        nanos: t.timestamp_subsec_nanos(),
    }
}

#[test]
fn relative_durations_subtract_from_now() {
    assert_eq!(
        parse_instant("90s", now()).unwrap(),
        at(2026, 9, 4, 13, 58, 30)
    );
    assert_eq!(
        parse_instant("30m", now()).unwrap(),
        at(2026, 9, 4, 13, 30, 0)
    );
    assert_eq!(
        parse_instant("2h", now()).unwrap(),
        at(2026, 9, 4, 12, 0, 0)
    );
    assert_eq!(
        parse_instant("7d", now()).unwrap(),
        at(2026, 8, 28, 14, 0, 0)
    );
    assert_eq!(
        parse_instant("1w", now()).unwrap(),
        at(2026, 8, 28, 14, 0, 0)
    );
}

#[test]
fn rfc3339_instants_pass_through_and_normalise_to_utc() {
    assert_eq!(
        parse_instant("2026-09-04T10:00:00Z", now()).unwrap(),
        at(2026, 9, 4, 10, 0, 0)
    );
    // An offset instant is the same moment, re-expressed in UTC.
    assert_eq!(
        parse_instant("2026-09-04T06:00:00-04:00", now()).unwrap(),
        at(2026, 9, 4, 10, 0, 0)
    );
}

#[test]
fn bare_date_means_midnight_utc() {
    assert_eq!(
        parse_instant("2026-09-04", now()).unwrap(),
        at(2026, 9, 4, 0, 0, 0)
    );
}

#[test]
fn past_clock_time_resolves_to_today() {
    assert_eq!(
        parse_instant("10:35", now()).unwrap(),
        at(2026, 9, 4, 10, 35, 0)
    );
    assert_eq!(
        parse_instant("10:35:20", now()).unwrap(),
        at(2026, 9, 4, 10, 35, 20)
    );
}

#[test]
fn future_clock_time_resolves_to_yesterday() {
    // 23:50 has not happened yet on the 4th, so the caller meant the 3rd.
    // Getting this backwards would silently return an empty log window.
    assert_eq!(
        parse_instant("23:50", now()).unwrap(),
        at(2026, 9, 3, 23, 50, 0)
    );
}

#[test]
fn whitespace_is_tolerated() {
    assert_eq!(
        parse_instant("  2h  ", now()).unwrap(),
        at(2026, 9, 4, 12, 0, 0)
    );
}

#[test]
fn bare_number_reports_the_missing_unit_not_a_generic_failure() {
    assert_eq!(
        parse_instant("12", now()),
        Err(TimeError::MissingUnit("12".into()))
    );
}

#[test]
fn empty_and_garbage_are_rejected() {
    assert_eq!(parse_instant("", now()), Err(TimeError::Empty));
    assert_eq!(parse_instant("   ", now()), Err(TimeError::Empty));
    assert_eq!(
        parse_instant("yesterday", now()),
        Err(TimeError::Unparseable("yesterday".into()))
    );
    assert_eq!(
        parse_instant("2h30m", now()),
        Err(TimeError::Unparseable("2h30m".into()))
    );
}

#[test]
fn absurd_durations_report_overflow_rather_than_panicking() {
    let huge = "999999999999w";
    assert!(matches!(
        parse_instant(huge, now()),
        Err(TimeError::Overflow(_))
    ));
}

#[test]
fn a_clock_time_is_less_than_a_day_ago_and_keeps_its_time_of_day() {
    for h in 0..24 {
        let t = parse_instant(&format!("{h:02}:00:01"), now()).unwrap();
        assert_eq!(t.secs.rem_euclid(86_400), h * 3600 + 1);
        assert!((0..86_400).contains(&(now().secs - t.secs)), "{h}");
    }
    // Exactly now is today, not a day ago.
    assert_eq!(parse_instant("14:00", now()).unwrap(), now());
}
