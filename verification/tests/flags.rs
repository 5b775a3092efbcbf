//! The window and target flags.

use awsdiag::common::flags::{TargetArgs, WindowArgs};
use awsdiag::common::time::Instant;
use chrono::{TimeZone, Utc};

fn at(h: u32, m: u32) -> Instant {
    let t = Utc.with_ymd_and_hms(2026, 9, 4, h, m, 0).unwrap();
    Instant {
        secs: t.timestamp(),
        nanos: t.timestamp_subsec_nanos(),
    }
}

fn now() -> Instant {
    at(14, 0)
}

fn args(since: &str, until: Option<&str>) -> WindowArgs {
    WindowArgs {
        since: since.into(),
        until: until.map(Into::into),
    }
}

#[test]
fn until_defaults_to_now() {
    let w = args("2h", None).resolve(now()).unwrap();
    assert_eq!(w.since, at(12, 0));
    assert_eq!(w.until, now());
}

#[test]
fn both_bounds_accept_every_supported_form() {
    let w = args("2026-09-04T10:00:00Z", Some("30m"))
        .resolve(now())
        .unwrap();
    assert_eq!(w.since, at(10, 0));
    assert_eq!(
        w.until,
        at(13, 30)
    );
}

#[test]
fn an_inverted_window_is_rejected_rather_than_returning_nothing() {
    // `--since 1h --until 2h` is a plausible typo, and an empty result
    // would be indistinguishable from a healthy system.
    let err = args("1h", Some("2h")).resolve(now()).unwrap_err();
    assert_eq!(err.kind(), "bad_argument");
    assert!(err.message().contains("starts after"));
}

#[test]
fn a_zero_length_window_is_allowed() {
    let w = args("2026-09-04T10:00:00Z", Some("2026-09-04T10:00:00Z"))
        .resolve(now())
        .unwrap();
    assert_eq!(w.since, w.until);
}

#[test]
fn a_bad_bound_surfaces_the_parse_error() {
    assert_eq!(
        args("yesterday", None).resolve(now()).unwrap_err().kind(),
        "bad_argument"
    );
}

#[test]
fn selector_prefers_the_glob_and_falls_back_to_default() {
    let t = |p: Option<&str>, ps: Option<&str>| TargetArgs {
        profile: p.map(Into::into),
        profiles: ps.map(Into::into),
        region: None,
    };
    assert_eq!(t(None, None).selector(), "default");
    assert_eq!(t(Some("alpha-power"), None).selector(), "alpha-power");
    assert_eq!(t(None, Some("*-power")).selector(), "*-power");
}
