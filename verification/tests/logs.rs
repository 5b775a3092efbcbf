//! Drill-down, coverage and log-group patterns.

use awsdiag::cluster::{template, tokenize};
use awsdiag::cmd::logs::{select_cluster, RawEvent, ScanResult};
use awsdiag::common::flags::Window;
use awsdiag::common::time::Instant;
use awsdiag::glob::is_glob;
use awsdiag::json::Json;
use chrono::{DateTime, TimeZone, Utc};

fn ev(stream: &str, msg: &str) -> RawEvent {
    RawEvent {
        ts: at(10),
        group: "/g".into(),
        stream: stream.into(),
        message: msg.into(),
    }
}

#[test]
fn glob_detection_distinguishes_patterns_from_literal_names() {
    assert!(is_glob("/aws/lambda/*"));
    assert!(is_glob("/aws/?"));
    assert!(!is_glob("/aws/lambda/my-function"));
    // A literal name containing a hyphen or dot is not a glob.
    assert!(!is_glob("/aws/rds/instance/db-1/error.log"));
}

#[test]
fn drill_selects_only_events_belonging_to_the_cluster() {
    let events = vec![
        ev("i-a", "Connection to 10.0.1.5:5432 failed after 12ms"),
        ev("i-b", "Connection to 10.0.9.9:5432 failed after 90ms"),
        ev("i-a", "Heartbeat ok"),
    ];
    let id = template::cluster_id(&tokenize::template(&events[0].message));
    let picked = select_cluster(&events, &id, None);
    assert_eq!(
        picked.len(),
        2,
        "both connection failures, not the heartbeat"
    );
    assert!(picked.iter().all(|e| e.message.starts_with("Connection")));
}

#[test]
fn drill_can_narrow_to_a_single_stream() {
    // "Is it everywhere or one host" is answered by by_stream; this is
    // how you then read that one host's actual lines.
    let events = vec![
        ev("i-a", "Connection to 10.0.1.5:5432 failed after 12ms"),
        ev("i-b", "Connection to 10.0.9.9:5432 failed after 90ms"),
    ];
    let id = template::cluster_id(&tokenize::template(&events[0].message));
    let picked = select_cluster(&events, &id, Some("i-b"));
    assert_eq!(picked.len(), 1);
    assert_eq!(picked[0].stream, "i-b");
}

#[test]
fn drill_returns_verbatim_lines_not_templates() {
    let events = vec![ev("i-a", "Connection to 10.0.1.5:5432 failed after 12ms")];
    let id = template::cluster_id(&tokenize::template(&events[0].message));
    let picked = select_cluster(&events, &id, None);
    assert_eq!(
        picked[0].message,
        "Connection to 10.0.1.5:5432 failed after 12ms"
    );
}

fn moment(h: u32) -> DateTime<Utc> {
    Utc.with_ymd_and_hms(2026, 9, 4, h, 0, 0).unwrap()
}

fn at(h: u32) -> Instant {
    Instant {
        secs: moment(h).timestamp(),
        nanos: 0,
    }
}

fn field<'a>(v: &'a Json, key: &str) -> Option<&'a Json> {
    match v {
        Json::Object(fields) => fields.iter().find(|f| f.0 == key).map(|f| &f.1),
        _ => None,
    }
}

fn string(v: Option<&Json>) -> Option<&str> {
    match v {
        Some(Json::Text(s)) => Some(s),
        _ => None,
    }
}

fn scan_of(hours: &[u32], truncated: bool) -> ScanResult {
    ScanResult {
        clusters: vec![],
        events: hours
            .iter()
            .map(|h| RawEvent {
                ts: at(*h),
                group: "/g".into(),
                stream: "s".into(),
                message: "m".into(),
            })
            .collect(),
        groups_scanned: vec!["/g".into()],
        truncated,
    }
}

#[test]
fn coverage_reports_the_range_actually_returned() {
    assert_eq!(
        scan_of(&[10, 11, 12], false).coverage(),
        Some((at(10), at(12)))
    );
    assert_eq!(scan_of(&[], false).coverage(), None);
}

#[test]
fn a_truncated_scan_says_the_newest_events_are_missing() {
    // The dangerous failure is silent: analysing the oldest slice of a
    // wide window and reporting it as current.
    let w = Window {
        since: at(0),
        until: at(23),
    };
    let v = scan_of(&[1, 2], true).coverage_json(w);
    let note = string(field(&v, "note")).expect("a truncated scan carries a note");
    assert!(note.contains("newest events are NOT included"), "{note}");
    assert!(note.contains("narrow --since"), "{note}");
}

#[test]
fn a_complete_scan_carries_no_alarming_note() {
    let w = Window {
        since: at(0),
        until: at(23),
    };
    let v = scan_of(&[1, 2], false).coverage_json(w);
    assert!(field(&v, "note").is_none());
    assert_eq!(
        string(field(&v, "events_from")),
        Some(moment(1).to_rfc3339().as_str())
    );
}

#[test]
fn an_unknown_cluster_id_selects_nothing_rather_than_everything() {
    let events = vec![ev("i-a", "anything")];
    assert!(select_cluster(&events, "ffffff", None).is_empty());
}

#[test]
fn a_truncated_scan_without_events_is_noted_too() {
    // Nothing returned and nothing missing are told apart by the note alone.
    let w = Window {
        since: at(0),
        until: at(23),
    };
    let v = scan_of(&[], true).coverage_json(w);
    assert!(matches!(field(&v, "events_from"), Some(Json::Null)));
    assert!(matches!(field(&v, "events_to"), Some(Json::Null)));
    let end = moment(23).to_rfc3339();
    assert_eq!(
        string(field(&v, "note")),
        Some(
            format!(
                "truncated: no events were returned of the requested window ending {end}. \
                 CloudWatch returns oldest first, so the newest events are NOT included -- \
                 narrow --since or raise --limit."
            )
            .as_str()
        )
    );
    let v = scan_of(&[], false).coverage_json(w);
    assert!(field(&v, "note").is_none());
}
