//! Clustering, and how clusters compare with a baseline.

use awsdiag::cluster::template::{
    apply_baseline, baseline_counts, cluster, BaselineCounts, LogEvent, Status, StreamCount,
    MAX_STREAMS,
};
use awsdiag::common::time::Instant;
use chrono::{TimeZone, Utc};

fn t(h: u32, m: u32) -> Instant {
    let at = Utc.with_ymd_and_hms(2026, 9, 4, h, m, 0).unwrap();
    Instant {
        secs: at.timestamp(),
        nanos: at.timestamp_subsec_nanos(),
    }
}
fn since() -> Instant {
    t(10, 0)
}
fn until() -> Instant {
    t(11, 0)
}
fn ev(h: u32, m: u32, stream: &str, msg: &str) -> LogEvent {
    LogEvent {
        timestamp: t(h, m),
        stream: stream.into(),
        message: msg.into(),
    }
}

/// Two hosts, one of which owns nearly all the errors — the shape of a
/// real single-instance failure.
fn skewed() -> Vec<LogEvent> {
    let mut v = Vec::new();
    for i in 0..9 {
        v.push(ev(
            10,
            i * 5,
            "i-0aaa",
            "Connection to 10.0.1.5:5432 failed after 12ms",
        ));
    }
    v.push(ev(
        10,
        50,
        "i-0bbb",
        "Connection to 10.0.9.9:5432 failed after 900ms",
    ));
    v.push(ev(10, 30, "i-0aaa", "Heartbeat ok"));
    v
}

#[test]
fn events_sharing_a_template_collapse_into_one_cluster() {
    let c = cluster(&skewed(), since(), until(), 12);
    assert_eq!(c.len(), 2, "one connection cluster, one heartbeat cluster");
    assert_eq!(c[0].count, 10);
    assert_eq!(c[0].template, "Connection to <*> failed after <*>");
}

#[test]
fn by_stream_shows_where_and_is_ordered_by_volume() {
    // This is the field that answers "fleet, or one box?".
    let c = cluster(&skewed(), since(), until(), 12);
    assert_eq!(
        c[0].by_stream,
        vec![
            StreamCount {
                stream: "i-0aaa".into(),
                count: 9
            },
            StreamCount {
                stream: "i-0bbb".into(),
                count: 1
            },
        ]
    );
}

#[test]
fn many_streams_are_capped_and_the_remainder_counted() {
    // Naming 400 streams would defeat the purpose of clustering.
    let events: Vec<LogEvent> = (0..25)
        .map(|i| ev(10, 1, &format!("i-{i:04}"), "disk full"))
        .collect();
    let c = cluster(&events, since(), until(), 12);
    assert_eq!(c[0].by_stream.len(), MAX_STREAMS);
    assert_eq!(c[0].other_streams, 15);
    assert_eq!(c[0].count, 25, "the count still reflects every event");
}

#[test]
fn the_histogram_places_events_in_time_order() {
    let events = vec![
        ev(10, 0, "s", "x"),
        ev(10, 30, "s", "x"),
        ev(10, 30, "s", "x"),
        ev(10, 59, "s", "x"),
    ];
    let c = cluster(&events, since(), until(), 4);
    assert_eq!(c[0].histogram, vec![1, 0, 2, 1]);
    assert_eq!(
        c[0].histogram.iter().sum::<u32>(),
        4,
        "every event is counted once"
    );
}

#[test]
fn an_event_exactly_at_the_window_end_does_not_overflow_the_histogram() {
    // Classic off-by-one: offset/span == 1.0 indexes one past the end.
    let events = vec![LogEvent {
        timestamp: until(),
        stream: "s".into(),
        message: "edge".into(),
    }];
    let c = cluster(&events, since(), until(), 4);
    assert_eq!(c[0].histogram, vec![0, 0, 0, 1]);
}

#[test]
fn a_zero_length_window_does_not_divide_by_zero() {
    let events = vec![ev(10, 0, "s", "x")];
    let c = cluster(&events, since(), since(), 4);
    assert_eq!(c[0].count, 1);
    assert_eq!(c[0].histogram.iter().sum::<u32>(), 1);
}

#[test]
fn first_and_last_seen_span_the_cluster() {
    let c = cluster(&skewed(), since(), until(), 12);
    assert_eq!(c[0].first_seen, t(10, 0));
    assert_eq!(c[0].last_seen, t(10, 50));
}

#[test]
fn the_exemplar_is_the_earliest_real_line_from_that_cluster() {
    // The first occurrence sits nearest the cause, and it must be a
    // verbatim line rather than the masked template.
    let c = cluster(&skewed(), since(), until(), 12);
    assert_eq!(c[0].exemplar.ts, t(10, 0));
    assert_eq!(c[0].exemplar.stream, "i-0aaa");
    assert_eq!(
        c[0].exemplar.message,
        "Connection to 10.0.1.5:5432 failed after 12ms"
    );
    assert!(!c[0].exemplar.message.contains("<*>"));
}

#[test]
fn no_events_yields_no_clusters() {
    assert!(cluster(&[], since(), until(), 12).is_empty());
}

#[test]
fn cluster_ids_are_stable_across_runs_and_differ_per_template() {
    // `logs drill --cluster <id>` is worthless if the id moves.
    let a = cluster(&skewed(), since(), until(), 12);
    let b = cluster(&skewed(), since(), until(), 12);
    assert_eq!(a[0].cluster_id, b[0].cluster_id);
    assert_ne!(a[0].cluster_id, a[1].cluster_id);
    assert_eq!(
        a[0].cluster_id.len(),
        12,
        "48 bits: see cluster_id for why 24 was not enough"
    );
}

// ---- baseline classification -----------------------------------------

fn classify(now: usize, prior: Option<usize>) -> Status {
    let events: Vec<LogEvent> = (0..now).map(|_| ev(10, 1, "s", "db timeout")).collect();
    let mut c = cluster(&events, since(), until(), 12);
    let mut base = BaselineCounts::new();
    if let Some(p) = prior {
        base.insert("db timeout".to_string(), p);
    }
    // one-hour window against a 24-hour baseline
    apply_baseline(&mut c, &base, 3600, 86_400);
    c[0].status
}

#[test]
fn a_template_absent_from_the_baseline_is_new() {
    assert_eq!(classify(10, None), Status::New);
}

#[test]
fn rates_are_normalised_by_duration_not_compared_raw() {
    // 24 events over 24h is 1/hour. 10 in one hour is 10x that: spiking.
    // Comparing raw counts (10 vs 24) would call this a *decrease*.
    assert_eq!(classify(10, Some(24)), Status::Spiking);
    // 1 in an hour against 24 over 24h is the same rate: steady.
    assert_eq!(classify(1, Some(24)), Status::Steady);
}

#[test]
fn ordinary_variation_does_not_register_as_a_spike() {
    // 2/hour against 1/hour is noise, not a signal worth surfacing.
    assert_eq!(classify(2, Some(24)), Status::Steady);
}

#[test]
fn what_changed_is_ordered_before_what_did_not() {
    let mut events: Vec<LogEvent> =
        (0..100).map(|_| ev(10, 1, "s", "steady chatter")).collect();
    events.push(ev(10, 2, "s", "brand new failure"));
    let mut c = cluster(&events, since(), until(), 12);
    let mut base = BaselineCounts::new();
    base.insert("steady chatter".to_string(), 2400);
    apply_baseline(&mut c, &base, 3600, 86_400);

    // The single new line outranks the 100 steady ones: during an
    // incident, what changed is what matters, not what is loudest.
    assert_eq!(c[0].status, Status::New);
    assert_eq!(c[0].count, 1);
    assert_eq!(c[1].status, Status::Steady);
}

#[test]
fn without_a_baseline_status_is_unknown_rather_than_guessed() {
    let c = cluster(&skewed(), since(), until(), 12);
    assert!(c.iter().all(|x| x.status == Status::Unknown));
}

#[test]
fn baseline_counts_reduce_events_to_template_totals() {
    let events = vec![
        ev(9, 0, "s", "Connection to 10.0.1.5:5432 failed after 12ms"),
        ev(9, 1, "s", "Connection to 10.0.2.6:5432 failed after 44ms"),
        ev(9, 2, "s", "Heartbeat ok"),
    ];
    let counts = baseline_counts(&events);
    assert_eq!(counts.get("Connection to <*> failed after <*>"), Some(&2));
    assert_eq!(counts.get("Heartbeat ok"), Some(&1));
}

#[test]
fn the_sequence_of_events_does_not_matter() {
    let events = vec![
        ev(10, 1, "a", "took 12ms"),
        ev(10, 2, "b", "took 99ms"),
        ev(10, 3, "a", "idle"),
        ev(10, 4, "c", "busy"),
        ev(10, 5, "c", "took 7ms"),
    ];
    let told = |evs: &[LogEvent]| format!("{:?}", cluster(evs, since(), until(), 6));
    let want = told(&events);
    let mut shuffled = events.clone();
    shuffled.reverse();
    assert_eq!(told(&shuffled), want);
    shuffled.swap(0, 3);
    shuffled.rotate_left(2);
    assert_eq!(told(&shuffled), want);
    let c = cluster(&events, since(), until(), 6);
    assert!(c
        .windows(2)
        .all(|w| w[0].count > w[1].count || w[0].cluster_id < w[1].cluster_id));
}

#[test]
fn judging_twice_is_judging_once() {
    let events = vec![
        ev(10, 1, "a", "db timeout"),
        ev(10, 2, "a", "db timeout"),
        ev(10, 3, "b", "brand new"),
        ev(10, 4, "b", "idle"),
    ];
    let mut base = BaselineCounts::new();
    base.insert("db timeout".to_string(), 1);
    base.insert("idle".to_string(), 24);
    let mut c = cluster(&events, since(), until(), 6);
    apply_baseline(&mut c, &base, 3600, 86_400);
    let once = format!("{c:?}");
    apply_baseline(&mut c, &base, 3600, 86_400);
    assert_eq!(format!("{c:?}"), once);
    assert_eq!(c[0].template, "brand new");
}
