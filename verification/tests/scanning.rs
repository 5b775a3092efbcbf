//! Log groups, budgets, and what a scan reports.

use awsdiag::cluster::template::Status;
use awsdiag::cmd::logs::{
    absorb_events, absorb_groups, baseline_window, check_pattern, cluster_events, discover_page,
    drill, gather, groups, groups_to_scan, listing_prefix, per_group_budget, scan,
    scan_parameters, scan_raw, select_cluster, select_with, tail, to_log_events, ListedEvent,
    ListedGroup, LogGroup, RawEvent, ScanRequest,
};
use awsdiag::common::flags::{OutputFormat, Window};
use awsdiag::common::time::Instant;
use awsdiag::glob::prefix_of;
use awsdiag::output::render;

fn at(m: i64) -> Instant {
    Instant {
        secs: 1_788_516_000 + m * 60,
        nanos: 0,
    }
}

fn listed(name: &str) -> ListedGroup {
    ListedGroup {
        name: Some(name.into()),
        retention_days: None,
        stored_bytes: Some(1),
        created_millis: Some(1_788_516_000_000),
    }
}

fn group(name: &str) -> LogGroup {
    LogGroup {
        name: name.into(),
        retention_days: None,
        stored_bytes: None,
        created: None,
    }
}

fn event(m: i64, stream: &str, message: &str) -> RawEvent {
    RawEvent {
        ts: at(m),
        group: "/g".into(),
        stream: stream.into(),
        message: message.into(),
    }
}

fn names(v: &[LogGroup]) -> Vec<&str> {
    v.iter().map(|g| g.name.as_str()).collect()
}

fn request() -> ScanRequest<'static> {
    ScanRequest {
        group: "/g",
        window: Window {
            since: at(0),
            until: at(60),
        },
        filter: None,
        limit: None,
        max_groups: 20,
    }
}

#[test]
fn a_glob_narrows_the_listing_by_its_literal_prefix() {
    assert_eq!(prefix_of("/aws/lambda/*"), "/aws/lambda/");
    assert_eq!(listing_prefix(Some("/aws/lambda/*")).as_deref(), Some("/aws/lambda/"));
    assert_eq!(listing_prefix(Some("*")), None);
    assert_eq!(listing_prefix(Some("/exact")).as_deref(), Some("/exact"));
    assert_eq!(listing_prefix(None), None);
}

#[test]
fn a_malformed_pattern_is_refused_before_anything_is_listed() {
    assert!(check_pattern("/aws/*").is_ok());
    assert!(check_pattern("plain").is_ok());
    let e = check_pattern("/aws/[").unwrap_err();
    assert!(e.message().contains("/aws/["), "{}", e.message());
}

#[test]
fn discovery_keeps_matches_up_to_the_limit() {
    let page = vec![listed("/a/x"), listed("/b/y"), listed("/a/z")];
    let mut out = Vec::new();
    assert!(!discover_page(&mut out, &page, Some("/a/*"), 2, at(0)));
    assert_eq!(names(&out), ["/a/x", "/a/z"]);
    assert_eq!(out[0].created, Some(at(0)));
    assert!(discover_page(&mut out, &vec![listed("/a/w")], Some("/a/*"), 2, at(0)));
    assert_eq!(out.len(), 2);
    let mut all = Vec::new();
    assert!(!discover_page(&mut all, &page, None, 10, at(0)));
    assert_eq!(all.len(), 3);
    let mut some = Vec::new();
    assert!(!absorb_groups(
        &mut some,
        &page,
        &vec![false, true, false],
        10,
        at(0)
    ));
    assert_eq!(names(&some), ["/b/y"]);
}

#[test]
fn groups_are_listed_by_name() {
    let env = groups("p", Some("/a*"), vec![group("/b"), group("/a")], true);
    assert_eq!(names(&env.data), ["/a", "/b"]);
    assert!(env.truncated);
}

#[test]
fn a_literal_group_is_scanned_as_it_is_and_a_glob_must_match() {
    assert_eq!(groups_to_scan("/g", vec![]).unwrap(), ["/g"]);
    assert_eq!(
        groups_to_scan("/g*", vec![group("/g2"), group("/g1")]).unwrap(),
        ["/g1", "/g2"]
    );
    let e = groups_to_scan("/none*", vec![]).unwrap_err();
    assert_eq!(e.kind(), "aws");
    assert_eq!(e.message(), "no log group matches \"/none*\"");
}

#[test]
fn the_budget_is_shared_and_never_nothing() {
    assert_eq!(per_group_budget(None, 3), None);
    assert_eq!(per_group_budget(Some(10), 3), Some(4));
    assert_eq!(per_group_budget(Some(2), 5), Some(1));
    assert_eq!(per_group_budget(Some(9), 3), Some(3));
}

fn listed_event(ms: i64, message: &str) -> ListedEvent {
    ListedEvent {
        timestamp: Some(ms),
        stream: Some("s".into()),
        message: Some(message.into()),
    }
}

#[test]
fn events_are_taken_up_to_the_cap() {
    let page = vec![listed_event(1_788_516_000_000, "a"), listed_event(0, "b")];
    let mut out = Vec::new();
    assert!(absorb_events(&mut out, &page, "/g", Some(1), at(0)));
    assert_eq!(out.len(), 1);
    assert_eq!(out[0].ts, at(0));
    assert_eq!(out[0].group, "/g");
    assert!(!absorb_events(&mut out, &page, "/g", None, at(0)));
    assert_eq!(out.len(), 3);
}

#[test]
fn a_scan_is_in_time_order() {
    let r = gather(
        vec![event(3, "s", "c"), event(1, "s", "a"), event(2, "s", "b")],
        vec!["/g".into()],
        None,
        false,
    );
    let order: Vec<&str> = r.events.iter().map(|e| e.message.as_str()).collect();
    assert_eq!(order, ["a", "b", "c"]);
    assert_eq!(r.coverage(), Some((at(1), at(3))));
}

#[test]
fn the_baseline_ends_where_the_window_starts() {
    let w = request().window;
    let b = baseline_window("2h", w).unwrap();
    assert_eq!((b.since, b.until), (at(-120), at(0)));
    assert_eq!(baseline_window("soon", w).unwrap_err().kind(), "bad_argument");
}

#[test]
fn clustering_against_a_baseline_says_what_is_new_and_whether_it_was_capped() {
    let events = vec![event(1, "s", "db timeout"), event(2, "s", "brand new")];
    let (clusters, capped) = cluster_events(request().window, &events, None);
    assert!(!capped);
    assert!(clusters.iter().all(|c| c.status == Status::Unknown));
    let base = gather(vec![event(-30, "s", "db timeout")], vec![], None, true);
    let window = Window {
        since: at(-60),
        until: at(0),
    };
    let (clusters, capped) = cluster_events(request().window, &events, Some((window, base)));
    assert!(capped);
    assert_eq!(clusters[0].template, "brand new");
    assert_eq!(clusters[0].status, Status::New);
    assert_eq!(clusters[1].status, Status::Steady);
}

#[test]
fn every_cluster_of_a_scan_can_be_drilled_into() {
    let events = vec![
        event(1, "a", "took 12ms"),
        event(2, "b", "took 99ms"),
        event(3, "a", "idle"),
    ];
    let (clusters, _) = cluster_events(request().window, &events, None);
    let total: usize = clusters
        .iter()
        .map(|c| {
            let picked = select_cluster(&events, &c.cluster_id, None);
            assert_eq!(picked.len(), c.count);
            picked.len()
        })
        .sum();
    assert_eq!(total, events.len());
    let ts = vec!["x".to_string(), "y".to_string(), "x".to_string()];
    let id = awsdiag::cluster::template::cluster_id("x");
    assert_eq!(select_with(&events, &ts, &id, Some("a")).len(), 2);
    assert_eq!(select_with(&events, &ts, &id, Some("b")).len(), 0);
    assert_eq!(to_log_events(&events)[0].message, "took 12ms");
}

#[test]
fn a_drill_is_cut_at_the_limit_and_says_so() {
    let events = vec![event(1, "a", "x"), event(2, "a", "x")];
    let id = awsdiag::cluster::template::cluster_id("x");
    let picked = select_cluster(&events, &id, None);
    let env = drill("p", &request(), &id, None, Some(1), picked, false);
    assert_eq!(env.count, 1);
    assert!(env.truncated);
    let json = render(&env, OutputFormat::Json);
    assert!(json.contains("\"since\": \"2026-09-04T10:00:00+00:00\""), "{json}");
}

#[test]
fn scans_report_their_coverage() {
    let result = gather(vec![event(1, "a", "x")], vec!["/g".into()], None, true);
    let params = scan_parameters("p", &request(), Some("1d"), &result);
    let env = scan_raw(params, result);
    let json = render(&env, OutputFormat::Json);
    assert!(json.contains("\"events_to\": \"2026-09-04T10:01:00+00:00\""), "{json}");
    assert!(json.contains("\"baseline\": \"1d\""), "{json}");
    assert!(env.truncated);
    let result = gather(vec![event(1, "a", "x")], vec!["/g".into()], None, false);
    let env = tail("p", &request(), result);
    assert_eq!(env.command, "logs tail");
    assert_eq!(env.count, 1);
    let result = gather(vec![], vec![], None, false);
    let params = scan_parameters("p", &request(), None, &result);
    let env = scan(params, false, vec![], true);
    assert!(env.truncated);
    assert!(render(&env, OutputFormat::Json).contains("\"events_from\": null"));
}

#[test]
fn the_limit_caps_a_scan_of_several_groups_and_says_so() {
    let groups: Vec<String> = vec!["/a".into(), "/b".into(), "/c".into()];
    let budget = per_group_budget(Some(10), groups.len());
    assert_eq!(budget, Some(4));
    let mut events = Vec::new();
    for g in &groups {
        let page: Vec<ListedEvent> = (0..4)
            .map(|i| listed_event(1_788_516_000_000 + i * 1000, "x"))
            .collect();
        let mut got = Vec::new();
        assert!(!absorb_events(&mut got, &page, g, budget, at(0)));
        events.append(&mut got);
    }
    assert_eq!(events.len(), 12);
    let r = gather(events, groups, Some(10), false);
    assert_eq!(r.events.len(), 10);
    assert!(r.truncated);
    assert!(r.events.windows(2).all(|w| w[0].ts.secs <= w[1].ts.secs));
}

#[test]
fn a_limit_that_is_not_exceeded_cuts_nothing() {
    let two = || vec![event(2, "s", "b"), event(1, "s", "a")];
    let r = gather(two(), vec!["/g".into()], Some(2), false);
    assert_eq!(r.events.len(), 2);
    assert!(!r.truncated);
    let r = gather(two(), vec!["/g".into()], Some(0), false);
    assert!(r.events.is_empty());
    assert!(r.truncated);
    let r = gather(two(), vec!["/g".into()], Some(1), false);
    assert_eq!(r.events[0].message, "a");
    let r = gather(vec![], vec!["/g".into()], Some(0), false);
    assert!(!r.truncated);
}

#[test]
fn a_pattern_that_opens_too_many_braces_is_refused() {
    let nested = |n: usize| format!("{}a*{}", "{".repeat(n), "}".repeat(n));
    assert!(check_pattern(&nested(80)).is_ok());
    let e = check_pattern(&nested(300)).unwrap_err();
    assert!(e.message().contains("nests too deeply"), "{}", e.message());
    let e = check_pattern(&format!("{}*", "a".repeat(20_000))).unwrap_err();
    assert!(e.message().contains("too long"), "{}", e.message());
    let mut out = Vec::new();
    let page = vec![listed("/a")];
    assert!(!discover_page(&mut out, &page, Some(&nested(300)), 20, at(0)));
    assert!(out.is_empty());
}

#[test]
fn alternations_side_by_side_do_not_nest() {
    let row = "{a}".repeat(200) + "*";
    assert!(check_pattern(&row).is_ok());
    let mut out = Vec::new();
    let page = vec![listed(&"a".repeat(200)), listed("a")];
    assert!(!discover_page(&mut out, &page, Some(&row), 20, at(0)));
    assert_eq!(out.len(), 1);
    // A brace that is escaped, or in a class, opens and closes nothing.
    assert!(check_pattern(&format!("*{}", "\\{".repeat(200))).is_ok());
    assert!(check_pattern(&"[{]".repeat(200)).is_ok());
    let unclosed = "{[}]\\}[]}][!]}]a".repeat(81) + &"}".repeat(81);
    assert!(check_pattern(&unclosed).is_err());
}

#[test]
fn the_deepest_pattern_that_is_accepted_is_compiled() {
    let deep = format!("{}**/x{}", "{b,c".repeat(80), "}".repeat(80));
    assert!(check_pattern(&deep).is_ok());
    let mut out = Vec::new();
    assert!(!discover_page(&mut out, &vec![listed("b")], Some(&deep), 20, at(0)));
    assert_eq!(out.len(), 1);
    let deeper = format!("{}**/x{}", "{b,c".repeat(81), "}".repeat(81));
    assert!(check_pattern(&deeper).is_err());
}

#[test]
fn a_listing_is_the_same_however_it_is_paged() {
    let names = ["/a/1", "/b/1", "/a/2", "/a/3", "/b/2", "/a/4"];
    for limit in 0..6 {
        for cut in 0..=names.len() {
            let mut out = Vec::new();
            let mut truncated = false;
            for part in [&names[..cut], &names[cut..]] {
                let page = part.iter().map(|n| listed(n)).collect();
                truncated = discover_page(&mut out, &page, Some("/a/*"), limit, at(0));
                if truncated {
                    break;
                }
            }
            let kept: Vec<&str> = out.iter().map(|g| g.name.as_str()).collect();
            let want = ["/a/1", "/a/2", "/a/3", "/a/4"];
            assert_eq!(kept, want[..limit.min(4)], "{limit} {cut}");
            assert_eq!(truncated, limit < 4, "{limit} {cut}");
        }
    }
}

#[test]
fn drilling_returns_what_was_counted() {
    let events = vec![
        event(1, "a", "took 12ms"),
        event(2, "b", "took 99ms"),
        event(3, "a", "idle"),
    ];
    let (clusters, _) = cluster_events(request().window, &events, None);
    let c = &clusters[0];
    let messages = |stream: Option<&str>| -> Vec<String> {
        select_cluster(&events, &c.cluster_id, stream)
            .iter()
            .map(|e| e.message.clone())
            .collect()
    };
    assert_eq!(messages(None), ["took 12ms", "took 99ms"]);
    assert_eq!(messages(Some("b")), ["took 99ms"]);
    assert_eq!(c.count, 2);
    assert!(select_cluster(&events, "ffffffffffff", None).is_empty());
}

#[test]
fn a_scan_capped_to_nothing_says_what_is_missing() {
    let result = gather(vec![event(1, "a", "x")], vec!["/g".into()], Some(0), false);
    let params = scan_parameters("p", &request(), None, &result);
    let env = scan_raw(params, result);
    let json = render(&env, OutputFormat::Json);
    assert!(env.truncated);
    assert!(json.contains("newest events are NOT included"), "{json}");
}
