//! Queries for series, and what the metrics commands report.

use awsdiag::cmd::metrics::{
    absorb_result, batches, blank_series, build_query, check_comparison, check_period, compare,
    count_filled, count_reporting, discover_page, query_id, query_index, query_period, rank_name,
    row_object, sparse_note, top, top_specs, ListedDimension, SeriesSpec, TextRow, TopRequest,
};
use awsdiag::common::flags::{OutputFormat, Window};
use awsdiag::common::time::Instant;
use awsdiag::json::compact_text;
use awsdiag::metrics::align::{
    align, bucket, choose_period, is_acceptable_period, Rank, Series, Summary,
};
use awsdiag::output::render;

fn at(m: i64) -> Instant {
    Instant {
        secs: 1_788_516_000 + m * 60,
        nanos: 0,
    }
}

fn window() -> Window {
    Window {
        since: at(0),
        until: at(60),
    }
}

#[test]
fn a_result_finds_its_series_by_the_query_id() {
    assert_eq!(query_id(12), "q12");
    assert_eq!(query_index("q12"), Some(12));
    assert_eq!(query_index("x12"), None);
    assert_eq!(query_index("q"), None);
    let labels = vec!["a".to_string(), "b".to_string(), "c".to_string()];
    let mut results: Vec<Series<i32>> = blank_series(&labels, 1, 2);
    assert_eq!(results[0].label, "b");
    absorb_result(
        &mut results,
        Some("q1"),
        &vec![at(0).secs, at(1).secs],
        &vec![7, 8, 9],
    );
    absorb_result(&mut results, Some("q9"), &vec![at(0).secs], &vec![1]);
    absorb_result(&mut results, None, &vec![at(0).secs], &vec![1]);
    assert!(results[0].points.is_empty());
    assert_eq!(results[1].points, vec![(at(0), 7), (at(1), 8)]);
}

#[test]
fn a_query_carries_its_specification() {
    let s = SeriesSpec::parse("AWS/EC2/CPUUtilization:Maximum,InstanceId=i-1").unwrap();
    let q = build_query(3, &s, 300);
    assert_eq!((q.id.as_str(), q.period), ("q3", 300));
    assert_eq!(q.dimensions, vec![("InstanceId".to_string(), "i-1".to_string())]);
    assert_eq!(
        s.full_label(),
        "AWS/EC2/CPUUtilization:Maximum,InstanceId=i-1"
    );
}

#[test]
fn batches_cover_every_query_once() {
    assert_eq!(batches(0), vec![]);
    assert_eq!(batches(500), vec![(0, 500)]);
    assert_eq!(batches(1001), vec![(0, 500), (500, 500), (1000, 1)]);
}

fn dimension(name: &str, value: &str) -> Vec<ListedDimension> {
    vec![ListedDimension {
        name: Some(name.into()),
        value: Some(value.into()),
    }]
}

#[test]
fn discovery_notes_each_value_once_and_stops_when_full() {
    let mut values = Vec::new();
    let page = vec![
        dimension("InstanceId", "i-1"),
        dimension("Other", "x"),
        dimension("InstanceId", "i-1"),
        dimension("InstanceId", "i-2"),
    ];
    assert!(!discover_page(&mut values, &page, "InstanceId"));
    assert_eq!(values, ["i-1", "i-2"]);
    let many: Vec<_> = (0..400).map(|i| dimension("InstanceId", &format!("j-{i}"))).collect();
    assert!(discover_page(&mut values, &many, "InstanceId"));
    assert_eq!(values.len(), 300);
}

#[test]
fn periods_are_those_the_service_accepts() {
    for p in [1, 5, 10, 20, 30, 60, 300, 86_400] {
        assert!(is_acceptable_period(p), "{p}");
    }
    for p in [0, -60, 2, 45, 61] {
        assert!(!is_acceptable_period(p), "{p}");
    }
    assert!(check_period(None).is_ok());
    assert_eq!(
        check_comparison(0, None).unwrap_err().message(),
        "cannot parse \"\": at least one --series is required"
    );
    assert!(check_comparison(1, Some(60)).is_ok());
}

#[test]
fn a_window_that_floors_to_the_cap_steps_to_the_next_minute() {
    let window = 3660 * 100_801;
    let p = choose_period(window, window, 1);
    assert!(window / p <= 100_800, "{p}");
    assert_eq!(p, 3720);
}

#[test]
fn beyond_the_tiers_the_period_is_the_least_that_fits() {
    let window = 36_894_630;
    let p = choose_period(window, window, 10);
    assert_eq!(p, 3660);
    assert_eq!(window / p * 10, 100_800);
    assert!(window / 3600 * 10 > 100_800);
    // Old data at a low volume stays at the coarsest tier.
    assert_eq!(choose_period(3600, 456 * 86_400, 1), 3600);
    assert_eq!(choose_period(-5, 456 * 86_400, 1), 3600);
    // More series than the cap allows points: not one of them can have any.
    let p = choose_period(86_400, 86_400, 200_000);
    assert_eq!(p, 86_460);
    assert_eq!(86_400 / p, 0);
    assert_eq!(choose_period(86_400, 86_400, usize::MAX), 86_460);
}

#[test]
fn the_period_asked_for_wins() {
    assert_eq!(query_period(window(), at(60), 1, None), 60);
    assert_eq!(query_period(window(), at(60), 1, Some(300)), 300);
    assert_eq!(bucket(Instant { secs: at(0).secs + 37, nanos: 5 }, 60), at(0));
}

#[test]
fn a_sparse_series_is_explained() {
    assert_eq!(
        sparse_note(Some(300), 60).as_deref(),
        Some(
            "series report every 300s but were queried at 60s, so most rows are empty; \
             pass --period 300 for a dense result"
        )
    );
    assert_eq!(sparse_note(Some(60), 60), None);
    assert_eq!(sparse_note(None, 60), None);
}

fn two_series() -> [SeriesSpec; 2] {
    [
        SeriesSpec::parse("AWS/Lambda/Errors:Sum").unwrap(),
        SeriesSpec::parse("AWS/Lambda/Invocations:Sum").unwrap(),
    ]
}

fn placed(label: &str, points: &[(i64, usize)]) -> Series<usize> {
    Series {
        label: label.into(),
        points: points.iter().map(|&(m, k)| (at(m), k)).collect(),
    }
}

#[test]
fn a_comparison_has_a_column_for_each_series() {
    let labels = vec!["Errors".to_string(), "Invocations".to_string()];
    let row = TextRow {
        ts: at(0),
        values: vec![Some("1.5".into()), None],
    };
    let one: String = compact_text(&row_object(&row, &labels)).into_iter().collect();
    assert_eq!(
        one,
        r#"{"ts":"2026-09-04T10:00:00Z","Errors":1.5,"Invocations":null}"#
    );
    let window = Window {
        since: at(0),
        until: at(1),
    };
    let series = [placed("x", &[(0, 0)]), placed("y", &[])];
    let figures = vec![Some("1.5".to_string())];
    let r = compare("p", &two_series(), window, 60, &series, &figures);
    let env = &r.envelope;
    assert_eq!(env.command, "metrics compare");
    assert_eq!(render(env, OutputFormat::Ndjson), one);
    let json = render(env, OutputFormat::Json);
    assert!(json.contains("\"period_seconds\": 60"), "{json}");
    assert!(json.contains("\"native_period_seconds\": null"), "{json}");
    assert!(json.contains("\"note\": null"), "{json}");
    assert_eq!(count_filled(&r.matrix), 1);
    assert_eq!(r.native, None);
}

#[test]
fn a_comparison_tells_its_own_labels_and_its_own_interval() {
    let points: Vec<(i64, usize)> = (0..12).map(|i| (i * 5, i as usize)).collect();
    let series = [placed("x", &points), placed("y", &[(0, 12)])];
    let mut figures: Vec<Option<String>> = (0..12).map(|i| Some(format!("{i}.0"))).collect();
    figures.push(None);
    let r = compare("p", &two_series(), window(), 60, &series, &figures);
    assert_eq!(r.native, Some(300));
    assert_eq!(r.envelope.data.len(), 60);
    let rows = render(&r.envelope, OutputFormat::Ndjson);
    let lines: Vec<&str> = rows.lines().collect();
    assert_eq!(
        lines[0],
        r#"{"ts":"2026-09-04T10:00:00Z","Errors":0.0,"Invocations":null}"#
    );
    assert_eq!(
        lines[1],
        r#"{"ts":"2026-09-04T10:01:00Z","Errors":null,"Invocations":null}"#
    );
    let json = render(&r.envelope, OutputFormat::Json);
    assert!(json.contains("pass --period 300 for a dense result"), "{json}");
    assert!(
        json.contains("\"labels\": [\n      \"Errors\",\n      \"Invocations\"\n    ]"),
        "{json}"
    );
}

#[test]
fn filled_cells_are_counted() {
    let series = [Series {
        label: "a".into(),
        points: vec![(at(0), 1), (at(2), 3)],
    }];
    let m = align(&series, at(0), at(3), 60);
    assert_eq!(m.rows.len(), 3);
    assert_eq!(count_filled(&m), 2);
}

fn summary(label: &str, max: Option<i64>) -> Summary {
    Summary {
        label: label.into(),
        datapoints: max.iter().count(),
        min: max,
        mean: max,
        max,
        latest: max,
    }
}

#[test]
fn the_top_is_ranked_cut_and_counted() {
    let req = TopRequest {
        namespace: "AWS/EC2",
        metric: "CPUUtilization",
        dimension: "InstanceId",
        stat: "Average",
        by: Rank::Max,
        count: 2,
        window: window(),
        period: None,
    };
    let specs = top_specs(&req, &vec!["i-1".into()]).unwrap();
    assert_eq!(specs[0].dimensions, vec![("InstanceId".to_string(), "i-1".to_string())]);
    let e = top_specs(&req, &vec![]).unwrap_err();
    assert!(e.message().contains("InstanceId"), "{}", e.message());
    let all = vec![
        summary("quiet", None),
        summary("low", Some(1)),
        summary("high", Some(9)),
    ];
    assert_eq!(count_reporting(&all), 2);
    let env = top("p", &req, 3, 60, all, false);
    let order: Vec<&str> = env.data.iter().map(|s| s.label.as_str()).collect();
    assert_eq!(order, ["high", "low"]);
    assert_eq!(rank_name(Rank::Latest), "latest");
}
