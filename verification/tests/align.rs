//! Aligning series onto one timeline, and choosing its period.

use awsdiag::common::time::Instant;
use awsdiag::metrics::align::{
    self, align, choose_period, native_period, Rank, Row, Series, Summary, MAX_DATAPOINTS,
};
use chrono::{TimeZone, Utc};

fn at(m: u32, s: u32) -> Instant {
    let t = Utc.with_ymd_and_hms(2026, 9, 4, 10, m, s).unwrap();
    Instant {
        secs: t.timestamp(),
        nanos: t.timestamp_subsec_nanos(),
    }
}

fn t(m: u32) -> Instant {
    at(m, 0)
}

/// A value told by an integer that is ordered as the finite values are.
fn level(v: f64) -> Option<i64> {
    if !v.is_finite() {
        return None;
    }
    let bits = (v + 0.0).to_bits() as i64;
    Some(bits ^ (((bits >> 63) as u64) >> 1) as i64)
}

/// The value an integer tells.
fn value(n: i64) -> f64 {
    f64::from_bits((n ^ (((n >> 63) as u64) >> 1) as i64) as u64)
}

/// What a summary tells, as values.
#[derive(Debug, Clone)]
struct Told {
    summary: Summary,
    datapoints: usize,
    min: Option<f64>,
    mean: Option<f64>,
    max: Option<f64>,
    latest: Option<f64>,
}

fn summarise(series: &Series<f64>) -> Told {
    let mut points = series.points.clone();
    points.sort_by_key(|p| (p.0.secs, p.0.nanos));
    let finite: Vec<f64> = points.iter().map(|p| p.1).filter(|v| v.is_finite()).collect();
    let mean = finite.iter().sum::<f64>() / finite.len() as f64;
    let levels = Series {
        label: series.label.clone(),
        points: series.points.iter().map(|p| (p.0, level(p.1))).collect(),
    };
    let s = align::summarise(&levels, level(mean));
    Told {
        datapoints: s.datapoints,
        min: s.min.map(value),
        mean: s.mean.map(value),
        max: s.max.map(value),
        latest: s.latest.map(value),
        summary: s,
    }
}

fn rank(told: Vec<Told>, by: Rank) -> Vec<Summary> {
    align::rank(told.into_iter().map(|t| t.summary).collect(), by)
}

fn series(label: &str, points: &[(u32, f64)]) -> Series<f64> {
    Series {
        label: label.into(),
        points: points.iter().map(|(m, v)| (t(*m), *v)).collect(),
    }
}

#[test]
fn two_series_share_one_timeline() {
    // The whole point: read down a row to see every series at one instant.
    let m = align(
        &[
            series("a", &[(0, 1.0), (1, 2.0)]),
            series("b", &[(0, 10.0), (1, 20.0)]),
        ],
        t(0),
        t(2),
        60,
    );
    assert_eq!(m.labels, vec!["a", "b"]);
    assert_eq!(m.rows.len(), 2);
    assert_eq!(
        m.rows[0],
        Row {
            ts: t(0),
            values: vec![Some(1.0), Some(10.0)]
        }
    );
    assert_eq!(
        m.rows[1],
        Row {
            ts: t(1),
            values: vec![Some(2.0), Some(20.0)]
        }
    );
}

#[test]
fn a_gap_is_none_and_never_zero() {
    // Reporting a gap as 0 turns "not reporting" into "value was zero",
    // which reads as healthy -- the opposite of the truth during an
    // instance outage.
    let m = align(&[series("a", &[(0, 5.0), (2, 7.0)])], t(0), t(3), 60);
    assert_eq!(m.rows[0].values, vec![Some(5.0)]);
    assert_eq!(m.rows[1].values, vec![None], "no datapoint, not a zero");
    assert_eq!(m.rows[2].values, vec![Some(7.0)]);
}

#[test]
fn series_that_disagree_about_which_instants_exist_are_reconciled() {
    // CloudWatch omits timestamps a series has no data for, so two series
    // over the same window routinely have different lengths.
    let m = align(
        &[
            series("a", &[(0, 1.0), (1, 2.0), (2, 3.0)]),
            series("b", &[(1, 20.0)]),
        ],
        t(0),
        t(3),
        60,
    );
    assert_eq!(m.rows.len(), 3);
    assert_eq!(m.rows[0].values, vec![Some(1.0), None]);
    assert_eq!(m.rows[1].values, vec![Some(2.0), Some(20.0)]);
    assert_eq!(m.rows[2].values, vec![Some(3.0), None]);
}

#[test]
fn every_row_has_one_value_per_series() {
    let m = align(
        &[
            series("a", &[(0, 1.0)]),
            series("b", &[]),
            series("c", &[(2, 3.0)]),
        ],
        t(0),
        t(3),
        60,
    );
    assert!(
        m.rows.iter().all(|r| r.values.len() == 3),
        "ragged rows break every consumer"
    );
}

#[test]
fn timestamps_are_ordered_and_evenly_spaced() {
    let m = align(&[series("a", &[])], t(0), t(5), 60);
    let times: Vec<Instant> = m.rows.iter().map(|r| r.ts).collect();
    assert_eq!(times, vec![t(0), t(1), t(2), t(3), t(4)]);
}

#[test]
fn the_window_end_is_exclusive() {
    // An inclusive end would emit a trailing row that is always empty,
    // because CloudWatch labels a bucket by its start.
    let m = align(&[series("a", &[])], t(0), t(3), 60);
    assert_eq!(m.rows.len(), 3);
    assert_eq!(m.rows.last().unwrap().ts, t(2));
}

#[test]
fn points_are_snapped_to_their_bucket() {
    // A datapoint at 10:00:37 belongs to the 10:00 bucket at 60s.
    let odd = at(0, 37);
    let m = align(
        &[Series {
            label: "a".into(),
            points: vec![(odd, 9.0)],
        }],
        t(0),
        t(2),
        60,
    );
    assert_eq!(m.rows[0].values, vec![Some(9.0)]);
}

#[test]
fn no_series_still_yields_the_grid() {
    let m = align::<f64>(&[], t(0), t(3), 60);
    assert_eq!(m.rows.len(), 3);
    assert!(m.rows.iter().all(|r| r.values.is_empty()));
    assert!(m.labels.is_empty());
}

#[test]
fn an_inverted_or_empty_window_yields_no_rows() {
    assert!(align(&[series("a", &[])], t(3), t(0), 60).rows.is_empty());
    assert!(align(&[series("a", &[])], t(0), t(0), 60).rows.is_empty());
}

#[test]
fn an_empty_window_within_a_bucket_yields_no_rows() {
    let s = at(0, 30);
    let none: [Series<f64>; 0] = [];
    assert!(align(&none, s, s, 60).rows.is_empty());
    assert!(align(&none, s, at(0, 10), 60).rows.is_empty());
    assert_eq!(align(&none, s, at(0, 31), 60).rows.len(), 1);
}

// ---- summarising and ranking -----------------------------------------

#[test]
fn a_summary_reports_the_shape_of_a_series() {
    let s = summarise(&series("a", &[(0, 5.0), (1, 1.0), (2, 9.0), (3, 3.0)]));
    assert_eq!(s.datapoints, 4);
    assert_eq!(s.min, Some(1.0));
    assert_eq!(s.max, Some(9.0));
    assert_eq!(s.mean, Some(4.5));
    assert_eq!(
        s.latest,
        Some(3.0),
        "latest is by time, not by position in the input"
    );
}

#[test]
fn latest_follows_time_order_not_input_order() {
    // CloudWatch does not guarantee ordering, and "is it still happening"
    // is wrong if `latest` is whatever arrived last.
    let jumbled = Series {
        label: "a".into(),
        points: vec![(t(2), 9.0), (t(0), 5.0), (t(1), 1.0)],
    };
    assert_eq!(summarise(&jumbled).latest, Some(9.0));
}

#[test]
fn an_empty_series_summarises_to_nothing_not_to_zero() {
    // "Not reporting" and "reported zero" are different findings, and
    // only one of them is good news.
    let s = summarise(&series("a", &[]));
    assert_eq!(s.datapoints, 0);
    assert_eq!((s.min, s.mean, s.max, s.latest), (None, None, None, None));
}

#[test]
fn ranking_orders_highest_first_by_the_chosen_statistic() {
    // Chosen so the three statistics genuinely disagree: a peaks higher,
    // b is busier on average, a is higher right now.
    let a = summarise(&series("a", &[(0, 1.0), (1, 100.0)])); // max 100, mean 50.5, latest 100
    let b = summarise(&series("b", &[(0, 60.0), (1, 60.0)])); // max  60, mean 60.0, latest  60
    let order = |by| {
        rank(vec![a.clone(), b.clone()], by)
            .into_iter()
            .map(|s| s.label)
            .collect::<Vec<_>>()
    };
    assert_eq!(
        order(Rank::Max),
        vec!["a", "b"],
        "the spike has the higher peak"
    );
    assert_eq!(
        order(Rank::Mean),
        vec!["b", "a"],
        "the sustained one is busier overall"
    );
    assert_eq!(order(Rank::Latest), vec!["a", "b"], "a is higher right now");
}

#[test]
fn series_with_no_data_sort_last_whatever_the_statistic() {
    // An absent series is not a quiet one, and must not displace a
    // resource that actually reported.
    let quiet = summarise(&series("quiet", &[(0, 0.1)]));
    let absent = summarise(&series("absent", &[]));
    for by in [Rank::Max, Rank::Mean, Rank::Latest] {
        let order: Vec<String> = rank(vec![absent.clone(), quiet.clone()], by)
            .into_iter()
            .map(|s| s.label)
            .collect();
        assert_eq!(order, vec!["quiet", "absent"], "{by:?}");
    }
}

#[test]
fn equal_values_rank_deterministically() {
    let a = summarise(&series("bbb", &[(0, 7.0)]));
    let b = summarise(&series("aaa", &[(0, 7.0)]));
    let order: Vec<String> = rank(vec![a, b], Rank::Max)
        .into_iter()
        .map(|s| s.label)
        .collect();
    assert_eq!(
        order,
        vec!["aaa", "bbb"],
        "ties break on label, not on input order"
    );
}

#[test]
fn non_finite_values_are_excluded_rather_than_poisoning_the_statistics() {
    // A NaN in the input makes every comparison false and would scramble
    // the ordering silently.
    let poisoned = Series {
        label: "a".into(),
        points: vec![(t(0), 1.0), (t(1), f64::NAN), (t(2), 3.0)],
    };
    let s = summarise(&poisoned);
    assert_eq!(s.datapoints, 2);
    assert_eq!(s.max, Some(3.0));
    assert_eq!(s.mean, Some(2.0));
}

// ---- period selection -------------------------------------------------

#[test]
fn the_native_period_is_inferred_from_the_gaps_between_points() {
    // EC2 basic monitoring publishes every 5 minutes. Asking for 60s
    // resolution then yields a matrix that is 80% empty, which reads as
    // an outage rather than a resolution mismatch.
    let five_min = series("a", &[(0, 1.0), (5, 2.0), (10, 3.0), (15, 4.0)]);
    assert_eq!(native_period(&[five_min]), Some(300));
}

#[test]
fn an_event_driven_metric_does_not_report_a_bogus_period() {
    // Lambda `Errors` and ALB 5xx counts publish only when non-zero. Two
    // errors an hour apart in an otherwise 60s metric must not advise
    // collapsing it to hourly buckets -- that throws the metric away.
    let sparse = series("Errors", &[(0, 1.0), (55, 1.0)]);
    assert_eq!(
        native_period(&[sparse]),
        None,
        "two points are not evidence"
    );
}

#[test]
fn one_close_pair_does_not_suppress_the_finding() {
    // Taking the minimum let a single 60s-apart pair in an otherwise
    // 5-minute series hide the mismatch for every other point.
    let mostly_five = Series {
        label: "a".into(),
        points: [0i64, 300, 600, 900, 960]
            .iter()
            .map(|s| {
                let at = Instant {
                    secs: t(0).secs + s,
                    nanos: 0,
                };
                (at, 1.0)
            })
            .collect(),
    };
    assert_eq!(
        native_period(&[mostly_five]),
        Some(300),
        "the modal gap wins"
    );
}

#[test]
fn a_series_too_short_to_infer_from_yields_nothing() {
    assert_eq!(native_period(&[series("a", &[(0, 1.0)])]), None);
    assert_eq!(native_period(&[series("a", &[])]), None);
    assert_eq!(native_period::<f64>(&[]), None);
    // Three points give two gaps, still below the evidence threshold.
    assert_eq!(
        native_period(&[series("a", &[(0, 1.0), (5, 1.0), (10, 1.0)])]),
        None
    );
}

#[test]
fn a_regular_series_reports_its_interval_regardless_of_odd_gaps() {
    // One missing datapoint creates a double-width gap; the modal value
    // is still the true interval.
    let with_hole = series("a", &[(0, 1.0), (5, 1.0), (15, 1.0), (20, 1.0), (25, 1.0)]);
    assert_eq!(native_period(&[with_hole]), Some(300));
}

#[test]
fn a_recent_window_gets_one_minute_resolution() {
    assert_eq!(choose_period(3_600, 3_600, 1), 60);
}

#[test]
fn a_window_older_than_the_one_minute_tier_steps_coarser() {
    // Asking for 60s data 30 days back returns an empty set, which looks
    // exactly like a flat metric. Stepping to 300s returns real data.
    assert_eq!(choose_period(3_600, 30 * 86_400, 1), 300);
    assert_eq!(choose_period(3_600, 100 * 86_400, 1), 3_600);
}

#[test]
fn a_long_window_steps_coarser_to_stay_under_the_datapoint_cap() {
    // 14 days at 60s is 20,160 points -- fine for one series, but 10
    // series exceeds the cap and the request would be rejected outright.
    assert_eq!(choose_period(14 * 86_400, 14 * 86_400, 1), 60);
    assert_eq!(choose_period(14 * 86_400, 14 * 86_400, 10), 300);
}

#[test]
fn beyond_the_coarsest_tier_the_period_grows_and_stays_a_whole_minute() {
    let p = choose_period(455 * 86_400, 455 * 86_400, 50);
    assert!(p >= 3_600, "never finer than the coarsest tier: {p}");
    assert_eq!(
        p % 60,
        0,
        "CloudWatch rejects periods that are not a multiple of 60: {p}"
    );
}

#[test]
fn the_chosen_period_always_keeps_the_request_under_the_cap() {
    for (window, age, series) in [
        (3_600i64, 0i64, 1usize),
        (86_400, 86_400, 5),
        (14 * 86_400, 14 * 86_400, 20),
        (60 * 86_400, 60 * 86_400, 30),
        (400 * 86_400, 400 * 86_400, 100),
    ] {
        let p = choose_period(window, age, series);
        let points = (window / p) * series as i64;
        assert!(
            points <= MAX_DATAPOINTS,
            "{points} points for {window}s x{series} at {p}s"
        );
    }
}

#[test]
fn a_summary_does_not_follow_the_order_of_input() {
    let mut s = series("a", &[(0, 5.0), (1, -1.0), (2, f64::NAN), (3, 2.5)]);
    let want = summarise(&s).summary;
    assert_eq!((want.datapoints, want.latest), (3, level(2.5)));
    for _ in 0..s.points.len() {
        s.points.rotate_left(1);
        assert_eq!(summarise(&s).summary, want);
    }
    s.points.swap(0, 2);
    assert_eq!(summarise(&s).summary, want);
}
