//! What each command answers, and how an answer is written.

use crate::cmd::cache::{clear, status, CacheEntry, Cleared, FoundFile};
use crate::cmd::ec2::{
    check_show, health, ls, show, DescribedInstance, HealthRow, InstanceDetail, InstanceRow,
};
use crate::cmd::logs::{
    baseline_window, coverage_tree, covers, dated, drill, gather, groups, groups_to_scan,
    per_group_budget, scan, scan_parameters, scan_params, scan_raw, tail, LogGroup, RawEvent,
    ScanRequest, ScanResult,
};
use crate::cmd::report::{series_total, summarise, ReportSummary};
use crate::cmd::whoami::{resolved, run, Identity};
use crate::cluster::template::Cluster;
use crate::common::envelope::{capped, Envelope, ErrorEnvelope};
use crate::common::errors::{hint_of, kind_of, message_of, Error, Fault};
use crate::common::flags::{OutputFormat, TargetArgs, Window};
use crate::common::progress::grouped;
use crate::common::time::{debug_text, instant_of, rfc3339_text, Instant, TimeFault};
use crate::json::{compact, pretty, quoted, Json, JsonTree};
use crate::laws::listing::has_wildcard;
use crate::order::{ordered, sorting_orders, sorting_permutes, Ordered};
use crate::output::{
    body, cell, cells, envelope_tree, failure_tree, flat, flattened, headers, line, padded,
    render_failure, rendered, shapes, summary_of, tabled, text_form, width, widths, Record,
};
use crate::report::model::{Chart, Findings};
use crate::report::render::{html_text, page_of, scripted, substituted, Page};
use crate::text::{decimal, hex, joined, strings, text_less, trimmed_end, CharClass};
use vstd::prelude::*;

verus! {

// ---------------------------------------------------------------------------
// The parts of an answer
// ---------------------------------------------------------------------------

/// A text that may not have been given.
pub open spec fn maybe(s: Option<&str>) -> JsonTree {
    if s is Some {
        JsonTree::Text(s->0@)
    } else {
        JsonTree::Null
    }
}

/// Texts, one by one.
pub open spec fn listed(ts: Seq<String>) -> JsonTree {
    JsonTree::Array(Seq::new(ts.len(), |i: int| JsonTree::Text(ts[i]@)))
}

/// An instant of a window.
pub open spec fn bound(at: Instant) -> JsonTree {
    JsonTree::Text(rfc3339_text(at.secs, at.nanos))
}

/// Whether an answer says that all went well, of which command and with which
/// parameters, how many rows it has, whether some are missing, and the rows.
pub open spec fn says<T: Record>(
    v: JsonTree,
    command: Seq<char>,
    params: JsonTree,
    truncated: bool,
    rows: Seq<T>,
) -> bool {
    v == JsonTree::Object(
        seq![
            ("ok"@, JsonTree::Bool(true)),
            ("command"@, JsonTree::Text(command)),
            ("params"@, params),
            ("count"@, JsonTree::Number(decimal(rows.len()))),
            ("truncated"@, JsonTree::Bool(truncated)),
            ("next"@, JsonTree::Null),
            ("data"@, JsonTree::Array(Seq::new(rows.len(), |i: int| rows[i].shape()))),
        ],
    )
}

/// The first rows, as many as a limit allows.
pub open spec fn first<T>(rows: Seq<T>, limit: Option<usize>) -> Seq<T> {
    if limit is Some && limit->0 < rows.len() {
        rows.subrange(0, limit->0 as int)
    } else {
        rows
    }
}

/// Whether a limit leaves rows out.
pub open spec fn exceeds(n: nat, limit: Option<usize>) -> bool {
    limit is Some && n > limit->0
}

/// An answer in its proper form says what it holds.
proof fn an_answer_says<T: Record>(env: Envelope<T>)
    requires
        env.sound(),
    ensures
        says(envelope_tree(env), env.command@, env.params@, env.truncated, env.data@),
{
    assert(shapes(env.data@) =~= Seq::new(env.data@.len(), |i: int| env.data@[i].shape()));
}

/// Limiting keeps the first rows, and says so where some are left out.
pub proof fn a_limit_keeps_the_first_rows<T>(
    rows: Vec<T>,
    limit: Option<usize>,
    r: (Vec<T>, bool),
)
    requires
        call_ensures(capped::<T>, (rows, limit), r),
    ensures
        r.0@ == first(rows@, limit),
        r.1 == exceeds(rows@.len(), limit),
{
}

/// Limiting an answer limits its rows and its count, and keeps the rest.
pub proof fn a_limited_answer_counts_what_it_holds<T>(
    env: Envelope<T>,
    limit: Option<usize>,
    r: Envelope<T>,
)
    requires
        call_ensures(Envelope::<T>::limited, (env, limit), r),
    ensures
        r.data@ == first(env.data@, limit),
        r.count == r.data@.len(),
        r.truncated == (env.truncated || exceeds(env.data@.len(), limit)),
        r.command == env.command,
        r.params == env.params,
        r.ok == env.ok,
{
}

/// A failure says that it is one, of which command, what kind it is, what went
/// wrong and what to do.
pub proof fn a_failure_is_written_field_by_field(command: &str, err: &Error, r: ErrorEnvelope)
    requires
        call_ensures(ErrorEnvelope::new, (command, err), r),
    ensures
        failure_tree(r) == JsonTree::Object(
            seq![
                ("ok"@, JsonTree::Bool(false)),
                ("command"@, JsonTree::Text(command@)),
                ("kind"@, JsonTree::Text(kind_of(err@))),
                ("error"@, JsonTree::Text(message_of(err@))),
                (
                    "hint"@,
                    if hint_of(err@) is Some {
                        JsonTree::Text(hint_of(err@)->0)
                    } else {
                        JsonTree::Null
                    },
                ),
            ],
        ),
{
}

/// To a reader a failure is one line, with its hint on the next.
pub proof fn a_failure_is_told_with_its_hint(f: Fault)
    ensures
        hint_of(f) is None ==> summary_of(f) == "error: "@ + message_of(f) + ""@,
        hint_of(f) is Some ==> summary_of(f) == "error: "@ + message_of(f) + ("\nhint: "@ + hint_of(
            f,
        )->0),
{
}

// ---------------------------------------------------------------------------
// Instances
// ---------------------------------------------------------------------------

/// `ec2 ls` answers with the instances by name, as far as the limit allows.
pub proof fn what_a_listing_of_instances_answers(
    profile: &str,
    state: Option<&str>,
    name: Option<&str>,
    limit: Option<usize>,
    described: Vec<InstanceRow>,
    r: Envelope<InstanceRow>,
)
    requires
        call_ensures(ls, (profile, state, name, limit, described), r),
    ensures
        says(
            envelope_tree(r),
            "ec2 ls"@,
            JsonTree::Object(
                seq![
                    ("profile"@, JsonTree::Text(profile@)),
                    ("state"@, maybe(state)),
                    ("name"@, maybe(name)),
                ],
            ),
            exceeds(described@.len(), limit),
            first(ordered(described@), limit),
        ),
{
    an_answer_says(r);
    sorting_permutes(described@);
}

/// `ec2 health` answers with the status checks, as far as the limit allows.
pub proof fn what_a_health_check_answers(
    profile: &str,
    instances: &Vec<String>,
    limit: Option<usize>,
    rows: Vec<HealthRow>,
    r: Envelope<HealthRow>,
)
    requires
        call_ensures(health, (profile, instances, limit, rows), r),
    ensures
        says(
            envelope_tree(r),
            "ec2 health"@,
            JsonTree::Object(
                seq![
                    ("profile"@, JsonTree::Text(profile@)),
                    ("instances"@, listed(instances@)),
                ],
            ),
            exceeds(rows@.len(), limit),
            first(ordered(rows@), limit),
        ),
{
    an_answer_says(r);
    sorting_permutes(rows@);
    assert(strings(instances@).map_values(|t: Seq<char>| JsonTree::Text(t)) =~= Seq::new(
        instances@.len(),
        |i: int| JsonTree::Text(instances@[i]@),
    ));
}

/// `ec2 show` answers with every instance that was described.
pub proof fn what_a_detail_answers(
    profile: &str,
    instances: &Vec<String>,
    name: Option<&str>,
    described: &Vec<DescribedInstance>,
    r: Envelope<InstanceDetail>,
)
    requires
        call_ensures(show, (profile, instances, name, described), r),
    ensures
        says(
            envelope_tree(r),
            "ec2 show"@,
            JsonTree::Object(
                seq![
                    ("profile"@, JsonTree::Text(profile@)),
                    ("instances"@, listed(instances@)),
                    ("name"@, maybe(name)),
                ],
            ),
            false,
            r.data@,
        ),
        r.data@.len() == described@.len(),
{
    an_answer_says(r);
    let ds = choose|ds: Seq<InstanceDetail>|
        crate::cmd::ec2::details_are(ds, described@) && r.data@ == #[trigger] ordered(ds);
    sorting_permutes(ds);
    assert(strings(instances@).map_values(|t: Seq<char>| JsonTree::Text(t)) =~= Seq::new(
        instances@.len(),
        |i: int| JsonTree::Text(instances@[i]@),
    ));
}

/// `ec2 show` wants to be told which instances.
pub proof fn a_detail_wants_an_instance_or_a_name(
    instances: &Vec<String>,
    name: Option<&str>,
    r: Result<(), Error>,
)
    requires
        call_ensures(check_show, (instances, name), r),
    ensures
        r is Ok <==> instances@.len() > 0 || name is Some,
        r is Err ==> kind_of(r->Err_0@) == "bad_argument"@,
{
}

// ---------------------------------------------------------------------------
// Logs
// ---------------------------------------------------------------------------

/// `logs groups` answers with the groups by name.
pub proof fn what_a_listing_of_groups_answers(
    profile: &str,
    pattern: Option<&str>,
    found: Vec<LogGroup>,
    truncated: bool,
    r: Envelope<LogGroup>,
)
    requires
        call_ensures(groups, (profile, pattern, found, truncated), r),
    ensures
        says(
            envelope_tree(r),
            "logs groups"@,
            JsonTree::Object(
                seq![("profile"@, JsonTree::Text(profile@)), ("pattern"@, maybe(pattern))],
            ),
            truncated,
            ordered(found@),
        ),
{
    an_answer_says(r);
}

/// A group without a wildcard is scanned by its name, whatever was found; a
/// pattern scans all groups that were found, by name, and fails where none
/// was.
pub proof fn which_groups_are_scanned(
    group: &str,
    found: Vec<LogGroup>,
    r: Result<Vec<String>, Error>,
)
    requires
        call_ensures(groups_to_scan, (group, found), r),
    ensures
        !has_wildcard(group@) ==> r is Ok && r->Ok_0@.len() == 1 && r->Ok_0@[0]@ == group@,
        has_wildcard(group@) ==> (r is Ok <==> found@.len() > 0),
        has_wildcard(group@) && found@.len() == 0 ==> message_of(r->Err_0@)
            == "no log group matches "@ + debug_text(group@),
        has_wildcard(group@) && found@.len() > 0 ==> r->Ok_0@.len() == found@.len() && forall|i: int|
            0 <= i < found@.len() ==> (#[trigger] r->Ok_0@[i])@ == ordered(found@)[i].name@,
{
    crate::laws::listing::a_wildcard_makes_a_pattern(group@);
    sorting_permutes(found@);
    if r is Ok {
        let names = strings(r->Ok_0@);
        assert(names.len() == r->Ok_0@.len());
        if !has_wildcard(group@) {
            assert(names[0] == group@);
            assert(names[0] == r->Ok_0@[0]@);
        } else {
            assert forall|i: int| 0 <= i < found@.len() implies (#[trigger] r->Ok_0@[i])@ == ordered(
                found@,
            )[i].name@ by {
                assert(names[i] == r->Ok_0@[i]@);
            }
        }
    }
}

/// A scan gathers its events from the oldest on, and the oldest of them where
/// there are more than the limit.
pub proof fn a_scan_keeps_the_oldest_events(
    events: Vec<RawEvent>,
    names: Vec<String>,
    limit: Option<usize>,
    truncated: bool,
    r: ScanResult,
)
    requires
        call_ensures(gather, (events, names, limit, truncated), r),
    ensures
        r.events@ == first(ordered(events@), limit),
        r.truncated == (truncated || exceeds(events@.len(), limit)),
        r.groups_scanned == names,
        r.clusters@.len() == 0,
{
    sorting_permutes(events@);
}

/// Without a limit there is no share of it; with one, each group has the same.
pub proof fn each_group_has_the_same_share(limit: Option<usize>, n: usize, r: Option<usize>)
    requires
        n > 0,
        call_ensures(per_group_budget, (limit, n), r),
    ensures
        limit is None ==> r is None,
        limit is Some ==> r is Some && r->0 >= 1 && r->0 * n >= limit->0 && (r->0 - 1) * n
            <= limit->0,
        limit is Some && limit->0 >= 1 ==> (r->0 - 1) * n < limit->0,
{
    if limit is Some {
        crate::cmd::logs::budgets_cover_the_limit(limit->0 as int, n as int);
        if limit->0 >= 1 {
            crate::laws::clusters::a_share_is_the_least_that_reaches_the_limit(
                limit->0 as int,
                n as int,
            );
        } else {
            crate::laws::clusters::a_share_is_the_least_that_reaches_the_limit(1, n as int);
            assert((1 - 1) * n == 0) by (nonlinear_arith);
        }
    }
}

/// The baseline ends where the window starts, and starts as long before that
/// as was asked.
pub proof fn a_baseline_ends_where_the_window_starts(
    baseline: &str,
    window: Window,
    r: Result<Window, Error>,
    start: Instant,
)
    requires
        window.valid(),
        call_ensures(baseline_window, (baseline, window), r),
        instant_of(baseline@, window.since) == Ok::<Instant, TimeFault>(start),
    ensures
        r is Ok,
        r->Ok_0.until == window.since,
        r->Ok_0.since == start,
{
}

/// `logs scan` answers with the clusters, and says that some of them may be
/// missing where the scan or the baseline was cut short.
pub proof fn what_a_scan_answers(
    params: Json,
    cut: bool,
    clusters: Vec<Cluster>,
    baseline_cut: bool,
    r: Envelope<Cluster>,
)
    requires
        call_ensures(scan, (params, cut, clusters, baseline_cut), r),
    ensures
        says(envelope_tree(r), "logs scan"@, params@, cut || baseline_cut, clusters@),
{
    an_answer_says(r);
}

/// `logs scan --raw` answers with the events.
pub proof fn what_a_raw_scan_answers(params: Json, result: ScanResult, r: Envelope<RawEvent>)
    requires
        call_ensures(scan_raw, (params, result), r),
    ensures
        says(envelope_tree(r), "logs scan"@, params@, result.truncated, result.events@),
{
    an_answer_says(r);
}

/// What a scan says it scanned, under these names.
pub proof fn a_scan_says_what_it_scanned(
    profile: Seq<char>,
    group: Seq<char>,
    names: Seq<Seq<char>>,
    window: Window,
    filter: Option<Seq<char>>,
    baseline: Option<Seq<char>>,
    coverage: JsonTree,
)
    ensures
        ({
            let p = scan_params(profile, group, names, window, filter, baseline, coverage);
            let f = p->Object_0;
            &&& p is Object
            &&& f.len() == 8
            &&& f[0] == ("profile"@, JsonTree::Text(profile))
            &&& f[1] == ("group"@, JsonTree::Text(group))
            &&& f[2].0 == "groups_scanned"@
            &&& f[2].1 == JsonTree::Array(Seq::new(names.len(), |i: int| JsonTree::Text(names[i])))
            &&& f[3] == ("since"@, bound(window.since))
            &&& f[4] == ("until"@, bound(window.until))
            &&& f[5].0 == "filter"@
            &&& f[5].1 == if filter is Some {
                JsonTree::Text(filter->0)
            } else {
                JsonTree::Null
            }
            &&& f[6].0 == "baseline"@
            &&& f[6].1 == if baseline is Some {
                JsonTree::Text(baseline->0)
            } else {
                JsonTree::Null
            }
            &&& f[7] == ("coverage"@, coverage)
        }),
{
    assert(names.map_values(|t: Seq<char>| JsonTree::Text(t)) =~= Seq::new(
        names.len(),
        |i: int| JsonTree::Text(names[i]),
    ));
}

/// What events cover is written from the first to the last; a note stands
/// there exactly when some are missing.
pub proof fn what_coverage_says(
    range: Option<(Instant, Instant)>,
    truncated: bool,
    until: Instant,
)
    ensures
        ({
            let f = coverage_tree(range, truncated, until)->Object_0;
            &&& coverage_tree(range, truncated, until) is Object
            &&& f.len() == if truncated {
                3
            } else {
                2nat
            }
            &&& f[0].0 == "events_from"@
            &&& f[1].0 == "events_to"@
            &&& range is Some ==> f[0].1 == bound(range.unwrap().0) && f[1].1 == bound(
                range.unwrap().1,
            )
            &&& range is None ==> f[0].1 == JsonTree::Null && f[1].1 == JsonTree::Null
            &&& truncated ==> f[2].0 == "note"@ && f[2].1 is Text
        }),
{
}

/// `logs drill` answers with the events that were picked, as far as the limit
/// allows.
pub proof fn what_a_drill_answers(
    profile: &str,
    req: &ScanRequest,
    cluster: &str,
    stream: Option<&str>,
    limit: Option<usize>,
    picked: Vec<&RawEvent>,
    cut: bool,
    r: Envelope<&RawEvent>,
)
    requires
        req.window.valid(),
        call_ensures(drill, (profile, req, cluster, stream, limit, picked, cut), r),
    ensures
        says(
            envelope_tree(r),
            "logs drill"@,
            JsonTree::Object(
                seq![
                    ("profile"@, JsonTree::Text(profile@)),
                    ("group"@, JsonTree::Text(req.group@)),
                    ("cluster"@, JsonTree::Text(cluster@)),
                    ("stream"@, maybe(stream)),
                    ("since"@, bound(req.window.since)),
                    ("until"@, bound(req.window.until)),
                ],
            ),
            cut || exceeds(picked@.len(), limit),
            first(picked@, limit),
        ),
{
    an_answer_says(r);
    assert(r.params@->Object_0 =~= seq![
        ("profile"@, JsonTree::Text(profile@)),
        ("group"@, JsonTree::Text(req.group@)),
        ("cluster"@, JsonTree::Text(cluster@)),
        ("stream"@, maybe(stream)),
        ("since"@, bound(req.window.since)),
        ("until"@, bound(req.window.until)),
    ]);
}

/// `logs tail` answers with the events that were read, and says what they
/// cover.
pub proof fn what_a_tail_answers(
    profile: &str,
    req: &ScanRequest,
    result: ScanResult,
    r: Envelope<RawEvent>,
)
    requires
        req.window.valid(),
        dated(result.events@),
        call_ensures(tail, (profile, req, result), r),
    ensures
        exists|range: Option<(Instant, Instant)>|
            covers(result.events@, range) && says(
                envelope_tree(r),
                "logs tail"@,
                JsonTree::Object(
                    seq![
                        ("profile"@, JsonTree::Text(profile@)),
                        ("group"@, JsonTree::Text(req.group@)),
                        ("since"@, bound(req.window.since)),
                        ("until"@, bound(req.window.until)),
                        (
                            "coverage"@,
                            #[trigger] coverage_tree(range, result.truncated, req.window.until),
                        ),
                    ],
                ),
                result.truncated,
                result.events@,
            ),
{
    an_answer_says(r);
    let range = choose|range: Option<(Instant, Instant)>|
        covers(result.events@, range) && r.params@ == crate::cmd::logs::tail_params(
            profile@,
            req.group@,
            req.window,
            #[trigger] coverage_tree(range, result.truncated, req.window.until),
        );
    assert(r.params@->Object_0 =~= seq![
        ("profile"@, JsonTree::Text(profile@)),
        ("group"@, JsonTree::Text(req.group@)),
        ("since"@, bound(req.window.since)),
        ("until"@, bound(req.window.until)),
        ("coverage"@, coverage_tree(range, result.truncated, req.window.until)),
    ]);
}

// ---------------------------------------------------------------------------
// Callers and the cache
// ---------------------------------------------------------------------------

/// `whoami` answers with every profile that was looked up.
pub proof fn what_whoami_answers(target: &TargetArgs, rows: Vec<Identity>, r: Envelope<Identity>)
    requires
        call_ensures(run, (target, rows), r),
    ensures
        says(
            envelope_tree(r),
            "whoami"@,
            JsonTree::Object(
                seq![
                    ("selector"@, JsonTree::Text(target.selected())),
                    (
                        "region"@,
                        if target.region is Some {
                            JsonTree::Text(target.region->0@)
                        } else {
                            JsonTree::Null
                        },
                    ),
                ],
            ),
            false,
            rows@,
        ),
{
    an_answer_says(r);
}

/// A lookup has succeeded if it came to no error.
pub proof fn a_lookup_without_an_error_has_succeeded(rows: Seq<Identity>, row: Identity)
    ensures
        resolved(rows.push(row)) == resolved(rows) + if row.error is None {
            1nat
        } else {
            0
        },
        resolved(Seq::empty()) == 0,
{
    assert(rows.push(row).drop_last() == rows);
}

/// `cache status` answers with the entries by file, and with none where there
/// is no directory.
pub proof fn what_a_cache_status_answers(
    now: Instant,
    dir: Option<&str>,
    files: Vec<FoundFile>,
    r: Envelope<CacheEntry>,
    i: int,
    j: int,
)
    requires
        now.valid(),
        call_ensures(status, (now, dir, files), r),
        0 <= i < j < r.data@.len(),
    ensures
        says(
            envelope_tree(r),
            "cache status"@,
            JsonTree::Object(seq![("dir"@, maybe(dir))]),
            false,
            r.data@,
        ),
        dir is Some,
        !text_less(r.data@[j].file@, r.data@[i].file@),
{
    an_answer_says(r);
    let rows = choose|rows: Seq<CacheEntry>| #[trigger]
        crate::cmd::cache::tell_of(rows, files@, now) && r.data@ == ordered(rows);
    sorting_orders(rows);
    assert(!r.data@[j].before(r.data@[i]));
}

/// `cache clear` answers with how many files it took away, and where.
pub proof fn what_clearing_the_cache_answers(dir: &str, removed: usize, r: Envelope<Cleared>)
    requires
        call_ensures(clear, (dir, removed), r),
    ensures
        r.command@ == "cache clear"@,
        r.data@.len() == 1,
        r.data@[0].shape() == JsonTree::Object(
            seq![
                ("removed"@, JsonTree::Number(decimal(removed as nat))),
                ("dir"@, JsonTree::Text(dir@)),
            ],
        ),
{
}

// ---------------------------------------------------------------------------
// Reports
// ---------------------------------------------------------------------------

/// What is told of a report is where it is, its size and what it holds.
pub proof fn what_is_told_of_a_report(
    findings: &Findings,
    path: &str,
    html: &str,
    r: ReportSummary,
)
    requires
        call_ensures(summarise, (findings, path, html), r),
        series_total(findings.charts@) <= usize::MAX,
    ensures
        r.shape() == JsonTree::Object(
            seq![
                ("path"@, JsonTree::Text(path@)),
                ("bytes"@, JsonTree::Number(decimal(html.len() as nat))),
                ("charts"@, JsonTree::Number(decimal(findings.charts@.len()))),
                ("series"@, JsonTree::Number(decimal(series_total(findings.charts@)))),
                ("clusters"@, JsonTree::Number(decimal(findings.clusters@.len()))),
                ("events"@, JsonTree::Number(decimal(findings.events@.len()))),
            ],
        ),
{
}

/// The series of a report are those of all its charts.
pub proof fn every_chart_adds_its_series(charts: Seq<Chart>, c: Chart)
    ensures
        series_total(charts.push(c)) == series_total(charts) + c.series@.len(),
        series_total(Seq::empty()) == 0,
{
    assert(charts.push(c).drop_last() == charts);
}

/// Findings are embedded under these names, as they follow one another.
pub proof fn findings_are_written_field_by_field(f: Findings)
    ensures
        ({
            let m = f.shape()->Object_0;
            &&& f.shape() is Object
            &&& m.len() == 9
            &&& m[0] == ("title"@, JsonTree::Text(f.title@))
            &&& m[1].0 == "subtitle"@
            &&& m[1].1 == if f.subtitle is Some {
                JsonTree::Text(f.subtitle->0@)
            } else {
                JsonTree::Null
            }
            &&& m[2].0 == "summary"@
            &&& m[2].1 == if f.summary is Some {
                JsonTree::Text(f.summary->0@)
            } else {
                JsonTree::Null
            }
            &&& m[3].0 == "window"@
            &&& m[3].1 == if f.window is Some {
                JsonTree::Object(
                    seq![
                        ("since"@, JsonTree::Text(f.window->0.since@)),
                        ("until"@, JsonTree::Text(f.window->0.until@)),
                    ],
                )
            } else {
                JsonTree::Null
            }
            &&& m[4].0 == "sections"@ && m[4].1 is Array && m[4].1->Array_0.len()
                == f.sections@.len()
            &&& forall|i: int|
                0 <= i < f.sections@.len() ==> #[trigger] m[4].1->Array_0[i] == JsonTree::Object(
                    seq![
                        ("heading"@, JsonTree::Text(f.sections@[i].heading@)),
                        ("body"@, JsonTree::Text(f.sections@[i].body@)),
                        (
                            "severity"@,
                            if f.sections@[i].severity is Some {
                                JsonTree::Text(f.sections@[i].severity->0@)
                            } else {
                                JsonTree::Null
                            },
                        ),
                    ],
                )
            &&& m[5].0 == "charts"@ && m[5].1 is Array && m[5].1->Array_0.len() == f.charts@.len()
            &&& m[6].0 == "events"@ && m[6].1 is Array && m[6].1->Array_0.len() == f.events@.len()
            &&& forall|i: int|
                0 <= i < f.events@.len() ==> #[trigger] m[6].1->Array_0[i] == JsonTree::Object(
                    seq![
                        ("ts"@, JsonTree::Text(f.events@[i].ts@)),
                        ("label"@, JsonTree::Text(f.events@[i].label@)),
                    ],
                )
            &&& m[7].0 == "clusters"@ && m[7].1 is Array && m[7].1->Array_0.len()
                == f.clusters@.len()
            &&& m[8].0 == "appendix"@ && m[8].1 is Array && m[8].1->Array_0.len()
                == f.appendix@.len()
            &&& forall|i: int|
                0 <= i < f.appendix@.len() ==> #[trigger] m[8].1->Array_0[i] == JsonTree::Object(
                    seq![
                        ("title"@, JsonTree::Text(f.appendix@[i].title@)),
                        ("content"@, JsonTree::Text(f.appendix@[i].content@)),
                    ],
                )
        }),
{
}

/// A chart is embedded with its title, its unit, its series and its rows.
pub proof fn a_chart_is_written_field_by_field(c: Chart)
    ensures
        c.shape() == JsonTree::Object(
            seq![
                ("title"@, JsonTree::Text(c.title@)),
                (
                    "unit"@,
                    if c.unit is Some {
                        JsonTree::Text(c.unit->0@)
                    } else {
                        JsonTree::Null
                    },
                ),
                ("series"@, listed(c.series@)),
                ("rows"@, JsonTree::Array(Seq::new(c.rows@.len(), |i: int| c.rows@[i]@))),
            ],
        ),
{
    assert(strings(c.series@).map_values(|t: Seq<char>| JsonTree::Text(t)) =~= Seq::new(
        c.series@.len(),
        |i: int| JsonTree::Text(c.series@[i]@),
    ));
    assert(shapes(c.rows@) =~= Seq::new(c.rows@.len(), |i: int| c.rows@[i]@));
}

/// In markup the five characters that could be read as markup are written by
/// name; everything else stays.
pub proof fn how_markup_is_escaped(s: Seq<char>, c: char)
    ensures
        html_text(s.push('&')) == html_text(s) + "&amp;"@,
        html_text(s.push('<')) == html_text(s) + "&lt;"@,
        html_text(s.push('>')) == html_text(s) + "&gt;"@,
        html_text(s.push('"')) == html_text(s) + "&quot;"@,
        html_text(s.push('\'')) == html_text(s) + "&#39;"@,
        c != '&' && c != '<' && c != '>' && c != '"' && c != '\'' ==> html_text(s.push(c))
            == html_text(s).push(c),
        html_text(Seq::empty()).len() == 0,
{
    assert(s.push('&').drop_last() == s);
    assert(s.push('<').drop_last() == s);
    assert(s.push('>').drop_last() == s);
    assert(s.push('"').drop_last() == s);
    assert(s.push('\'').drop_last() == s);
    assert(s.push(c).drop_last() == s);
    assert(html_text(s) + seq![c] =~= html_text(s).push(c));
}

/// In a script the characters that could end it are written by number;
/// everything else stays.
pub proof fn how_a_script_is_escaped(s: Seq<char>, c: char)
    ensures
        scripted(s.push('<')) == scripted(s) + "\\u003c"@,
        scripted(s.push('>')) == scripted(s) + "\\u003e"@,
        scripted(s.push('&')) == scripted(s) + "\\u0026"@,
        c != '<' && c != '>' && c != '&' && c != '\u{2028}' && c != '\u{2029}' ==> scripted(
            s.push(c),
        ) == scripted(s).push(c),
        scripted(Seq::empty()).len() == 0,
{
    reveal_strlit("\\u003c");
    reveal_strlit("\\u003e");
    reveal_strlit("\\u0026");
    assert("\\u003c"@ =~= seq!['\\', 'u', '0', '0', '3', 'c']);
    assert("\\u003e"@ =~= seq!['\\', 'u', '0', '0', '3', 'e']);
    assert("\\u0026"@ =~= seq!['\\', 'u', '0', '0', '2', '6']);
    assert(s.push('<').drop_last() == s);
    assert(s.push('>').drop_last() == s);
    assert(s.push('&').drop_last() == s);
    assert(s.push(c).drop_last() == s);
    assert(scripted(s) + seq![c] =~= scripted(s).push(c));
}

// ---------------------------------------------------------------------------
// Tables
// ---------------------------------------------------------------------------

/// A cell shows a text as it is, a missing value as a dash, and anything else
/// as JSON, without breaks.
pub proof fn what_a_cell_shows(t: Seq<char>, n: Seq<char>, b: bool)
    ensures
        cell(None) == "-"@,
        cell(Some(JsonTree::Null)) == "-"@,
        cell(Some(JsonTree::Text(t))) == flattened(t),
        cell(Some(JsonTree::Number(n))) == flattened(n),
        cell(Some(JsonTree::Bool(b))) == flattened(
            if b {
                "true"@
            } else {
                "false"@
            },
        ),
{
}

/// A table has a column for each field of its first row, and in each row the
/// value of that field.
pub proof fn a_table_has_the_fields_of_its_first_row(
    rows: Seq<JsonTree>,
    map: Seq<(Seq<char>, JsonTree)>,
    i: int,
)
    requires
        rows.len() > 0,
        rows[0] == JsonTree::Object(map),
        0 <= i < map.len(),
        forall|j: int| 0 <= j < i ==> (#[trigger] map[j]).0 != map[i].0,
    ensures
        headers(rows) is Some,
        headers(rows)->0.len() == map.len(),
        headers(rows)->0[i] == map[i].0,
        cells(rows[0], headers(rows)->0)[i] == cell(Some(map[i].1)),
{
    crate::json::key_index_is(map, map[i].0, i);
}

/// A column is as wide as its widest cell, and its header fits.
pub proof fn a_column_is_wide_enough(
    hs: Seq<Seq<char>>,
    rows: Seq<JsonTree>,
    n: int,
    col: int,
    k: int,
)
    requires
        0 <= n <= rows.len(),
        0 <= col < hs.len(),
        0 <= k < n,
    ensures
        width(hs, rows, n, col) >= hs[col].len(),
        width(hs, rows, n, col) >= cells(rows[k], hs)[col].len(),
        width(hs, rows, n, col) == hs[col].len() || exists|r: int|
            0 <= r < n && width(hs, rows, n, col) == #[trigger] cells(rows[r], hs)[col].len(),
    decreases n,
{
    if n > 1 {
        let p = if k < n - 1 {
            k
        } else {
            0
        };
        a_column_is_wide_enough(hs, rows, n - 1, col, p);
        if width(hs, rows, n, col) == cells(rows[n - 1], hs)[col].len() {
            assert(cells(rows[n - 1], hs)[col].len() == width(hs, rows, n, col));
        } else if width(hs, rows, n - 1, col) != hs[col].len() {
            let r = choose|r: int|
                0 <= r < n - 1 && width(hs, rows, n - 1, col) == #[trigger] cells(
                    rows[r],
                    hs,
                )[col].len();
            assert(cells(rows[r], hs)[col].len() == width(hs, rows, n, col));
        }
    } else {
        reveal_with_fuel(width, 2);
        assert(k == 0);
        if width(hs, rows, 1, col) != hs[col].len() {
            assert(cells(rows[0], hs)[col].len() == width(hs, rows, 1, col));
        }
    }
}

/// Every column but the last is filled up with blanks, and two more stand
/// between it and the next.
pub proof fn columns_stand_two_apart(s: Seq<char>, w: nat)
    requires
        s.len() <= w,
    ensures
        padded(s, w, true) == s,
        padded(s, w, false).len() == w + 2,
        padded(s, w, false).take(s.len() as int) == s,
        forall|i: int| s.len() <= i < w + 2 ==> #[trigger] padded(s, w, false)[i] == ' ',
{
    assert(padded(s, w, false).take(s.len() as int) =~= s);
}

/// A table that is cut short says how many rows it shows.
pub proof fn a_table_cut_short_says_so(rows: Seq<JsonTree>, count: nat)
    ensures
        text_form(rows, count, false) == tabled(rows),
        text_form(rows, count, true) == tabled(rows) + ("\n("@ + decimal(count)
            + " rows shown; result truncated \u{2014} narrow the window or raise --limit)"@),
        tabled(Seq::empty()) == ""@,
{
}

/// Breaks and tabs become one blank, other control characters are written by
/// number.
pub proof fn how_a_text_is_flattened(s: Seq<char>, c: char)
    ensures
        !(c == '\n' || c == '\r' || c == '\t') && !CharClass::Control.has(c) ==> flat(s.push(c))
            == (flat(s).0.push(c), false),
        c == '\n' || c == '\r' || c == '\t' ==> flat(s.push(c)).0 == if flat(s).0.len() > 0
            && !flat(s).1 {
            flat(s).0.push(' ')
        } else {
            flat(s).0
        },
        !(c == '\n' || c == '\r' || c == '\t') && CharClass::Control.has(c) ==> flat(s.push(c)).0
            == flat(s).0 + seq!['\\', 'x'] + hex(c as u32 as nat, 2),
{
    assert(s.push(c).drop_last() == s);
}

/// The formats: a document, a line for each row, and a table.
pub proof fn each_format_is_its_own<T: Record>(env: Envelope<T>, i: int)
    requires
        0 <= i < env.data@.len(),
    ensures
        rendered(env, OutputFormat::Json) == pretty(envelope_tree(env), Seq::empty()),
        rendered(env, OutputFormat::Text) == text_form(
            Seq::new(env.data@.len(), |k: int| env.data@[k].shape()),
            env.count as nat,
            env.truncated,
        ),
        ({
            let lines = crate::json::compact_items(shapes(env.data@));
            &&& rendered(env, OutputFormat::Ndjson) == joined(lines, seq!['\n'])
            &&& lines.len() == env.data@.len()
            &&& lines[i] == compact(env.data@[i].shape())
        }),
{
    reveal_strlit("\n");
    assert("\n"@ =~= seq!['\n']);
    assert(shapes(env.data@) =~= Seq::new(env.data@.len(), |k: int| env.data@[k].shape()));
    each_row_is_a_line(shapes(env.data@), i);
}

/// Each row is written by itself.
proof fn each_row_is_a_line(items: Seq<JsonTree>, i: int)
    requires
        0 <= i < items.len(),
    ensures
        crate::json::compact_items(items).len() == items.len(),
        crate::json::compact_items(items)[i] == compact(items[i]),
    decreases items.len(),
{
    let past = items.drop_last();
    if i < past.len() {
        each_row_is_a_line(past, i);
    } else if past.len() > 0 {
        each_row_is_a_line(past, 0);
    } else {
        assert(crate::json::compact_items(past) == Seq::<Seq<char>>::empty());
    }
}

/// A count is shown with a comma in front of every three digits from behind.
pub proof fn a_count_is_shown_in_threes(s: Seq<char>, a: char, b: char, c: char)
    ensures
        s.len() > 0 ==> grouped(s.push(a).push(b).push(c)) == grouped(s) + seq![',', a, b, c],
        grouped(seq![a]) == seq![a],
        grouped(seq![a, b]) == seq![a, b],
        grouped(seq![a, b, c]) == seq![a, b, c],
{
    let t = s.push(a).push(b).push(c);
    assert(t.take(t.len() - 3) =~= s);
    assert(t.skip(t.len() - 3) =~= seq![a, b, c]);
    assert(grouped(s) + seq![','] + seq![a, b, c] =~= grouped(s) + seq![',', a, b, c]);
}

/// A line of a table is its cells, one behind the other.
pub proof fn a_line_is_its_cells(a: Seq<char>, b: Seq<char>, wa: nat, wb: nat)
    ensures
        line(seq![a], seq![wa], 1) == a,
        line(seq![a, b], seq![wa, wb], 2) == padded(a, wa, false) + b,
{
    reveal_with_fuel(line, 3);
    assert(line(seq![a], seq![wa], 1) =~= a);
    assert(line(seq![a, b], seq![wa, wb], 2) =~= padded(a, wa, false) + b);
}

/// A table is its header and its rows, a line for each.
pub proof fn a_table_is_its_lines(hs: Seq<Seq<char>>, rows: Seq<JsonTree>, n: int)
    requires
        0 < n <= rows.len(),
    ensures
        body(hs, rows, 0) == line(hs, widths(hs, rows), hs.len() as int).push('\n'),
        body(hs, rows, n) == body(hs, rows, n - 1) + line(
            cells(rows[n - 1], hs),
            widths(hs, rows),
            hs.len() as int,
        ).push('\n'),
        headers(rows) == Some(hs) ==> tabled(rows) == trimmed_end(
            body(hs, rows, rows.len() as int),
            CharClass::White,
        ),
{
}

/// A document is indented by two blanks for each level.
pub proof fn a_document_is_indented_by_two(key: Seq<char>, n: Seq<char>)
    ensures
        pretty(JsonTree::Object(seq![(key, JsonTree::Number(n))]), Seq::empty()) == seq![
            '{',
            '\n',
            ' ',
            ' ',
        ] + quoted(key) + seq![':', ' '] + n + seq!['\n', '}'],
        pretty(JsonTree::Array(seq![JsonTree::Number(n)]), Seq::empty()) == seq![
            '[',
            '\n',
            ' ',
            ' ',
        ] + n + seq!['\n', ']'],
        compact(JsonTree::Object(seq![(key, JsonTree::Number(n))])) == seq!['{'] + quoted(key)
            + seq![':'] + n + seq!['}'],
        compact(JsonTree::Array(seq![JsonTree::Number(n)])) == seq!['['] + n + seq![']'],
{
    let none = Seq::<char>::empty();
    let v = JsonTree::Number(n);
    let map = seq![(key, v)];
    let items = seq![v];
    let deep = crate::json::deeper(none);
    assert(deep =~= seq![' ', ' ']);
    assert(compact(v) == n);
    assert(pretty(v, deep) == n);
    assert(map.drop_last() =~= Seq::<(Seq<char>, JsonTree)>::empty());
    assert(items.drop_last() =~= Seq::<JsonTree>::empty());
    let f = seq!['\n'] + deep + quoted(key) + seq![':', ' '] + n;
    assert(crate::json::pretty_fields(map.drop_last(), deep) =~= Seq::<Seq<char>>::empty());
    assert(crate::json::pretty_fields(map, deep) =~= seq![f]);
    assert(joined(seq![f], ","@) == f);
    assert(pretty(JsonTree::Object(map), none) =~= seq!['{', '\n', ' ', ' '] + quoted(key) + seq![
        ':',
        ' ',
    ] + n + seq!['\n', '}']);
    let g = seq!['\n'] + deep + n;
    assert(crate::json::pretty_items(items.drop_last(), deep) =~= Seq::<Seq<char>>::empty());
    assert(crate::json::pretty_items(items, deep) =~= seq![g]);
    assert(joined(seq![g], ","@) == g);
    assert(pretty(JsonTree::Array(items), none) =~= seq!['[', '\n', ' ', ' '] + n + seq![
        '\n',
        ']',
    ]);
    let h = quoted(key) + seq![':'] + n;
    assert(crate::json::compact_fields(map.drop_last()) =~= Seq::<Seq<char>>::empty());
    assert(crate::json::compact_fields(map) =~= seq![h]);
    assert(joined(seq![h], ","@) == h);
    assert(compact(JsonTree::Object(map)) =~= seq!['{'] + quoted(key) + seq![':'] + n + seq!['}']);
    assert(crate::json::compact_items(items.drop_last()) =~= Seq::<Seq<char>>::empty());
    assert(crate::json::compact_items(items) =~= seq![n]);
    assert(joined(seq![n], ","@) == n);
}

/// The page has its styles, its script, the escaped title and the escaped
/// findings in their places.
pub proof fn what_stands_where_on_a_page(findings: Findings, page: Page)
    ensures
        page_of(findings, page) == substituted(
            page.shell@,
            seq!["__UPLOT_CSS__"@, "__UPLOT_JS__"@, "__TITLE__"@, "__DATA__"@],
            seq![
                page.css@,
                page.js@,
                html_text(findings.title@),
                scripted(compact(findings.shape())),
            ],
        ),
{
}

/// A cluster of a report is embedded with its fields.
pub proof fn a_reported_cluster_is_written_field_by_field(c: crate::report::model::Cluster)
    ensures
        ({
            let m = c.shape()->Object_0;
            &&& c.shape() is Object
            &&& m.len() == 10
            &&& m[0] == ("cluster_id"@, JsonTree::Text(c.cluster_id@))
            &&& m[1] == ("template"@, JsonTree::Text(c.template@))
            &&& m[2] == ("count"@, JsonTree::Number(decimal(c.count as nat)))
            &&& m[3].0 == "status"@
            &&& c.status is Some ==> m[3].1 == JsonTree::Text(c.status->0@)
            &&& c.status is None ==> m[3].1 == JsonTree::Null
            &&& m[4].0 == "first_seen"@
            &&& c.first_seen is Some ==> m[4].1 == JsonTree::Text(c.first_seen->0@)
            &&& c.first_seen is None ==> m[4].1 == JsonTree::Null
            &&& m[5].0 == "last_seen"@
            &&& c.last_seen is Some ==> m[5].1 == JsonTree::Text(c.last_seen->0@)
            &&& c.last_seen is None ==> m[5].1 == JsonTree::Null
            &&& m[6].0 == "histogram"@ && m[6].1 is Array && m[6].1->Array_0.len()
                == c.histogram@.len()
            &&& m[7].0 == "by_stream"@ && m[7].1 is Array && m[7].1->Array_0.len()
                == c.by_stream@.len()
            &&& forall|i: int|
                0 <= i < c.by_stream@.len() ==> #[trigger] m[7].1->Array_0[i] == JsonTree::Object(
                    seq![
                        ("stream"@, JsonTree::Text(c.by_stream@[i].stream@)),
                        ("count"@, JsonTree::Number(decimal(c.by_stream@[i].count as nat))),
                    ],
                )
            &&& m[8] == ("other_streams"@, JsonTree::Number(decimal(c.other_streams as nat)))
            &&& m[9].0 == "exemplar"@
            &&& c.exemplar is None ==> m[9].1 == JsonTree::Null
            &&& c.exemplar is Some ==> m[9].1 == JsonTree::Object(
                seq![
                    ("ts"@, JsonTree::Text(c.exemplar->0.ts@)),
                    ("stream"@, JsonTree::Text(c.exemplar->0.stream@)),
                    ("message"@, JsonTree::Text(c.exemplar->0.message@)),
                ],
            )
        }),
{
}

/// What is missing of a scan is told with what there is.
pub proof fn a_shortfall_is_told_with_its_range(from: Instant, to: Instant, until: Instant)
    ensures
        crate::cmd::logs::shortfall(Some((from, to)), until) == "truncated: events cover "@
            + rfc3339_text(from.secs, from.nanos) + " to "@ + rfc3339_text(to.secs, to.nanos)
            + " of the requested window ending "@ + rfc3339_text(until.secs, until.nanos)
            + ". CloudWatch returns oldest first, so the newest events are NOT included -- narrow --since or raise --limit."@,
        crate::cmd::logs::shortfall(None, until)
            == "truncated: no events were returned of the requested window ending "@
            + rfc3339_text(until.secs, until.nanos)
            + ". CloudWatch returns oldest first, so the newest events are NOT included -- narrow --since or raise --limit."@,
{
}

/// A scan is described by what was asked and by what was read.
pub proof fn a_scan_is_described_as_it_was_asked(
    profile: &str,
    req: &ScanRequest,
    baseline: Option<&str>,
    result: &ScanResult,
    r: Json,
)
    requires
        req.window.valid(),
        dated(result.events@),
        call_ensures(scan_parameters, (profile, req, baseline, result), r),
    ensures
        ({
            let f = r@->Object_0;
            &&& r@ is Object
            &&& f.len() == 8
            &&& f[0] == ("profile"@, JsonTree::Text(profile@))
            &&& f[1] == ("group"@, JsonTree::Text(req.group@))
            &&& f[2].0 == "groups_scanned"@
            &&& f[2].1 == listed(result.groups_scanned@)
            &&& f[3] == ("since"@, bound(req.window.since))
            &&& f[4] == ("until"@, bound(req.window.until))
            &&& f[5] == ("filter"@, maybe(req.filter))
            &&& f[6] == ("baseline"@, maybe(baseline))
            &&& f[7].0 == "coverage"@
            &&& exists|range: Option<(Instant, Instant)>|
                covers(result.events@, range) && f[7].1 == #[trigger] coverage_tree(
                    range,
                    result.truncated,
                    req.window.until,
                )
        }),
{
    let names = strings(result.groups_scanned@);
    assert(names.map_values(|t: Seq<char>| JsonTree::Text(t)) =~= Seq::new(
        result.groups_scanned@.len(),
        |i: int| JsonTree::Text(result.groups_scanned@[i]@),
    ));
}

/// A new answer holds what it was given, complete.
pub proof fn a_new_answer_is_complete<T>(command: &str, params: Json, data: Vec<T>, r: Envelope<T>)
    requires
        call_ensures(Envelope::<T>::new, (command, params, data), r),
    ensures
        r.ok,
        !r.truncated,
        r.next is None,
        r.command@ == command@,
        r.params == params,
        r.data@ == data@,
        r.count == data@.len(),
{
}

/// A failure is written as a document or on one line; beside a table nothing is
/// written.
pub proof fn a_failure_is_written_in_the_format_asked_for(
    env: &ErrorEnvelope,
    format: OutputFormat,
    r: String,
)
    requires
        call_ensures(render_failure, (env, format), r),
    ensures
        format == OutputFormat::Json ==> r@ == pretty(failure_tree(*env), Seq::empty()),
        format == OutputFormat::Ndjson ==> r@ == compact(failure_tree(*env)),
        format == OutputFormat::Text ==> r@.len() == 0,
{
    reveal_strlit("");
}

/// A row without a field of a column shows a dash there.
pub proof fn a_missing_field_is_a_dash(map: Seq<(Seq<char>, JsonTree)>, hs: Seq<Seq<char>>, c: int)
    requires
        0 <= c < hs.len(),
        forall|j: int| 0 <= j < map.len() ==> (#[trigger] map[j]).0 != hs[c],
    ensures
        cells(JsonTree::Object(map), hs)[c] == "-"@,
{
    crate::json::key_index_is(map, hs[c], map.len() as int);
}

/// Every instance that was described is answered in detail.
pub proof fn every_described_instance_is_shown(
    profile: &str,
    instances: &Vec<String>,
    name: Option<&str>,
    described: &Vec<DescribedInstance>,
    r: Envelope<InstanceDetail>,
    k: int,
)
    requires
        call_ensures(show, (profile, instances, name, described), r),
        0 <= k < described@.len(),
    ensures
        exists|j: int|
            0 <= j < r.data@.len() && crate::cmd::ec2::detail_is(
                #[trigger] r.data@[j],
                described@[k],
            ),
{
    let ds = choose|ds: Seq<InstanceDetail>|
        crate::cmd::ec2::details_are(ds, described@) && r.data@ == #[trigger] ordered(ds);
    sorting_permutes(ds);
    crate::order::permuted_is_same(ordered(ds), ds);
    assert(crate::cmd::ec2::detail_is(ds[k], described@[k]));
    assert(ds.contains(ds[k]));
    assert(ordered(ds).contains(ds[k]));
    let j = choose|j: int| 0 <= j < ordered(ds).len() && ordered(ds)[j] == ds[k];
    assert(r.data@[j] == ds[k]);
}

} // verus!
