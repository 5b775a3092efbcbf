//! `awsdiag metrics`: CloudWatch metric retrieval on a shared timeline.

use crate::common::envelope::{capped, Envelope};
use crate::common::errors::{Error, Fault};
use crate::common::flags::Window;
use crate::common::time::{
    rfc3339_text, seconds, seconds_between, to_rfc3339, to_zulu, zulu_text, Instant,
    MAX_DELTA,
};
use crate::glob::opt_text;
use crate::json::{
    self, fields_of, items_of, key_index_is, number_or_null, text_array, text_or_null, with_field,
    Json, JsonTree,
};
use crate::metrics::align::{
    acceptable_period, align, all_gaps, choose_period, contended, contenders, dated,
    is_acceptable_period, is_mode, native_period, period_for, rank, row_values, series_count,
    the_timeline_is_dated, timeline, value_at, Matrix, Rank, Row, Series, Summary,
    MIN_GAPS_TO_INFER,
};
use crate::order::{
    in_order, inserted, insertion_keeps_order, insertion_permutes, ordered, up_to, Ordered,
};
use crate::text::{
    all, all_in, chars_of, cut, cut_last, decimal, decimal_of, decimal_value, extend, join, joined,
    less_str, pieces, read_decimal, rsplit_once, same_str, signed_decimal, signed_decimal_of, split,
    split_once, string_of, strings, texts, trim, trimmed, CharClass,
};
use vstd::prelude::*;
use vstd::slice::slice_subrange;
use vstd::string::StringExecFns;

verus! {

/// CloudWatch accepts at most this many queries in one `GetMetricData` call.
pub const MAX_QUERIES_PER_CALL: usize = 500;

/// The reserved column holding each row's instant.
pub const TIMESTAMP_KEY: &'static str = "ts";

// ---------------------------------------------------------------------------
// Series
// ---------------------------------------------------------------------------

/// One thing to plot: a namespace, a metric, a statistic and dimensions.
#[derive(Debug, Clone)]
pub struct SeriesSpec {
    pub label: String,
    pub namespace: String,
    pub metric: String,
    pub stat: String,
    pub dimensions: Vec<(String, String)>,
}

/// The content of a `SeriesSpec`.
pub struct Plot {
    pub label: Seq<char>,
    pub namespace: Seq<char>,
    pub metric: Seq<char>,
    pub stat: Seq<char>,
    pub dimensions: Seq<(Seq<char>, Seq<char>)>,
}

/// The contents of pairs.
pub open spec fn pairs(v: Seq<(String, String)>) -> Seq<(Seq<char>, Seq<char>)> {
    v.map_values(|p: (String, String)| (p.0@, p.1@))
}

impl View for SeriesSpec {
    type V = Plot;

    open spec fn view(&self) -> Plot {
        Plot {
            label: self.label@,
            namespace: self.namespace@,
            metric: self.metric@,
            stat: self.stat@,
            dimensions: pairs(self.dimensions@),
        }
    }
}

/// The contents of series.
pub open spec fn plots(v: Seq<SeriesSpec>) -> Seq<Plot> {
    v.map_values(|s: SeriesSpec| s@)
}

/// What a malformed series is refused for.
pub open spec fn bad_spec(raw: Seq<char>, reason: Seq<char>) -> Fault {
    Fault::BadSpec { spec: raw, reason }
}

/// The dimensions that comma-separated parts tell, in order; parts that hold
/// nothing are passed over, and the first malformed one decides the refusal.
pub open spec fn dimensions_of(raw: Seq<char>, parts: Seq<Seq<char>>) -> Result<
    Seq<(Seq<char>, Seq<char>)>,
    Fault,
>
    decreases parts.len(),
{
    if parts.len() == 0 {
        Ok(Seq::empty())
    } else {
        let part = parts.last();
        match dimensions_of(raw, parts.drop_last()) {
            Err(e) => Err(e),
            Ok(found) => if trimmed(part, CharClass::White).len() == 0 {
                Ok(found)
            } else {
                match cut(part, '=') {
                    None => Err(bad_spec(raw, "dimensions are Name=Value"@)),
                    Some((k, v)) => {
                        let name = trimmed(k, CharClass::White);
                        let value = trimmed(v, CharClass::White);
                        if name.len() == 0 || value.len() == 0 {
                            Err(
                                bad_spec(raw, "dimension name and value must both be present"@),
                            )
                        } else {
                            Ok(found.push((name, value)))
                        }
                    },
                }
            },
        }
    }
}

/// The series a text tells.
pub open spec fn plot_of(raw: Seq<char>) -> Result<Plot, Fault> {
    let (head, dims) = match cut(raw, ',') {
        Some((h, d)) => (h, d),
        None => (raw, ""@),
    };
    let (path, stat) = match cut_last(head, ':') {
        Some((p, s)) => (p, s),
        None => (head, "Average"@),
    };
    match cut_last(path, '/') {
        None => Err(bad_spec(raw, "expected Namespace/MetricName"@)),
        Some((namespace, metric)) => if namespace.len() == 0 || metric.len() == 0 {
            Err(bad_spec(raw, "namespace and metric name must both be present"@))
        } else {
            match dimensions_of(raw, pieces(dims, ',')) {
                Err(e) => Err(e),
                Ok(dimensions) => Ok(Plot { label: raw, namespace, metric, stat, dimensions }),
            }
        },
    }
}

/// The content of a parse.
pub open spec fn plotted(r: Result<SeriesSpec, Error>) -> Result<Plot, Fault> {
    match r {
        Ok(s) => Ok(s@),
        Err(e) => Err(e@),
    }
}

/// Refuse a malformed series.
fn bad(raw: &str, why: &str) -> (r: Error)
    ensures
        r@ == bad_spec(raw@, why@),
{
    Error::BadSpec { spec: raw.to_owned(), reason: why.to_owned() }
}

/// Read dimensions.
fn parse_dimensions(raw: &str, dims: &[char]) -> (r: Result<Vec<(String, String)>, Error>)
    ensures
        (match r {
            Ok(v) => Ok(pairs(v@)),
            Err(e) => Err(e@),
        }) == dimensions_of(raw@, pieces(dims@, ',')),
{
    let parts = split(dims, ',');
    let ghost all = pieces(dims@, ',');
    let mut out: Vec<(String, String)> = Vec::new();
    let mut i: usize = 0;
    proof {
        assert(texts(parts@).len() == parts@.len());
        assert(pairs(out@) =~= Seq::empty());
    }
    while i < parts.len()
        invariant
            i <= parts@.len(),
            texts(parts@) == all,
            all == pieces(dims@, ','),
            dimensions_of(raw@, all.take(i as int)) == Ok::<_, Fault>(pairs(out@)),
        decreases parts@.len() - i,
    {
        let part = parts[i].as_slice();
        let ghost next = all.take(i + 1);
        proof {
            assert(all[i as int] == part@);
            assert(next.drop_last() == all.take(i as int));
            assert(next.last() == part@);
        }
        if trim(part, CharClass::White).len() > 0 {
            match split_once(part, '=') {
                None => {
                    proof {
                        failure_stays(raw@, all, i + 1);
                    }
                    return Err(bad(raw, "dimensions are Name=Value"));
                },
                Some((k, v)) => {
                    let name = trim(k, CharClass::White);
                    let value = trim(v, CharClass::White);
                    if name.len() == 0 || value.len() == 0 {
                        proof {
                            failure_stays(raw@, all, i + 1);
                        }
                        return Err(bad(raw, "dimension name and value must both be present"));
                    }
                    let ghost out0 = out@;
                    out.push((string_of(name), string_of(value)));
                    proof {
                        assert(pairs(out@) == pairs(out0).push((name@, value@)));
                    }
                },
            }
        }
        i += 1;
    }
    proof {
        assert(all.take(i as int) == all);
    }
    Ok(out)
}

/// A refusal of the first parts refuses them all, for the same reason.
proof fn failure_stays(raw: Seq<char>, parts: Seq<Seq<char>>, n: int)
    requires
        0 <= n <= parts.len(),
        dimensions_of(raw, parts.take(n)) is Err,
    ensures
        dimensions_of(raw, parts) == dimensions_of(raw, parts.take(n)),
    decreases parts.len() - n,
{
    if n < parts.len() {
        assert(parts.take(n + 1).drop_last() == parts.take(n));
        failure_stays(raw, parts, n + 1);
    } else {
        assert(parts.take(n) == parts);
    }
}

impl SeriesSpec {
    /// Parse `Namespace/MetricName[:Stat][,Dim=Value...]`, e.g.
    /// `AWS/EC2/CPUUtilization:Average,InstanceId=i-0abc`.
    ///
    /// A single string keeps a many-series request expressible on one command
    /// line, which is what `metrics compare` is for. Namespaces contain a
    /// slash (`AWS/EC2`), so the metric name is the final segment and
    /// everything before it is the namespace.
    pub fn parse(raw: &str) -> (r: Result<SeriesSpec, Error>)
        ensures
            plotted(r) == plot_of(raw@),
    {
        let cs = chars_of(raw);
        let whole = cs.as_slice();
        let empty = slice_subrange(whole, 0, 0);
        proof {
            reveal_strlit("");
            assert(empty@ == ""@);
        }
        let (head, dims) = match split_once(whole, ',') {
            Some((h, d)) => (h, d),
            None => (whole, empty),
        };
        let average = chars_of("Average");
        let (path, stat) = match rsplit_once(head, ':') {
            Some((p, s)) => (p, s),
            None => (head, average.as_slice()),
        };
        match rsplit_once(path, '/') {
            None => Err(bad(raw, "expected Namespace/MetricName")),
            Some((namespace, metric)) => {
                if namespace.len() == 0 || metric.len() == 0 {
                    return Err(bad(raw, "namespace and metric name must both be present"));
                }
                match parse_dimensions(raw, dims) {
                    Err(e) => Err(e),
                    Ok(dimensions) => Ok(
                        SeriesSpec {
                            label: raw.to_owned(),
                            namespace: string_of(namespace),
                            metric: string_of(metric),
                            stat: string_of(stat),
                            dimensions,
                        },
                    ),
                }
            },
        }
    }

    /// The full spec, used when nothing shorter tells this series apart.
    pub fn full_label(&self) -> (r: String)
        ensures
            r@ == self@.label,
    {
        self.label.as_str().to_owned()
    }
}

// ---------------------------------------------------------------------------
// Labels
// ---------------------------------------------------------------------------

/// The value of the first dimension with a name.
pub open spec fn value_of(dims: Seq<(Seq<char>, Seq<char>)>, name: Seq<char>) -> Option<Seq<char>>
    decreases dims.len(),
{
    if dims.len() == 0 {
        None
    } else if dims[0].0 == name {
        Some(dims[0].1)
    } else {
        value_of(dims.skip(1), name)
    }
}

/// Whether a dimension tells some series from another.
pub open spec fn varies(ps: Seq<Plot>, name: Seq<char>) -> bool {
    exists|i: int|
        0 <= i < ps.len() && value_of((#[trigger] ps[i]).dimensions, name) != value_of(
            ps[0].dimensions,
            name,
        )
}

/// Whether the metric tells some series from another.
pub open spec fn metric_varies(ps: Seq<Plot>) -> bool {
    exists|i: int| 0 <= i < ps.len() && (#[trigger] ps[i]).metric != ps[0].metric
}

/// The names of a series' dimensions.
pub open spec fn dimension_names(p: Plot) -> Seq<Seq<char>> {
    p.dimensions.map_values(|d: (Seq<char>, Seq<char>)| d.0)
}

/// `found`, and those of `names` that vary and are not in it yet.
pub open spec fn varying_among(ps: Seq<Plot>, found: Seq<Seq<char>>, names: Seq<Seq<char>>) -> Seq<
    Seq<char>,
>
    decreases names.len(),
{
    if names.len() == 0 {
        found
    } else {
        let past = varying_among(ps, found, names.drop_last());
        if !past.contains(names.last()) && varies(ps, names.last()) {
            past.push(names.last())
        } else {
            past
        }
    }
}

/// The dimensions of the first `n` series that vary across them all, in order
/// of first appearance.
pub open spec fn varying(ps: Seq<Plot>, n: int) -> Seq<Seq<char>>
    decreases n,
{
    if n <= 0 || n > ps.len() {
        Seq::empty()
    } else {
        varying_among(ps, varying(ps, n - 1), dimension_names(ps[n - 1]))
    }
}

/// The values of a series' own dimensions among `names`.
pub open spec fn values_among(p: Plot, names: Seq<Seq<char>>) -> Seq<Seq<char>>
    decreases names.len(),
{
    if names.len() == 0 {
        Seq::empty()
    } else {
        match value_of(p.dimensions, names.last()) {
            Some(v) => values_among(p, names.drop_last()).push(v),
            None => values_among(p, names.drop_last()),
        }
    }
}

/// A series told by its metric, where that is called for, and the values of
/// the dimensions that vary.
pub open spec fn short_label(p: Plot, names: Seq<Seq<char>>, with_metric: bool) -> Seq<char> {
    let values = values_among(p, names);
    let parts = if with_metric {
        seq![p.metric] + values
    } else {
        values
    };
    if parts.len() == 0 {
        p.metric
    } else {
        joined(parts, " "@)
    }
}

/// Each series told by what distinguishes it from the others.
pub open spec fn short_labels(ps: Seq<Plot>) -> Seq<Seq<char>> {
    let names = varying(ps, ps.len() as int);
    let with_metric = metric_varies(ps) || names.len() == 0;
    ps.map_values(|p: Plot| short_label(p, names, with_metric))
}

/// Labels that no two series share, and none of which is the timestamp's.
pub open spec fn tell_apart(labels: Seq<Seq<char>>) -> bool {
    labels.no_duplicates() && !labels.contains(TIMESTAMP_KEY@)
}

/// The full text of each series.
pub open spec fn full_labels(ps: Seq<Plot>) -> Seq<Seq<char>> {
    ps.map_values(|p: Plot| p.label)
}

/// The labels of series: short ones where they tell the series apart, or else
/// the full texts.
pub open spec fn labels_for(ps: Seq<Plot>) -> Seq<Seq<char>> {
    if tell_apart(short_labels(ps)) {
        short_labels(ps)
    } else {
        full_labels(ps)
    }
}

/// Find `value_of`.
fn find_value<'a>(dims: &'a Vec<(String, String)>, name: &str) -> (r: Option<&'a str>)
    ensures
        (match r {
            Some(v) => Some(v@),
            None => None,
        }) == value_of(pairs(dims@), name@),
{
    let ghost all = pairs(dims@);
    let mut i: usize = 0;
    proof {
        assert(all.skip(0) == all);
    }
    while i < dims.len()
        invariant
            i <= dims@.len(),
            all == pairs(dims@),
            value_of(all.skip(i as int), name@) == value_of(all, name@),
        decreases dims@.len() - i,
    {
        proof {
            assert(all.skip(i as int)[0] == (dims@[i as int].0@, dims@[i as int].1@));
            assert(all.skip(i as int).skip(1) == all.skip(i + 1));
        }
        if same_str(dims[i].0.as_str(), name) {
            return Some(dims[i].1.as_str());
        }
        i += 1;
    }
    None
}

/// Decide whether two optional texts are the same.
fn same_opt(a: Option<&str>, b: Option<&str>) -> (r: bool)
    ensures
        r == ((match a {
            Some(x) => Some(x@),
            None => None,
        }) == (match b {
            Some(x) => Some(x@),
            None => None,
        })),
{
    match (a, b) {
        (Some(x), Some(y)) => same_str(x, y),
        (None, None) => true,
        _ => false,
    }
}

/// Decide `varies`.
fn does_vary(specs: &[SeriesSpec], name: &str) -> (r: bool)
    ensures
        r == varies(plots(specs@), name@),
{
    let ghost ps = plots(specs@);
    let mut i: usize = 0;
    while i < specs.len()
        invariant
            i <= specs@.len(),
            ps == plots(specs@),
            forall|j: int|
                0 <= j < i ==> value_of((#[trigger] ps[j]).dimensions, name@) == value_of(
                    ps[0].dimensions,
                    name@,
                ),
        decreases specs@.len() - i,
    {
        proof {
            assert(ps[i as int] == specs@[i as int]@);
            assert(ps[0] == specs@[0]@);
        }
        let a = find_value(&specs[i].dimensions, name);
        let b = find_value(&specs[0].dimensions, name);
        if !same_opt(a, b) {
            proof {
                assert(value_of(ps[i as int].dimensions, name@) != value_of(
                    ps[0].dimensions,
                    name@,
                ));
            }
            return true;
        }
        i += 1;
    }
    false
}

/// Decide `metric_varies`.
fn does_metric_vary(specs: &[SeriesSpec]) -> (r: bool)
    ensures
        r == metric_varies(plots(specs@)),
{
    let ghost ps = plots(specs@);
    let mut i: usize = 0;
    while i < specs.len()
        invariant
            i <= specs@.len(),
            ps == plots(specs@),
            forall|j: int| 0 <= j < i ==> (#[trigger] ps[j]).metric == ps[0].metric,
        decreases specs@.len() - i,
    {
        proof {
            assert(ps[i as int] == specs@[i as int]@);
            assert(ps[0] == specs@[0]@);
        }
        if !same_str(specs[i].metric.as_str(), specs[0].metric.as_str()) {
            proof {
                assert(ps[i as int].metric != ps[0].metric);
            }
            return true;
        }
        i += 1;
    }
    false
}

/// Decide whether texts hold a text.
fn holds(v: &Vec<String>, t: &str) -> (r: bool)
    ensures
        r == strings(v@).contains(t@),
{
    let mut i: usize = 0;
    while i < v.len()
        invariant
            i <= v@.len(),
            forall|j: int| 0 <= j < i ==> #[trigger] strings(v@)[j] != t@,
        decreases v@.len() - i,
    {
        proof {
            assert(strings(v@)[i as int] == v@[i as int]@);
        }
        if same_str(v[i].as_str(), t) {
            proof {
                assert(strings(v@)[i as int] == t@);
            }
            return true;
        }
        i += 1;
    }
    proof {
        assert(strings(v@).len() == v@.len());
    }
    false
}

/// Find the dimensions that vary.
fn find_varying(specs: &[SeriesSpec]) -> (r: Vec<String>)
    ensures
        strings(r@) == varying(plots(specs@), specs@.len() as int),
{
    let ghost ps = plots(specs@);
    let mut found: Vec<String> = Vec::new();
    let mut i: usize = 0;
    proof {
        assert(strings(found@) =~= Seq::empty());
    }
    while i < specs.len()
        invariant
            i <= specs@.len(),
            ps == plots(specs@),
            ps.len() == specs@.len(),
            strings(found@) == varying(ps, i as int),
        decreases specs@.len() - i,
    {
        let ghost names = dimension_names(ps[i as int]);
        let ghost before = strings(found@);
        let dims = &specs[i].dimensions;
        let mut k: usize = 0;
        proof {
            assert(ps[i as int] == specs@[i as int]@);
            assert(names.len() == dims@.len());
            assert(names.take(0).len() == 0);
        }
        while k < dims.len()
            invariant
                k <= dims@.len(),
                ps == plots(specs@),
                i < specs@.len(),
                names == dimension_names(ps[i as int]),
                ps[i as int].dimensions == pairs(dims@),
                names.len() == dims@.len(),
                strings(found@) == varying_among(ps, before, names.take(k as int)),
            decreases dims@.len() - k,
        {
            let name = dims[k].0.as_str();
            let ghost found0 = found@;
            proof {
                assert(names[k as int] == name@);
                assert(names.take(k + 1).drop_last() == names.take(k as int));
                assert(names.take(k + 1).last() == name@);
            }
            if !holds(&found, name) && does_vary(specs, name) {
                found.push(name.to_owned());
                proof {
                    assert(strings(found@) == strings(found0).push(name@));
                }
            }
            k += 1;
        }
        proof {
            assert(names.take(k as int) == names);
        }
        i += 1;
    }
    found
}

/// Label one series.
fn label_one(spec: &SeriesSpec, names: &Vec<String>, with_metric: bool) -> (r: String)
    ensures
        r@ == short_label(spec@, strings(names@), with_metric),
{
    let ghost p = spec@;
    let ghost all = strings(names@);
    let ghost head = if with_metric {
        seq![p.metric]
    } else {
        Seq::empty()
    };
    let mut parts: Vec<Vec<char>> = Vec::new();
    if with_metric {
        parts.push(chars_of(spec.metric.as_str()));
    }
    proof {
        assert(texts(parts@) =~= head);
        assert(all.take(0).len() == 0);
        assert(head + values_among(p, all.take(0)) =~= head);
    }
    let mut k: usize = 0;
    while k < names.len()
        invariant
            k <= names@.len(),
            p == spec@,
            all == strings(names@),
            texts(parts@) == head + values_among(p, all.take(k as int)),
        decreases names@.len() - k,
    {
        let ghost parts0 = parts@;
        proof {
            assert(all[k as int] == names@[k as int]@);
            assert(all.take(k + 1).drop_last() == all.take(k as int));
            assert(all.take(k + 1).last() == all[k as int]);
        }
        if let Some(v) = find_value(&spec.dimensions, names[k].as_str()) {
            parts.push(chars_of(v));
            proof {
                assert(texts(parts@) == texts(parts0).push(v@));
                let past = values_among(p, all.take(k as int));
                assert((head + past).push(v@) == head + past.push(v@));
            }
        }
        k += 1;
    }
    proof {
        assert(all.take(k as int) == all);
        let values = values_among(p, all);
        assert(Seq::<Seq<char>>::empty() + values == values);
        assert(texts(parts@).len() == parts@.len());
    }
    if parts.len() == 0 {
        return spec.metric.as_str().to_owned();
    }
    let out = join(&parts, " ");
    string_of(out.as_slice())
}

/// Decide `tell_apart`.
fn do_tell_apart(labels: &Vec<String>) -> (r: bool)
    ensures
        r == tell_apart(strings(labels@)),
{
    let ghost all = strings(labels@);
    let mut i: usize = 0;
    while i < labels.len()
        invariant
            i <= labels@.len(),
            all == strings(labels@),
            forall|a: int, b: int| 0 <= a < b < i ==> #[trigger] all[a] != #[trigger] all[b],
            forall|a: int| 0 <= a < i ==> #[trigger] all[a] != TIMESTAMP_KEY@,
        decreases labels@.len() - i,
    {
        proof {
            assert(all[i as int] == labels@[i as int]@);
        }
        if same_str(labels[i].as_str(), TIMESTAMP_KEY) {
            proof {
                assert(all.contains(TIMESTAMP_KEY@));
            }
            return false;
        }
        let mut k: usize = 0;
        while k < i
            invariant
                k <= i < labels@.len(),
                all == strings(labels@),
                forall|a: int| 0 <= a < k ==> #[trigger] all[a] != all[i as int],
            decreases i - k,
        {
            proof {
                assert(all[k as int] == labels@[k as int]@);
                assert(all[i as int] == labels@[i as int]@);
            }
            if same_str(labels[k].as_str(), labels[i].as_str()) {
                proof {
                    assert(all[k as int] == all[i as int]);
                    assert(!all.no_duplicates());
                }
                return false;
            }
            k += 1;
        }
        i += 1;
    }
    proof {
        assert(all.len() == labels@.len());
    }
    true
}

/// Label each series by what actually distinguishes it from the others.
///
/// Taking the last dimension is not enough. Dimensions are often listed
/// alphabetically, so the final one is frequently shared, and a legend of
/// identical entries is no legend at all. So the distinguishing dimensions
/// are worked out across the whole set: a dimension earns a place in the label
/// only where its value actually varies.
///
/// Rows are emitted as objects keyed by label alongside a `ts` key. A label of
/// exactly `ts` would overwrite every timestamp, so a collision with it falls
/// back to full specs exactly as a collision between labels does.
pub fn label_series(specs: &[SeriesSpec]) -> (r: Vec<String>)
    ensures
        strings(r@) == labels_for(plots(specs@)),
{
    let ghost ps = plots(specs@);
    let names = find_varying(specs);
    proof {
        assert(strings(names@).len() == names@.len());
    }
    let with_metric = does_metric_vary(specs) || names.len() == 0;
    let mut labels: Vec<String> = Vec::new();
    let ghost want = short_labels(ps);
    let mut i: usize = 0;
    while i < specs.len()
        invariant
            i <= specs@.len(),
            ps == plots(specs@),
            strings(names@) == varying(ps, ps.len() as int),
            with_metric == (metric_varies(ps) || strings(names@).len() == 0),
            want == short_labels(ps),
            want.len() == specs@.len(),
            strings(labels@) == want.take(i as int),
        decreases specs@.len() - i,
    {
        let ghost labels0 = labels@;
        labels.push(label_one(&specs[i], &names, with_metric));
        proof {
            assert(ps[i as int] == specs@[i as int]@);
            assert(strings(labels@) == strings(labels0).push(want[i as int]));
            assert(want.take(i + 1) == want.take(i as int).push(want[i as int]));
        }
        i += 1;
    }
    proof {
        assert(want.take(i as int) == want);
    }
    if do_tell_apart(&labels) {
        return labels;
    }
    full_texts(specs)
}

/// The full text of each series.
fn full_texts(specs: &[SeriesSpec]) -> (r: Vec<String>)
    ensures
        strings(r@) == full_labels(plots(specs@)),
{
    let ghost want = full_labels(plots(specs@));
    let mut out: Vec<String> = Vec::new();
    let mut i: usize = 0;
    while i < specs.len()
        invariant
            i <= specs@.len(),
            want == full_labels(plots(specs@)),
            strings(out@) == want.take(i as int),
        decreases specs@.len() - i,
    {
        let ghost out0 = out@;
        out.push(specs[i].full_label());
        proof {
            assert(plots(specs@)[i as int] == specs@[i as int]@);
            assert(strings(out@) == strings(out0).push(want[i as int]));
            assert(want.take(i + 1) == want.take(i as int).push(want[i as int]));
        }
        i += 1;
    }
    proof {
        assert(want.take(i as int) == want);
    }
    out
}

/// Labels are distinct and never the timestamp's, whenever the full texts of
/// the series are; only series that are told by the same text, or by the
/// reserved one, can collide.
pub proof fn labels_are_distinct(ps: Seq<Plot>)
    requires
        tell_apart(full_labels(ps)),
    ensures
        tell_apart(labels_for(ps)),
        labels_for(ps).len() == ps.len(),
{
}

/// A series that was parsed is never told by the reserved text.
pub proof fn a_parsed_series_is_not_reserved(raw: Seq<char>)
    requires
        plot_of(raw) is Ok,
    ensures
        plot_of(raw)->Ok_0.label != TIMESTAMP_KEY@,
{
    reveal_strlit("ts");
    let (head, dims) = match cut(raw, ',') {
        Some((h, d)) => (h, d),
        None => (raw, ""@),
    };
    let (path, stat) = match cut_last(head, ':') {
        Some((p, s)) => (p, s),
        None => (head, "Average"@),
    };
    crate::text::lead_len_stops(raw, CharClass::Except(','));
    crate::text::trail_len_stops(head, CharClass::Except(':'));
    crate::text::trail_len_stops(path, CharClass::Except('/'));
    if raw == "ts"@ {
        assert(raw[0] == 't' && raw[1] == 's');
        assert(path.len() <= head.len() <= raw.len());
        let n = path.len() - crate::text::trail_len(path, CharClass::Except('/')) - 1;
        assert(path[n] == '/');
        assert(path[n] == head[n] && head[n] == raw[n]);
    }
}

// ---------------------------------------------------------------------------
// Queries
// ---------------------------------------------------------------------------

/// One query of a `GetMetricData` call.
#[derive(Debug)]
pub struct Query {
    pub id: String,
    pub namespace: String,
    pub metric: String,
    pub stat: String,
    pub period: i32,
    pub dimensions: Vec<(String, String)>,
}

/// The id of the query at an index.
pub open spec fn id_of(index: nat) -> Seq<char> {
    seq!['q'] + decimal(index)
}

/// The index an id tells: what follows its `q`, which may be signed with a
/// plus.
pub open spec fn index_of(id: Seq<char>) -> Option<nat> {
    if id.len() == 0 || id[0] != 'q' {
        None
    } else {
        let rest = id.skip(1);
        let digits = if rest.len() > 0 && rest[0] == '+' {
            rest.skip(1)
        } else {
            rest
        };
        if digits.len() > 0 && all_in(digits, CharClass::Digit) && decimal_value(digits)
            <= usize::MAX {
            Some(decimal_value(digits))
        } else {
            None
        }
    }
}

/// Write a query's id.
pub fn query_id(index: usize) -> (r: String)
    ensures
        r@ == id_of(index as nat),
{
    let mut out: Vec<char> = Vec::new();
    out.push('q');
    let digits = decimal_of(index as u64);
    extend(&mut out, digits.as_slice());
    proof {
        assert(out@ == id_of(index as nat));
    }
    string_of(out.as_slice())
}

/// Find `index_of`.
pub fn query_index(id: &str) -> (r: Option<usize>)
    ensures
        r is Some <==> index_of(id@) is Some,
        r is Some ==> r->0 == index_of(id@)->0,
{
    let cs = chars_of(id);
    if cs.len() == 0 || cs[0] != 'q' {
        return None;
    }
    let rest = slice_subrange(cs.as_slice(), 1, cs.len());
    let digits = if rest.len() > 0 && rest[0] == '+' {
        slice_subrange(rest, 1, rest.len())
    } else {
        rest
    };
    if digits.len() == 0 || !all(digits, CharClass::Digit) {
        return None;
    }
    match read_decimal(digits) {
        Some(n) => {
            if n <= usize::MAX as u64 {
                Some(n as usize)
            } else {
                None
            }
        },
        None => None,
    }
}

/// A period as the API takes it: as much of it as 32 bits hold.
pub open spec fn api_period(period: int) -> int {
    if i32::MIN <= period <= i32::MAX {
        period
    } else {
        i32::MAX as int
    }
}

/// Copy pairs of texts.
fn copy_pairs(v: &Vec<(String, String)>) -> (r: Vec<(String, String)>)
    ensures
        pairs(r@) == pairs(v@),
{
    let mut out: Vec<(String, String)> = Vec::new();
    let mut i: usize = 0;
    while i < v.len()
        invariant
            i <= v@.len(),
            pairs(out@) == pairs(v@).take(i as int),
        decreases v@.len() - i,
    {
        let ghost out0 = out@;
        out.push((v[i].0.as_str().to_owned(), v[i].1.as_str().to_owned()));
        proof {
            assert(pairs(out@) == pairs(out0).push(pairs(v@)[i as int]));
            assert(pairs(v@).take(i + 1) == pairs(v@).take(i as int).push(pairs(v@)[i as int]));
        }
        i += 1;
    }
    proof {
        assert(pairs(v@).take(i as int) == pairs(v@));
    }
    out
}

/// Ask for one series.
pub fn build_query(index: usize, spec: &SeriesSpec, period: i64) -> (r: Query)
    ensures
        r.id@ == id_of(index as nat),
        r.namespace@ == spec@.namespace,
        r.metric@ == spec@.metric,
        r.stat@ == spec@.stat,
        r.period == api_period(period as int),
        pairs(r.dimensions@) == spec@.dimensions,
{
    Query {
        id: query_id(index),
        namespace: spec.namespace.as_str().to_owned(),
        metric: spec.metric.as_str().to_owned(),
        stat: spec.stat.as_str().to_owned(),
        period: if i32::MIN as i64 <= period && period <= i32::MAX as i64 {
            period as i32
        } else {
            i32::MAX
        },
        dimensions: copy_pairs(&spec.dimensions),
    }
}

/// The first index and the length of each call's share of `n` queries.
pub open spec fn batch_starts(n: int, from: int) -> Seq<(int, int)>
    decreases n - from,
{
    if from >= n {
        Seq::empty()
    } else if n - from <= MAX_QUERIES_PER_CALL {
        seq![(from, n - from)]
    } else {
        seq![(from, MAX_QUERIES_PER_CALL as int)] + batch_starts(
            n,
            from + MAX_QUERIES_PER_CALL as int,
        )
    }
}

/// Index pairs as integers.
pub open spec fn int_pairs(v: Seq<(usize, usize)>) -> Seq<(int, int)> {
    v.map_values(|p: (usize, usize)| (p.0 as int, p.1 as int))
}

/// Share `n` queries out among calls.
pub fn batches(n: usize) -> (r: Vec<(usize, usize)>)
    ensures
        int_pairs(r@) == batch_starts(n as int, 0),
{
    let mut out: Vec<(usize, usize)> = Vec::new();
    let mut from: usize = 0;
    let ghost whole = batch_starts(n as int, 0);
    proof {
        assert(int_pairs(out@) + whole =~= whole);
    }
    while from < n
        invariant
            from <= n,
            whole == batch_starts(n as int, 0),
            int_pairs(out@) + batch_starts(n as int, from as int) == whole,
        decreases n - from,
    {
        let ghost out0 = out@;
        let len = if n - from <= MAX_QUERIES_PER_CALL {
            n - from
        } else {
            MAX_QUERIES_PER_CALL
        };
        out.push((from, len));
        proof {
            let p = (from as int, len as int);
            assert(int_pairs(out@) == int_pairs(out0).push(p));
            let rest = batch_starts(n as int, from + len);
            assert(batch_starts(n as int, from as int) =~= seq![p] + rest);
            assert(int_pairs(out0) + (seq![p] + rest) == int_pairs(out0).push(p) + rest);
        }
        from += len;
    }
    proof {
        assert(int_pairs(out@) + batch_starts(n as int, n as int) == int_pairs(out@));
    }
    out
}

/// The batches cover the queries: each starts where the one before ends, and
/// none asks for more than a call takes.
pub proof fn batches_cover_the_queries(n: int, from: int, k: int)
    requires
        0 <= from <= n,
        0 <= k < batch_starts(n, from).len(),
    ensures
        batch_starts(n, from)[0].0 == from,
        0 < batch_starts(n, from)[k].1 <= MAX_QUERIES_PER_CALL,
        k + 1 < batch_starts(n, from).len() ==> batch_starts(n, from)[k + 1].0 == batch_starts(
            n,
            from,
        )[k].0 + batch_starts(n, from)[k].1,
        k + 1 == batch_starts(n, from).len() ==> n == batch_starts(n, from)[k].0 + batch_starts(
            n,
            from,
        )[k].1,
    decreases n - from,
{
    if n - from > MAX_QUERIES_PER_CALL {
        let next = from + MAX_QUERIES_PER_CALL;
        let rest = batch_starts(n, next);
        assert(rest.len() > 0);
        batches_cover_the_queries(n, next, 0);
        if k > 0 {
            batches_cover_the_queries(n, next, k - 1);
            assert(batch_starts(n, from)[k] == rest[k - 1]);
            if k + 1 < batch_starts(n, from).len() {
                assert(batch_starts(n, from)[k + 1] == rest[k]);
            }
        } else {
            assert(batch_starts(n, from)[1] == rest[0]);
        }
    }
}

/// Digits tell the number they were written from.
proof fn decimal_tells_its_number(n: nat)
    ensures
        decimal(n).len() > 0,
        all_in(decimal(n), CharClass::Digit),
        decimal_value(decimal(n)) == n,
    decreases n,
{
    if n >= 10 {
        decimal_tells_its_number(n / 10);
        let d = decimal(n / 10);
        let c = crate::text::digit_char(n % 10);
        assert(decimal(n) == d.push(c));
        assert(d.push(c).drop_last() == d);
    } else {
        let c = crate::text::digit_char(n);
        assert(decimal(n) == seq![c]);
        assert(seq![c].drop_last() == Seq::<char>::empty());
        reveal_with_fuel(decimal_value, 2);
    }
}

/// A result maps back to the query that asked for it, whatever the order the
/// results come back in.
pub proof fn a_result_maps_back_to_its_query(index: nat)
    requires
        index <= usize::MAX,
    ensures
        index_of(id_of(index)) == Some(index),
{
    decimal_tells_its_number(index);
    let d = decimal(index);
    assert(id_of(index).skip(1) == d);
    assert(CharClass::Digit.has(d[0]));
}

// ---------------------------------------------------------------------------
// Replies
// ---------------------------------------------------------------------------

/// A series per query of a call, labelled and without points.
pub fn blank_series<T>(labels: &Vec<String>, from: usize, n: usize) -> (r: Vec<Series<T>>)
    requires
        from + n <= labels@.len(),
    ensures
        r@.len() == n,
        forall|i: int|
            0 <= i < n ==> (#[trigger] r@[i]).label@ == labels@[from + i]@ && r@[i].points@.len()
                == 0,
{
    let mut out: Vec<Series<T>> = Vec::new();
    let total = labels.len();
    let mut i: usize = 0;
    while i < n
        invariant
            i <= n,
            total == labels@.len(),
            from + n <= total,
            out@.len() == i,
            forall|k: int|
                0 <= k < i ==> (#[trigger] out@[k]).label@ == labels@[from + k]@
                    && out@[k].points@.len() == 0,
        decreases n - i,
    {
        out.push(Series { label: labels[from + i].as_str().to_owned(), points: Vec::new() });
        i += 1;
    }
    out
}

/// The points of a reply: each time of the calendar beside its value.
pub open spec fn received<T>(times: Seq<i64>, values: Seq<T>, n: int) -> Seq<(Instant, T)>
    decreases n,
{
    if n <= 0 || n > times.len() || n > values.len() {
        Seq::empty()
    } else {
        let at = Instant { secs: times[n - 1], nanos: 0 };
        if at.valid() {
            received(times, values, n - 1).push((at, values[n - 1]))
        } else {
            received(times, values, n - 1)
        }
    }
}

/// The lesser of two lengths.
pub open spec fn shorter(a: int, b: int) -> int {
    if a < b {
        a
    } else {
        b
    }
}

/// Take one result of a reply into the series of the query that asked for it.
/// A result that no query asked for is passed over.
pub fn absorb_result<T: Copy>(
    results: &mut Vec<Series<T>>,
    id: Option<&str>,
    times: &Vec<i64>,
    values: &Vec<T>,
)
    ensures
        final(results)@.len() == old(results)@.len(),
        ({
            let slot = match id {
                Some(t) => index_of(t@),
                None => None,
            };
            forall|i: int|
                0 <= i < old(results)@.len() ==> {
                    &&& (#[trigger] final(results)@[i]).label == old(results)@[i].label
                    &&& final(results)@[i].points@ == old(results)@[i].points@ + (if slot == Some(
                        i as nat,
                    ) {
                        received(
                            times@,
                            values@,
                            shorter(times@.len() as int, values@.len() as int),
                        )
                    } else {
                        Seq::empty()
                    })
                }
        }),
        id is None ==> forall|i: int|
            0 <= i < old(results)@.len() ==> (#[trigger] final(results)@[i]).points@
                == old(results)@[i].points@,
        forall|i: int|
            0 <= i < old(results)@.len() && id is Some && index_of(id->0@) != Some(i as nat) ==> (
            #[trigger] final(results)@[i]).points@ == old(results)@[i].points@,
        forall|i: int|
            0 <= i < old(results)@.len() && id is Some && index_of(id->0@) == Some(i as nat)
                && times@.len() == values@.len() ==> (#[trigger] final(results)@[i]).points@
                == old(results)@[i].points@ + received(times@, values@, times@.len() as int),
{
    let slot = match id {
        Some(t) => query_index(t),
        None => None,
    };
    let ghost before = results@;
    proof {
        assert forall|i: int| 0 <= i < before.len() implies (#[trigger] before[i]).points@
            + Seq::empty() == before[i].points@ by {}
    }
    match slot {
        Some(i) => {
            if i < results.len() {
                let n = if times.len() < values.len() {
                    times.len()
                } else {
                    values.len()
                };
                let mut k: usize = 0;
                while k < n
                    invariant
                        i < results@.len(),
                        results@.len() == before.len(),
                        k <= n,
                        n <= times@.len(),
                        n <= values@.len(),
                        forall|j: int|
                            0 <= j < before.len() && j != i ==> #[trigger] results@[j]
                                == before[j],
                        results@[i as int].label == before[i as int].label,
                        results@[i as int].points@ == before[i as int].points@ + received(
                            times@,
                            values@,
                            k as int,
                        ),
                    decreases n - k,
                {
                    if let Some(at) = Instant::new(times[k], 0) {
                        let ghost past = received(times@, values@, k as int);
                        results[i].points.push((at, values[k]));
                        proof {
                            assert((before[i as int].points@ + past).push((at, values@[k as int]))
                                == before[i as int].points@ + past.push((at, values@[k as int])));
                        }
                    }
                    k += 1;
                }
            }
        },
        None => {},
    }
}

/// The most discovered resources that are ranked in one call.
///
/// A namespace can hold thousands of dimension values; fetching every one to
/// rank ten is slow and expensive. Hitting this marks the result truncated
/// rather than quietly ranking an arbitrary subset.
pub const MAX_DISCOVERED: usize = 300;

/// One dimension of a listed metric.
#[derive(Debug)]
pub struct ListedDimension {
    pub name: Option<String>,
    pub value: Option<String>,
}

/// The value of the first dimension with a name, where it has one.
pub open spec fn listed_value(dims: Seq<ListedDimension>, name: Seq<char>) -> Option<Seq<char>>
    decreases dims.len(),
{
    if dims.len() == 0 {
        None
    } else if opt_text(dims[0].name) == Some(name) {
        opt_text(dims[0].value)
    } else {
        listed_value(dims.skip(1), name)
    }
}

/// Values with one noted, in order and without repeats.
pub open spec fn noted(values: Seq<Seq<char>>, v: Option<Seq<char>>) -> Seq<Seq<char>> {
    match v {
        Some(t) => if values.contains(t) {
            values
        } else {
            inserted(values, t)
        },
        None => values,
    }
}

/// The values that listed metrics add, up to the most that are ranked; and
/// whether that many were reached.
pub open spec fn discovered(
    values: Seq<Seq<char>>,
    metrics: Seq<Vec<ListedDimension>>,
    name: Seq<char>,
) -> (Seq<Seq<char>>, bool)
    decreases metrics.len(),
{
    if metrics.len() == 0 {
        (values, false)
    } else {
        let next = noted(values, listed_value(metrics[0]@, name));
        if next.len() >= MAX_DISCOVERED {
            (next, true)
        } else {
            discovered(next, metrics.skip(1), name)
        }
    }
}

/// Find `listed_value`.
fn find_listed<'a>(dims: &'a Vec<ListedDimension>, name: &str) -> (r: Option<&'a str>)
    ensures
        (match r {
            Some(v) => Some(v@),
            None => None,
        }) == listed_value(dims@, name@),
{
    let mut i: usize = 0;
    proof {
        assert(dims@.skip(0) == dims@);
    }
    while i < dims.len()
        invariant
            i <= dims@.len(),
            listed_value(dims@.skip(i as int), name@) == listed_value(dims@, name@),
        decreases dims@.len() - i,
    {
        proof {
            assert(dims@.skip(i as int)[0] == dims@[i as int]);
            assert(dims@.skip(i as int).skip(1) == dims@.skip(i + 1));
        }
        if let Some(n) = &dims[i].name {
            if same_str(n.as_str(), name) {
                return match &dims[i].value {
                    Some(v) => Some(v.as_str()),
                    None => None,
                };
            }
        }
        i += 1;
    }
    None
}

/// Note a value.
fn note(values: &mut Vec<String>, v: &str)
    ensures
        strings(final(values)@) == noted(strings(old(values)@), Some(v@)),
{
    if holds(values, v) {
        return ;
    }
    let ghost s = strings(values@);
    let n = values.len();
    let mut i: usize = n;
    proof {
        assert(s.take(n as int) == s);
        assert(s.skip(n as int) =~= Seq::empty());
        assert(inserted(s, v@) + s.skip(n as int) =~= inserted(s, v@));
    }
    while i > 0 && less_str(v, values[i - 1].as_str())
        invariant
            i <= n,
            n == values@.len(),
            s == strings(values@),
            inserted(s.take(i as int), v@) + s.skip(i as int) == inserted(s, v@),
        decreases i,
    {
        proof {
            let t = s.take(i as int);
            assert(t.last() == values@[i - 1]@);
            assert(t.drop_last() == s.take(i - 1));
            let front = inserted(s.take(i - 1), v@);
            assert(front.push(t.last()) + s.skip(i as int) == front + s.skip(i - 1));
        }
        i -= 1;
    }
    let ghost values0 = values@;
    proof {
        let t = s.take(i as int);
        if i > 0 {
            assert(t.last() == values@[i - 1]@);
        }
        assert(inserted(t, v@) == t.push(v@));
    }
    values.insert(i, v.to_owned());
    proof {
        assert(strings(values@) =~= s.take(i as int).push(v@) + s.skip(i as int));
    }
}

/// Take a page of listed metrics into the values discovered so far. Answers
/// whether as many as are ranked were reached.
pub fn discover_page(
    values: &mut Vec<String>,
    metrics: &Vec<Vec<ListedDimension>>,
    dimension: &str,
) -> (full: bool)
    ensures
        (strings(final(values)@), full) == discovered(
            strings(old(values)@),
            metrics@,
            dimension@,
        ),
{
    let ghost before = strings(values@);
    let mut i: usize = 0;
    proof {
        assert(metrics@.skip(0) == metrics@);
    }
    while i < metrics.len()
        invariant
            i <= metrics@.len(),
            before == strings(old(values)@),
            discovered(strings(values@), metrics@.skip(i as int), dimension@) == discovered(
                before,
                metrics@,
                dimension@,
            ),
        decreases metrics@.len() - i,
    {
        let ghost rest = metrics@.skip(i as int);
        proof {
            assert(rest[0] == metrics@[i as int]);
            assert(rest.skip(1) == metrics@.skip(i + 1));
        }
        let ghost past = strings(values@);
        if let Some(v) = find_listed(&metrics[i], dimension) {
            note(values, v);
        }
        proof {
            assert(strings(values@).len() == values@.len());
            assert(strings(values@) == noted(past, listed_value(rest[0]@, dimension@)));
        }
        if values.len() >= MAX_DISCOVERED {
            return true;
        }
        i += 1;
    }
    false
}

/// Noting keeps values in order and without repeats.
pub proof fn noting_keeps_values_distinct(values: Seq<Seq<char>>, v: Option<Seq<char>>)
    requires
        in_order(values),
        values.no_duplicates(),
    ensures
        in_order(noted(values, v)),
        noted(values, v).no_duplicates(),
        forall|t: Seq<char>| #[trigger]
            noted(values, v).contains(t) <==> values.contains(t) || v == Some(t),
{
    if let Some(x) = v {
        if !values.contains(x) {
            insertion_keeps_order(values, x);
            insertion_permutes(values, x);
            broadcast use vstd::seq_lib::group_to_multiset_ensures;

            let r = inserted(values, x);
            values.lemma_multiset_has_no_duplicates();
            assert forall|t: Seq<char>| #[trigger] r.contains(t) <==> values.contains(t) || t
                == x by {
                assert(r.contains(t) <==> r.to_multiset().count(t) > 0);
                assert(values.contains(t) <==> values.to_multiset().count(t) > 0);
            }
            assert(values.to_multiset().count(x) == 0);
            assert forall|t: Seq<char>| r.to_multiset().contains(t) implies r.to_multiset().count(t)
                == 1 by {
                if t != x {
                    assert(values.to_multiset().count(t) == r.to_multiset().count(t));
                    assert(values.to_multiset().contains(t));
                }
            }
            r.lemma_multiset_has_no_duplicates_conv();
        } else {
            assert(forall|t: Seq<char>| v == Some(t) ==> t == x);
        }
    }
}

// ---------------------------------------------------------------------------
// Resolution
// ---------------------------------------------------------------------------

/// What an unacceptable period is refused for.
pub open spec fn period_message(period: int) -> Seq<char> {
    "--period "@ + signed_decimal(period)
        + " is not one CloudWatch accepts: use 1, 5, 10, 20, 30 or a multiple of 60 seconds"@
}

/// Refuse a period that CloudWatch does not accept, before anything is called.
pub fn check_period(period: Option<i64>) -> (r: Result<(), Error>)
    ensures
        match period {
            Some(p) => if acceptable_period(p as int) {
                r is Ok
            } else {
                r is Err && r->Err_0@ == (Fault::BadArgument { message: period_message(p as int) })
            },
            None => r is Ok,
        },
{
    if let Some(p) = period {
        if !is_acceptable_period(p) {
            let digits = signed_decimal_of(p);
            let shown = string_of(digits.as_slice());
            return Err(
                Error::BadArgument {
                    message: "--period ".to_owned().concat(shown.as_str()).concat(
                        " is not one CloudWatch accepts: use 1, 5, 10, 20, 30 or a multiple of 60 seconds",
                    ),
                },
            );
        }
    }
    Ok(())
}

/// Refuse a comparison of nothing, or at an unacceptable period.
pub fn check_comparison(series: usize, period: Option<i64>) -> (r: Result<(), Error>)
    ensures
        series == 0 ==> r is Err && r->Err_0@ == bad_spec(
            ""@,
            "at least one --series is required"@,
        ),
        series > 0 ==> match period {
            Some(p) => if acceptable_period(p as int) {
                r is Ok
            } else {
                r is Err && r->Err_0@ == (Fault::BadArgument { message: period_message(p as int) })
            },
            None => r is Ok,
        },
{
    if series == 0 {
        return Err(bad("", "at least one --series is required"));
    }
    check_period(period)
}

/// The greater of two numbers.
pub open spec fn no_less(n: int, floor: int) -> int {
    if n < floor {
        floor
    } else {
        n
    }
}

/// The period to query at: the one asked for, or else the finest that suits.
pub open spec fn resolution(window: Window, now: Instant, series: int, asked: Option<i64>) -> int {
    match asked {
        Some(p) => p as int,
        None => period_for(
            no_less(seconds(window.until, window.since), 1),
            no_less(seconds(now, window.since), 0),
            series_count(series),
        ),
    }
}

/// Choose the period to query at.
pub fn query_period(window: Window, now: Instant, series: usize, asked: Option<i64>) -> (r: i64)
    requires
        window.valid(),
        now.valid(),
    ensures
        r == resolution(window, now, series as int, asked),
        asked is None ==> r >= 60,
{
    match asked {
        Some(p) => p,
        None => {
            let w = seconds_between(window.until, window.since);
            let a = seconds_between(now, window.since);
            proof {
                crate::common::time::millis_are_bounded(window.until, window.since);
            }
            choose_period(
                if w < 1 {
                    1
                } else {
                    w
                },
                if a < 0 {
                    0
                } else {
                    a
                },
                series,
            )
        },
    }
}

// ---------------------------------------------------------------------------
// compare
// ---------------------------------------------------------------------------

/// A metric published every 5 minutes queried at 60s resolution returns a
/// matrix that is 80% empty. That is not wrong, but it reads as an outage, so
/// it is said plainly.
pub open spec fn sparse_text(native: Option<i64>, period: int) -> Option<Seq<char>> {
    match native {
        Some(n) => if n > period {
            Some(
                "series report every "@ + signed_decimal(n as int) + "s but were queried at "@
                    + signed_decimal(period) + "s, so most rows are empty; pass --period "@
                    + signed_decimal(n as int) + " for a dense result"@,
            )
        } else {
            None
        },
        None => None,
    }
}

/// A number as text.
fn shown(n: i64) -> (r: String)
    ensures
        r@ == signed_decimal(n as int),
{
    let digits = signed_decimal_of(n);
    string_of(digits.as_slice())
}

/// Find `sparse_text`.
pub fn sparse_note(native: Option<i64>, period: i64) -> (r: Option<String>)
    ensures
        opt_text(r) == sparse_text(native, period as int),
{
    match native {
        Some(n) => {
            if n > period {
                let every = shown(n);
                let at = shown(period);
                Some(
                    "series report every ".to_owned().concat(every.as_str()).concat(
                        "s but were queried at ",
                    ).concat(at.as_str()).concat(
                        "s, so most rows are empty; pass --period ",
                    ).concat(every.as_str()).concat(" for a dense result"),
                )
            } else {
                None
            }
        },
        None => None,
    }
}

/// One row of a comparison: an instant, and the text of each series' number.
#[derive(Debug)]
pub struct TextRow {
    pub ts: Instant,
    pub values: Vec<Option<String>>,
}

/// A number's text, or `null` for a gap. Emitting 0 would turn "not reporting"
/// into "the value was zero", which reads as healthy.
pub open spec fn cell(v: Option<Seq<char>>) -> JsonTree {
    match v {
        Some(t) => JsonTree::Number(t),
        None => JsonTree::Null,
    }
}

/// Entries with the first `n` values set under their labels.
pub open spec fn with_cells(
    fields: Seq<(Seq<char>, JsonTree)>,
    labels: Seq<Seq<char>>,
    values: Seq<Option<Seq<char>>>,
    n: int,
) -> Seq<(Seq<char>, JsonTree)>
    decreases n,
{
    if n <= 0 || n > labels.len() || n > values.len() {
        fields
    } else {
        with_field(
            with_cells(fields, labels, values, n - 1),
            labels[n - 1],
            cell(values[n - 1]),
        )
    }
}

/// The texts of a row.
pub open spec fn opt_texts(values: Seq<Option<String>>) -> Seq<Option<Seq<char>>> {
    values.map_values(|v: Option<String>| opt_text(v))
}

/// A row as an object keyed by series label.
pub open spec fn row_tree(
    ts: Instant,
    values: Seq<Option<Seq<char>>>,
    labels: Seq<Seq<char>>,
) -> JsonTree {
    JsonTree::Object(
        with_cells(
            seq![(TIMESTAMP_KEY@, JsonTree::Text(zulu_text(ts.secs, ts.nanos)))],
            labels,
            values,
            shorter(labels.len() as int, values.len() as int),
        ),
    )
}

/// Write a row as an object keyed by series label rather than as a positional
/// array, which would force every consumer to zip against `labels` to know
/// what it was looking at.
pub fn row_object(row: &TextRow, labels: &Vec<String>) -> (r: Json)
    requires
        row.ts.valid(),
    ensures
        r@ == row_tree(row.ts, opt_texts(row.values@), strings(labels@)),
{
    let mut fields: Vec<(String, Json)> = Vec::new();
    let stamp = to_zulu(row.ts);
    json::put(&mut fields, TIMESTAMP_KEY, json::text(stamp.as_str()));
    let ghost first = fields_of(fields@);
    proof {
        assert(first =~= seq![
            (TIMESTAMP_KEY@, JsonTree::Text(zulu_text(row.ts.secs, row.ts.nanos))),
        ]);
        assert(strings(labels@).len() == labels@.len());
    }
    let n = if labels.len() < row.values.len() {
        labels.len()
    } else {
        row.values.len()
    };
    let mut i: usize = 0;
    while i < n
        invariant
            i <= n,
            n <= labels@.len(),
            n <= row.values@.len(),
            strings(labels@).len() == labels@.len(),
            fields_of(fields@) == with_cells(
                first,
                strings(labels@),
                opt_texts(row.values@),
                i as int,
            ),
        decreases n - i,
    {
        let value = match &row.values[i] {
            Some(t) => Json::Number(t.as_str().to_owned()),
            None => Json::Null,
        };
        proof {
            assert(value@ == cell(opt_texts(row.values@)[i as int]));
            assert(strings(labels@)[i as int] == labels@[i as int]@);
        }
        json::set(&mut fields, labels[i].as_str(), value);
        i += 1;
    }
    json::object(fields)
}

/// An aligned matrix, as it is handed on whole.
#[derive(Debug)]
pub struct MatrixEnvelope<T> {
    pub matrix: Matrix<T>,
}

/// The parameters a comparison reports.
pub open spec fn compare_params(
    profile: Seq<char>,
    labels: Seq<Seq<char>>,
    period: int,
    window: Window,
    ps: Seq<Plot>,
    native: Option<i64>,
) -> JsonTree {
    JsonTree::Object(
        seq![
            ("profile"@, JsonTree::Text(profile)),
            ("labels"@, text_array(labels)),
            ("period_seconds"@, JsonTree::Number(signed_decimal(period))),
            (
                "since"@,
                JsonTree::Text(rfc3339_text(window.since.secs, window.since.nanos)),
            ),
            (
                "until"@,
                JsonTree::Text(rfc3339_text(window.until.secs, window.until.nanos)),
            ),
            ("series"@, text_array(full_labels(ps))),
            ("native_period_seconds"@, number_or_null(native)),
            ("note"@, text_or_null(sparse_text(native, period))),
        ],
    )
}

/// The figure that a point tells by its place. A point without one is a gap.
pub open spec fn figure(figures: Seq<Option<String>>, place: Option<usize>) -> Option<Seq<char>> {
    match place {
        Some(k) => if k < figures.len() {
            opt_text(figures[k as int])
        } else {
            None
        },
        None => None,
    }
}

/// The figures of one row.
pub open spec fn row_figures(figures: Seq<Option<String>>, places: Seq<Option<usize>>) -> Seq<
    Option<Seq<char>>,
> {
    places.map_values(|p: Option<usize>| figure(figures, p))
}

/// The rows of a comparison: one object for each instant of the window, with
/// the figure of each series there under the label of that series.
pub open spec fn comparison_rows(
    ps: Seq<Plot>,
    window: Window,
    period: int,
    series: Seq<Series<usize>>,
    figures: Seq<Option<String>>,
) -> Seq<JsonTree> {
    timeline(window.since, window.until, period).map_values(
        |at: Instant|
            row_tree(at, row_figures(figures, row_values(series, at, period)), labels_for(ps)),
    )
}

/// A comparison, with the matrix it was written from.
#[derive(Debug)]
pub struct Comparison {
    pub envelope: Envelope<Json>,
    pub matrix: Matrix<usize>,
    pub native: Option<i64>,
}

/// Look up the figures of one row.
fn text_row(row: &Row<usize>, figures: &Vec<Option<String>>) -> (r: TextRow)
    ensures
        r.ts == row.ts,
        opt_texts(r.values@) == row_figures(figures@, row.values@),
{
    let ghost want = row_figures(figures@, row.values@);
    let mut values: Vec<Option<String>> = Vec::new();
    let mut i: usize = 0;
    while i < row.values.len()
        invariant
            i <= row.values@.len(),
            want == row_figures(figures@, row.values@),
            opt_texts(values@) == want.take(i as int),
        decreases row.values@.len() - i,
    {
        let found = match row.values[i] {
            Some(k) => if k < figures.len() {
                match &figures[k] {
                    Some(t) => Some(t.as_str().to_owned()),
                    None => None,
                }
            } else {
                None
            },
            None => None,
        };
        let ghost values0 = values@;
        values.push(found);
        proof {
            assert(opt_text(found) == want[i as int]);
            assert(opt_texts(values@) == opt_texts(values0).push(want[i as int]));
            assert(want.take(i + 1) == want.take(i as int).push(want[i as int]));
        }
        i += 1;
    }
    proof {
        assert(want.take(i as int) == want);
    }
    TextRow { ts: row.ts, values }
}

/// Align the series that were fetched over one window, and write the result
/// of `metrics compare`.
///
/// A point holds the place of its figure in `figures`, which are the numbers
/// as JSON writes them, or `None` for what JSON has no number for.
pub fn compare(
    profile: &str,
    specs: &[SeriesSpec],
    window: Window,
    period: i64,
    series: &[Series<usize>],
    figures: &Vec<Option<String>>,
) -> (r: Comparison)
    requires
        window.valid(),
        dated(series@),
        series@.len() == specs@.len(),
        1 <= period <= MAX_DELTA,
    ensures
        r.envelope.sound(),
        r.envelope.command@ == "metrics compare"@,
        !r.envelope.truncated,
        items_of(r.envelope.data@) == comparison_rows(
            plots(specs@),
            window,
            period as int,
            series@,
            figures@,
        ),
        r.native is None <==> all_gaps(series@).len() < MIN_GAPS_TO_INFER,
        r.native is Some ==> is_mode(all_gaps(series@), r.native->0),
        r.envelope.params@ == compare_params(
            profile@,
            labels_for(plots(specs@)),
            period as int,
            window,
            plots(specs@),
            r.native,
        ),
        r.matrix.aligns(series@, window.since, window.until, period as int),
{
    let labels = label_series(specs);
    let native = native_period(series);
    let note = sparse_note(native, period);
    let matrix = align(series, window.since, window.until, period);
    let texts = full_texts(specs);
    let since = to_rfc3339(window.since);
    let until = to_rfc3339(window.until);
    let mut params: Vec<(String, Json)> = Vec::new();
    json::put(&mut params, "profile", json::text(profile));
    json::put(&mut params, "labels", json::text_list(&labels));
    json::put(&mut params, "period_seconds", json::whole(matrix.period_seconds));
    json::put(&mut params, "since", json::text(since.as_str()));
    json::put(&mut params, "until", json::text(until.as_str()));
    json::put(&mut params, "series", json::text_list(&texts));
    json::put(&mut params, "native_period_seconds", json::whole_opt(native));
    json::put(
        &mut params,
        "note",
        json::text_opt(
            match &note {
                Some(t) => Some(t.as_str()),
                None => None,
            },
        ),
    );
    proof {
        assert(fields_of(params@) =~= compare_params(
            profile@,
            strings(labels@),
            period as int,
            window,
            plots(specs@),
            native,
        )->Object_0);
        the_timeline_is_dated(window.since, window.until, period as int);
    }
    let ghost want = comparison_rows(
        plots(specs@),
        window,
        period as int,
        series@,
        figures@,
    );
    let ghost times = timeline(window.since, window.until, period as int);
    let rows = &matrix.rows;
    let mut data: Vec<Json> = Vec::new();
    let mut i: usize = 0;
    while i < rows.len()
        invariant
            i <= rows@.len(),
            rows@ == matrix.rows@,
            matrix.aligns(series@, window.since, window.until, period as int),
            times == timeline(window.since, window.until, period as int),
            forall|k: int| 0 <= k < times.len() ==> (#[trigger] times[k]).valid(),
            strings(labels@) == labels_for(plots(specs@)),
            want == comparison_rows(
                plots(specs@),
                window,
                period as int,
                series@,
                figures@,
            ),
            items_of(data@) == want.take(i as int),
        decreases rows@.len() - i,
    {
        let ghost data0 = data@;
        proof {
            assert(rows@[i as int].ts == times[i as int]);
        }
        let row = text_row(&rows[i], figures);
        data.push(row_object(&row, &labels));
        proof {
            assert(items_of(data@) == items_of(data0).push(want[i as int]));
            assert(want.take(i + 1) == want.take(i as int).push(want[i as int]));
        }
        i += 1;
    }
    proof {
        assert(want.take(i as int) == want);
    }
    let envelope = Envelope::new("metrics compare", json::object(params), data);
    Comparison { envelope, matrix, native }
}

/// How many values a matrix holds.
pub open spec fn filled<T>(rows: Seq<Row<T>>) -> nat
    decreases rows.len(),
{
    if rows.len() == 0 {
        0
    } else {
        filled(rows.drop_last()) + present(rows.last().values@)
    }
}

/// How many values are there.
pub open spec fn present<T>(values: Seq<Option<T>>) -> nat
    decreases values.len(),
{
    if values.len() == 0 {
        0
    } else {
        present(values.drop_last()) + if values.last() is Some {
            1nat
        } else {
            0nat
        }
    }
}

/// Count the values of a matrix, as far as a machine word counts.
pub fn count_filled<T>(matrix: &Matrix<T>) -> (r: u64)
    ensures
        filled(matrix.rows@) <= u64::MAX ==> r == filled(matrix.rows@),
        filled(matrix.rows@) > u64::MAX ==> r == u64::MAX,
{
    let rows = &matrix.rows;
    let mut total: u64 = 0;
    let mut i: usize = 0;
    while i < rows.len()
        invariant
            i <= rows@.len(),
            filled(rows@.take(i as int)) <= u64::MAX ==> total == filled(rows@.take(i as int)),
            filled(rows@.take(i as int)) > u64::MAX ==> total == u64::MAX,
        decreases rows@.len() - i,
    {
        let ghost past = filled(rows@.take(i as int));
        proof {
            assert(rows@.take(i + 1).drop_last() == rows@.take(i as int));
            assert(rows@.take(i + 1).last() == rows@[i as int]);
        }
        let values = &rows[i].values;
        let mut k: usize = 0;
        proof {
            assert(values@.take(0).len() == 0);
        }
        while k < values.len()
            invariant
                k <= values@.len(),
                past + present(values@.take(k as int)) <= u64::MAX ==> total == past + present(
                    values@.take(k as int),
                ),
                past + present(values@.take(k as int)) > u64::MAX ==> total == u64::MAX,
            decreases values@.len() - k,
        {
            proof {
                assert(values@.take(k + 1).drop_last() == values@.take(k as int));
                assert(values@.take(k + 1).last() == values@[k as int]);
            }
            if values[k].is_some() && total < u64::MAX {
                total += 1;
            }
            k += 1;
        }
        proof {
            assert(values@.take(k as int) == values@);
        }
        i += 1;
    }
    proof {
        assert(rows@.take(i as int) == rows@);
    }
    total
}

// ---------------------------------------------------------------------------
// top
// ---------------------------------------------------------------------------

/// What `metrics top` ranks.
///
/// "Which instance is hottest" comes before "what was instance X doing".
/// Dimension values are discovered, so the caller supplies a dimension *name*
/// rather than a list of identifiers it would otherwise have to go and find.
pub struct TopRequest<'a> {
    pub namespace: &'a str,
    pub metric: &'a str,
    pub dimension: &'a str,
    pub stat: &'a str,
    pub by: Rank,
    pub count: usize,
    pub window: Window,
    pub period: Option<i64>,
}

/// The series of one discovered value.
pub open spec fn top_plot(req: TopRequest, v: Seq<char>) -> Plot {
    Plot {
        label: v,
        namespace: req.namespace@,
        metric: req.metric@,
        stat: req.stat@,
        dimensions: seq![(req.dimension@, v)],
    }
}

/// One series for each discovered value; refused when nothing was discovered.
pub fn top_specs(req: &TopRequest, values: &Vec<String>) -> (r: Result<Vec<SeriesSpec>, Error>)
    ensures
        values@.len() == 0 ==> r is Err && r->Err_0@ == bad_spec(
            req.namespace@ + "/"@ + req.metric@,
            "no metrics found with dimension "@ + req.dimension@,
        ),
        values@.len() > 0 ==> r is Ok && plots(r->Ok_0@) == strings(values@).map_values(
            |v: Seq<char>| top_plot(*req, v),
        ),
{
    if values.len() == 0 {
        let spec = req.namespace.to_owned().concat("/").concat(req.metric);
        let why = "no metrics found with dimension ".to_owned().concat(req.dimension);
        return Err(bad(spec.as_str(), why.as_str()));
    }
    let ghost want = strings(values@).map_values(|v: Seq<char>| top_plot(*req, v));
    let mut out: Vec<SeriesSpec> = Vec::new();
    let mut i: usize = 0;
    while i < values.len()
        invariant
            i <= values@.len(),
            want == strings(values@).map_values(|v: Seq<char>| top_plot(*req, v)),
            plots(out@) == want.take(i as int),
        decreases values@.len() - i,
    {
        let v = values[i].as_str();
        let ghost out0 = out@;
        let mut dimensions: Vec<(String, String)> = Vec::new();
        dimensions.push((req.dimension.to_owned(), v.to_owned()));
        proof {
            assert(strings(values@)[i as int] == v@);
            assert(pairs(dimensions@) =~= seq![(req.dimension@, v@)]);
        }
        out.push(
            SeriesSpec {
                label: v.to_owned(),
                namespace: req.namespace.to_owned(),
                metric: req.metric.to_owned(),
                stat: req.stat.to_owned(),
                dimensions,
            },
        );
        proof {
            assert(plots(out@) == plots(out0).push(want[i as int]));
            assert(want.take(i + 1) == want.take(i as int).push(want[i as int]));
        }
        i += 1;
    }
    proof {
        assert(want.take(i as int) == want);
    }
    Ok(out)
}

/// The name of a statistic.
pub open spec fn rank_text(by: Rank) -> Seq<char> {
    match by {
        Rank::Max => "max"@,
        Rank::Mean => "mean"@,
        Rank::Latest => "latest"@,
    }
}

/// Name a statistic.
pub fn rank_name(by: Rank) -> (r: &'static str)
    ensures
        r@ == rank_text(by),
{
    match by {
        Rank::Max => "max",
        Rank::Mean => "mean",
        Rank::Latest => "latest",
    }
}

/// How many series reported anything.
pub open spec fn reporting(s: Seq<Summary>) -> nat
    decreases s.len(),
{
    if s.len() == 0 {
        0
    } else {
        reporting(s.drop_last()) + if s.last().datapoints > 0 {
            1nat
        } else {
            0nat
        }
    }
}

/// Count the series that reported anything.
pub fn count_reporting(s: &Vec<Summary>) -> (r: usize)
    ensures
        r == reporting(s@),
        r <= s@.len(),
{
    let mut n: usize = 0;
    let mut i: usize = 0;
    while i < s.len()
        invariant
            i <= s@.len(),
            n <= i,
            n == reporting(s@.take(i as int)),
        decreases s@.len() - i,
    {
        proof {
            assert(s@.take(i + 1).drop_last() == s@.take(i as int));
            assert(s@.take(i + 1).last() == s@[i as int]);
        }
        if s[i].datapoints > 0 {
            n += 1;
        }
        i += 1;
    }
    proof {
        assert(s@.take(i as int) == s@);
    }
    n
}

/// The parameters a ranking reports.
pub open spec fn top_params(
    profile: Seq<char>,
    req: TopRequest,
    candidates: nat,
    reporting: nat,
    period: int,
) -> JsonTree {
    JsonTree::Object(
        seq![
            ("profile"@, JsonTree::Text(profile)),
            ("namespace"@, JsonTree::Text(req.namespace@)),
            ("metric"@, JsonTree::Text(req.metric@)),
            ("dimension"@, JsonTree::Text(req.dimension@)),
            ("stat"@, JsonTree::Text(req.stat@)),
            ("rank_by"@, JsonTree::Text(rank_text(req.by))),
            ("candidates"@, JsonTree::Number(decimal(candidates))),
            ("reporting"@, JsonTree::Number(decimal(reporting))),
            ("period_seconds"@, JsonTree::Number(signed_decimal(period))),
            (
                "since"@,
                JsonTree::Text(rfc3339_text(req.window.since.secs, req.window.since.nanos)),
            ),
            (
                "until"@,
                JsonTree::Text(rfc3339_text(req.window.until.secs, req.window.until.nanos)),
            ),
        ],
    )
}

/// What `metrics top` returns for summarised series.
pub fn top(
    profile: &str,
    req: &TopRequest,
    candidates: usize,
    period: i64,
    summaries: Vec<Summary>,
    truncated: bool,
) -> (r: Envelope<Summary>)
    requires
        req.window.valid(),
    ensures
        r.sound(),
        r.command@ == "metrics top"@,
        r.truncated == truncated,
        r.data@ == up_to(
            contended(ordered(contenders(summaries@, req.by))),
            req.count as int,
        ),
        r.params@ == top_params(
            profile@,
            *req,
            candidates as nat,
            reporting(contended(ordered(contenders(summaries@, req.by)))),
            period as int,
        ),
{
    let ranked = rank(summaries, req.by);
    let n = count_reporting(&ranked);
    let since = to_rfc3339(req.window.since);
    let until = to_rfc3339(req.window.until);
    let mut params: Vec<(String, Json)> = Vec::new();
    json::put(&mut params, "profile", json::text(profile));
    json::put(&mut params, "namespace", json::text(req.namespace));
    json::put(&mut params, "metric", json::text(req.metric));
    json::put(&mut params, "dimension", json::text(req.dimension));
    json::put(&mut params, "stat", json::text(req.stat));
    json::put(&mut params, "rank_by", json::text(rank_name(req.by)));
    json::put(&mut params, "candidates", json::count(candidates));
    json::put(&mut params, "reporting", json::count(n));
    json::put(&mut params, "period_seconds", json::whole(period));
    json::put(&mut params, "since", json::text(since.as_str()));
    json::put(&mut params, "until", json::text(until.as_str()));
    proof {
        assert(fields_of(params@) =~= top_params(
            profile@,
            *req,
            candidates as nat,
            n as nat,
            period as int,
        )->Object_0);
    }
    let (rows, _) = capped(ranked, Some(req.count));
    Envelope::new("metrics top", json::object(params), rows).truncated(truncated)
}

/// A row of a comparison keeps its timestamp and every series: with labels
/// that tell the series apart, each value stands under its own label.
pub proof fn no_column_is_lost(
    ts: Instant,
    values: Seq<Option<Seq<char>>>,
    labels: Seq<Seq<char>>,
    n: int,
)
    requires
        tell_apart(labels),
        0 <= n <= labels.len(),
        labels.len() == values.len(),
    ensures
        ({
            let first = seq![
                (TIMESTAMP_KEY@, JsonTree::Text(zulu_text(ts.secs, ts.nanos))),
            ];
            let fields = with_cells(first, labels, values, n);
            &&& fields.len() == n + 1
            &&& fields[0] == first[0]
            &&& forall|i: int|
                0 <= i < n ==> #[trigger] fields[i + 1] == (
                    labels[i],
                    cell(values[i]),
                )
        }),
    decreases n,
{
    let first = seq![(TIMESTAMP_KEY@, JsonTree::Text(zulu_text(ts.secs, ts.nanos)))];
    if n > 0 {
        no_column_is_lost(ts, values, labels, n - 1);
        let past = with_cells(first, labels, values, n - 1);
        let key = labels[n - 1];
        assert(labels.contains(key));
        assert forall|j: int| 0 <= j < past.len() implies (#[trigger] past[j]).0 != key by {
            if j > 0 {
                assert(past[(j - 1) + 1].0 == labels[j - 1]);
            }
        }
        key_index_is(past, key, past.len() as int);
        let next = with_cells(first, labels, values, n);
        assert forall|i: int| 0 <= i < n implies #[trigger] next[i + 1] == (
            labels[i],
            cell(values[i]),
        ) by {
            if i < n - 1 {
                assert(past[i + 1] == (labels[i], cell(values[i])));
            }
        }
    }
}

/// Each row of a comparison holds its instant and, in the order of the series,
/// the figure of each under its label: `null`, and never a zero, where the
/// series has no figure in that bucket.
pub proof fn a_comparison_has_every_column(
    ps: Seq<Plot>,
    window: Window,
    period: int,
    series: Seq<Series<usize>>,
    figures: Seq<Option<String>>,
    k: int,
)
    requires
        tell_apart(full_labels(ps)),
        series.len() == ps.len(),
        0 <= k < timeline(window.since, window.until, period).len(),
    ensures
        ({
            let at = timeline(window.since, window.until, period)[k];
            let row = comparison_rows(ps, window, period, series, figures)[k];
            let fields = row->Object_0;
            &&& row is Object
            &&& fields.len() == series.len() + 1
            &&& fields[0] == (TIMESTAMP_KEY@, JsonTree::Text(zulu_text(at.secs, at.nanos)))
            &&& forall|i: int|
                0 <= i < series.len() ==> {
                    let found = figure(figures, value_at(series[i].points@, at, period));
                    &&& (#[trigger] fields[i + 1]).0 == labels_for(ps)[i]
                    &&& fields[i + 1].1 is Null <==> found is None
                    &&& found is Some ==> fields[i + 1].1 == JsonTree::Number(found->0)
                }
        }),
{
    let at = timeline(window.since, window.until, period)[k];
    let labels = labels_for(ps);
    let values = row_figures(figures, row_values(series, at, period));
    labels_are_distinct(ps);
    no_column_is_lost(at, values, labels, labels.len() as int);
    let fields = comparison_rows(ps, window, period, series, figures)[k]->Object_0;
    assert forall|i: int| 0 <= i < series.len() implies {
        let found = figure(figures, value_at(series[i].points@, at, period));
        &&& (#[trigger] fields[i + 1]).0 == labels[i]
        &&& fields[i + 1].1 is Null <==> found is None
        &&& found is Some ==> fields[i + 1].1 == JsonTree::Number(found->0)
    } by {
        assert(fields[i + 1] == (labels[i], cell(values[i])));
    }
}

} // verus!
