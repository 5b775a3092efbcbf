//! Series: how one is asked for, what it is called, how it is summed up and
//! ranked.

use crate::cmd::metrics::{
    api_period, batch_starts, build_query, check_comparison, compare, compare_params,
    comparison_rows, dimension_names, dimensions_of, discovered, figure, full_labels, id_of,
    index_of, labels_for, listed_value, metric_varies, noted, pairs, plot_of, plots, present,
    rank_text, received, reporting, row_figures, row_tree, short_label, short_labels, sparse_text,
    top, top_params, top_plot, top_specs, value_of, values_among, varies, varying, varying_among,
    Comparison, ListedDimension, Plot, Query, SeriesSpec, TopRequest,
};
use crate::cmd::records::{summary_fields, Figures};
use crate::common::envelope::Envelope;
use crate::common::errors::{kind_of, message_of, Error, Fault};
use crate::common::flags::Window;
use crate::common::time::{debug_text, rfc3339_text, zulu_text, Instant};
use crate::json::{items_of, JsonTree};
use crate::laws::texts::{cutting_takes_the_first, cutting_takes_the_last, trimming_keeps_the_core};
use crate::metrics::align::{
    acceptable_period, all_gaps, contended, contenders, dated, finite, gaps, is_greatest, is_least,
    is_mode, labels_of, latest_value, native_period, newest, row_values, summarise, timeline,
    times_of, value_at, Matrix, Rank, Series, Summary,
};
use crate::order::{ordered, sorting_orders, Ordered};
use crate::text::{
    cut, decimal, decimal_value, joined, joined_texts_are_its_pieces, pieces, signed_decimal,
    strings, text_less, trimmed, CharClass,
};
use vstd::prelude::*;

verus! {

// ---------------------------------------------------------------------------
// How a series is asked for
// ---------------------------------------------------------------------------

/// Whether a name or a value of a dimension can be written down as it is.
pub open spec fn writable(s: Seq<char>) -> bool {
    &&& s.len() > 0
    &&& !CharClass::White.has(s[0])
    &&& !CharClass::White.has(s.last())
    &&& !s.contains(',')
}

/// A dimension, written down.
pub open spec fn pair_text(d: (Seq<char>, Seq<char>)) -> Seq<char> {
    d.0 + seq!['='] + d.1
}

/// Dimensions, written down.
pub open spec fn pair_texts(dims: Seq<(Seq<char>, Seq<char>)>) -> Seq<Seq<char>> {
    dims.map_values(|d: (Seq<char>, Seq<char>)| pair_text(d))
}

/// What is written down is read back: namespace and metric around the last
/// slash, the statistic behind the last colon, and the dimensions behind the
/// first comma, in their sequence.
pub proof fn a_series_is_read_as_it_is_written(
    namespace: Seq<char>,
    metric: Seq<char>,
    stat: Seq<char>,
    dims: Seq<(Seq<char>, Seq<char>)>,
)
    requires
        namespace.len() > 0,
        metric.len() > 0,
        !namespace.contains(','),
        !metric.contains(',') && !metric.contains('/'),
        !stat.contains(',') && !stat.contains(':'),
        dims.len() > 0,
        forall|i: int|
            0 <= i < dims.len() ==> writable((#[trigger] dims[i]).0) && writable(dims[i].1)
                && !dims[i].0.contains('='),
    ensures
        ({
            let head = namespace + seq!['/'] + metric + seq![':'] + stat;
            let raw = head + seq![','] + joined(pair_texts(dims), seq![',']);
            &&& plot_of(head) == Ok::<Plot, Fault>(
                Plot { label: head, namespace, metric, stat, dimensions: Seq::empty() },
            )
            &&& plot_of(raw) == Ok::<Plot, Fault>(
                Plot { label: raw, namespace, metric, stat, dimensions: dims },
            )
        }),
{
    let path = namespace + seq!['/'] + metric;
    let head = path + seq![':'] + stat;
    let list = joined(pair_texts(dims), seq![',']);
    let raw = head + seq![','] + list;
    assert(!head.contains(',')) by {
        if head.contains(',') {
            let k = choose|k: int| 0 <= k < head.len() && head[k] == ',';
            let n = namespace.len() as int;
            let m = n + 1 + metric.len();
            if k < n {
                assert(namespace[k] == ',');
                assert(namespace.contains(','));
            } else if k == n {
            } else if k < m {
                assert(metric[k - n - 1] == ',');
                assert(metric.contains(','));
            } else if k == m {
            } else {
                assert(stat[k - m - 1] == ',');
                assert(stat.contains(','));
            }
        }
    }
    cutting_takes_the_first(head, ',', list);
    cutting_takes_the_last(path, ':', stat);
    cutting_takes_the_last(namespace, '/', metric);
    pairs_are_read(raw, dims, dims.len() as int);
    let parts = pair_texts(dims);
    assert forall|i: int| 0 <= i < parts.len() implies !(#[trigger] parts[i]).contains(',') by {
        let d = dims[i];
        assert(writable(d.0) && writable(d.1));
        if parts[i].contains(',') {
            let k = choose|k: int| 0 <= k < parts[i].len() && parts[i][k] == ',';
            if k < d.0.len() {
                assert(d.0[k] == ',');
                assert(d.0.contains(','));
            } else if k > d.0.len() {
                assert(d.1[k - d.0.len() - 1] == ',');
                assert(d.1.contains(','));
            }
        }
    }
    joined_texts_are_its_pieces(parts, ',');
    assert(parts.take(parts.len() as int) == parts);
    assert(dims.take(dims.len() as int) == dims);
    reveal_strlit("");
    assert(""@ == Seq::<char>::empty());
    no_dimensions(head);
}

/// Nothing behind the head is no dimension.
proof fn no_dimensions(raw: Seq<char>)
    ensures
        crate::cmd::metrics::dimensions_of(raw, pieces(Seq::empty(), ',')) == Ok::<
            Seq<(Seq<char>, Seq<char>)>,
            Fault,
        >(Seq::empty()),
{
    let none = Seq::<char>::empty();
    cutting_takes_the_first(none, ',', none);
    crate::text::lead_len_is(none, CharClass::Except(','), 0);
    let p = pieces(none, ',');
    assert(p == seq![none]);
    crate::laws::texts::nothing_is_left_of_a_single_class(none, CharClass::White);
    assert(p.drop_last() == Seq::<Seq<char>>::empty());
    reveal_with_fuel(crate::cmd::metrics::dimensions_of, 3);
}

/// Dimensions are read one by one.
proof fn pairs_are_read(raw: Seq<char>, dims: Seq<(Seq<char>, Seq<char>)>, n: int)
    requires
        0 <= n <= dims.len(),
        forall|i: int|
            0 <= i < dims.len() ==> writable((#[trigger] dims[i]).0) && writable(dims[i].1)
                && !dims[i].0.contains('='),
    ensures
        crate::cmd::metrics::dimensions_of(raw, pair_texts(dims).take(n)) == Ok::<
            Seq<(Seq<char>, Seq<char>)>,
            Fault,
        >(dims.take(n)),
    decreases n,
{
    let parts = pair_texts(dims).take(n);
    if n > 0 {
        pairs_are_read(raw, dims, n - 1);
        assert(parts.drop_last() == pair_texts(dims).take(n - 1));
        let d = dims[n - 1];
        let none = Seq::<char>::empty();
        assert(writable(d.0) && writable(d.1));
        let part = parts.last();
        assert(part == pair_text(d));
        cutting_takes_the_first(d.0, '=', d.1);
        trimming_keeps_the_core(none, d.0, none, CharClass::White);
        assert(none + d.0 + none == d.0);
        trimming_keeps_the_core(none, d.1, none, CharClass::White);
        assert(none + d.1 + none == d.1);
        assert(part[0] == d.0[0]);
        assert(part.last() == d.1.last());
        trimming_keeps_the_core(none, part, none, CharClass::White);
        assert(none + part + none == part);
        assert(dims.take(n) == dims.take(n - 1).push(d));
    } else {
        assert(parts.len() == 0);
        assert(dims.take(0) == Seq::<(Seq<char>, Seq<char>)>::empty());
    }
}

/// Without a statistic, the average is asked for.
pub proof fn the_average_is_asked_for_by_default(namespace: Seq<char>, metric: Seq<char>)
    requires
        namespace.len() > 0,
        metric.len() > 0,
        !namespace.contains(',') && !namespace.contains(':'),
        !metric.contains(',') && !metric.contains('/') && !metric.contains(':'),
    ensures
        ({
            let raw = namespace + seq!['/'] + metric;
            plot_of(raw) == Ok::<Plot, Fault>(
                Plot {
                    label: raw,
                    namespace,
                    metric,
                    stat: "Average"@,
                    dimensions: Seq::empty(),
                },
            )
        }),
{
    let raw = namespace + seq!['/'] + metric;
    assert(!raw.contains(',') && !raw.contains(':')) by {
        assert forall|k: int| 0 <= k < raw.len() implies raw[k] != ',' && raw[k] != ':' by {
            let n = namespace.len() as int;
            if k < n {
                assert(namespace.contains(namespace[k]));
            } else if k > n {
                assert(metric.contains(metric[k - n - 1]));
            }
        }
    }
    cutting_takes_the_first(raw, ',', Seq::empty());
    cutting_takes_the_last(Seq::empty(), ':', raw);
    cutting_takes_the_last(namespace, '/', metric);
    reveal_strlit("");
    assert(""@ == Seq::<char>::empty());
    no_dimensions(raw);
}

/// A series without a slash, or with nothing on one side of the last one, is
/// refused, and the refusal quotes it.
pub proof fn a_series_needs_a_namespace_and_a_metric(head: Seq<char>)
    requires
        !head.contains(',') && !head.contains(':') && !head.contains('/'),
    ensures
        plot_of(head) == Err::<Plot, Fault>(
            Fault::BadSpec { spec: head, reason: "expected Namespace/MetricName"@ },
        ),
        plot_of(head.push('/')) == Err::<Plot, Fault>(
            Fault::BadSpec {
                spec: head.push('/'),
                reason: "namespace and metric name must both be present"@,
            },
        ),
        plot_of(seq!['/'] + head) == Err::<Plot, Fault>(
            Fault::BadSpec {
                spec: seq!['/'] + head,
                reason: "namespace and metric name must both be present"@,
            },
        ),
{
    let none = Seq::<char>::empty();
    cutting_takes_the_first(head, ',', none);
    cutting_takes_the_last(none, ':', head);
    cutting_takes_the_last(none, '/', head);
    let a = head.push('/');
    assert(!a.contains(',') && !a.contains(':')) by {
        assert forall|k: int| 0 <= k < a.len() implies a[k] != ',' && a[k] != ':' by {
            if k < head.len() {
                assert(head.contains(head[k]));
            }
        }
    }
    cutting_takes_the_first(a, ',', none);
    cutting_takes_the_last(none, ':', a);
    cutting_takes_the_last(head, '/', none);
    assert(head + seq!['/'] + none == a);
    let b = seq!['/'] + head;
    assert(!b.contains(',') && !b.contains(':')) by {
        assert forall|k: int| 0 <= k < b.len() implies b[k] != ',' && b[k] != ':' by {
            if k > 0 {
                assert(head.contains(head[k - 1]));
            }
        }
    }
    cutting_takes_the_first(b, ',', none);
    cutting_takes_the_last(none, ':', b);
    assert(none + seq!['/'] + head == b);
}

// ---------------------------------------------------------------------------
// What a series is called
// ---------------------------------------------------------------------------

/// Series of one metric that differ in the value of one dimension are called
/// by that value.
pub proof fn series_are_called_by_what_differs(
    ps: Seq<Plot>,
    name: Seq<char>,
    vs: Seq<Seq<char>>,
    j: int,
)
    requires
        ps.len() == vs.len(),
        forall|i: int|
            0 <= i < ps.len() ==> (#[trigger] ps[i]).metric == ps[0].metric && ps[i].dimensions
                == seq![(name, vs[i])],
        vs.no_duplicates(),
        !vs.contains("ts"@),
        0 < j < ps.len(),
    ensures
        labels_for(ps) == vs,
{
    let n = ps.len() as int;
    assert forall|i: int| 0 <= i < n implies value_of((#[trigger] ps[i]).dimensions, name) == Some(
        vs[i],
    ) by {
        let d = ps[i].dimensions;
        assert(d[0] == (name, vs[i]));
    }
    assert(ps[0].metric == ps[0].metric && ps[0].dimensions == seq![(name, vs[0])]);
    assert(varies(ps, name)) by {
        assert(value_of(ps[j].dimensions, name) != value_of(ps[0].dimensions, name));
    }
    one_name_varies(ps, name, vs, n);
    assert(!metric_varies(ps));
    let names = varying(ps, n);
    assert(names == seq![name]);
    assert(short_labels(ps) =~= vs) by {
        assert forall|i: int| 0 <= i < n implies short_labels(ps)[i] == vs[i] by {
            reveal_with_fuel(values_among, 2);
            assert(seq![name].drop_last() == Seq::<Seq<char>>::empty());
            let p = ps[i];
            assert(value_of(p.dimensions, name) == Some(vs[i]));
            assert(values_among(p, Seq::empty()) == Seq::<Seq<char>>::empty());
            assert(values_among(p, seq![name]) =~= seq![vs[i]]);
            assert(joined(seq![vs[i]], " "@) == vs[i]);
        }
    }
}

/// The one dimension is the one that varies.
proof fn one_name_varies(ps: Seq<Plot>, name: Seq<char>, vs: Seq<Seq<char>>, n: int)
    requires
        0 < n <= ps.len(),
        ps.len() == vs.len(),
        forall|i: int|
            0 <= i < ps.len() ==> (#[trigger] ps[i]).metric == ps[0].metric && ps[i].dimensions
                == seq![(name, vs[i])],
        varies(ps, name),
    ensures
        varying(ps, n) == seq![name],
    decreases n,
{
    let p = ps[n - 1];
    assert(p.dimensions == seq![(name, vs[n - 1])]);
    let ns = crate::cmd::metrics::dimension_names(p);
    assert(ns =~= seq![name]);
    assert(ns.drop_last() =~= Seq::<Seq<char>>::empty());
    let past = varying(ps, n - 1);
    if n > 1 {
        one_name_varies(ps, name, vs, n - 1);
        assert(past[0] == name);
        assert(past.contains(name));
    } else {
        assert(past == Seq::<Seq<char>>::empty());
    }
    reveal_with_fuel(varying_among, 2);
    assert(varying_among(ps, past, Seq::empty()) == past);
    assert(varying_among(ps, past, ns) =~= seq![name]);
}

/// Where short names would not tell the series apart, or one of them would be
/// taken for the time, each is called by the text it was asked for with.
pub proof fn series_are_called_in_full_where_they_must_be(ps: Seq<Plot>, i: int)
    requires
        0 <= i < ps.len(),
    ensures
        labels_for(ps).len() == ps.len(),
        !short_labels(ps).no_duplicates() || short_labels(ps).contains("ts"@) ==> labels_for(ps)[i]
            == ps[i].label,
        short_labels(ps).no_duplicates() && !short_labels(ps).contains("ts"@) ==> labels_for(ps)
            == short_labels(ps),
{
}

// ---------------------------------------------------------------------------
// How the service is asked
// ---------------------------------------------------------------------------

/// No call asks for more than 500 series, and every call but the last for
/// just as many.
pub proof fn a_call_asks_for_500_series(n: int, from: int, k: int)
    requires
        0 <= from <= n,
        0 <= k < batch_starts(n, from).len(),
    ensures
        batch_starts(n, from)[k].0 == from + k * 500,
        k + 1 < batch_starts(n, from).len() ==> batch_starts(n, from)[k].1 == 500,
        0 < batch_starts(n, from)[k].1 <= 500,
        k + 1 == batch_starts(n, from).len() ==> batch_starts(n, from)[k].0 + batch_starts(
            n,
            from,
        )[k].1 == n,
    decreases n - from,
{
    if n - from > 500 {
        let rest = batch_starts(n, from + 500);
        if k > 0 {
            a_call_asks_for_500_series(n, from + 500, k - 1);
            assert(batch_starts(n, from)[k] == rest[k - 1]);
        } else {
            assert(rest.len() > 0);
        }
    }
}

/// A query is named by its place.
pub proof fn a_query_is_named_by_its_place(a: nat, b: nat)
    ensures
        id_of(a) == seq!['q'] + decimal(a),
        id_of(a) == id_of(b) ==> a == b,
{
    if id_of(a) == id_of(b) {
        assert(id_of(a).skip(1) == decimal(a));
        assert(id_of(b).skip(1) == decimal(b));
        crate::laws::texts::digits_tell_the_number(a);
        crate::laws::texts::digits_tell_the_number(b);
    }
}

/// A period that the service can take is handed on as it is.
pub proof fn a_period_is_handed_on(period: int)
    ensures
        -2_147_483_648 <= period <= 2_147_483_647 ==> api_period(period) == period,
        period > 2_147_483_647 ==> api_period(period) == 2_147_483_647,
{
}

/// Points come in as the service sent them, time by time and value by value.
pub proof fn points_come_in_pairs<T>(times: Seq<i64>, values: Seq<T>, n: int)
    requires
        0 < n <= times.len(),
        n <= values.len(),
    ensures
        -8_334_601_228_800 <= times[n - 1] <= 8_210_266_876_799 ==> received(times, values, n)
            == received(times, values, n - 1).push(
            (Instant { secs: times[n - 1], nanos: 0 }, values[n - 1]),
        ),
        !(-8_334_601_228_800 <= times[n - 1] <= 8_210_266_876_799) ==> received(times, values, n)
            == received(times, values, n - 1),
        received(times, values, 0).len() == 0,
{
}

/// Values of a dimension are gathered until there are 300.
pub proof fn three_hundred_values_are_enough(
    values: Seq<Seq<char>>,
    metrics: Seq<Vec<ListedDimension>>,
    name: Seq<char>,
)
    requires
        values.len() < 300,
    ensures
        discovered(values, metrics, name).1 <==> discovered(values, metrics, name).0.len() >= 300,
        discovered(values, metrics, name).0.len() <= 300,
    decreases metrics.len(),
{
    if metrics.len() > 0 {
        let next = noted(values, listed_value(metrics[0]@, name));
        match listed_value(metrics[0]@, name) {
            Some(t) => {
                one_more_value(values, t);
            },
            None => {},
        }
        if next.len() < 300 {
            three_hundred_values_are_enough(next, metrics.skip(1), name);
        }
    }
}

/// Inserting adds one.
proof fn one_more_value(values: Seq<Seq<char>>, t: Seq<char>)
    ensures
        crate::order::inserted(values, t).len() == values.len() + 1,
    decreases values.len(),
{
    if values.len() > 0 && t.before(values.last()) {
        one_more_value(values.drop_last(), t);
    }
}

/// The value of a dimension is that of the first one by that name.
pub proof fn the_first_dimension_of_a_name_counts(
    d: ListedDimension,
    rest: Seq<ListedDimension>,
    name: Seq<char>,
)
    ensures
        d.name is Some && d.name->0@ == name && d.value is Some ==> listed_value(
            seq![d] + rest,
            name,
        ) == Some(d.value->0@),
        d.name is None || d.name->0@ != name ==> listed_value(seq![d] + rest, name) == listed_value(
            rest,
            name,
        ),
        listed_value(Seq::empty(), name) is None,
{
    let s = seq![d] + rest;
    assert(s[0] == d);
    assert(s.skip(1) == rest);
}

/// Candidates for a ranking ask for one metric of one resource each.
pub proof fn a_candidate_asks_for_one_resource(req: TopRequest, v: Seq<char>)
    ensures
        top_plot(req, v).label == v,
        top_plot(req, v).namespace == req.namespace@,
        top_plot(req, v).metric == req.metric@,
        top_plot(req, v).stat == req.stat@,
        top_plot(req, v).dimensions == seq![(req.dimension@, v)],
{
}

// ---------------------------------------------------------------------------
// Summing up and ranking
// ---------------------------------------------------------------------------

/// What a summary is of are the values that are there.
pub proof fn only_present_values_count(points: Seq<(Instant, Option<i64>)>, p: (Instant, Option<i64>))
    ensures
        p.1 is Some ==> finite(points.push(p)) == finite(points).push(p.1->0),
        p.1 is None ==> finite(points.push(p)) == finite(points),
        finite(Seq::empty()).len() == 0,
{
    assert(points.push(p).drop_last() == points);
}

/// The least and the greatest bound all values and are among them.
pub proof fn the_extremes_bound_the_values(s: Seq<i64>, least: Option<i64>, greatest: Option<i64>, i: int)
    requires
        is_least(s, least),
        is_greatest(s, greatest),
        0 <= i < s.len(),
    ensures
        least is Some && greatest is Some,
        least->0 <= s[i] <= greatest->0,
        s.contains(least->0) && s.contains(greatest->0),
{
}

/// The latest value is that of the point with the latest time, and of the last
/// such point.
pub proof fn the_latest_value_is_of_the_latest_time(points: Seq<(Instant, Option<i64>)>, k: int)
    requires
        0 <= k < points.len(),
        forall|j: int|
            0 <= j < points.len() ==> {
                let a = (#[trigger] points[j]).0;
                let b = points[k].0;
                a.secs < b.secs || (a.secs == b.secs && a.nanos <= b.nanos)
            },
        forall|j: int| k < j < points.len() ==> (#[trigger] points[j]).0 != points[k].0,
    ensures
        latest_value(points) == points[k].1,
{
    the_newest_is_there(points, k);
}

/// The latest point is found.
proof fn the_newest_is_there(points: Seq<(Instant, Option<i64>)>, k: int)
    requires
        0 <= k < points.len(),
        forall|j: int|
            0 <= j < points.len() ==> {
                let a = (#[trigger] points[j]).0;
                let b = points[k].0;
                a.secs < b.secs || (a.secs == b.secs && a.nanos <= b.nanos)
            },
        forall|j: int| k < j < points.len() ==> (#[trigger] points[j]).0 != points[k].0,
    ensures
        newest(points) == Some(points[k]),
    decreases points.len(),
{
    let n = points.len() - 1;
    let past = points.drop_last();
    if k < n {
        assert forall|j: int| 0 <= j < past.len() implies {
            let a = (#[trigger] past[j]).0;
            let b = past[k].0;
            a.secs < b.secs || (a.secs == b.secs && a.nanos <= b.nanos)
        } by {
            assert(past[j] == points[j]);
        }
        the_newest_is_there(past, k);
        let a = points[n].0;
        assert(a != points[k].0);
    } else {
        match newest(past) {
            Some(p) => {
                the_newest_is_one(past);
                let j = choose|j: int| 0 <= j < past.len() && #[trigger] past[j] == p;
                let a = points[j].0;
            },
            None => {},
        }
    }
}

/// The latest point is one of the points.
proof fn the_newest_is_one(points: Seq<(Instant, Option<i64>)>)
    requires
        newest(points) is Some,
    ensures
        exists|j: int| 0 <= j < points.len() && #[trigger] points[j] == newest(points)->0,
    decreases points.len(),
{
    let n = points.len() - 1;
    let past = points.drop_last();
    if newest(points) == Some(points[n]) {
    } else {
        the_newest_is_one(past);
        let j = choose|j: int| 0 <= j < past.len() && #[trigger] past[j] == newest(past)->0;
        assert(points[j] == newest(points)->0);
    }
}

/// By its peak a series is ranked on `max`, by its level on `mean`, by its
/// present on `latest`: the highest first, those without a value last, equal
/// ones by label.
pub proof fn a_ranking_goes_by_what_was_asked(s: Seq<Summary>, by: Rank, i: int, j: int)
    requires
        0 <= i < j < contended(ordered(contenders(s, by))).len(),
    ensures
        ({
            let a = contended(ordered(contenders(s, by)))[i];
            let b = contended(ordered(contenders(s, by)))[j];
            let x = match by {
                Rank::Max => a.max,
                Rank::Mean => a.mean,
                Rank::Latest => a.latest,
            };
            let y = match by {
                Rank::Max => b.max,
                Rank::Mean => b.mean,
                Rank::Latest => b.latest,
            };
            &&& x is None ==> y is None
            &&& x is Some && y is Some ==> x->0 >= y->0
            &&& x == y ==> !text_less(b.label@, a.label@)
        }),
{
    let cs = contenders(s, by);
    sorting_orders(cs);
    crate::order::sorting_permutes(cs);
    crate::order::permuted_is_same(ordered(cs), cs);
    let a = ordered(cs)[i];
    let b = ordered(cs)[j];
    assert(!b.before(a));
    assert(ordered(cs).contains(a) && ordered(cs).contains(b));
    assert(cs.contains(a) && cs.contains(b));
}

/// Each way of ranking is named in the answer.
pub proof fn each_ranking_has_its_name()
    ensures
        rank_text(Rank::Max) == "max"@,
        rank_text(Rank::Mean) == "mean"@,
        rank_text(Rank::Latest) == "latest"@,
{
}

/// The series that report are those with a datapoint.
pub proof fn a_series_reports_if_it_has_a_datapoint(s: Seq<Summary>, x: Summary)
    ensures
        reporting(s.push(x)) == reporting(s) + if x.datapoints > 0 {
            1nat
        } else {
            0
        },
        reporting(Seq::empty()) == 0,
{
    assert(s.push(x).drop_last() == s);
}

/// The cells that are filled are those with a value.
pub proof fn a_cell_is_filled_if_it_has_a_value<T>(values: Seq<Option<T>>, v: Option<T>)
    ensures
        present(values.push(v)) == present(values) + if v is Some {
            1nat
        } else {
            0
        },
        present(Seq::<Option<T>>::empty()) == 0,
{
    assert(values.push(v).drop_last() == values);
}

// ---------------------------------------------------------------------------
// What is written
// ---------------------------------------------------------------------------

/// A figure: the number as it was read, or `null`.
pub open spec fn number(n: Option<String>) -> JsonTree {
    if n is Some {
        JsonTree::Number(n->0@)
    } else {
        JsonTree::Null
    }
}

/// What is written for a summary are its figures under their names.
pub proof fn a_summary_is_written_field_by_field(s: Summary, f: Figures)
    ensures
        summary_fields(s, f) == seq![
            ("label"@, JsonTree::Text(s.label@)),
            ("datapoints"@, JsonTree::Number(decimal(s.datapoints as nat))),
            ("min"@, number(f.min)),
            ("mean"@, number(f.mean)),
            ("max"@, number(f.max)),
            ("latest"@, number(f.latest)),
        ],
{
}

/// A row without series holds its time alone.
pub proof fn a_row_starts_with_its_time(ts: Instant)
    ensures
        row_tree(ts, Seq::empty(), Seq::empty()) == JsonTree::Object(
            seq![("ts"@, JsonTree::Text(zulu_text(ts.secs, ts.nanos)))],
        ),
{
}

/// A note is made exactly when the series report less often than they were
/// asked for.
pub proof fn sparse_series_are_noted(native: Option<i64>, period: int)
    ensures
        sparse_text(native, period) is Some <==> native is Some && native->0 > period,
        native is Some && native->0 > period ==> sparse_text(native, period) == Some(
            "series report every "@ + signed_decimal(native->0 as int)
                + "s but were queried at "@ + signed_decimal(period)
                + "s, so most rows are empty; pass --period "@ + signed_decimal(native->0 as int)
                + " for a dense result"@,
        ),
{
}

/// A comparison says what it compared, under these names.
pub proof fn a_comparison_says_what_it_compared(
    profile: Seq<char>,
    labels: Seq<Seq<char>>,
    period: int,
    window: Window,
    ps: Seq<Plot>,
    native: Option<i64>,
)
    ensures
        ({
            let f = compare_params(profile, labels, period, window, ps, native)->Object_0;
            &&& compare_params(profile, labels, period, window, ps, native) is Object
            &&& f.len() == 8
            &&& f[0] == ("profile"@, JsonTree::Text(profile))
            &&& f[1].0 == "labels"@
            &&& f[1].1 == JsonTree::Array(Seq::new(labels.len(), |i: int| JsonTree::Text(labels[i])))
            &&& f[2] == ("period_seconds"@, JsonTree::Number(signed_decimal(period)))
            &&& f[3] == (
                "since"@,
                JsonTree::Text(rfc3339_text(window.since.secs, window.since.nanos)),
            )
            &&& f[4] == (
                "until"@,
                JsonTree::Text(rfc3339_text(window.until.secs, window.until.nanos)),
            )
            &&& f[5].0 == "series"@
            &&& f[5].1 == JsonTree::Array(Seq::new(ps.len(), |i: int| JsonTree::Text(ps[i].label)))
            &&& f[6].0 == "native_period_seconds"@
            &&& native is Some ==> f[6].1 == JsonTree::Number(signed_decimal(native->0 as int))
            &&& native is None ==> f[6].1 == JsonTree::Null
            &&& f[7].0 == "note"@
            &&& native is None || native->0 <= period ==> f[7].1 == JsonTree::Null
            &&& native is Some && native->0 > period ==> f[7].1 is Text
        }),
{
    assert(labels.map_values(|t: Seq<char>| JsonTree::Text(t)) =~= Seq::new(
        labels.len(),
        |i: int| JsonTree::Text(labels[i]),
    ));
    assert(full_labels(ps).map_values(|t: Seq<char>| JsonTree::Text(t)) =~= Seq::new(
        ps.len(),
        |i: int| JsonTree::Text(ps[i].label),
    ));
}

/// A ranking says what it ranked, under these names.
pub proof fn a_ranking_says_what_it_ranked(
    profile: Seq<char>,
    req: TopRequest,
    candidates: nat,
    reporting: nat,
    period: int,
)
    ensures
        top_params(profile, req, candidates, reporting, period) == JsonTree::Object(
            seq![
                ("profile"@, JsonTree::Text(profile)),
                ("namespace"@, JsonTree::Text(req.namespace@)),
                ("metric"@, JsonTree::Text(req.metric@)),
                ("dimension"@, JsonTree::Text(req.dimension@)),
                ("stat"@, JsonTree::Text(req.stat@)),
                (
                    "rank_by"@,
                    JsonTree::Text(
                        match req.by {
                            Rank::Max => "max"@,
                            Rank::Mean => "mean"@,
                            Rank::Latest => "latest"@,
                        },
                    ),
                ),
                ("candidates"@, JsonTree::Number(decimal(candidates))),
                ("reporting"@, JsonTree::Number(decimal(reporting))),
                ("period_seconds"@, JsonTree::Number(signed_decimal(period))),
                (
                    "since"@,
                    JsonTree::Text(rfc3339_text(req.window.since.secs, req.window.since.nanos)),
                ),
                (
                    "until"@,
                    JsonTree::Text(rfc3339_text(req.window.until.secs, req.window.until.nanos)),
                ),
            ],
        ),
{
}

/// A figure is the one at its place.
pub proof fn a_figure_is_the_one_at_its_place(figures: Seq<Option<String>>, k: usize)
    requires
        k < figures.len(),
    ensures
        figures[k as int] is Some ==> figure(figures, Some(k)) == Some(figures[k as int]->0@),
        figures[k as int] is None ==> figure(figures, Some(k)) is None,
        figure(figures, None) is None,
{
}

/// A comparison has a row for each time of the window, and in it the figure of
/// each series at that time.
pub proof fn a_comparison_has_a_row_for_each_time(
    ps: Seq<Plot>,
    window: Window,
    period: int,
    series: Seq<Series<usize>>,
    figures: Seq<Option<String>>,
    k: int,
    j: int,
)
    requires
        0 <= k < timeline(window.since, window.until, period).len(),
        0 <= j < series.len(),
    ensures
        ({
            let times = timeline(window.since, window.until, period);
            let values = row_figures(figures, row_values(series, times[k], period));
            &&& comparison_rows(ps, window, period, series, figures).len() == times.len()
            &&& comparison_rows(ps, window, period, series, figures)[k] == row_tree(
                times[k],
                values,
                labels_for(ps),
            )
            &&& values.len() == series.len()
            &&& values[j] == figure(figures, value_at(series[j].points@, times[k], period))
        }),
{
}

/// Aligned series keep their names and their places, and each row holds what
/// each of them has at its time.
pub proof fn series_keep_their_places<T>(
    m: Matrix<T>,
    series: Seq<Series<T>>,
    since: Instant,
    until: Instant,
    period: int,
    i: int,
    j: int,
)
    requires
        m.aligns(series, since, until, period),
        0 <= i < m.rows@.len(),
        0 <= j < series.len(),
    ensures
        m.labels@.len() == series.len(),
        m.labels@[j]@ == series[j].label@,
        m.period_seconds == period,
        m.rows@.len() == timeline(since, until, period).len(),
        m.rows@[i].ts == timeline(since, until, period)[i],
        m.rows@[i].values@.len() == series.len(),
        m.rows@[i].values@[j] == value_at(series[j].points@, m.rows@[i].ts, period),
{
    let ls = strings(m.labels@);
    assert(ls.len() == m.labels@.len());
    assert(ls[j] == m.labels@[j]@);
    assert(labels_of(series)[j] == series[j].label@);
}

/// A series is named by its metric and by the values that differ, in this
/// sequence, with a blank between them.
pub proof fn a_name_has_the_metric_first(p: Plot, name: Seq<char>, v: Seq<char>)
    requires
        p.dimensions == seq![(name, v)],
    ensures
        short_label(p, seq![name], true) == p.metric + seq![' '] + v,
        short_label(p, seq![name], false) == v,
        short_label(p, Seq::empty(), true) == p.metric,
        short_label(p, Seq::empty(), false) == p.metric,
{
    reveal_strlit(" ");
    assert(" "@ =~= seq![' ']);
    assert(p.dimensions[0] == (name, v));
    assert(value_of(p.dimensions, name) == Some(v));
    reveal_with_fuel(values_among, 2);
    let none = Seq::<Seq<char>>::empty();
    assert(seq![name].drop_last() == none);
    assert(values_among(p, none) == none);
    assert(values_among(p, seq![name]) =~= seq![v]);
    assert(seq![p.metric] + seq![v] =~= seq![p.metric, v]);
    assert(seq![p.metric, v].drop_last() =~= seq![p.metric]);
    assert(joined(seq![p.metric], " "@) == p.metric);
    assert(joined(seq![p.metric, v], " "@) == p.metric + " "@ + v);
    assert(joined(seq![v], " "@) == v);
    assert(seq![p.metric] + none =~= seq![p.metric]);
}

/// The value of a dimension is that of the first one by that name.
pub proof fn the_first_value_of_a_name_counts(
    name: Seq<char>,
    v: Seq<char>,
    other: (Seq<char>, Seq<char>),
    rest: Seq<(Seq<char>, Seq<char>)>,
)
    ensures
        value_of(seq![(name, v)] + rest, name) == Some(v),
        other.0 != name ==> value_of(seq![other] + rest, name) == value_of(rest, name),
        value_of(Seq::empty(), name) is None,
{
    let a = seq![(name, v)] + rest;
    assert(a[0] == (name, v));
    let b = seq![other] + rest;
    assert(b[0] == other);
    assert(b.skip(1) == rest);
}

/// The metric varies, or a dimension does, if two series differ in it.
pub proof fn what_varies_differs(ps: Seq<Plot>, name: Seq<char>, i: int, j: int)
    requires
        0 <= i < ps.len(),
        0 <= j < ps.len(),
    ensures
        ps[i].metric != ps[j].metric ==> metric_varies(ps),
        value_of(ps[i].dimensions, name) != value_of(ps[j].dimensions, name) ==> varies(ps, name),
        !metric_varies(ps) ==> ps[i].metric == ps[j].metric,
{
}

/// A query asks for what its series asked for.
pub proof fn a_query_asks_for_its_series(index: usize, spec: &SeriesSpec, period: i64, q: Query)
    requires
        call_ensures(build_query, (index, spec, period), q),
    ensures
        q.id@ == seq!['q'] + decimal(index as nat),
        q.namespace@ == spec.namespace@,
        q.metric@ == spec.metric@,
        q.stat@ == spec.stat@,
        -2_147_483_648 <= period <= 2_147_483_647 ==> q.period == period,
        q.dimensions@.len() == spec.dimensions@.len(),
        forall|i: int|
            0 <= i < spec.dimensions@.len() ==> (#[trigger] q.dimensions@[i]).0@
                == spec.dimensions@[i].0@ && q.dimensions@[i].1@ == spec.dimensions@[i].1@,
{
    let a = pairs(q.dimensions@);
    let b = pairs(spec.dimensions@);
    assert(a == b);
    assert(a.len() == q.dimensions@.len());
    assert forall|i: int| 0 <= i < spec.dimensions@.len() implies (#[trigger] q.dimensions@[i]).0@
        == spec.dimensions@[i].0@ && q.dimensions@[i].1@ == spec.dimensions@[i].1@ by {
        assert(a[i] == b[i]);
    }
}

/// A native period is told from three gaps on.
pub proof fn three_gaps_tell_the_native_period<T>(series: &[Series<T>], r: Option<i64>)
    requires
        dated(series@),
        call_ensures(native_period::<T>, (series,), r),
    ensures
        r is Some <==> all_gaps(series@).len() >= 3,
        r is Some ==> is_mode(all_gaps(series@), r->0),
{
}

/// The gaps of all series count, each series by itself.
pub proof fn every_series_adds_its_gaps<T>(series: Seq<Series<T>>, s: Series<T>)
    ensures
        all_gaps(series.push(s)) == all_gaps(series) + gaps(ordered(times_of(s.points@))),
        all_gaps(Seq::<Series<T>>::empty()).len() == 0,
{
    assert(series.push(s).drop_last() == series);
}

/// A ranking answers with the highest, as many as were asked for.
pub proof fn what_a_ranking_answers(
    profile: &str,
    req: &TopRequest,
    candidates: usize,
    period: i64,
    summaries: Vec<Summary>,
    truncated: bool,
    r: Envelope<Summary>,
)
    requires
        req.window.valid(),
        call_ensures(top, (profile, req, candidates, period, summaries, truncated), r),
    ensures
        r.command@ == "metrics top"@,
        r.truncated == truncated,
        r.data@.len() <= req.count,
        ({
            let all = contended(ordered(contenders(summaries@, req.by)));
            r.data@ == if all.len() <= req.count {
                all
            } else {
                all.subrange(0, req.count as int)
            }
        }),
{
}

/// A comparison is wanted of one series at least, and a period that may be
/// asked for.
pub proof fn a_comparison_wants_a_series(series: usize, period: Option<i64>, r: Result<(), Error>)
    requires
        call_ensures(check_comparison, (series, period), r),
    ensures
        r is Ok <==> series > 0 && (period is None || acceptable_period(period->0 as int)),
        r is Err ==> kind_of(r->Err_0@) == "bad_argument"@,
        series == 0 ==> r is Err && message_of(r->Err_0@) == "cannot parse "@ + debug_text(""@)
            + ": "@ + "at least one --series is required"@,
{
}

/// A series is read by its own fields.
pub proof fn a_series_is_read_by_its_fields(s: SeriesSpec)
    ensures
        s@.label == s.label@,
        s@.namespace == s.namespace@,
        s@.metric == s.metric@,
        s@.stat == s.stat@,
        s@.dimensions.len() == s.dimensions@.len(),
        forall|i: int|
            0 <= i < s.dimensions@.len() ==> #[trigger] s@.dimensions[i] == (
                s.dimensions@[i].0@,
                s.dimensions@[i].1@,
            ),
{
}

/// A query is found again by the number behind its `q`.
pub proof fn a_query_is_found_by_its_number(number: Seq<char>, other: Seq<char>)
    requires
        number.len() > 0,
        crate::laws::values::digits(number),
        decimal_value(number) <= usize::MAX,
        other.len() > 0,
        other[0] != 'q',
    ensures
        index_of(seq!['q'] + number) == Some(decimal_value(number)),
        index_of(seq!['q', '+'] + number) == Some(decimal_value(number)),
        index_of(other) is None,
        index_of(seq!['q']) is None,
{
    let s = seq!['q'] + number;
    let t = seq!['q', '+'] + number;
    assert(t.skip(1) =~= seq!['+'] + number);
    assert(t.skip(1).skip(1) =~= number);
    assert(s.skip(1) == number);
    assert(crate::laws::values::digit(number[0]));
    assert forall|i: int| 0 <= i < number.len() implies #[trigger] CharClass::Digit.has(
        number[i],
    ) by {
        assert(crate::laws::values::digit(number[i]));
    }
    assert(seq!['q'].skip(1) == Seq::<char>::empty());
}

/// A summary is of the points of its series.
pub proof fn a_summary_is_of_its_series(s: &Series<Option<i64>>, mean: Option<i64>, r: Summary, k: int)
    requires
        call_ensures(summarise, (s, mean), r),
    ensures
        r.label@ == s.label@,
        r.datapoints == finite(s.points@).len(),
        r.latest == latest_value(s.points@),
        0 <= k < finite(s.points@).len() ==> {
            &&& r.min is Some && r.min->0 <= finite(s.points@)[k]
            &&& r.max is Some && r.max->0 >= finite(s.points@)[k]
            &&& r.mean == mean
        },
        finite(s.points@).len() == 0 ==> r.min is None && r.max is None && r.mean is None,
{
}

/// Candidates for a ranking are the values that were found, in their sequence;
/// where there are none, nothing can be ranked.
pub proof fn every_value_is_a_candidate(
    req: &TopRequest,
    values: &Vec<String>,
    r: Result<Vec<SeriesSpec>, Error>,
    k: int,
)
    requires
        call_ensures(top_specs, (req, values), r),
    ensures
        r is Ok <==> values@.len() > 0,
        values@.len() == 0 ==> r->Err_0@ == (Fault::BadSpec {
            spec: req.namespace@ + "/"@ + req.metric@,
            reason: "no metrics found with dimension "@ + req.dimension@,
        }),
        r is Ok ==> r->Ok_0@.len() == values@.len(),
        r is Ok && 0 <= k < values@.len() ==> {
            &&& r->Ok_0@[k].label@ == values@[k]@
            &&& r->Ok_0@[k].namespace@ == req.namespace@
            &&& r->Ok_0@[k].metric@ == req.metric@
            &&& r->Ok_0@[k].stat@ == req.stat@
        },
{
    if r is Ok {
        let ps = plots(r->Ok_0@);
        assert(ps.len() == r->Ok_0@.len());
        assert(strings(values@).len() == values@.len());
        if 0 <= k < values@.len() {
            assert(ps[k] == r->Ok_0@[k]@);
            assert(strings(values@)[k] == values@[k]@);
        }
    }
}

/// A comparison answers with a row for each time, complete.
pub proof fn what_a_comparison_answers(
    profile: &str,
    specs: &[SeriesSpec],
    window: Window,
    period: i64,
    series: &[Series<usize>],
    figures: &Vec<Option<String>>,
    r: Comparison,
)
    requires
        window.valid(),
        dated(series@),
        series@.len() == specs@.len(),
        1 <= period <= 9_223_372_036_854_775,
        call_ensures(compare, (profile, specs, window, period, series, figures), r),
    ensures
        r.envelope.command@ == "metrics compare"@,
        r.envelope.ok,
        !r.envelope.truncated,
        r.envelope.count == timeline(window.since, window.until, period as int).len(),
        r.matrix.aligns(series@, window.since, window.until, period as int),
        r.native is Some <==> all_gaps(series@).len() >= 3,
{
    assert(items_of(r.envelope.data@).len() == r.envelope.data@.len());
}

/// The short name of a series has its metric where the metrics differ, or
/// where no dimension does, and the values of the dimensions that differ.
pub proof fn a_short_name_has_what_differs(ps: Seq<Plot>, i: int)
    requires
        0 <= i < ps.len(),
    ensures
        ({
            let names = varying(ps, ps.len() as int);
            short_labels(ps)[i] == short_label(ps[i], names, metric_varies(ps) || names.len() == 0)
        }),
        short_labels(ps).len() == ps.len(),
{
}

/// The dimensions that differ are those of some series whose values vary, each
/// once.
pub proof fn the_dimensions_that_differ(ps: Seq<Plot>, n: int, name: Seq<char>)
    requires
        0 <= n <= ps.len(),
    ensures
        varying(ps, n).no_duplicates(),
        varying(ps, n).contains(name) <==> varies(ps, name) && exists|i: int|
            0 <= i < n && dimension_names(#[trigger] ps[i]).contains(name),
    decreases n,
{
    if n > 0 {
        the_dimensions_that_differ(ps, n - 1, name);
        let found = varying(ps, n - 1);
        let names = dimension_names(ps[n - 1]);
        names_are_added_once(ps, found, names, name);
        if exists|i: int| 0 <= i < n && dimension_names(#[trigger] ps[i]).contains(name) {
            let i = choose|i: int| 0 <= i < n && dimension_names(#[trigger] ps[i]).contains(name);
            if i < n - 1 {
                assert(dimension_names(ps[i]).contains(name));
            }
        }
        if names.contains(name) {
            assert(dimension_names(ps[n - 1]).contains(name));
        }
    }
}

/// Names are added once.
proof fn names_are_added_once(
    ps: Seq<Plot>,
    found: Seq<Seq<char>>,
    names: Seq<Seq<char>>,
    name: Seq<char>,
)
    requires
        found.no_duplicates(),
    ensures
        varying_among(ps, found, names).no_duplicates(),
        varying_among(ps, found, names).contains(name) <==> found.contains(name) || (varies(
            ps,
            name,
        ) && names.contains(name)),
    decreases names.len(),
{
    if names.len() > 0 {
        let rest = names.drop_last();
        let last = names.last();
        names_are_added_once(ps, found, rest, name);
        names_are_added_once(ps, found, rest, last);
        let past = varying_among(ps, found, rest);
        let all = varying_among(ps, found, names);
        assert(names[names.len() - 1] == last);
        if names.contains(name) && name != last {
            let i = choose|i: int| 0 <= i < names.len() && names[i] == name;
            assert(rest[i] == name);
        }
        if rest.contains(name) {
            let i = choose|i: int| 0 <= i < rest.len() && rest[i] == name;
            assert(names[i] == name);
        }
        if all.len() > past.len() {
            assert(all[past.len() as int] == last);
            if past.contains(name) {
                let i = choose|i: int| 0 <= i < past.len() && past[i] == name;
                assert(all[i] == name);
            }
            if all.contains(name) && name != last {
                let i = choose|i: int| 0 <= i < all.len() && all[i] == name;
                assert(past[i] == name);
            }
        }
    } else {
        assert(names =~= Seq::<Seq<char>>::empty());
    }
}

/// Whether a text is white space alone.
pub open spec fn blank(s: Seq<char>) -> bool {
    forall|i: int| 0 <= i < s.len() ==> CharClass::White.has(#[trigger] s[i])
}

/// White space around a name and its value does not count, and an empty part
/// adds nothing.
pub proof fn white_space_in_a_dimension_does_not_count(
    raw: Seq<char>,
    parts: Seq<Seq<char>>,
    found: Seq<(Seq<char>, Seq<char>)>,
    a: Seq<char>,
    name: Seq<char>,
    b: Seq<char>,
    c: Seq<char>,
    value: Seq<char>,
    d: Seq<char>,
)
    requires
        dimensions_of(raw, parts) == Ok::<Seq<(Seq<char>, Seq<char>)>, Fault>(found),
        blank(a) && blank(b) && blank(c) && blank(d),
        writable(name) && writable(value),
        !name.contains('='),
    ensures
        dimensions_of(raw, parts.push(a)) == Ok::<Seq<(Seq<char>, Seq<char>)>, Fault>(found),
        dimensions_of(raw, parts.push((a + name + b) + seq!['='] + (c + value + d))) == Ok::<
            Seq<(Seq<char>, Seq<char>)>,
            Fault,
        >(found.push((name, value))),
        dimensions_of(raw, parts.push(name)) == Err::<Seq<(Seq<char>, Seq<char>)>, Fault>(
            Fault::BadSpec { spec: raw, reason: "dimensions are Name=Value"@ },
        ),
        dimensions_of(raw, parts.push(a + seq!['='] + (c + value + d))) == Err::<
            Seq<(Seq<char>, Seq<char>)>,
            Fault,
        >(
            Fault::BadSpec {
                spec: raw,
                reason: "dimension name and value must both be present"@,
            },
        ),
        dimensions_of(raw, parts.push((a + name + b) + seq!['='] + c)) == Err::<
            Seq<(Seq<char>, Seq<char>)>,
            Fault,
        >(
            Fault::BadSpec {
                spec: raw,
                reason: "dimension name and value must both be present"@,
            },
        ),
{
    let none = Seq::<char>::empty();
    let left = a + name + b;
    let right = c + value + d;
    sides_are_trimmed(a, name, b);
    sides_are_trimmed(c, value, d);
    sides_are_trimmed(none, name, none);
    assert(none + name + none == name);
    assert(blank(none));
    cutting_takes_the_first(left, '=', right);
    cutting_takes_the_first(left, '=', c);
    cutting_takes_the_first(a, '=', right);
    cutting_takes_the_first(name, '=', none);
    let p = left + seq!['='] + right;
    let q = a + seq!['='] + right;
    let r = left + seq!['='] + c;
    assert(p[left.len() as int] == '=' && q[a.len() as int] == '=' && r[left.len() as int] == '=');
    something_is_left(p, left.len() as int);
    something_is_left(q, a.len() as int);
    something_is_left(r, left.len() as int);
    something_is_left(name, 0);
    one_more_part(raw, parts, found, a);
    one_more_part(raw, parts, found, p);
    one_more_part(raw, parts, found, q);
    one_more_part(raw, parts, found, r);
    one_more_part(raw, parts, found, name);
    blank_is_trimmed_away(a);
    blank_is_trimmed_away(c);
}

/// White space around a core is trimmed, and has no separator in it.
proof fn sides_are_trimmed(a: Seq<char>, core: Seq<char>, b: Seq<char>)
    requires
        blank(a) && blank(b),
        writable(core),
    ensures
        trimmed(a + core + b, CharClass::White) == core,
        !core.contains('=') ==> !(a + core + b).contains('='),
        !a.contains('='),
{
    let k = CharClass::White;
    trimming_keeps_the_core(a, core, b, k);
    let s = a + core + b;
    assert forall|i: int| 0 <= i < a.len() implies a[i] != '=' by {
        assert(k.has(a[i]));
    }
    if !core.contains('=') {
        assert forall|i: int| 0 <= i < s.len() implies s[i] != '=' by {
            if i < a.len() {
                assert(k.has(a[i]));
            } else if i < a.len() + core.len() {
                assert(core.contains(core[i - a.len()]));
            } else {
                assert(k.has(b[i - a.len() - core.len()]));
            }
        }
    }
}

/// White space alone is trimmed away.
proof fn blank_is_trimmed_away(a: Seq<char>)
    requires
        blank(a),
    ensures
        trimmed(a, CharClass::White).len() == 0,
{
    crate::laws::texts::nothing_is_left_of_a_single_class(a, CharClass::White);
}

/// What one more part adds.
proof fn one_more_part(
    raw: Seq<char>,
    parts: Seq<Seq<char>>,
    found: Seq<(Seq<char>, Seq<char>)>,
    part: Seq<char>,
)
    requires
        dimensions_of(raw, parts) == Ok::<Seq<(Seq<char>, Seq<char>)>, Fault>(found),
    ensures
        dimensions_of(raw, parts.push(part)) == if trimmed(part, CharClass::White).len() == 0 {
            Ok::<Seq<(Seq<char>, Seq<char>)>, Fault>(found)
        } else {
            match cut(part, '=') {
                None => Err(
                    Fault::BadSpec { spec: raw, reason: "dimensions are Name=Value"@ },
                ),
                Some((k, v)) => if trimmed(k, CharClass::White).len() == 0 || trimmed(
                    v,
                    CharClass::White,
                ).len() == 0 {
                    Err(
                        Fault::BadSpec {
                            spec: raw,
                            reason: "dimension name and value must both be present"@,
                        },
                    )
                } else {
                    Ok(found.push((trimmed(k, CharClass::White), trimmed(v, CharClass::White))))
                },
            }
        },
{
    assert(parts.push(part).drop_last() == parts);
}

/// Something is left of a text that has more than white space.
proof fn something_is_left(s: Seq<char>, i: int)
    requires
        0 <= i < s.len(),
        !CharClass::White.has(s[i]),
    ensures
        trimmed(s, CharClass::White).len() > 0,
{
    let k = CharClass::White;
    crate::text::lead_len_stops(s, k);
    let n = crate::text::lead_len(s, k) as int;
    if n > i {
        assert(k.has(s[i]));
    }
    let t = s.skip(n);
    crate::text::trail_len_stops(t, k);
    if crate::text::trail_len(t, k) == t.len() {
        assert(k.has(t[i - n]));
    }
}

/// A dimension that cannot be read spoils the whole.
pub proof fn a_bad_dimension_spoils_the_whole(raw: Seq<char>, parts: Seq<Seq<char>>, part: Seq<char>)
    requires
        dimensions_of(raw, parts) is Err,
    ensures
        dimensions_of(raw, parts.push(part)) == dimensions_of(raw, parts),
{
    assert(parts.push(part).drop_last() == parts);
}

/// The values in a name follow the dimensions, and the dimensions follow one
/// another as the series name them.
pub proof fn names_keep_the_sequence_of_dimensions(
    p: Plot,
    ps: Seq<Plot>,
    names: Seq<Seq<char>>,
    found: Seq<Seq<char>>,
    name: Seq<char>,
    n: int,
)
    requires
        0 < n <= ps.len(),
    ensures
        value_of(p.dimensions, name) is Some ==> values_among(p, names.push(name)) == values_among(
            p,
            names,
        ).push(value_of(p.dimensions, name)->0),
        value_of(p.dimensions, name) is None ==> values_among(p, names.push(name)) == values_among(
            p,
            names,
        ),
        ({
            let past = varying_among(ps, found, names);
            &&& varies(ps, name) && !past.contains(name) ==> varying_among(
                ps,
                found,
                names.push(name),
            ) == past.push(name)
            &&& !varies(ps, name) || past.contains(name) ==> varying_among(
                ps,
                found,
                names.push(name),
            ) == past
        }),
        varying(ps, n) == varying_among(ps, varying(ps, n - 1), dimension_names(ps[n - 1])),
        varying(ps, 0).len() == 0,
{
    assert(names.push(name).drop_last() == names);
}

/// Every metric of a page adds the value of its dimension, one after the other,
/// until there are enough.
pub proof fn every_metric_adds_its_value(
    values: Seq<Seq<char>>,
    m: Vec<ListedDimension>,
    rest: Seq<Vec<ListedDimension>>,
    name: Seq<char>,
)
    ensures
        ({
            let next = noted(values, listed_value(m@, name));
            let all = discovered(values, seq![m] + rest, name);
            &&& next.len() < 300 ==> all == discovered(next, rest, name)
            &&& next.len() >= 300 ==> all == (next, true)
        }),
        discovered(values, Seq::empty(), name) == (values, false),
{
    let s = seq![m] + rest;
    assert(s[0] == m);
    assert(s.skip(1) == rest);
}

} // verus!
