//! Clusters against a baseline, and the order they are listed in.

use crate::cluster::template::{
    all_judged, bucket, bucket_count, built, clusters_given, counts_are, distinct,
    distinct_is_distinct, earliest, earliest_is_first, histogram_of, id_of, judged, latest,
    latest_is_last, picked, places, places_hold_the_text, status_against, stream_shares, streams,
    templates, unsorted, Cluster, Group, Line, Share, Status,
};
use crate::cmd::logs::{
    budget, chosen, cluster_events, clustered, raw_lines, scanned, RawEvent, ScanResult,
};
use crate::common::flags::Window;
use crate::common::time::{millis, seconds, zulu_text, Instant};
use crate::json::JsonTree;
use crate::order::{ordered, sorting_orders, sorting_permutes, Ordered};
use crate::output::Record;
use crate::text::{decimal, hex, text_less};
use vstd::prelude::*;

verus! {

// ---------------------------------------------------------------------------
// The status
// ---------------------------------------------------------------------------

/// A length of time in whole seconds, counted as at least one.
pub open spec fn lasting(secs: int) -> int {
    if secs >= 1 {
        secs
    } else {
        1
    }
}

/// A template that the baseline knows is spiking exactly when its rate is more
/// than three times the rate it had there, however small the counts.
pub proof fn a_spike_is_three_times_the_rate(
    count: nat,
    prior: usize,
    window_secs: int,
    baseline_secs: int,
)
    requires
        prior > 0,
    ensures
        status_against(count, Some(prior), window_secs, baseline_secs) == Status::Spiking
            <==> count * lasting(baseline_secs) > 3 * prior * lasting(window_secs),
        status_against(count, Some(prior), window_secs, baseline_secs) == Status::Steady
            <==> count * lasting(baseline_secs) <= 3 * prior * lasting(window_secs),
{
    let w = lasting(window_secs);
    assert(3 * (prior * w) == 3 * prior * w) by (nonlinear_arith);
}

/// A template that the baseline does not know is new, and nothing else is.
pub proof fn only_the_unknown_is_new(
    count: nat,
    prior: Option<usize>,
    window_secs: int,
    baseline_secs: int,
)
    ensures
        status_against(count, prior, window_secs, baseline_secs) == Status::New <==> prior is None,
        status_against(count, prior, window_secs, baseline_secs) != Status::Unknown,
        prior == Some(0usize) ==> status_against(count, prior, window_secs, baseline_secs)
            == Status::Steady,
{
}

/// More lines in the window never calm a template down.
pub proof fn more_lines_never_calm(
    fewer: nat,
    more: nat,
    prior: Option<usize>,
    window_secs: int,
    baseline_secs: int,
)
    requires
        fewer <= more,
        status_against(fewer, prior, window_secs, baseline_secs) == Status::Spiking,
    ensures
        status_against(more, prior, window_secs, baseline_secs) == Status::Spiking,
{
    let b = lasting(baseline_secs);
    assert(fewer * b <= more * b) by (nonlinear_arith)
        requires
            fewer <= more,
            b >= 1,
    ;
}

/// More lines in the baseline never raise an alarm.
pub proof fn a_busier_baseline_never_alarms(
    count: nat,
    fewer: usize,
    more: usize,
    window_secs: int,
    baseline_secs: int,
)
    requires
        0 < fewer <= more,
        status_against(count, Some(fewer), window_secs, baseline_secs) == Status::Steady,
    ensures
        status_against(count, Some(more), window_secs, baseline_secs) == Status::Steady,
{
    let w = lasting(window_secs);
    assert(3 * (fewer * w) <= 3 * (more * w)) by (nonlinear_arith)
        requires
            fewer <= more,
            w >= 1,
    ;
}

/// Only rates count: as many times the lines on both sides gives the same
/// status.
pub proof fn the_status_follows_the_rate(
    count: nat,
    prior: usize,
    factor: nat,
    scaled: usize,
    window_secs: int,
    baseline_secs: int,
)
    requires
        prior > 0,
        factor > 0,
        scaled == prior * factor,
    ensures
        status_against(count * factor, Some(scaled), window_secs, baseline_secs)
            == status_against(count, Some(prior), window_secs, baseline_secs),
{
    let w = lasting(window_secs);
    let b = lasting(baseline_secs);
    assert(scaled > 0) by (nonlinear_arith)
        requires
            prior > 0,
            factor > 0,
            scaled == prior * factor,
    ;
    let c = count as int;
    let f = factor as int;
    let p = prior as int;
    assert((c * f) * b == (c * b) * f) by (nonlinear_arith);
    assert(3 * ((p * f) * w) == (3 * (p * w)) * f) by (nonlinear_arith);
    let x = c * b;
    let y = 3 * (p * w);
    assert(x * f > y * f <==> x > y) by (nonlinear_arith)
        requires
            f > 0,
    ;
}

// ---------------------------------------------------------------------------
// The order
// ---------------------------------------------------------------------------

/// How soon a status is shown: what is new first, then what spikes, then what
/// is steady, then what nothing is known of.
pub open spec fn urgency(s: Status) -> int {
    if s == Status::New {
        1
    } else if s == Status::Spiking {
        2
    } else if s == Status::Steady {
        3
    } else {
        4
    }
}

/// Clusters are shown by status, then the larger first, then by identifier.
pub proof fn the_urgent_and_the_large_come_first(cs: Seq<Group>, i: int, j: int)
    requires
        0 <= i < j < ordered(cs).len(),
    ensures
        ({
            let a = ordered(cs)[i];
            let b = ordered(cs)[j];
            &&& urgency(a.status) <= urgency(b.status)
            &&& a.status == b.status ==> a.count >= b.count
            &&& a.status == b.status && a.count == b.count ==> !text_less(b.id, a.id)
        }),
{
    sorting_orders(cs);
    let a = ordered(cs)[i];
    let b = ordered(cs)[j];
    assert(!b.before(a));
}

/// Streams are named the busiest first, equally busy ones by name.
pub proof fn the_busiest_stream_comes_first(ss: Seq<Share>, i: int, j: int)
    requires
        0 <= i < j < ordered(ss).len(),
    ensures
        ordered(ss)[i].count >= ordered(ss)[j].count,
        ordered(ss)[i].count == ordered(ss)[j].count ==> !text_less(
            ordered(ss)[j].stream,
            ordered(ss)[i].stream,
        ),
{
    sorting_orders(ss);
    assert(!ordered(ss)[j].before(ordered(ss)[i]));
}

// ---------------------------------------------------------------------------
// What a cluster says of its lines
// ---------------------------------------------------------------------------

/// How many of the first `n` texts are a given one.
pub open spec fn occurring(ts: Seq<Seq<char>>, t: Seq<char>, n: int) -> nat
    decreases n,
{
    if n <= 0 {
        0
    } else {
        occurring(ts, t, n - 1) + if ts[n - 1] == t {
            1nat
        } else {
            0
        }
    }
}

/// The places of a text are as many as it occurs.
proof fn places_are_occurrences(ts: Seq<Seq<char>>, t: Seq<char>)
    ensures
        places(ts, t).len() == occurring(ts, t, ts.len() as int),
    decreases ts.len(),
{
    if ts.len() > 0 {
        let past = ts.drop_last();
        places_are_occurrences(past, t);
        fewer_texts_count_alike(ts, t, past.len() as int);
    }
}

/// A count over fewer texts does not see the last one.
proof fn fewer_texts_count_alike(ts: Seq<Seq<char>>, t: Seq<char>, n: int)
    requires
        0 <= n < ts.len(),
    ensures
        occurring(ts, t, n) == occurring(ts.drop_last(), t, n),
    decreases n,
{
    if n > 0 {
        fewer_texts_count_alike(ts, t, n - 1);
        assert(ts.drop_last()[n - 1] == ts[n - 1]);
    }
}

/// There is a cluster for each template and no other; it counts the lines of
/// its template, its status is yet unknown, and what is told of time, streams
/// and the example is told of those lines.
pub proof fn a_cluster_counts_the_lines_of_its_template(
    evs: Seq<Line>,
    ts: Seq<Seq<char>>,
    since: Instant,
    until: Instant,
    buckets: int,
    k: int,
)
    requires
        evs.len() == ts.len(),
        0 <= k < clusters_given(evs, ts, since, until, buckets).len(),
    ensures
        ({
            let c = clusters_given(evs, ts, since, until, buckets)[k];
            &&& ts.contains(c.template)
            &&& c.count == occurring(ts, c.template, ts.len() as int)
            &&& c.id == id_of(c.template)
            &&& c.status == Status::Unknown
            &&& exists|i: int|
                0 <= i < evs.len() && ts[i] == c.template && #[trigger] evs[i] == c.exemplar
            &&& c.exemplar.at == c.first
            &&& forall|i: int|
                0 <= i < evs.len() && ts[i] == c.template ==> !c.first.after(
                    (#[trigger] evs[i]).at,
                ) && !evs[i].at.after(c.last)
            &&& exists|i: int|
                0 <= i < evs.len() && ts[i] == c.template && (#[trigger] evs[i]).at == c.last
        }),
{
    let n = if buckets < 1 {
        1
    } else {
        buckets
    };
    let all = unsorted(evs, ts, since, until, n);
    sorting_permutes(all);
    crate::order::permuted_is_same(ordered(all), all);
    let c = clusters_given(evs, ts, since, until, buckets)[k];
    assert(ordered(all).contains(c));
    assert(all.contains(c));
    let g = choose|g: int| 0 <= g < all.len() && all[g] == c;
    let t = distinct(ts)[g];
    distinct_is_distinct(ts);
    assert(distinct(ts).contains(t));
    places_hold_the_text(ts, t);
    places_are_occurrences(ts, t);
    let at = places(ts, t);
    let ms = picked(evs, at);
    assert(c == built(t, ms, since, until, n));
    earliest_is_first(ms);
    latest_is_last(ms);
    let e = choose|e: int| 0 <= e < ms.len() && ms[e] == earliest(ms);
    assert(evs[at[e]] == c.exemplar);
    let l = choose|l: int| 0 <= l < ms.len() && (#[trigger] ms[l]).at == latest(ms);
    assert(evs[at[l]].at == c.last);
    assert forall|i: int| 0 <= i < evs.len() && ts[i] == c.template implies !c.first.after(
        (#[trigger] evs[i]).at,
    ) && !evs[i].at.after(c.last) by {
        every_place_is_found(ts, t, i);
        let p = choose|p: int| 0 <= p < at.len() && #[trigger] at[p] == i;
        assert(ms[p] == evs[i]);
    }
}

/// Every place where a text stands is among its places.
proof fn every_place_is_found(ts: Seq<Seq<char>>, t: Seq<char>, i: int)
    requires
        0 <= i < ts.len(),
        ts[i] == t,
    ensures
        exists|p: int| 0 <= p < places(ts, t).len() && #[trigger] places(ts, t)[p] == i,
    decreases ts.len(),
{
    let n = ts.len() - 1;
    if i == n {
        let q = places(ts, t);
        assert(q[q.len() - 1] == i);
    } else {
        every_place_is_found(ts.drop_last(), t, i);
        let past = places(ts.drop_last(), t);
        let p = choose|p: int| 0 <= p < past.len() && #[trigger] past[p] == i;
        assert(places(ts, t)[p] == i);
    }
}

/// A cluster names its ten busiest streams, each with the number of its lines,
/// and says how many more there are.
pub proof fn a_cluster_names_ten_streams(
    template: Seq<char>,
    ms: Seq<Line>,
    since: Instant,
    until: Instant,
    buckets: int,
    k: int,
)
    requires
        0 <= k < built(template, ms, since, until, buckets).by_stream.len(),
    ensures
        ({
            let c = built(template, ms, since, until, buckets);
            let names = streams(ms);
            &&& c.by_stream.len() + c.other_streams == distinct(names).len()
            &&& c.by_stream.len() <= 10
            &&& c.other_streams > 0 ==> c.by_stream.len() == 10
            &&& names.contains(c.by_stream[k].stream)
            &&& c.by_stream[k].count == occurring(names, c.by_stream[k].stream, names.len() as int)
        }),
{
    let names = streams(ms);
    let all = stream_shares(ms);
    sorting_permutes(all);
    crate::order::permuted_is_same(ordered(all), all);
    let c = built(template, ms, since, until, buckets);
    let s = c.by_stream[k];
    assert(s == ordered(all)[k]);
    assert(ordered(all).contains(s));
    assert(all.contains(s));
    let g = choose|g: int| 0 <= g < all.len() && all[g] == s;
    distinct_is_distinct(names);
    assert(distinct(names).contains(distinct(names)[g]));
    places_are_occurrences(names, s.stream);
}

/// A line falls into the bar that its share of the window tells, to the
/// millisecond: bar `b` of `n` starts at `b` times the length over `n`. Lines
/// outside the window go to the first bar or to the last. A window shorter
/// than a millisecond is counted as one.
pub proof fn a_line_falls_into_its_share_of_the_window(
    at: Instant,
    since: Instant,
    until: Instant,
    buckets: int,
    b: int,
)
    requires
        buckets > 0,
        bucket(at, since, until, buckets) == b,
    ensures
        0 <= b < buckets,
        ({
            let length = lasting(millis(until, since));
            let offset = millis(at, since);
            &&& 0 <= offset < length ==> b * length <= offset * buckets < (b + 1) * length
            &&& offset < 0 ==> b == 0
            &&& offset >= length ==> b == buckets - 1
        }),
{
    let length = lasting(millis(until, since));
    let offset = millis(at, since);
    let x = offset * buckets;
    let raw = x / length;
    vstd::arithmetic::div_mod::lemma_fundamental_div_mod(x, length);
    assert(length * raw <= x < length * raw + length);
    assert(length * raw == raw * length) by (nonlinear_arith);
    assert((raw + 1) * length == raw * length + length) by (nonlinear_arith);
    if offset < 0 {
        assert(x < 0) by (nonlinear_arith)
            requires
                x == offset * buckets,
                offset < 0,
                buckets > 0,
        ;
        assert(raw < 0) by (nonlinear_arith)
            requires
                raw * length <= x,
                x < 0,
                length > 0,
        ;
    } else {
        assert(x >= 0) by (nonlinear_arith)
            requires
                x == offset * buckets,
                offset >= 0,
                buckets > 0,
        ;
        assert(raw >= 0) by (nonlinear_arith)
            requires
                x < raw * length + length,
                x >= 0,
                length > 0,
        ;
        if offset < length {
            assert(x < buckets * length) by (nonlinear_arith)
                requires
                    x == offset * buckets,
                    offset < length,
                    buckets > 0,
            ;
            assert(raw < buckets) by (nonlinear_arith)
                requires
                    raw * length <= x,
                    x < buckets * length,
                    length > 0,
            ;
        } else {
            assert(x >= buckets * length) by (nonlinear_arith)
                requires
                    x == offset * buckets,
                    offset >= length,
                    buckets > 0,
            ;
            assert(raw >= buckets) by (nonlinear_arith)
                requires
                    x < raw * length + length,
                    x >= buckets * length,
                    length > 0,
            ;
        }
    }
}

/// An identifier is twelve hexadecimal digits.
pub proof fn an_identifier_has_twelve_digits(template: Seq<char>, i: int)
    requires
        0 <= i < 12,
    ensures
        id_of(template).len() == 12,
        '0' <= id_of(template)[i] <= '9' || 'a' <= id_of(template)[i] <= 'f',
{
    let n = (crate::hash::text_hash(template, crate::cluster::template::ID_MULTIPLIER)
        % 0x1_0000_0000_0000) as nat;
    hexadecimal_has_its_width(n, 12);
    let c = hex(n, 12)[i];
}

/// Hexadecimal text has the width it was asked for, and small digits.
pub proof fn hexadecimal_has_its_width(n: nat, width: nat)
    ensures
        hex(n, width).len() == width,
        forall|i: int|
            0 <= i < width ==> ('0' <= #[trigger] hex(n, width)[i] <= '9' || 'a' <= hex(
                n,
                width,
            )[i] <= 'f'),
    decreases width,
{
    if width > 0 {
        hexadecimal_has_its_width(n / 16, (width - 1) as nat);
        let d = n % 16;
        let past = hex(n / 16, (width - 1) as nat);
        assert forall|i: int| 0 <= i < width implies ('0' <= #[trigger] hex(n, width)[i] <= '9'
            || 'a' <= hex(n, width)[i] <= 'f') by {
            if i < width - 1 {
                assert(hex(n, width)[i] == past[i]);
            }
        }
    }
}

/// The baseline knows a template by how often it occurs there, and a cluster
/// is judged by that and by its own count alone.
pub proof fn a_cluster_is_judged_by_its_own_template(
    c: Group,
    counts: Map<Seq<char>, usize>,
    ts: Seq<Seq<char>>,
    window_secs: int,
    baseline_secs: int,
)
    requires
        counts_are(counts, ts),
    ensures
        ({
            let prior = occurring(ts, c.template, ts.len() as int);
            let r = judged(c, counts, window_secs, baseline_secs);
            &&& r.status == Status::New <==> prior == 0
            &&& r.status == Status::Spiking <==> prior > 0 && c.count * lasting(baseline_secs) > 3
                * prior * lasting(window_secs)
            &&& r.status == Status::Steady <==> prior > 0 && c.count * lasting(baseline_secs) <= 3
                * prior * lasting(window_secs)
            &&& r == (Group { status: r.status, ..c })
        }),
{
    places_are_occurrences(ts, c.template);
    places_hold_the_text(ts, c.template);
    if counts.contains_key(c.template) {
        a_spike_is_three_times_the_rate(
            c.count,
            counts[c.template],
            window_secs,
            baseline_secs,
        );
    }
}

// ---------------------------------------------------------------------------
// What is written
// ---------------------------------------------------------------------------

/// What is written for a cluster are its fields, in this sequence.
pub proof fn a_cluster_is_written_field_by_field(c: Cluster)
    ensures
        ({
            let f = c.shape()->Object_0;
            &&& c.shape() is Object
            &&& f.len() == 10
            &&& f[0] == ("cluster_id"@, JsonTree::Text(c.cluster_id@))
            &&& f[1].0 == "status"@
            &&& c.status == Status::New ==> f[1].1 == JsonTree::Text("new"@)
            &&& c.status == Status::Spiking ==> f[1].1 == JsonTree::Text("spiking"@)
            &&& c.status == Status::Steady ==> f[1].1 == JsonTree::Text("steady"@)
            &&& c.status == Status::Unknown ==> f[1].1 == JsonTree::Text("unknown"@)
            &&& f[2] == ("count"@, JsonTree::Number(decimal(c.count as nat)))
            &&& f[3] == (
                "first_seen"@,
                JsonTree::Text(zulu_text(c.first_seen.secs, c.first_seen.nanos)),
            )
            &&& f[4] == (
                "last_seen"@,
                JsonTree::Text(zulu_text(c.last_seen.secs, c.last_seen.nanos)),
            )
            &&& f[5] == ("template"@, JsonTree::Text(c.template@))
            &&& f[6].0 == "histogram"@
            &&& f[6].1 is Array
            &&& f[6].1->Array_0.len() == c.histogram@.len()
            &&& forall|i: int|
                0 <= i < c.histogram@.len() ==> #[trigger] f[6].1->Array_0[i] == JsonTree::Number(
                    decimal(c.histogram@[i] as nat),
                )
            &&& f[7].0 == "by_stream"@
            &&& f[7].1 is Array
            &&& f[7].1->Array_0.len() == c.by_stream@.len()
            &&& forall|i: int|
                0 <= i < c.by_stream@.len() ==> #[trigger] f[7].1->Array_0[i] == JsonTree::Object(
                    seq![
                        ("stream"@, JsonTree::Text(c.by_stream@[i].stream@)),
                        ("count"@, JsonTree::Number(decimal(c.by_stream@[i].count as nat))),
                    ],
                )
            &&& f[8] == ("other_streams"@, JsonTree::Number(decimal(c.other_streams as nat)))
            &&& f[9] == (
                "exemplar"@,
                JsonTree::Object(
                    seq![
                        (
                            "ts"@,
                            JsonTree::Text(zulu_text(c.exemplar.ts.secs, c.exemplar.ts.nanos)),
                        ),
                        ("stream"@, JsonTree::Text(c.exemplar.stream@)),
                        ("message"@, JsonTree::Text(c.exemplar.message@)),
                    ],
                ),
            )
        }),
{
}

/// What a cluster is, is what its fields say.
pub proof fn a_cluster_is_read_by_its_fields(c: Cluster)
    ensures
        c@.id == c.cluster_id@,
        c@.status == c.status,
        c@.count == c.count,
        c@.first == c.first_seen,
        c@.last == c.last_seen,
        c@.template == c.template@,
        c@.histogram == c.histogram@,
        c@.other_streams == c.other_streams,
        c@.exemplar.at == c.exemplar.ts,
        c@.exemplar.stream == c.exemplar.stream@,
        c@.exemplar.message == c.exemplar.message@,
        c@.by_stream.len() == c.by_stream@.len(),
        forall|i: int|
            0 <= i < c.by_stream@.len() ==> (#[trigger] c@.by_stream[i]).stream
                == c.by_stream@[i].stream@ && c@.by_stream[i].count == c.by_stream@[i].count,
{
}

/// A line is clustered with its own time, stream and message.
pub proof fn a_line_is_clustered_as_it_was_read(events: Seq<RawEvent>, i: int)
    requires
        0 <= i < events.len(),
    ensures
        raw_lines(events).len() == events.len(),
        raw_lines(events)[i].at == events[i].ts,
        raw_lines(events)[i].stream == events[i].stream@,
        raw_lines(events)[i].message == events[i].message@,
{
}

// ---------------------------------------------------------------------------
// Drilling
// ---------------------------------------------------------------------------

/// Drilling into a cluster, and into a stream of it if one is asked for, picks
/// exactly the events that belong there.
pub proof fn drilling_picks_what_belongs(
    events: Seq<RawEvent>,
    ts: Seq<Seq<char>>,
    id: Seq<char>,
    stream: Option<Seq<char>>,
    n: int,
)
    requires
        0 < n <= events.len(),
        ts.len() == events.len(),
    ensures
        id_of(ts[n - 1]) == id && (stream is None || stream->0 == events[n - 1].stream@) ==> chosen(
            events,
            ts,
            id,
            stream,
            n,
        ) == chosen(events, ts, id, stream, n - 1).push(events[n - 1]),
        id_of(ts[n - 1]) != id || (stream is Some && stream->0 != events[n - 1].stream@) ==> chosen(
            events,
            ts,
            id,
            stream,
            n,
        ) == chosen(events, ts, id, stream, n - 1),
        chosen(events, ts, id, stream, 0).len() == 0,
{
}

/// A limit is shared out among groups so that the shares reach it, and no
/// share could be smaller.
pub proof fn a_share_is_the_least_that_reaches_the_limit(limit: int, groups: int)
    requires
        limit >= 1,
        groups > 0,
    ensures
        budget(limit, groups) * groups >= limit,
        (budget(limit, groups) - 1) * groups < limit,
        budget(0, groups) == 1,
{
    let x = limit + groups - 1;
    let q = x / groups;
    vstd::arithmetic::div_mod::lemma_fundamental_div_mod(x, groups);
    assert(q * groups == groups * q) by (nonlinear_arith);
    assert((q - 1) * groups == q * groups - groups) by (nonlinear_arith);
    assert(q >= 1) by (nonlinear_arith)
        requires
            groups * q + groups > x,
            x >= groups,
            groups > 0,
    ;
    let y = 0 + groups - 1;
    assert(y / groups == 0) by (nonlinear_arith)
        requires
            y == groups - 1,
            groups > 0,
    ;
}

// ---------------------------------------------------------------------------
// The histogram
// ---------------------------------------------------------------------------

/// One more line adds one to the bar of its share of the window, and nothing
/// to any other.
pub proof fn a_line_adds_to_its_own_bar(
    ms: Seq<Line>,
    l: Line,
    since: Instant,
    until: Instant,
    buckets: int,
    b: int,
)
    requires
        0 <= b < buckets,
        ms.len() < u32::MAX,
    ensures
        histogram_of(ms, since, until, buckets).len() == buckets,
        ({
            let length = lasting(millis(until, since));
            let offset = millis(l.at, since);
            let more = histogram_of(ms.push(l), since, until, buckets)[b];
            let less = histogram_of(ms, since, until, buckets)[b];
            &&& 0 <= offset < length && b * length <= offset * buckets < (b + 1) * length ==> more
                == less + 1
            &&& 0 <= offset < length && !(b * length <= offset * buckets < (b + 1) * length)
                ==> more == less
            &&& offset < 0 ==> more == less + if b == 0 {
                1int
            } else {
                0
            }
            &&& offset >= length ==> more == less + if b == buckets - 1 {
                1int
            } else {
                0
            }
        }),
        histogram_of(Seq::empty(), since, until, buckets)[b] == 0,
{
    let length = lasting(millis(until, since));
    let offset = millis(l.at, since);
    let own = bucket(l.at, since, until, buckets);
    a_line_falls_into_its_share_of_the_window(l.at, since, until, buckets, own);
    assert(ms.push(l).drop_last() == ms);
    bars_are_bounded(ms, since, until, buckets, b);
    let x = offset * buckets;
    if 0 <= offset < length && own != b && b * length <= x && x < (b + 1) * length {
        assert(false) by (nonlinear_arith)
            requires
                own != b,
                length > 0,
                b * length <= x,
                x < (b + 1) * length,
                own * length <= x,
                x < (own + 1) * length,
        ;
    }
}

/// A bar counts no more lines than there are.
proof fn bars_are_bounded(ms: Seq<Line>, since: Instant, until: Instant, buckets: int, b: int)
    ensures
        bucket_count(ms, since, until, buckets, b) <= ms.len(),
    decreases ms.len(),
{
    if ms.len() > 0 {
        bars_are_bounded(ms.drop_last(), since, until, buckets, b);
    }
}

/// A scan has histograms of sixty bars.
pub proof fn a_scan_has_sixty_bars(events: Seq<RawEvent>, window: Window, k: int)
    requires
        0 <= k < scanned(events, window).len(),
    ensures
        scanned(events, window)[k].histogram.len() == 60,
{
    let evs = raw_lines(events);
    let ts = templates(evs);
    let all = unsorted(evs, ts, window.since, window.until, 60);
    sorting_permutes(all);
    crate::order::permuted_is_same(ordered(all), all);
    let c = scanned(events, window)[k];
    assert(ordered(all).contains(c));
    let g = choose|g: int| 0 <= g < all.len() && all[g] == c;
}

/// The example of a cluster is the first of its earliest lines.
pub proof fn the_example_is_the_first_of_the_earliest(ms: Seq<Line>, k: int)
    requires
        0 <= k < ms.len(),
        forall|j: int|
            0 <= j < ms.len() ==> {
                let a = ms[k].at;
                let b = (#[trigger] ms[j]).at;
                a.secs < b.secs || (a.secs == b.secs && a.nanos <= b.nanos)
            },
        forall|j: int| 0 <= j < k ==> (#[trigger] ms[j]).at != ms[k].at,
    ensures
        earliest(ms) == ms[k],
    decreases ms.len(),
{
    let n = ms.len() - 1;
    let past = ms.drop_last();
    if n > 0 {
        if k < n {
            assert forall|j: int| 0 <= j < past.len() implies {
                let a = past[k].at;
                let b = (#[trigger] past[j]).at;
                a.secs < b.secs || (a.secs == b.secs && a.nanos <= b.nanos)
            } by {
                assert(past[j] == ms[j]);
            }
            the_example_is_the_first_of_the_earliest(past, k);
            let b = ms[n].at;
        } else {
            earliest_is_first(past);
            let j = choose|j: int| 0 <= j < past.len() && past[j] == earliest(past);
            let b = ms[j].at;
            assert(b != ms[k].at);
        }
    }
}

/// Against a baseline, every cluster of a scan is judged by the rate of its
/// template in the window and in the baseline.
pub proof fn a_scan_is_judged_by_rates(
    cs: Seq<Group>,
    events: Seq<RawEvent>,
    window: Window,
    base: Window,
    prior: ScanResult,
    k: int,
)
    requires
        clustered(cs, events, window, Some((base, prior))),
        0 <= k < cs.len(),
    ensures
        ({
            let c = cs[k];
            let ts = templates(raw_lines(events));
            let us = templates(raw_lines(prior.events@));
            let now = occurring(ts, c.template, ts.len() as int);
            let before = occurring(us, c.template, us.len() as int);
            let w = lasting(seconds(window.until, window.since));
            let b = lasting(seconds(base.until, base.since));
            &&& c.count == now
            &&& c.status == Status::New <==> before == 0
            &&& c.status == Status::Spiking <==> before > 0 && now * b > 3 * before * w
            &&& c.status == Status::Steady <==> before > 0 && now * b <= 3 * before * w
        }),
{
    let ts = templates(raw_lines(events));
    let us = templates(raw_lines(prior.events@));
    let ws = seconds(window.until, window.since);
    let bs = seconds(base.until, base.since);
    let counts = choose|counts: Map<Seq<char>, usize>|
        counts_are(counts, us) && cs == #[trigger] ordered(
            all_judged(scanned(events, window), counts, ws, bs),
        );
    let all = all_judged(scanned(events, window), counts, ws, bs);
    sorting_permutes(all);
    crate::order::permuted_is_same(ordered(all), all);
    assert(ordered(all).contains(cs[k]));
    let g = choose|g: int| 0 <= g < all.len() && all[g] == cs[k];
    let c = scanned(events, window)[g];
    a_cluster_counts_the_lines_of_its_template(
        raw_lines(events),
        ts,
        window.since,
        window.until,
        60,
        g,
    );
    a_cluster_is_judged_by_its_own_template(c, counts, us, ws, bs);
}

/// A scan whose baseline was cut short says so.
pub proof fn a_baseline_cut_short_is_told(
    window: Window,
    events: &[RawEvent],
    base: Window,
    prior: ScanResult,
    r: (Vec<Cluster>, bool),
)
    requires
        call_ensures(cluster_events, (window, events, Some((base, prior))), r),
    ensures
        r.1 == prior.truncated,
{
}

/// An event is read with its own time, stream and message.
pub proof fn an_event_is_read_by_its_fields(e: crate::cluster::template::LogEvent)
    ensures
        e@.at == e.timestamp,
        e@.stream == e.stream@,
        e@.message == e.message@,
{
}

} // verus!
