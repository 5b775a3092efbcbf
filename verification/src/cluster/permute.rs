//! The sequence in which events arrive does not change their clusters.

use crate::cluster::template::{
    at_least, bucket, bucket_count, built, clusters_given, distinct, distinct_is_distinct,
    earliest_is_first, every_cluster_is_reachable, histogram_of, id_of, latest, latest_is_last,
    picked, places, places_hold_the_text, stream_shares, streams, templates, unsorted, Group, Line,
    Share, Status,
};
use crate::cluster::tokenize::template_of;
use crate::common::time::Instant;
use crate::order::{
    filtering_permutes, in_order, ordered, permuted, permuted_is_same, replacing_permutes,
    sorting_ignores_sequence, sorting_keeps_elements, sorting_orders, sorting_permutes,
    tallies_ignore_sequence, tally, Ordered,
};
use crate::text::{text_less, text_less_is_total};
use vstd::prelude::*;

verus! {

/// The number of places is a tally.
proof fn places_are_tallied(ts: Seq<Seq<char>>, t: Seq<char>)
    ensures
        places(ts, t).len() == tally(ts, |x: Seq<char>| x == t),
    decreases ts.len(),
{
    if ts.len() > 0 {
        places_are_tallied(ts.drop_last(), t);
    }
}

/// A bar is a tally.
proof fn bars_are_tallied(ms: Seq<Line>, since: Instant, until: Instant, buckets: int, b: int)
    ensures
        bucket_count(ms, since, until, buckets, b) == tally(
            ms,
            |m: Line| bucket(m.at, since, until, buckets) == b,
        ),
    decreases ms.len(),
{
    if ms.len() > 0 {
        bars_are_tallied(ms.drop_last(), since, until, buckets, b);
    }
}

/// The lines with a template, in their sequence.
pub open spec fn lines_with(evs: Seq<Line>, t: Seq<char>) -> Seq<Line> {
    evs.filter(|e: Line| template_of(e.message) == t)
}

/// The lines picked for a template are those that have it.
proof fn picked_lines_have_the_template(evs: Seq<Line>, t: Seq<char>)
    ensures
        picked(evs, places(templates(evs), t)) == lines_with(evs, t),
    decreases evs.len(),
{
    reveal(Seq::filter);
    let ts = templates(evs);
    if evs.len() > 0 {
        let front = evs.drop_last();
        picked_lines_have_the_template(front, t);
        assert(ts.drop_last() == templates(front));
        let at = places(templates(front), t);
        places_hold_the_text(templates(front), t);
        assert forall|k: int| 0 <= k < at.len() implies #[trigger] evs[at[k]] == front[at[k]] by {
            assert(0 <= at[k] < templates(front).len());
        }
        assert(picked(evs, at) =~= picked(front, at));
        if ts.last() == t {
            assert(picked(evs, at.push(evs.len() - 1)) =~= picked(evs, at).push(evs.last()));
        }
    } else {
        assert(picked(evs, places(ts, t)) =~= lines_with(evs, t));
    }
}

/// Whether the earliest of some lines is told without doubt: those at the
/// same earliest instant are the same line.
pub open spec fn one_earliest(ms: Seq<Line>) -> bool {
    forall|i: int, j: int|
        0 <= i < ms.len() && 0 <= j < ms.len() && (#[trigger] ms[i]).at == (#[trigger] ms[j]).at
            && (forall|k: int| 0 <= k < ms.len() ==> !ms[i].at.after((#[trigger] ms[k]).at))
            ==> ms[i] == ms[j]
}

/// The shares of streams are the same in any sequence of the lines.
proof fn shares_ignore_sequence(a: Seq<Line>, b: Seq<Line>)
    requires
        permuted(a, b),
    ensures
        ordered(stream_shares(a)) == ordered(stream_shares(b)),
        distinct(streams(a)).len() == distinct(streams(b)).len(),
{
    let f = |m: Line| m.stream;
    assert(streams(a) == a.map_values(f));
    assert(streams(b) == b.map_values(f));
    replacing_permutes(a, b, f);
    permuted_is_same(streams(a), streams(b));
    distinct_is_distinct(streams(a));
    distinct_is_distinct(streams(b));
    let sa = stream_shares(a);
    let sb = stream_shares(b);
    assert forall|x: Share| sa.contains(x) implies sb.contains(x) by {
        share_moves(a, b, x);
    }
    assert forall|x: Share| sb.contains(x) implies sa.contains(x) by {
        share_moves(b, a, x);
    }
    shares_are_told_apart(a);
    shares_are_told_apart(b);
    sorting_ignores_sequence(sa, sb);
    assert(sa.len() == sb.len()) by {
        sorting_keeps_elements(sa);
        sorting_permutes(sa);
        sorting_permutes(sb);
    }
}

/// A share of one sequence is a share of any other of the same lines.
proof fn share_moves(a: Seq<Line>, b: Seq<Line>, x: Share)
    requires
        permuted(streams(a), streams(b)),
        stream_shares(a).contains(x),
    ensures
        stream_shares(b).contains(x),
{
    permuted_is_same(streams(a), streams(b));
    distinct_is_distinct(streams(a));
    distinct_is_distinct(streams(b));
    let i = stream_shares(a).index_of(x);
    let s = distinct(streams(a))[i];
    assert(distinct(streams(a)).contains(s));
    assert(streams(a).contains(s));
    assert(streams(b).contains(s));
    assert(distinct(streams(b)).contains(s));
    let j = distinct(streams(b)).index_of(s);
    let p = |t: Seq<char>| t == s;
    places_are_tallied(streams(a), s);
    places_are_tallied(streams(b), s);
    tallies_ignore_sequence(streams(a), streams(b), p);
    assert(stream_shares(b)[j] == x);
}

/// Two shares of the same lines are of different streams, so one is shown
/// before the other.
proof fn shares_are_told_apart(ms: Seq<Line>)
    ensures
        stream_shares(ms).no_duplicates(),
        forall|x: Share, y: Share|
            #![trigger stream_shares(ms).contains(x), stream_shares(ms).contains(y)]
            stream_shares(ms).contains(x) && stream_shares(ms).contains(y) && x != y ==> x.before(y)
                || y.before(x),
{
    let all = stream_shares(ms);
    let names = distinct(streams(ms));
    distinct_is_distinct(streams(ms));
    assert forall|i: int, j: int| 0 <= i < all.len() && 0 <= j < all.len() && i != j implies all[i]
        != all[j] by {
        assert(all[i].stream == names[i]);
        assert(all[j].stream == names[j]);
    }
    assert forall|x: Share, y: Share|
        #![trigger all.contains(x), all.contains(y)]
        all.contains(x) && all.contains(y) && x != y implies x.before(y) || y.before(x) by {
        let i = all.index_of(x);
        let j = all.index_of(y);
        assert(all[i].stream == names[i]);
        assert(all[j].stream == names[j]);
        text_less_is_total(x.stream, y.stream);
    }
}

/// A cluster is the same in any sequence of its lines.
pub proof fn a_cluster_ignores_sequence(
    template: Seq<char>,
    a: Seq<Line>,
    b: Seq<Line>,
    since: Instant,
    until: Instant,
    buckets: int,
)
    requires
        permuted(a, b),
        a.len() > 0,
        one_earliest(a),
    ensures
        built(template, a, since, until, buckets) == built(template, b, since, until, buckets),
{
    let x = built(template, a, since, until, buckets);
    let y = built(template, b, since, until, buckets);
    permuted_is_same(a, b);
    shares_ignore_sequence(a, b);
    earliest_is_first(a);
    earliest_is_first(b);
    latest_is_last(a);
    latest_is_last(b);
    assert(x.exemplar == y.exemplar && x.first == y.first) by {
        let ea = x.exemplar;
        let eb = y.exemplar;
        let i = a.index_of(ea);
        assert(b.contains(eb));
        assert(a.contains(eb));
        let j = a.index_of(eb);
        assert(!ea.at.after(a[j].at));
        assert(a.contains(a[i]));
        assert(b.contains(ea));
        let h = b.index_of(ea);
        assert(!eb.at.after(b[h].at));
        assert(a[i].at == a[j].at);
        assert(forall|k: int| 0 <= k < a.len() ==> !a[i].at.after((#[trigger] a[k]).at));
    }
    assert(x.last == y.last) by {
        let i = choose|i: int| 0 <= i < a.len() && (#[trigger] a[i]).at == latest(a);
        let j = choose|j: int| 0 <= j < b.len() && (#[trigger] b[j]).at == latest(b);
        assert(a.contains(a[i]));
        assert(b.contains(a[i]));
        let h = b.index_of(a[i]);
        assert(!b[h].at.after(latest(b)));
        assert(b.contains(b[j]));
        assert(a.contains(b[j]));
        let g = a.index_of(b[j]);
        assert(!a[g].at.after(latest(a)));
    }
    let ha = histogram_of(a, since, until, buckets);
    let hb = histogram_of(b, since, until, buckets);
    assert forall|k: int| 0 <= k < ha.len() implies ha[k] == hb[k] by {
        let p = |m: Line| bucket(m.at, since, until, buckets) == k;
        bars_are_tallied(a, since, until, buckets, k);
        bars_are_tallied(b, since, until, buckets, k);
        tallies_ignore_sequence(a, b, p);
    }
    assert(ha =~= hb);
}

/// Whether the identifiers tell equally large clusters apart.
pub open spec fn ids_tell(evs: Seq<Line>) -> bool {
    forall|i: int, j: int|
        0 <= i < evs.len() && 0 <= j < evs.len() && template_of((#[trigger] evs[i]).message)
            != template_of((#[trigger] evs[j]).message) && lines_with(
            evs,
            template_of(evs[i].message),
        ).len() == lines_with(evs, template_of(evs[j].message)).len() ==> id_of(
            template_of(evs[i].message),
        ) != id_of(template_of(evs[j].message))
}

/// Whether every cluster has one earliest line.
pub open spec fn exemplars_tell(evs: Seq<Line>) -> bool {
    forall|t: Seq<char>| one_earliest(#[trigger] lines_with(evs, t))
}

/// A cluster of one sequence is a cluster of any other of the same events.
proof fn cluster_moves(
    a: Seq<Line>,
    b: Seq<Line>,
    since: Instant,
    until: Instant,
    buckets: int,
    g: Group,
)
    requires
        permuted(a, b),
        exemplars_tell(a),
        unsorted(a, templates(a), since, until, buckets).contains(g),
    ensures
        unsorted(b, templates(b), since, until, buckets).contains(g),
{
    let f = |e: Line| template_of(e.message);
    assert(templates(a) == a.map_values(f));
    assert(templates(b) == b.map_values(f));
    replacing_permutes(a, b, f);
    let ta = templates(a);
    let tb = templates(b);
    permuted_is_same(ta, tb);
    distinct_is_distinct(ta);
    distinct_is_distinct(tb);
    let ua = unsorted(a, ta, since, until, buckets);
    let i = ua.index_of(g);
    let t = distinct(ta)[i];
    assert(distinct(ta).contains(t));
    assert(ta.contains(t));
    assert(tb.contains(t));
    assert(distinct(tb).contains(t));
    let j = distinct(tb).index_of(t);
    picked_lines_have_the_template(a, t);
    picked_lines_have_the_template(b, t);
    places_hold_the_text(ta, t);
    filtering_permutes(a, b, |e: Line| template_of(e.message) == t);
    a_cluster_ignores_sequence(
        t,
        lines_with(a, t),
        lines_with(b, t),
        since,
        until,
        buckets,
    );
    assert(unsorted(b, tb, since, until, buckets)[j] == g);
}

/// Clusters have different templates, and one of two is shown before the
/// other.
proof fn clusters_are_told_apart(
    evs: Seq<Line>,
    since: Instant,
    until: Instant,
    buckets: int,
)
    requires
        ids_tell(evs),
    ensures
        ({
            let u = unsorted(evs, templates(evs), since, until, buckets);
            &&& u.no_duplicates()
            &&& forall|x: Group, y: Group|
                #![trigger u.contains(x), u.contains(y)]
                u.contains(x) && u.contains(y) && x != y ==> x.before(y) || y.before(x)
        }),
{
    let ts = templates(evs);
    let u = unsorted(evs, ts, since, until, buckets);
    let d = distinct(ts);
    distinct_is_distinct(ts);
    assert forall|i: int, j: int| 0 <= i < u.len() && 0 <= j < u.len() && i != j implies u[i]
        != u[j] by {
        assert(u[i].template == d[i]);
        assert(u[j].template == d[j]);
    }
    assert forall|x: Group, y: Group|
        #![trigger u.contains(x), u.contains(y)]
        u.contains(x) && u.contains(y) && x != y implies x.before(y) || y.before(x) by {
        let i = u.index_of(x);
        let j = u.index_of(y);
        assert(d.contains(d[i]));
        assert(d.contains(d[j]));
        let h = ts.index_of(d[i]);
        let k = ts.index_of(d[j]);
        assert(ts[h] == template_of(evs[h].message));
        assert(ts[k] == template_of(evs[k].message));
        picked_lines_have_the_template(evs, d[i]);
        picked_lines_have_the_template(evs, d[j]);
        assert(x == built(d[i], lines_with(evs, d[i]), since, until, buckets));
        assert(y == built(d[j], lines_with(evs, d[j]), since, until, buckets));
        text_less_is_total(x.id, y.id);
    }
}

/// The sequence in which events arrive does not matter: the clusters of the
/// same events are the same, and are shown in the same order. That holds
/// where each cluster has one earliest line, which is its exemplar, and
/// identifiers tell clusters of one size apart.
pub proof fn clusters_ignore_sequence(
    a: Seq<Line>,
    b: Seq<Line>,
    since: Instant,
    until: Instant,
    buckets: int,
)
    requires
        permuted(a, b),
        exemplars_tell(a),
        ids_tell(a),
    ensures
        clusters_given(a, templates(a), since, until, buckets) == clusters_given(
            b,
            templates(b),
            since,
            until,
            buckets,
        ),
{
    let n = at_least(buckets, 1);
    let ua = unsorted(a, templates(a), since, until, n);
    let ub = unsorted(b, templates(b), since, until, n);
    same_events_tell_alike(a, b);
    assert forall|g: Group| #[trigger] ua.contains(g) <==> ub.contains(g) by {
        if ua.contains(g) {
            cluster_moves(a, b, since, until, n, g);
        }
        if ub.contains(g) {
            cluster_moves(b, a, since, until, n, g);
        }
    }
    clusters_are_told_apart(a, since, until, n);
    clusters_are_told_apart(b, since, until, n);
    sorting_ignores_sequence(ua, ub);
}

/// Events at different times, whose templates have different identifiers, tell
/// their clusters apart.
pub proof fn distinct_events_tell(evs: Seq<Line>)
    requires
        forall|i: int, j: int|
            0 <= i < j < evs.len() ==> (#[trigger] evs[i]).at != (#[trigger] evs[j]).at,
        forall|i: int, j: int|
            0 <= i < evs.len() && 0 <= j < evs.len() && template_of((#[trigger] evs[i]).message)
                != template_of((#[trigger] evs[j]).message) ==> id_of(
                template_of(evs[i].message),
            ) != id_of(template_of(evs[j].message)),
    ensures
        exemplars_tell(evs),
        ids_tell(evs),
{
    assert forall|t: Seq<char>| one_earliest(#[trigger] lines_with(evs, t)) by {
        let ms = lines_with(evs, t);
        assert forall|i: int, j: int|
            0 <= i < ms.len() && 0 <= j < ms.len() && (#[trigger] ms[i]).at == (#[trigger] ms[j]).at
                && (forall|k: int| 0 <= k < ms.len() ==> !ms[i].at.after(
                (#[trigger] ms[k]).at,
            )) implies ms[i] == ms[j] by {
            let p = |e: Line| template_of(e.message) == t;
            evs.lemma_filter_contains_rev(p, ms[i]);
            evs.lemma_filter_contains_rev(p, ms[j]);
            let h = evs.index_of(ms[i]);
            let g = evs.index_of(ms[j]);
            assert(evs[h] == ms[i] && evs[g] == ms[j]);
        }
    }
}

/// What tells clusters apart does not rest on the sequence of the events.
proof fn same_events_tell_alike(a: Seq<Line>, b: Seq<Line>)
    requires
        permuted(a, b),
        exemplars_tell(a),
        ids_tell(a),
    ensures
        exemplars_tell(b),
        ids_tell(b),
{
    permuted_is_same(a, b);
    assert forall|t: Seq<char>| one_earliest(#[trigger] lines_with(b, t)) by {
        let ma = lines_with(a, t);
        let mb = lines_with(b, t);
        filtering_permutes(a, b, |e: Line| template_of(e.message) == t);
        permuted_is_same(ma, mb);
        assert(one_earliest(ma));
        assert forall|i: int, j: int|
            0 <= i < mb.len() && 0 <= j < mb.len() && (#[trigger] mb[i]).at == (#[trigger] mb[j]).at
                && (forall|k: int| 0 <= k < mb.len() ==> !mb[i].at.after(
                (#[trigger] mb[k]).at,
            )) implies mb[i] == mb[j] by {
            assert(mb.contains(mb[i]) && mb.contains(mb[j]));
            assert(ma.contains(mb[i]) && ma.contains(mb[j]));
            let h = ma.index_of(mb[i]);
            let g = ma.index_of(mb[j]);
            assert forall|k: int| 0 <= k < ma.len() implies !ma[h].at.after(
                (#[trigger] ma[k]).at,
            ) by {
                assert(ma.contains(ma[k]));
                assert(mb.contains(ma[k]));
                let m = mb.index_of(ma[k]);
                assert(mb[m] == ma[k]);
            }
            assert(ma[h].at == ma[g].at);
        }
    }
    assert forall|i: int, j: int|
        0 <= i < b.len() && 0 <= j < b.len() && template_of((#[trigger] b[i]).message)
            != template_of((#[trigger] b[j]).message) && lines_with(
            b,
            template_of(b[i].message),
        ).len() == lines_with(b, template_of(b[j].message)).len() implies id_of(
        template_of(b[i].message),
    ) != id_of(template_of(b[j].message)) by {
        assert(b.contains(b[i]) && b.contains(b[j]));
        assert(a.contains(b[i]) && a.contains(b[j]));
        let h = a.index_of(b[i]);
        let g = a.index_of(b[j]);
        let s = template_of(b[i].message);
        let t = template_of(b[j].message);
        filtering_permutes(a, b, |e: Line| template_of(e.message) == s);
        permuted_is_same(lines_with(a, s), lines_with(b, s));
        filtering_permutes(a, b, |e: Line| template_of(e.message) == t);
        permuted_is_same(lines_with(a, t), lines_with(b, t));
        assert(template_of(a[h].message) == s && template_of(a[g].message) == t);
    }
}

/// Clusters of fresh events come by size, the largest first; those of one
/// size come by identifier.
pub proof fn clusters_come_by_size(
    evs: Seq<Line>,
    since: Instant,
    until: Instant,
    buckets: int,
    j: int,
    k: int,
)
    requires
        ids_tell(evs),
        0 <= j < k < clusters_given(evs, templates(evs), since, until, buckets).len(),
    ensures
        ({
            let cs = clusters_given(evs, templates(evs), since, until, buckets);
            cs[j].count > cs[k].count || (cs[j].count == cs[k].count && text_less(
                cs[j].id,
                cs[k].id,
            ))
        }),
{
    let n = at_least(buckets, 1);
    let u = unsorted(evs, templates(evs), since, until, n);
    let cs = ordered(u);
    clusters_are_told_apart(evs, since, until, n);
    sorting_keeps_elements(u);
    sorting_orders(u);
    assert(in_order(cs));
    assert(cs.contains(cs[j]) && cs.contains(cs[k]));
    assert(u.contains(cs[j]) && u.contains(cs[k]));
    assert(cs[j] != cs[k]);
    assert(!cs[k].before(cs[j]));
    every_cluster_is_reachable(
        evs,
        templates(evs),
        since,
        until,
        buckets,
        j,
    );
    every_cluster_is_reachable(
        evs,
        templates(evs),
        since,
        until,
        buckets,
        k,
    );
    assert(cs[j].status == Status::Unknown && cs[k].status == Status::Unknown);
}

} // verus!
