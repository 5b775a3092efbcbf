//! Grouping log events into clusters that keep their shape.
//!
//! Clustering is lossy in what it *shows* and lossless in what it *indexes*:
//! every cluster is a query that can be re-run to get the raw lines back.
//! Three fields carry the diagnostic weight:
//!
//! - `histogram`: the trend across the window: onset, plateau, recovery.
//! - `by_stream`: the *where*. "Everywhere, or one host?" is frequently the
//!   whole diagnosis.
//! - `status`: `new` / `spiking` / `steady` against a baseline period. What
//!   is new since yesterday is usually the answer.

use crate::cluster::tokenize::{template, template_of};
use crate::common::time::{millis, millis_are_bounded, millis_between, Instant};
use crate::hash::{hash_of, text_hash};
use crate::order::{
    in_order, inserted, names_are_ordered, ordered, permuted, sort, sorting_commutes,
    sorting_is_idempotent, sorting_keeps_elements, sorting_orders, sorting_permutes, up_to, Ordered,
    Sortable,
};
use crate::text::{hex, hex_of, less_str, string_of, strings, text_less};
use vstd::hash_map::StringHashMap;
use vstd::prelude::*;

verus! {

/// One event as returned by CloudWatch Logs.
#[derive(Debug, Clone)]
pub struct LogEvent {
    pub timestamp: Instant,
    pub stream: String,
    pub message: String,
}

/// The content of a `LogEvent`.
pub struct Line {
    pub at: Instant,
    pub stream: Seq<char>,
    pub message: Seq<char>,
}

impl View for LogEvent {
    type V = Line;

    open spec fn view(&self) -> Line {
        Line { at: self.timestamp, stream: self.stream@, message: self.message@ }
    }
}

/// The contents of events.
pub open spec fn lines(events: Seq<LogEvent>) -> Seq<Line> {
    events.map_values(|e: LogEvent| e@)
}

/// A verbatim line that stands for a cluster.
#[derive(Debug, Clone, PartialEq, Eq)]
pub struct Exemplar {
    pub ts: Instant,
    pub stream: String,
    pub message: String,
}

impl View for Exemplar {
    type V = Line;

    open spec fn view(&self) -> Line {
        Line { at: self.ts, stream: self.stream@, message: self.message@ }
    }
}

/// How often a cluster occurs in one stream.
#[derive(Debug, Clone, PartialEq, Eq)]
pub struct StreamCount {
    pub stream: String,
    pub count: usize,
}

/// The content of a `StreamCount`.
pub struct Share {
    pub stream: Seq<char>,
    pub count: nat,
}

impl View for StreamCount {
    type V = Share;

    open spec fn view(&self) -> Share {
        Share { stream: self.stream@, count: self.count as nat }
    }
}

/// How a cluster compares with a baseline period.
#[derive(Debug, Clone, Copy, PartialEq, Eq, Structural)]
pub enum Status {
    /// Absent from the baseline period entirely.
    New,
    /// Occurring materially faster than in the baseline period.
    Spiking,
    /// Present in the baseline at a comparable rate.
    Steady,
    /// No baseline was requested, so nothing can be said.
    Unknown,
}

impl Status {
    /// Ordering for display: what changed comes before what did not.
    pub open spec fn place(self) -> int {
        match self {
            Status::New => 0,
            Status::Spiking => 1,
            Status::Steady => 2,
            Status::Unknown => 3,
        }
    }

    /// Find `place`.
    pub fn rank(self) -> (r: u8)
        ensures
            r == self.place(),
    {
        match self {
            Status::New => 0,
            Status::Spiking => 1,
            Status::Steady => 2,
            Status::Unknown => 3,
        }
    }
}

/// Events that say the same thing.
///
/// Field order is the rendered column order, so the narrow, scannable fields
/// lead and the long template follows.
#[derive(Debug, Clone)]
pub struct Cluster {
    pub cluster_id: String,
    pub status: Status,
    pub count: usize,
    pub first_seen: Instant,
    pub last_seen: Instant,
    pub template: String,
    pub histogram: Vec<u32>,
    pub by_stream: Vec<StreamCount>,
    /// Number of streams beyond those listed in `by_stream`.
    pub other_streams: usize,
    pub exemplar: Exemplar,
}

/// The content of a `Cluster`.
pub struct Group {
    pub id: Seq<char>,
    pub status: Status,
    pub count: nat,
    pub first: Instant,
    pub last: Instant,
    pub template: Seq<char>,
    pub histogram: Seq<u32>,
    pub by_stream: Seq<Share>,
    pub other_streams: nat,
    pub exemplar: Line,
}

impl View for Cluster {
    type V = Group;

    open spec fn view(&self) -> Group {
        Group {
            id: self.cluster_id@,
            status: self.status,
            count: self.count as nat,
            first: self.first_seen,
            last: self.last_seen,
            template: self.template@,
            histogram: self.histogram@,
            by_stream: shares(self.by_stream@),
            other_streams: self.other_streams as nat,
            exemplar: self.exemplar@,
        }
    }
}

/// The contents of stream counts.
pub open spec fn shares(v: Seq<StreamCount>) -> Seq<Share> {
    v.map_values(|s: StreamCount| s@)
}

/// The contents of clusters.
pub open spec fn groups(v: Seq<Cluster>) -> Seq<Group> {
    v.map_values(|c: Cluster| c@)
}

/// How many streams to name per cluster before summarising the rest.
pub const MAX_STREAMS: usize = 10;

/// A cluster must exceed the baseline rate by this factor to count as
/// spiking. Chosen high enough that ordinary traffic variation does not
/// register as a change worth investigating.
pub const SPIKE_FACTOR: u128 = 3;

// ---------------------------------------------------------------------------
// Identity
// ---------------------------------------------------------------------------

/// The multiplier of the hash behind a cluster's identifier.
pub const ID_MULTIPLIER: u64 = 0x1000_0000_01b3;

/// The low 48 bits of the template's hash, in hexadecimal. At 24 bits a scan
/// of 3,000 clusters would carry roughly a 24% chance of a collision.
pub open spec fn id_of(template: Seq<char>) -> Seq<char> {
    hex((text_hash(template, ID_MULTIPLIER) % 0x1_0000_0000_0000) as nat, 12)
}

/// A stable short identifier derived from the template text, so the same
/// template yields the same id across runs and `logs drill --cluster` stays
/// meaningful between invocations.
pub fn cluster_id(template: &str) -> (r: String)
    ensures
        r@ == id_of(template@),
{
    let h = hash_of(template, ID_MULTIPLIER) % 0x1_0000_0000_0000;
    let digits = hex_of(h, 12);
    string_of(digits.as_slice())
}

// ---------------------------------------------------------------------------
// Display order
// ---------------------------------------------------------------------------

impl Ordered for Share {
    /// Busier streams first, then by name.
    open spec fn before(self, other: Share) -> bool {
        self.count > other.count || (self.count == other.count && text_less(
            self.stream,
            other.stream,
        ))
    }

    proof fn is_weak_order(a: Share, b: Share, c: Share) {
        names_are_ordered(a.stream, b.stream, c.stream);
    }
}

impl Ordered for StreamCount {
    open spec fn before(self, other: StreamCount) -> bool {
        self@.before(other@)
    }

    proof fn is_weak_order(a: StreamCount, b: StreamCount, c: StreamCount) {
        Share::is_weak_order(a@, b@, c@);
    }
}

impl Sortable for StreamCount {
    fn precedes(&self, other: &StreamCount) -> (r: bool) {
        self.count > other.count || (self.count == other.count && less_str(
            self.stream.as_str(),
            other.stream.as_str(),
        ))
    }
}

impl Ordered for Group {
    /// What changed first, then by volume. A tiebreak on id keeps output
    /// stable between runs over identical input.
    open spec fn before(self, other: Group) -> bool {
        ||| self.status.place() < other.status.place()
        ||| {
            &&& self.status.place() == other.status.place()
            &&& self.count > other.count || (self.count == other.count && text_less(
                self.id,
                other.id,
            ))
        }
    }

    proof fn is_weak_order(a: Group, b: Group, c: Group) {
        names_are_ordered(a.id, b.id, c.id);
    }
}

impl Ordered for Cluster {
    open spec fn before(self, other: Cluster) -> bool {
        self@.before(other@)
    }

    proof fn is_weak_order(a: Cluster, b: Cluster, c: Cluster) {
        Group::is_weak_order(a@, b@, c@);
    }
}

impl Sortable for Cluster {
    fn precedes(&self, other: &Cluster) -> (r: bool) {
        let a = self.status.rank();
        let b = other.status.rank();
        a < b || (a == b && (self.count > other.count || (self.count == other.count && less_str(
            self.cluster_id.as_str(),
            other.cluster_id.as_str(),
        ))))
    }
}

/// Put clusters in display order.
pub fn sort_clusters(v: Vec<Cluster>) -> (r: Vec<Cluster>)
    ensures
        groups(r@) == ordered(groups(v@)),
{
    proof {
        sorting_commutes(v@, |c: Cluster| c@);
    }
    sort(v)
}

// ---------------------------------------------------------------------------
// Grouping by text
// ---------------------------------------------------------------------------

/// The texts that occur, each once, in order of first appearance.
pub open spec fn distinct(ts: Seq<Seq<char>>) -> Seq<Seq<char>>
    decreases ts.len(),
{
    if ts.len() == 0 {
        Seq::empty()
    } else {
        let d = distinct(ts.drop_last());
        if d.contains(ts.last()) {
            d
        } else {
            d.push(ts.last())
        }
    }
}

/// Where a text occurs, in order.
pub open spec fn places(ts: Seq<Seq<char>>, t: Seq<char>) -> Seq<int>
    decreases ts.len(),
{
    if ts.len() == 0 {
        Seq::empty()
    } else if ts.last() == t {
        places(ts.drop_last(), t).push(ts.len() - 1)
    } else {
        places(ts.drop_last(), t)
    }
}

/// `distinct` holds the texts that occur, and none twice.
pub proof fn distinct_is_distinct(ts: Seq<Seq<char>>)
    ensures
        distinct(ts).no_duplicates(),
        forall|t: Seq<char>| #[trigger] distinct(ts).contains(t) <==> ts.contains(t),
    decreases ts.len(),
{
    if ts.len() > 0 {
        let front = ts.drop_last();
        let d = distinct(front);
        distinct_is_distinct(front);
        assert(ts == front.push(ts.last()));
        assert forall|t: Seq<char>| #[trigger] distinct(ts).contains(t) <==> ts.contains(t) by {
            if ts.contains(t) {
                let i = ts.index_of(t);
                if i < front.len() {
                    assert(front[i] == t);
                    assert(d.contains(t));
                    let j = d.index_of(t);
                    assert(distinct(ts)[j] == t);
                } else {
                    assert(t == ts.last());
                    if !d.contains(t) {
                        assert(distinct(ts)[d.len() as int] == t);
                    }
                }
            }
            if distinct(ts).contains(t) {
                let j = distinct(ts).index_of(t);
                if j < d.len() {
                    assert(d[j] == t);
                    assert(d.contains(t));
                    assert(front.contains(t));
                    let i = front.index_of(t);
                    assert(ts[i] == t);
                } else {
                    assert(ts[ts.len() - 1] == t);
                }
            }
        }
    }
}

/// Places lie within the sequence, in order, and hold the text.
pub proof fn places_hold_the_text(ts: Seq<Seq<char>>, t: Seq<char>)
    ensures
        forall|k: int|
            0 <= k < places(ts, t).len() ==> 0 <= #[trigger] places(ts, t)[k] < ts.len()
                && ts[places(ts, t)[k]] == t,
        forall|j: int, k: int|
            0 <= j < k < places(ts, t).len() ==> #[trigger] places(ts, t)[j] < #[trigger] places(
                ts,
                t,
            )[k],
        places(ts, t).len() <= ts.len(),
        places(ts, t).len() > 0 <==> ts.contains(t),
    decreases ts.len(),
{
    if ts.len() > 0 {
        let front = ts.drop_last();
        places_hold_the_text(front, t);
        if ts.last() == t {
            assert(ts[ts.len() - 1] == t);
        } else {
            if ts.contains(t) {
                let i = ts.index_of(t);
                assert(front[i] == t);
            }
            if front.contains(t) {
                let i = front.index_of(t);
                assert(ts[i] == t);
            }
        }
    }
}

/// Indices as integers.
pub open spec fn ints(v: Seq<usize>) -> Seq<int> {
    v.map_values(|i: usize| i as int)
}

/// The texts that occur, and for each the places where it does.
fn group_texts(ts: &Vec<String>) -> (r: (Vec<String>, Vec<Vec<usize>>))
    ensures
        strings(r.0@) == distinct(strings(ts@)),
        r.1@.len() == r.0@.len(),
        forall|g: int|
            0 <= g < r.1@.len() ==> ints(#[trigger] r.1@[g]@) == places(strings(ts@), r.0@[g]@),
{
    let ghost all = strings(ts@);
    let mut names: Vec<String> = Vec::new();
    let mut members: Vec<Vec<usize>> = Vec::new();
    let mut index: StringHashMap<usize> = StringHashMap::new();
    let mut i: usize = 0;
    while i < ts.len()
        invariant
            i <= ts@.len(),
            all == strings(ts@),
            strings(names@) == distinct(all.take(i as int)),
            members@.len() == names@.len(),
            forall|g: int|
                0 <= g < members@.len() ==> ints(#[trigger] members@[g]@) == places(
                    all.take(i as int),
                    names@[g]@,
                ),
            forall|t: Seq<char>|
                #[trigger] index@.contains_key(t) <==> distinct(all.take(i as int)).contains(t),
            forall|t: Seq<char>| #[trigger]
                index@.contains_key(t) ==> index@[t] < names@.len() && names@[index@[t] as int]@
                    == t,
        decreases ts@.len() - i,
    {
        let t = ts[i].as_str();
        let ghost past = all.take(i as int);
        let ghost next = all.take(i + 1);
        let ghost names0 = names@;
        let ghost members0 = members@;
        let ghost index0 = index@;
        proof {
            assert(next.drop_last() == past);
            assert(next.last() == t@);
            distinct_is_distinct(past);
            distinct_is_distinct(next);
            assert(strings(names0).len() == names0.len());
        }
        match index.get(t) {
            Some(at) => {
                let g = *at;
                members[g].push(i);
                proof {
                    assert(distinct(next) == distinct(past));
                    assert forall|h: int| 0 <= h < members@.len() implies ints(
                        #[trigger] members@[h]@,
                    ) == places(next, names@[h]@) by {
                        assert(strings(names0)[h] == names0[h]@);
                        if h == g {
                            assert(ints(members@[h]@) == ints(members0[h]@).push(i as int));
                        } else {
                            assert(members@[h] == members0[h]);
                            assert(strings(names0)[g as int] == names0[g as int]@);
                            assert(names0[h]@ != t@);
                        }
                    }
                }
            },
            None => {
                let n = names.len();
                index.insert(t.to_owned(), n);
                names.push(t.to_owned());
                let mut first: Vec<usize> = Vec::new();
                first.push(i);
                members.push(first);
                proof {
                    assert(strings(names@) == strings(names0).push(t@));
                    assert(distinct(next) == distinct(past).push(t@));
                    assert forall|h: int| 0 <= h < members@.len() implies ints(
                        #[trigger] members@[h]@,
                    ) == places(next, names@[h]@) by {
                        if h == n {
                            places_hold_the_text(past, t@);
                            distinct_is_distinct(past);
                            assert(places(past, t@).len() == 0);
                            assert(ints(members@[h]@) == seq![i as int]);
                            assert(places(next, t@) == places(past, t@).push(i as int));
                        } else {
                            assert(members@[h] == members0[h]);
                            assert(strings(names0)[h] == names0[h]@);
                            assert(distinct(past).contains(names0[h]@));
                            assert(names0[h]@ != t@);
                        }
                    }
                    assert forall|u: Seq<char>| #[trigger] index@.contains_key(u) <==> distinct(
                        next,
                    ).contains(u) by {
                        if distinct(next).contains(u) && u != t@ {
                            let k = distinct(next).index_of(u);
                            assert(distinct(past)[k] == u);
                        }
                        if distinct(past).contains(u) {
                            let k = distinct(past).index_of(u);
                            assert(distinct(next)[k] == u);
                        }
                        if u == t@ {
                            assert(distinct(next)[n as int] == u);
                        }
                    }
                    assert forall|u: Seq<char>| #[trigger]
                        index@.contains_key(u) implies index@[u] < names@.len()
                        && names@[index@[u] as int]@ == u by {
                        if u != t@ {
                            assert(index0.contains_key(u));
                        }
                    }
                }
            },
        }
        i += 1;
    }
    proof {
        assert(all.take(i as int) == all);
    }
    (names, members)
}

// ---------------------------------------------------------------------------
// Building one cluster
// ---------------------------------------------------------------------------

/// The greater of two numbers.
pub open spec fn at_least(n: int, floor: int) -> int {
    if n < floor {
        floor
    } else {
        n
    }
}

/// The histogram bucket of an instant. Instants outside the window are
/// clamped into the end buckets.
pub open spec fn bucket(at: Instant, since: Instant, until: Instant, buckets: int) -> int {
    let span = at_least(millis(until, since), 1);
    let raw = (millis(at, since) * buckets) / span;
    if raw < 0 {
        0
    } else if raw > buckets - 1 {
        buckets - 1
    } else {
        raw
    }
}

/// How many lines fall into one bucket.
pub open spec fn bucket_count(
    ms: Seq<Line>,
    since: Instant,
    until: Instant,
    buckets: int,
    b: int,
) -> nat
    decreases ms.len(),
{
    if ms.len() == 0 {
        0
    } else {
        bucket_count(ms.drop_last(), since, until, buckets, b) + if bucket(
            ms.last().at,
            since,
            until,
            buckets,
        ) == b {
            1nat
        } else {
            0nat
        }
    }
}

/// The trend of lines across the window.
pub open spec fn histogram_of(ms: Seq<Line>, since: Instant, until: Instant, buckets: int) -> Seq<
    u32,
> {
    Seq::new(buckets as nat, |b: int| bucket_count(ms, since, until, buckets, b) as u32)
}

/// The streams of lines.
pub open spec fn streams(ms: Seq<Line>) -> Seq<Seq<char>> {
    ms.map_values(|m: Line| m.stream)
}

/// How often each stream occurs, in order of first appearance.
pub open spec fn stream_shares(ms: Seq<Line>) -> Seq<Share> {
    distinct(streams(ms)).map_values(
        |s: Seq<char>| Share { stream: s, count: places(streams(ms), s).len() },
    )
}

/// The first of the earliest lines. During an incident the first instance is
/// the one nearest the cause.
pub open spec fn earliest(ms: Seq<Line>) -> Line
    decreases ms.len(),
{
    if ms.len() <= 1 {
        ms[0]
    } else {
        let e = earliest(ms.drop_last());
        if e.at.after(ms.last().at) {
            ms.last()
        } else {
            e
        }
    }
}

/// The latest instant of lines.
pub open spec fn latest(ms: Seq<Line>) -> Instant
    decreases ms.len(),
{
    if ms.len() <= 1 {
        ms[0].at
    } else {
        let l = latest(ms.drop_last());
        if ms.last().at.after(l) {
            ms.last().at
        } else {
            l
        }
    }
}

/// The cluster of the lines with one template.
pub open spec fn built(
    template: Seq<char>,
    ms: Seq<Line>,
    since: Instant,
    until: Instant,
    buckets: int,
) -> Group {
    let shown = up_to(ordered(stream_shares(ms)), MAX_STREAMS as int);
    Group {
        id: id_of(template),
        status: Status::Unknown,
        count: ms.len(),
        first: earliest(ms).at,
        last: latest(ms),
        template,
        histogram: histogram_of(ms, since, until, buckets),
        by_stream: shown,
        other_streams: (distinct(streams(ms)).len() - shown.len()) as nat,
        exemplar: earliest(ms),
    }
}

/// The lines at some places.
pub open spec fn picked(evs: Seq<Line>, at: Seq<int>) -> Seq<Line> {
    at.map_values(|i: int| evs[i])
}

/// Find `bucket`.
fn bucket_index(at: Instant, since: Instant, until: Instant, buckets: usize) -> (r: usize)
    requires
        at.valid(),
        since.valid(),
        until.valid(),
        buckets > 0,
    ensures
        r == bucket(at, since, until, buckets as int),
        r < buckets,
{
    let span = millis_between(until, since);
    let span = if span < 1 {
        1
    } else {
        span
    };
    let offset = millis_between(at, since);
    proof {
        millis_are_bounded(at, since);
    }
    if offset <= 0 {
        proof {
            assert(offset * buckets <= 0) by (nonlinear_arith)
                requires
                    offset <= 0,
                    buckets > 0,
            ;
            let p = offset * buckets;
            assert(p / (span as int) <= 0) by (nonlinear_arith)
                requires
                    p <= 0,
                    span > 0,
            ;
        }
        return 0;
    }
    proof {
        assert(0 < offset * buckets <= 17_000_000_000_000_000 * 0x1_0000_0000_0000_0000)
            by (nonlinear_arith)
            requires
                0 < offset <= 17_000_000_000_000_000,
                0 < buckets <= 0x1_0000_0000_0000_0000,
        ;
    }
    let raw = (offset as i128 * buckets as i128) / span as i128;
    // Clamp rather than index blindly: an event exactly at `until` would
    // otherwise land one past the end of the histogram.
    if raw > (buckets - 1) as i128 {
        buckets - 1
    } else {
        proof {
            assert(0 <= (offset * buckets) / (span as int)) by (nonlinear_arith)
                requires
                    0 < offset * buckets,
                    span > 0,
            ;
        }
        raw as usize
    }
}

/// One more line adds one to its own bucket.
proof fn histogram_step(
    ms: Seq<Line>,
    n: int,
    since: Instant,
    until: Instant,
    buckets: int,
    h: Seq<u32>,
    b: int,
)
    requires
        0 <= n < ms.len(),
        buckets > 0,
        n < u32::MAX,
        h == histogram_of(ms.take(n), since, until, buckets),
        b == bucket(ms[n].at, since, until, buckets),
        0 <= b < buckets,
    ensures
        h[b] < u32::MAX,
        h.update(b, (h[b] + 1) as u32) == histogram_of(ms.take(n + 1), since, until, buckets),
{
    let past = ms.take(n);
    let next = ms.take(n + 1);
    assert(next.drop_last() == past);
    assert forall|k: int| 0 <= k < buckets implies #[trigger] bucket_count(
        past,
        since,
        until,
        buckets,
        k,
    ) <= n by {
        bucket_count_is_bounded(past, since, until, buckets, k);
    }
    let after = histogram_of(next, since, until, buckets);
    assert forall|k: int| 0 <= k < buckets implies h.update(b, (h[b] + 1) as u32)[k]
        == #[trigger] after[k] by {
        assert(bucket_count(past, since, until, buckets, k) <= n);
    }
}

/// A bucket holds no more lines than there are.
proof fn bucket_count_is_bounded(
    ms: Seq<Line>,
    since: Instant,
    until: Instant,
    buckets: int,
    b: int,
)
    ensures
        bucket_count(ms, since, until, buckets, b) <= ms.len(),
    decreases ms.len(),
{
    if ms.len() > 0 {
        bucket_count_is_bounded(ms.drop_last(), since, until, buckets, b);
    }
}

/// The streams of lines at some places, with how often each occurs, busiest
/// first; and how many streams there are.
fn share_streams(events: &[LogEvent], members: &Vec<usize>) -> (r: (Vec<StreamCount>, usize))
    requires
        forall|k: int| 0 <= k < members@.len() ==> #[trigger] members@[k] < events@.len(),
    ensures
        shares(r.0@) == up_to(
            ordered(stream_shares(picked(lines(events@), ints(members@)))),
            MAX_STREAMS as int,
        ),
        r.1 == distinct(streams(picked(lines(events@), ints(members@)))).len(),
        r.0@.len() <= r.1,
{
    let ghost ms = picked(lines(events@), ints(members@));
    let mut names: Vec<String> = Vec::new();
    let mut k: usize = 0;
    while k < members.len()
        invariant
            k <= members@.len(),
            forall|j: int| 0 <= j < members@.len() ==> #[trigger] members@[j] < events@.len(),
            ms == picked(lines(events@), ints(members@)),
            strings(names@) == streams(ms).take(k as int),
        decreases members@.len() - k,
    {
        let ghost names0 = names@;
        names.push(events[members[k]].stream.as_str().to_owned());
        proof {
            assert(members@[k as int] < events@.len());
            assert(streams(ms)[k as int] == events@[members@[k as int] as int].stream@);
            assert(streams(ms).take(k + 1) == streams(ms).take(k as int).push(
                streams(ms)[k as int],
            ));
            assert(strings(names@) == strings(names0).push(streams(ms)[k as int]));
        }
        k += 1;
    }
    proof {
        assert(streams(ms).take(k as int) == streams(ms));
    }
    let (found, at) = group_texts(&names);
    let total = found.len();
    let mut out: Vec<StreamCount> = Vec::new();
    let mut g: usize = 0;
    proof {
        assert(strings(found@).len() == found@.len());
    }
    while g < total
        invariant
            g <= total,
            total == found@.len(),
            at@.len() == total,
            strings(found@) == distinct(streams(ms)),
            forall|h: int|
                0 <= h < at@.len() ==> ints(#[trigger] at@[h]@) == places(
                    streams(ms),
                    found@[h]@,
                ),
            shares(out@) == stream_shares(ms).take(g as int),
        decreases total - g,
    {
        let ghost out0 = out@;
        let one = StreamCount { stream: found[g].as_str().to_owned(), count: at[g].len() };
        let ghost view = one@;
        out.push(one);
        proof {
            assert(ints(at@[g as int]@).len() == at@[g as int]@.len());
            assert(strings(found@)[g as int] == found@[g as int]@);
            assert(stream_shares(ms)[g as int] == view);
            assert(shares(out@) == shares(out0).push(view));
            assert(stream_shares(ms).take(g + 1) == stream_shares(ms).take(g as int).push(view));
        }
        g += 1;
    }
    proof {
        assert(stream_shares(ms).take(g as int) == stream_shares(ms));
        sorting_commutes(out@, |s: StreamCount| s@);
        sorting_permutes(out@);
    }
    let mut sorted = sort(out);
    let ghost full = sorted@;
    if sorted.len() > MAX_STREAMS {
        sorted.truncate(MAX_STREAMS);
        proof {
            assert(shares(sorted@) == shares(full).take(MAX_STREAMS as int));
        }
    }
    (sorted, total)
}

/// Build the cluster of the events with one template.
fn build(
    template: &str,
    events: &[LogEvent],
    members: &Vec<usize>,
    since: Instant,
    until: Instant,
    buckets: usize,
) -> (r: Cluster)
    requires
        members@.len() > 0,
        members@.len() <= u32::MAX,
        forall|k: int| 0 <= k < members@.len() ==> #[trigger] members@[k] < events@.len(),
        forall|i: int| 0 <= i < events@.len() ==> (#[trigger] events@[i]).timestamp.valid(),
        since.valid(),
        until.valid(),
        buckets > 0,
    ensures
        r@ == built(
            template@,
            picked(lines(events@), ints(members@)),
            since,
            until,
            buckets as int,
        ),
{
    let ghost ms = picked(lines(events@), ints(members@));
    let mut histogram: Vec<u32> = Vec::new();
    let mut b: usize = 0;
    while b < buckets
        invariant
            b <= buckets,
            histogram@ == Seq::new(b as nat, |i: int| 0u32),
        decreases buckets - b,
    {
        histogram.push(0);
        proof {
            assert(histogram@ == Seq::new((b + 1) as nat, |i: int| 0u32));
        }
        b += 1;
    }
    let mut early: usize = members[0];
    let mut last = events[members[0]].timestamp;
    proof {
        assert(members@[0] < events@.len());
        assert(ms.take(0) =~= Seq::<Line>::empty());
        assert(histogram@ == histogram_of(ms.take(0), since, until, buckets as int));
        assert(ms.take(1).len() == 1);
    }
    let mut k: usize = 0;
    while k < members.len()
        invariant
            k <= members@.len(),
            0 < members@.len() <= u32::MAX,
            buckets > 0,
            since.valid(),
            until.valid(),
            forall|j: int| 0 <= j < members@.len() ==> #[trigger] members@[j] < events@.len(),
            forall|i: int| 0 <= i < events@.len() ==> (#[trigger] events@[i]).timestamp.valid(),
            ms == picked(lines(events@), ints(members@)),
            histogram@ == histogram_of(ms.take(k as int), since, until, buckets as int),
            early < events@.len(),
            k == 0 ==> early == members@[0] && last == ms[0].at,
            k > 0 ==> events@[early as int]@ == earliest(ms.take(k as int)),
            k > 0 ==> last == latest(ms.take(k as int)),
        decreases members@.len() - k,
    {
        let i = members[k];
        let at = events[i].timestamp;
        proof {
            assert(members@[k as int] < events@.len());
            assert(ms[k as int] == events@[i as int]@);
            assert(ms.take(k + 1).drop_last() == ms.take(k as int));
            assert(ms.take(k + 1).last() == ms[k as int]);
        }
        let slot = bucket_index(at, since, until, buckets);
        proof {
            histogram_step(
                ms,
                k as int,
                since,
                until,
                buckets as int,
                histogram@,
                slot as int,
            );
        }
        let n = histogram[slot];
        histogram.set(slot, n + 1);
        if events[early].timestamp.is_after(at) {
            early = i;
        }
        if at.is_after(last) {
            last = at;
        }
        k += 1;
    }
    proof {
        assert(ms.take(k as int) == ms);
    }
    let (by_stream, total) = share_streams(events, members);
    let first = &events[early];
    Cluster {
        cluster_id: cluster_id(template),
        status: Status::Unknown,
        count: members.len(),
        first_seen: first.timestamp,
        last_seen: last,
        template: template.to_owned(),
        histogram,
        other_streams: total - by_stream.len(),
        by_stream,
        exemplar: Exemplar {
            ts: first.timestamp,
            stream: first.stream.as_str().to_owned(),
            message: first.message.as_str().to_owned(),
        },
    }
}

// ---------------------------------------------------------------------------
// Clustering
// ---------------------------------------------------------------------------

/// The clusters of lines, in order of first appearance.
pub open spec fn unsorted(
    evs: Seq<Line>,
    ts: Seq<Seq<char>>,
    since: Instant,
    until: Instant,
    buckets: int,
) -> Seq<Group> {
    distinct(ts).map_values(
        |t: Seq<char>| built(t, picked(evs, places(ts, t)), since, until, buckets),
    )
}

/// The clusters of lines whose templates are given, in display order.
pub open spec fn clusters_given(
    evs: Seq<Line>,
    ts: Seq<Seq<char>>,
    since: Instant,
    until: Instant,
    buckets: int,
) -> Seq<Group> {
    ordered(unsorted(evs, ts, since, until, at_least(buckets, 1)))
}

/// The templates of lines.
pub open spec fn templates(evs: Seq<Line>) -> Seq<Seq<char>> {
    evs.map_values(|e: Line| template_of(e.message))
}

/// Every timestamp is in the calendar.
pub open spec fn dated(events: Seq<LogEvent>) -> bool {
    forall|i: int| 0 <= i < events.len() ==> (#[trigger] events[i]).timestamp.valid()
}

/// Group events whose templates are given into clusters over the window
/// `[since, until]`.
pub fn cluster_with(
    events: &[LogEvent],
    templates: &Vec<String>,
    since: Instant,
    until: Instant,
    buckets: usize,
) -> (r: Vec<Cluster>)
    requires
        templates@.len() == events@.len(),
        events@.len() <= u32::MAX,
        dated(events@),
        since.valid(),
        until.valid(),
    ensures
        groups(r@) == clusters_given(
            lines(events@),
            strings(templates@),
            since,
            until,
            buckets as int,
        ),
{
    let buckets = if buckets < 1 {
        1
    } else {
        buckets
    };
    let ghost evs = lines(events@);
    let ghost ts = strings(templates@);
    let ghost want = unsorted(evs, ts, since, until, buckets as int);
    let (names, members) = group_texts(templates);
    let mut out: Vec<Cluster> = Vec::new();
    let mut g: usize = 0;
    proof {
        assert(strings(names@).len() == names@.len());
        distinct_is_distinct(ts);
    }
    while g < names.len()
        invariant
            g <= names@.len(),
            members@.len() == names@.len(),
            evs == lines(events@),
            ts == strings(templates@),
            ts.len() == events@.len(),
            events@.len() <= u32::MAX,
            dated(events@),
            since.valid(),
            until.valid(),
            buckets > 0,
            strings(names@) == distinct(ts),
            forall|t: Seq<char>| #[trigger] distinct(ts).contains(t) <==> ts.contains(t),
            forall|h: int|
                0 <= h < members@.len() ==> ints(#[trigger] members@[h]@) == places(
                    ts,
                    names@[h]@,
                ),
            want == unsorted(evs, ts, since, until, buckets as int),
            groups(out@) == want.take(g as int),
        decreases names@.len() - g,
    {
        let ghost t = names@[g as int]@;
        proof {
            assert(strings(names@)[g as int] == t);
            assert(distinct(ts).contains(t));
            places_hold_the_text(ts, t);
            let m = members@[g as int]@;
            assert(ints(m) == places(ts, t));
            assert(ints(m).len() == m.len());
            assert forall|k: int| 0 <= k < m.len() implies #[trigger] m[k] < events@.len() by {
                assert(ints(m)[k] == m[k] as int);
            }
        }
        let c = build(names[g].as_str(), events, &members[g], since, until, buckets);
        let ghost view = c@;
        let ghost out0 = out@;
        out.push(c);
        proof {
            assert(want[g as int] == view);
            assert(groups(out@) == groups(out0).push(view));
            assert(want.take(g + 1) == want.take(g as int).push(view));
        }
        g += 1;
    }
    proof {
        assert(want.take(g as int) == want);
    }
    sort_clusters(out)
}

/// The template of each event.
fn templates_of(events: &[LogEvent]) -> (r: Vec<String>)
    ensures
        strings(r@) == templates(lines(events@)),
        r@.len() == events@.len(),
{
    let ghost want = templates(lines(events@));
    let mut out: Vec<String> = Vec::new();
    let mut i: usize = 0;
    while i < events.len()
        invariant
            i <= events@.len(),
            want == templates(lines(events@)),
            strings(out@) == want.take(i as int),
            out@.len() == i,
        decreases events@.len() - i,
    {
        let ghost out0 = out@;
        out.push(template(events[i].message.as_str()));
        proof {
            assert(lines(events@)[i as int] == events@[i as int]@);
            assert(strings(out@) == strings(out0).push(want[i as int]));
            assert(want.take(i + 1) == want.take(i as int).push(want[i as int]));
        }
        i += 1;
    }
    proof {
        assert(want.take(i as int) == want);
    }
    out
}

/// Group events into clusters over the window `[since, until]`.
///
/// `buckets` is the histogram resolution. Events outside the window are still
/// counted, since the caller asked for them, but clamped into the end buckets
/// rather than being dropped or indexed out of range.
pub fn cluster(events: &[LogEvent], since: Instant, until: Instant, buckets: usize) -> (r: Vec<
    Cluster,
>)
    requires
        events@.len() <= u32::MAX,
        dated(events@),
        since.valid(),
        until.valid(),
    ensures
        groups(r@) == clusters_given(
            lines(events@),
            templates(lines(events@)),
            since,
            until,
            buckets as int,
        ),
{
    let ts = templates_of(events);
    cluster_with(events, &ts, since, until, buckets)
}

// ---------------------------------------------------------------------------
// Baseline
// ---------------------------------------------------------------------------

/// How often each template occurred in a baseline period.
pub type BaselineCounts = StringHashMap<usize>;

/// Whether counts are those of the given texts.
pub open spec fn counts_are(counts: Map<Seq<char>, usize>, ts: Seq<Seq<char>>) -> bool {
    &&& forall|t: Seq<char>| #[trigger] counts.contains_key(t) <==> ts.contains(t)
    &&& forall|t: Seq<char>| #[trigger]
        counts.contains_key(t) ==> counts[t] == places(ts, t).len()
}

/// Count templates.
pub fn count_templates(templates: &Vec<String>) -> (counts: BaselineCounts)
    ensures
        counts_are(counts@, strings(templates@)),
{
    let (names, members) = group_texts(templates);
    let ghost ts = strings(templates@);
    let mut counts: StringHashMap<usize> = StringHashMap::new();
    let mut g: usize = 0;
    proof {
        assert(strings(names@).len() == names@.len());
        distinct_is_distinct(ts);
    }
    while g < names.len()
        invariant
            g <= names@.len(),
            members@.len() == names@.len(),
            strings(names@) == distinct(ts),
            distinct(ts).no_duplicates(),
            forall|h: int|
                0 <= h < members@.len() ==> ints(#[trigger] members@[h]@) == places(
                    ts,
                    names@[h]@,
                ),
            forall|t: Seq<char>| #[trigger]
                counts@.contains_key(t) <==> distinct(ts).take(g as int).contains(t),
            forall|t: Seq<char>| #[trigger]
                counts@.contains_key(t) ==> counts@[t] == places(ts, t).len(),
        decreases names@.len() - g,
    {
        let ghost t = names@[g as int]@;
        let ghost past = distinct(ts).take(g as int);
        let ghost next = distinct(ts).take(g + 1);
        counts.insert(names[g].as_str().to_owned(), members[g].len());
        proof {
            assert(strings(names@)[g as int] == t);
            assert(next == past.push(t));
            assert(ints(members@[g as int]@).len() == members@[g as int]@.len());
            assert forall|u: Seq<char>| #[trigger]
                counts@.contains_key(u) <==> next.contains(u) by {
                if past.contains(u) {
                    let k = past.index_of(u);
                    assert(next[k] == u);
                }
                if next.contains(u) && u != t {
                    let k = next.index_of(u);
                    assert(past[k] == u);
                }
                assert(next[g as int] == t);
            }
        }
        g += 1;
    }
    proof {
        assert(distinct(ts).take(g as int) == distinct(ts));
    }
    counts
}

/// Reduce baseline events to template counts, which is all the comparison
/// needs; holding the full events would be wasteful for a 24-hour period.
pub fn baseline_counts(events: &[LogEvent]) -> (counts: BaselineCounts)
    ensures
        counts_are(counts@, templates(lines(events@))),
{
    let ts = templates_of(events);
    count_templates(&ts)
}

/// How a cluster of `count` events compares with `prior` events in the
/// baseline. Rates are normalised by duration, so a 1-hour window compares
/// correctly against a 24-hour baseline.
pub open spec fn status_against(
    count: nat,
    prior: Option<usize>,
    window_secs: int,
    baseline_secs: int,
) -> Status {
    let w = at_least(window_secs, 1);
    let b = at_least(baseline_secs, 1);
    match prior {
        None => Status::New,
        Some(p) => if p > 0 && count * b > SPIKE_FACTOR * (p * w) {
            Status::Spiking
        } else {
            Status::Steady
        },
    }
}

/// Find `status_against`.
pub fn classify(count: usize, prior: Option<usize>, window_secs: i64, baseline_secs: i64) -> (r:
    Status)
    ensures
        r == status_against(count as nat, prior, window_secs as int, baseline_secs as int),
{
    let w: u64 = if window_secs < 1 {
        1
    } else {
        window_secs as u64
    };
    let b: u64 = if baseline_secs < 1 {
        1
    } else {
        baseline_secs as u64
    };
    match prior {
        None => Status::New,
        Some(p) => {
            proof {
                assert(0 <= count * b <= 0xffff_ffff_ffff_ffff * 0x7fff_ffff_ffff_ffff)
                    by (nonlinear_arith)
                    requires
                        0 <= count <= 0xffff_ffff_ffff_ffff,
                        0 <= b <= 0x7fff_ffff_ffff_ffff,
                ;
                assert(0 <= p * w <= 0xffff_ffff_ffff_ffff * 0x7fff_ffff_ffff_ffff)
                    by (nonlinear_arith)
                    requires
                        0 <= p <= 0xffff_ffff_ffff_ffff,
                        0 <= w <= 0x7fff_ffff_ffff_ffff,
                ;
            }
            let now: u128 = count as u128 * b as u128;
            let then: u128 = p as u128 * w as u128;
            if p > 0 && now > 0 && (now - 1) / SPIKE_FACTOR >= then {
                Status::Spiking
            } else {
                Status::Steady
            }
        },
    }
}

/// What a map holds for a text.
pub open spec fn looked_up(m: Map<Seq<char>, usize>, t: Seq<char>) -> Option<usize> {
    if m.contains_key(t) {
        Some(m[t])
    } else {
        None
    }
}

/// A cluster with its status told from a baseline.
pub open spec fn judged(
    c: Group,
    baseline: Map<Seq<char>, usize>,
    window_secs: int,
    baseline_secs: int,
) -> Group {
    Group {
        status: status_against(
            c.count,
            looked_up(baseline, c.template),
            window_secs,
            baseline_secs,
        ),
        ..c
    }
}

/// Clusters with their status told from a baseline, in order of appearance.
pub open spec fn all_judged(
    cs: Seq<Group>,
    baseline: Map<Seq<char>, usize>,
    window_secs: int,
    baseline_secs: int,
) -> Seq<Group> {
    cs.map_values(|c: Group| judged(c, baseline, window_secs, baseline_secs))
}

/// Classify each cluster against counts from a baseline period, and put them
/// in display order again.
pub fn apply_baseline(
    clusters: &mut Vec<Cluster>,
    baseline: &BaselineCounts,
    window_secs: i64,
    baseline_secs: i64,
)
    ensures
        groups(final(clusters)@) == ordered(
            all_judged(
                groups(old(clusters)@),
                baseline@,
                window_secs as int,
                baseline_secs as int,
            ),
        ),
{
    let mut rest: Vec<Cluster> = Vec::new();
    std::mem::swap(clusters, &mut rest);
    let ghost from = groups(rest@);
    let ghost want = all_judged(from, baseline@, window_secs as int, baseline_secs as int);
    let mut i: usize = 0;
    while i < rest.len()
        invariant
            i <= rest@.len(),
            rest@.len() == from.len(),
            want == all_judged(from, baseline@, window_secs as int, baseline_secs as int),
            groups(rest@) == want.take(i as int) + from.skip(i as int),
        decreases rest@.len() - i,
    {
        let prior = match baseline.get(rest[i].template.as_str()) {
            Some(p) => Some(*p),
            None => None,
        };
        let status = classify(rest[i].count, prior, window_secs, baseline_secs);
        let ghost rest0 = rest@;
        proof {
            assert(groups(rest0)[i as int] == rest0[i as int]@);
            assert(from[i as int] == rest0[i as int]@);
        }
        rest[i].status = status;
        proof {
            assert(rest@ == rest0.update(i as int, rest@[i as int]));
            assert(rest@[i as int]@ == want[i as int]);
            assert forall|k: int| 0 <= k < rest@.len() implies #[trigger] groups(rest@)[k] == (
            want.take(i + 1) + from.skip(i + 1))[k] by {
                assert(groups(rest0)[k] == rest0[k]@);
                if k != i {
                    assert(rest@[k] == rest0[k]);
                }
            }
            assert(groups(rest@) == want.take(i + 1) + from.skip(i + 1));
        }
        i += 1;
    }
    proof {
        assert(want.take(i as int) + from.skip(i as int) == want);
    }
    let mut sorted = sort_clusters(rest);
    std::mem::swap(clusters, &mut sorted);
}

// ---------------------------------------------------------------------------
// Laws
// ---------------------------------------------------------------------------

/// How many events clusters stand for together.
pub open spec fn total_count(cs: Seq<Group>) -> nat
    decreases cs.len(),
{
    if cs.len() == 0 {
        0
    } else {
        total_count(cs.drop_last()) + cs.last().count
    }
}

/// The total of one more cluster.
proof fn total_of_push(cs: Seq<Group>, c: Group)
    ensures
        total_count(cs.push(c)) == total_count(cs) + c.count,
{
    assert(cs.push(c).drop_last() == cs);
}

/// Sorting does not change the total.
proof fn sorting_keeps_the_total(cs: Seq<Group>)
    ensures
        total_count(ordered(cs)) == total_count(cs),
    decreases cs.len(),
{
    if cs.len() > 0 {
        sorting_keeps_the_total(cs.drop_last());
        insertion_adds_to_the_total(ordered(cs.drop_last()), cs.last());
    }
}

/// Insertion adds the inserted cluster to the total.
proof fn insertion_adds_to_the_total(cs: Seq<Group>, c: Group)
    ensures
        total_count(inserted(cs, c)) == total_count(cs) + c.count,
    decreases cs.len(),
{
    if cs.len() == 0 || !c.before(cs.last()) {
        total_of_push(cs, c);
    } else {
        insertion_adds_to_the_total(cs.drop_last(), c);
        total_of_push(inserted(cs.drop_last(), c), cs.last());
    }
}

/// How often some texts occur together.
spec fn occurrences(names: Seq<Seq<char>>, ts: Seq<Seq<char>>) -> nat
    decreases names.len(),
{
    if names.len() == 0 {
        0
    } else {
        occurrences(names.drop_last(), ts) + places(ts, names.last()).len()
    }
}

/// One more text adds one occurrence, to itself.
proof fn one_more_occurrence(names: Seq<Seq<char>>, ts: Seq<Seq<char>>)
    requires
        ts.len() > 0,
        names.no_duplicates(),
    ensures
        occurrences(names, ts) == occurrences(names, ts.drop_last()) + if names.contains(
            ts.last(),
        ) {
            1nat
        } else {
            0nat
        },
    decreases names.len(),
{
    if names.len() > 0 {
        let front = names.drop_last();
        one_more_occurrence(front, ts);
        let x = ts.last();
        if front.contains(x) {
            let k = front.index_of(x);
            assert(names[k] == x);
            assert(names.last() != x);
        } else if names.contains(x) {
            let k = names.index_of(x);
            assert(k == names.len() - 1) by {
                if k < names.len() - 1 {
                    assert(front[k] == x);
                }
            }
        } else {
            assert(names[names.len() - 1] != x);
        }
    }
}

/// Every text occurs under exactly one of the distinct texts.
proof fn occurrences_cover(ts: Seq<Seq<char>>)
    ensures
        occurrences(distinct(ts), ts) == ts.len(),
    decreases ts.len(),
{
    if ts.len() > 0 {
        let front = ts.drop_last();
        let d = distinct(front);
        occurrences_cover(front);
        distinct_is_distinct(front);
        distinct_is_distinct(ts);
        one_more_occurrence(distinct(ts), ts);
        assert(ts[ts.len() - 1] == ts.last());
        assert(ts.contains(ts.last()));
        assert(distinct(ts).contains(ts.last()));
        if !d.contains(ts.last()) {
            places_hold_the_text(front, ts.last());
            assert(distinct(ts).drop_last() == d);
        }
    }
}

/// The counts of the first clusters are the occurrences of their templates.
proof fn counts_are_occurrences(
    evs: Seq<Line>,
    ts: Seq<Seq<char>>,
    since: Instant,
    until: Instant,
    buckets: int,
    n: int,
)
    requires
        0 <= n <= distinct(ts).len(),
    ensures
        total_count(unsorted(evs, ts, since, until, buckets).take(n)) == occurrences(
            distinct(ts).take(n),
            ts,
        ),
    decreases n,
{
    let u = unsorted(evs, ts, since, until, buckets);
    let d = distinct(ts);
    if n > 0 {
        counts_are_occurrences(evs, ts, since, until, buckets, n - 1);
        assert(u.take(n).drop_last() == u.take(n - 1));
        assert(d.take(n).drop_last() == d.take(n - 1));
        assert(u.take(n).last() == u[n - 1]);
        assert(d.take(n).last() == d[n - 1]);
        assert(u[n - 1].count == picked(evs, places(ts, d[n - 1])).len());
    }
}

/// Every event is counted exactly once: the counts of all clusters add up to
/// the number of events.
pub proof fn every_event_is_counted_once(
    evs: Seq<Line>,
    ts: Seq<Seq<char>>,
    since: Instant,
    until: Instant,
    buckets: int,
)
    requires
        evs.len() == ts.len(),
    ensures
        total_count(clusters_given(evs, ts, since, until, buckets)) == evs.len(),
{
    let b = at_least(buckets, 1);
    let u = unsorted(evs, ts, since, until, b);
    sorting_keeps_the_total(u);
    let n = distinct(ts).len() as int;
    counts_are_occurrences(evs, ts, since, until, b, n);
    assert(u.take(n) == u);
    assert(distinct(ts).take(n) == distinct(ts));
    occurrences_cover(ts);
}

/// The sum of the first `n` buckets.
pub open spec fn bars(h: Seq<u32>, n: int) -> int
    decreases n,
{
    if n <= 0 {
        0
    } else {
        bars(h, n - 1) + h[n - 1]
    }
}

/// The lines in the first `n` buckets.
spec fn lines_in(ms: Seq<Line>, since: Instant, until: Instant, buckets: int, n: int) -> int
    decreases n,
{
    if n <= 0 {
        0
    } else {
        lines_in(ms, since, until, buckets, n - 1) + bucket_count(ms, since, until, buckets, n - 1)
    }
}

/// One more line adds one to the first `n` buckets if its own is among them.
proof fn one_more_line(ms: Seq<Line>, since: Instant, until: Instant, buckets: int, n: int)
    requires
        ms.len() > 0,
    ensures
        lines_in(ms, since, until, buckets, n) == lines_in(
            ms.drop_last(),
            since,
            until,
            buckets,
            n,
        ) + if 0 <= bucket(ms.last().at, since, until, buckets) < n {
            1int
        } else {
            0int
        },
    decreases n,
{
    if n > 0 {
        one_more_line(ms, since, until, buckets, n - 1);
    }
}

/// All lines are in some bucket.
proof fn buckets_cover(ms: Seq<Line>, since: Instant, until: Instant, buckets: int)
    requires
        buckets > 0,
    ensures
        lines_in(ms, since, until, buckets, buckets) == ms.len(),
    decreases ms.len(),
{
    if ms.len() > 0 {
        buckets_cover(ms.drop_last(), since, until, buckets);
        one_more_line(ms, since, until, buckets, buckets);
    } else {
        no_lines(ms, since, until, buckets, buckets);
    }
}

/// Without lines every bucket is empty.
proof fn no_lines(ms: Seq<Line>, since: Instant, until: Instant, buckets: int, n: int)
    requires
        ms.len() == 0,
    ensures
        lines_in(ms, since, until, buckets, n) == 0,
    decreases n,
{
    if n > 0 {
        no_lines(ms, since, until, buckets, n - 1);
    }
}

/// The bars of a histogram are the lines in its buckets.
proof fn bars_are_lines(ms: Seq<Line>, since: Instant, until: Instant, buckets: int, n: int)
    requires
        ms.len() <= u32::MAX,
        0 <= n <= buckets,
    ensures
        bars(histogram_of(ms, since, until, buckets), n) == lines_in(
            ms,
            since,
            until,
            buckets,
            n,
        ),
    decreases n,
{
    if n > 0 {
        bars_are_lines(ms, since, until, buckets, n - 1);
        bucket_count_is_bounded(ms, since, until, buckets, n - 1);
    }
}

/// A histogram counts every line of its cluster once.
pub proof fn histogram_adds_up(
    template: Seq<char>,
    ms: Seq<Line>,
    since: Instant,
    until: Instant,
    buckets: int,
)
    requires
        buckets > 0,
        ms.len() <= u32::MAX,
    ensures
        bars(built(template, ms, since, until, buckets).histogram, buckets) == built(
            template,
            ms,
            since,
            until,
            buckets,
        ).count,
{
    bars_are_lines(ms, since, until, buckets, buckets);
    buckets_cover(ms, since, until, buckets);
}

/// Each cluster is the one built from the lines with its template, which
/// occurs; so `logs drill`, which hashes the template of every line again,
/// reaches each cluster by its id.
pub proof fn every_cluster_is_reachable(
    evs: Seq<Line>,
    ts: Seq<Seq<char>>,
    since: Instant,
    until: Instant,
    buckets: int,
    k: int,
)
    requires
        evs.len() == ts.len(),
        0 <= k < clusters_given(evs, ts, since, until, buckets).len(),
    ensures
        ({
            let c = clusters_given(evs, ts, since, until, buckets)[k];
            &&& exists|i: int| 0 <= i < ts.len() && #[trigger] ts[i] == c.template && id_of(ts[i])
                == c.id
            &&& c == built(
                c.template,
                picked(evs, places(ts, c.template)),
                since,
                until,
                at_least(buckets, 1),
            )
            &&& c.count > 0
            &&& c.status == Status::Unknown
        }),
{
    let b = at_least(buckets, 1);
    let u = unsorted(evs, ts, since, until, b);
    let r = ordered(u);
    sorting_keeps_elements(u);
    assert(r.contains(r[k]));
    let j = u.index_of(r[k]);
    let t = distinct(ts)[j];
    distinct_is_distinct(ts);
    assert(distinct(ts).contains(t));
    places_hold_the_text(ts, t);
    let i = ts.index_of(t);
    assert(ts[i] == t);
    assert(r[k] == built(t, picked(evs, places(ts, t)), since, until, b));
}

/// No two clusters have the same template.
pub proof fn templates_are_distinct(
    evs: Seq<Line>,
    ts: Seq<Seq<char>>,
    since: Instant,
    until: Instant,
    buckets: int,
    j: int,
    k: int,
)
    requires
        evs.len() == ts.len(),
        0 <= j < k < clusters_given(evs, ts, since, until, buckets).len(),
    ensures
        clusters_given(evs, ts, since, until, buckets)[j].template != clusters_given(
            evs,
            ts,
            since,
            until,
            buckets,
        )[k].template,
{
    let b = at_least(buckets, 1);
    let u = unsorted(evs, ts, since, until, b);
    distinct_is_distinct(ts);
    assert forall|x: int, y: int| 0 <= x < u.len() && 0 <= y < u.len() && x != y implies u[x]
        != u[y] by {
        assert(u[x].template == distinct(ts)[x]);
        assert(u[y].template == distinct(ts)[y]);
    }
    assert(u.no_duplicates());
    sorting_keeps_elements(u);
    every_cluster_is_reachable(evs, ts, since, until, buckets, j);
    every_cluster_is_reachable(evs, ts, since, until, buckets, k);
}

/// Clusters come in display order: what changed first, then by volume.
pub proof fn clusters_are_in_display_order(
    evs: Seq<Line>,
    ts: Seq<Seq<char>>,
    since: Instant,
    until: Instant,
    buckets: int,
)
    ensures
        in_order(clusters_given(evs, ts, since, until, buckets)),
{
    sorting_orders(unsorted(evs, ts, since, until, at_least(buckets, 1)));
}

/// The earliest line is one of the lines, and none is before it.
pub proof fn earliest_is_first(ms: Seq<Line>)
    requires
        ms.len() > 0,
    ensures
        ms.contains(earliest(ms)),
        forall|i: int| 0 <= i < ms.len() ==> !earliest(ms).at.after((#[trigger] ms[i]).at),
    decreases ms.len(),
{
    if ms.len() > 1 {
        let front = ms.drop_last();
        earliest_is_first(front);
        let e = earliest(front);
        let j = front.index_of(e);
        assert(ms[j] == e);
        assert(ms[ms.len() - 1] == ms.last());
        assert forall|i: int| 0 <= i < ms.len() implies !earliest(ms).at.after(
            (#[trigger] ms[i]).at,
        ) by {
            if i < ms.len() - 1 {
                assert(front[i] == ms[i]);
            }
        }
    } else {
        assert(ms[0] == earliest(ms));
    }
}

/// The latest instant is that of a line, and no line is after it.
pub proof fn latest_is_last(ms: Seq<Line>)
    requires
        ms.len() > 0,
    ensures
        exists|i: int| 0 <= i < ms.len() && (#[trigger] ms[i]).at == latest(ms),
        forall|i: int| 0 <= i < ms.len() ==> !(#[trigger] ms[i]).at.after(latest(ms)),
    decreases ms.len(),
{
    if ms.len() > 1 {
        let front = ms.drop_last();
        latest_is_last(front);
        let j = choose|j: int| 0 <= j < front.len() && (#[trigger] front[j]).at == latest(front);
        assert(ms[j].at == latest(front));
        assert(ms[ms.len() - 1] == ms.last());
        assert forall|i: int| 0 <= i < ms.len() implies !(#[trigger] ms[i]).at.after(
            latest(ms),
        ) by {
            if i < ms.len() - 1 {
                assert(front[i] == ms[i]);
            }
        }
    } else {
        assert(ms[0].at == latest(ms));
    }
}

/// A cluster spans its lines, and its exemplar is a verbatim line of it, the
/// earliest.
pub proof fn a_cluster_spans_its_lines(
    template: Seq<char>,
    ms: Seq<Line>,
    since: Instant,
    until: Instant,
    buckets: int,
)
    requires
        ms.len() > 0,
    ensures
        ({
            let c = built(template, ms, since, until, buckets);
            &&& ms.contains(c.exemplar)
            &&& c.exemplar.at == c.first
            &&& forall|i: int|
                0 <= i < ms.len() ==> !c.first.after((#[trigger] ms[i]).at) && !ms[i].at.after(
                    c.last,
                )
        }),
{
    earliest_is_first(ms);
    latest_is_last(ms);
}

/// A cluster names its busiest streams, the busiest first, and counts those it
/// does not name.
pub proof fn the_busiest_streams_are_named(
    template: Seq<char>,
    ms: Seq<Line>,
    since: Instant,
    until: Instant,
    buckets: int,
)
    ensures
        ({
            let c = built(template, ms, since, until, buckets);
            &&& c.by_stream.len() <= MAX_STREAMS
            &&& c.by_stream.len() + c.other_streams == distinct(streams(ms)).len()
            &&& c.other_streams > 0 ==> c.by_stream.len() == MAX_STREAMS
            &&& in_order(c.by_stream)
            &&& forall|i: int|
                0 <= i < c.by_stream.len() ==> {
                    let share = #[trigger] c.by_stream[i];
                    share.count == places(streams(ms), share.stream).len() && streams(
                        ms,
                    ).contains(share.stream)
                }
        }),
{
    let all = stream_shares(ms);
    let r = ordered(all);
    let c = built(template, ms, since, until, buckets);
    sorting_orders(all);
    sorting_permutes(all);
    sorting_keeps_elements(all);
    distinct_is_distinct(streams(ms));
    assert(in_order(c.by_stream)) by {
        assert forall|i: int, j: int| 0 <= i < j < c.by_stream.len() implies !(
        #[trigger] c.by_stream[j]).before(#[trigger] c.by_stream[i]) by {
            assert(c.by_stream[i] == r[i] && c.by_stream[j] == r[j]);
        }
    }
    assert forall|i: int| 0 <= i < c.by_stream.len() implies {
        let share = #[trigger] c.by_stream[i];
        share.count == places(streams(ms), share.stream).len() && streams(ms).contains(
            share.stream,
        )
    } by {
        assert(r.contains(r[i]));
        assert(all.contains(r[i]));
        let j = all.index_of(r[i]);
        assert(distinct(streams(ms)).contains(distinct(streams(ms))[j]));
    }
}

/// A cluster is new exactly when the baseline does not hold its template, and
/// judging it changes nothing but its status.
pub proof fn new_means_absent_from_the_baseline(
    c: Group,
    baseline: Map<Seq<char>, usize>,
    window_secs: int,
    baseline_secs: int,
)
    ensures
        judged(c, baseline, window_secs, baseline_secs).status == Status::New
            <==> !baseline.contains_key(c.template),
        judged(c, baseline, window_secs, baseline_secs).template == c.template,
        judged(c, baseline, window_secs, baseline_secs).count == c.count,
{
}

/// Judging clusters changes nothing but their status, and putting them in
/// order neither loses nor adds one.
pub proof fn a_baseline_changes_only_the_status(
    cs: Seq<Group>,
    baseline: Map<Seq<char>, usize>,
    window_secs: int,
    baseline_secs: int,
)
    ensures
        ({
            let told = all_judged(cs, baseline, window_secs, baseline_secs);
            &&& permuted(ordered(told), told)
            &&& in_order(ordered(told))
            &&& told.len() == cs.len()
            &&& forall|i: int|
                0 <= i < cs.len() ==> (#[trigger] told[i]) == (Group {
                    status: told[i].status,
                    ..cs[i]
                })
        }),
{
    let told = all_judged(cs, baseline, window_secs, baseline_secs);
    sorting_permutes(told);
    sorting_orders(told);
}

/// Judging clusters again against the same baseline changes nothing.
pub proof fn judging_again_changes_nothing(
    cs: Seq<Group>,
    baseline: Map<Seq<char>, usize>,
    window_secs: int,
    baseline_secs: int,
)
    ensures
        ({
            let once = ordered(all_judged(cs, baseline, window_secs, baseline_secs));
            ordered(all_judged(once, baseline, window_secs, baseline_secs)) == once
        }),
{
    let told = all_judged(cs, baseline, window_secs, baseline_secs);
    let once = ordered(told);
    let twice = all_judged(once, baseline, window_secs, baseline_secs);
    sorting_keeps_elements(told);
    sorting_orders(told);
    assert forall|i: int| 0 <= i < once.len() implies #[trigger] twice[i] == once[i] by {
        assert(once.contains(once[i]));
        let k = told.index_of(once[i]);
        assert(told[k] == judged(cs[k], baseline, window_secs, baseline_secs));
    }
    assert(twice =~= once);
    sorting_is_idempotent(once);
}

} // verus!
