//! Putting several metric series onto one shared timeline.
//!
//! "What was happening on all of these at 10:04" is the question metrics get
//! asked during an incident, and answering it means every series sharing one
//! time axis. CloudWatch does not provide that: each query returns its own
//! timestamps, a series is missing timestamps where it had no data, and two
//! series over the same window can disagree about which instants exist.
//!
//! Aligning once here, in one place, is the difference between a caller
//! comparing series and a caller re-deriving the timeline every time.
//!
//! A value is copied, never computed with, so any type will do. Where values
//! are ordered, each is told by an integer that is ordered as it is.

use crate::common::time::{moved_on, seconds_after, MAX_DELTA, MAX_SECS, MIN_SECS, Instant};
use crate::order::{
    filtering_permutes, names_are_ordered, ordered, permuted, permuted_is_same, replacing_permutes,
    reversed, sort, sorting_keeps_elements, sorting_orders, Ordered, Sortable,
};
use crate::text::{less_str, strings, text_less};
use std::collections::HashMap;
use vstd::prelude::*;

verus! {

broadcast use vstd::std_specs::hash::group_hash_axioms;

/// One metric series as CloudWatch returns it: paired timestamps and values,
/// with gaps wherever no data existed.
#[derive(Debug, Clone)]
pub struct Series<T> {
    pub label: String,
    pub points: Vec<(Instant, T)>,
}

/// One instant on the grid.
#[derive(Debug, Clone, PartialEq)]
pub struct Row<T> {
    pub ts: Instant,
    /// One entry per series, in the order the series were supplied. `None`
    /// where that series had no datapoint at this instant: a real gap, not a
    /// zero. Reporting a gap as `0` would turn "the instance was not
    /// reporting" into "the value was zero", which reads as healthy.
    pub values: Vec<Option<T>>,
}

/// A dense matrix: one row per instant on the grid, one column per series.
#[derive(Debug, Clone)]
pub struct Matrix<T> {
    pub labels: Vec<String>,
    pub period_seconds: i64,
    pub rows: Vec<Row<T>>,
}

// ---------------------------------------------------------------------------
// Period selection
// ---------------------------------------------------------------------------

/// The API's cap on datapoints returned for a single request.
pub const MAX_DATAPOINTS: i64 = 100_800;

/// CloudWatch's retention tiers: how old, in seconds, data at a period may be
/// before it is gone. A period finer than the tier for a window's age returns
/// nothing at all, which is indistinguishable from "the metric was flat".
pub open spec fn retained_for(period: int) -> int {
    if period == 60 {
        15int * 86_400
    } else if period == 300 {
        63int * 86_400
    } else {
        455int * 86_400
    }
}

/// `n / d` rounded toward zero, for a positive `d`.
pub open spec fn quotient(n: int, d: int) -> int {
    if n >= 0 {
        n / d
    } else {
        -((-n) / d)
    }
}

/// The datapoints a request returns.
pub open spec fn datapoints(window: int, period: int, series: int) -> int {
    quotient(window, period) * series
}

/// Whether a tier both covers a window's age and stays under the cap.
pub open spec fn fits(window: int, age: int, series: int, period: int) -> bool {
    age <= retained_for(period) && datapoints(window, period, series) <= MAX_DATAPOINTS
}

/// `n / d` rounded up, for a positive `d`.
pub open spec fn rounded_up(n: int, d: int) -> int {
    (n + d - 1) / d
}

/// The shortest period, in seconds, that stays under the cap.
pub open spec fn shortest(window: int, series: int) -> int {
    if window <= 0 {
        1
    } else {
        window / (MAX_DATAPOINTS as int / series + 1) + 1
    }
}

/// The finest period that fits. Beyond the coarsest tier, the shortest whole
/// number of minutes that stays under the cap, and no less than that tier.
pub open spec fn period_for(window: int, age: int, series: int) -> int {
    if fits(window, age, series, 60) {
        60
    } else if fits(window, age, series, 300) {
        300
    } else if fits(window, age, series, 3600) {
        3600
    } else {
        let minutes = rounded_up(shortest(window, series), 60) * 60;
        if minutes > 3600 {
            minutes
        } else {
            3600
        }
    }
}

/// No series counts as one.
pub open spec fn series_count(series: int) -> int {
    if series < 1 {
        1
    } else {
        series
    }
}

/// Whether a product stays under a bound is told by a division.
proof fn product_is_bounded(n: int, series: int, max: int)
    requires
        series >= 1,
        max >= 0,
    ensures
        n * series <= max <==> n <= max / series,
{
    let q = max / series;
    assert(q * series <= max < (q + 1) * series) by (nonlinear_arith)
        requires
            q == max / series,
            series >= 1,
            max >= 0,
    ;
    if n <= q {
        assert(n * series <= q * series) by (nonlinear_arith)
            requires
                n <= q,
                series >= 1,
        ;
    } else {
        assert(n * series >= (q + 1) * series) by (nonlinear_arith)
            requires
                n >= q + 1,
                series >= 1,
        ;
    }
}

/// A window that does not extend forward has no datapoints.
proof fn no_window_no_datapoints(window: int, period: int, series: int)
    requires
        window <= 0,
        period > 0,
        series >= 1,
    ensures
        datapoints(window, period, series) <= 0,
{
    let q = quotient(window, period);
    assert(q <= 0) by {
        if window == 0 {
            assert(0int / period == 0) by (nonlinear_arith)
                requires
                    period > 0,
            ;
        } else {
            let n = -window;
            assert(n / period >= 0) by (nonlinear_arith)
                requires
                    n >= 0,
                    period > 0,
            ;
        }
    }
    assert(q * series <= 0) by (nonlinear_arith)
        requires
            q <= 0,
            series >= 1,
    ;
}

/// Decide `fits`.
fn tier_fits(window: i64, age: i64, series: u64, period: i64, max_age: i64) -> (r: bool)
    requires
        period > 0,
        max_age == retained_for(period as int),
        series > 0,
    ensures
        r == fits(window as int, age as int, series as int, period as int),
{
    if age > max_age {
        return false;
    }
    if window <= 0 {
        proof {
            no_window_no_datapoints(window as int, period as int, series as int);
        }
        return true;
    }
    let per_series = window / period;
    proof {
        assert(0 <= window as int / period as int) by (nonlinear_arith)
            requires
                window >= 0,
                period > 0,
        ;
        product_is_bounded(per_series as int, series as int, MAX_DATAPOINTS as int);
    }
    per_series as u64 <= MAX_DATAPOINTS as u64 / series
}

/// Choose the finest period that both covers the window's age and keeps the
/// result under the datapoint cap.
///
/// `age_seconds` is how far back the *start* of the window reaches from now.
pub fn choose_period(window_seconds: i64, age_seconds: i64, series: usize) -> (r: i64)
    requires
        window_seconds <= i64::MAX - 60,
    ensures
        r == period_for(
            window_seconds as int,
            age_seconds as int,
            series_count(series as int),
        ),
        r >= 60,
        r % 60 == 0,
{
    let n: u64 = if series < 1 {
        1
    } else {
        series as u64
    };
    // A period that would blow the datapoint cap returns an error, so step
    // coarser rather than fail.
    if tier_fits(window_seconds, age_seconds, n, 60, 15 * 86_400) {
        return 60;
    }
    if tier_fits(window_seconds, age_seconds, n, 300, 63 * 86_400) {
        return 300;
    }
    if tier_fits(window_seconds, age_seconds, n, 3600, 455 * 86_400) {
        return 3600;
    }
    // Beyond the coarsest tier there is nothing finer to fall back to.
    if window_seconds <= 0 {
        return 3600;
    }
    let each = MAX_DATAPOINTS as u64 / n;
    proof {
        assert(0 <= each <= MAX_DATAPOINTS) by (nonlinear_arith)
            requires
                each == MAX_DATAPOINTS as u64 / n,
                n >= 1,
        ;
        let w = window_seconds as int;
        let d = each as int + 1;
        assert(0 <= w / d <= w) by (nonlinear_arith)
            requires
                w >= 0,
                d >= 1,
        ;
    }
    let needed = window_seconds / (each as i64 + 1) + 1;
    // Round up to a whole minute: CloudWatch requires a multiple of 60 above
    // one minute, and rejects anything else.
    let minutes = (needed + 59) / 60 * 60;
    if minutes > 3600 {
        minutes
    } else {
        3600
    }
}

/// The periods CloudWatch accepts: a few high-resolution ones, and whole
/// minutes.
pub open spec fn acceptable_period(period: int) -> bool {
    ||| period == 1 || period == 5 || period == 10 || period == 20 || period == 30
    ||| period >= 60 && period % 60 == 0
}

/// Decide `acceptable_period`.
pub fn is_acceptable_period(period: i64) -> (r: bool)
    ensures
        r == acceptable_period(period as int),
{
    period == 1 || period == 5 || period == 10 || period == 20 || period == 30 || (period >= 60
        && period % 60 == 0)
}

/// The chosen period always keeps the request under the cap, is one that
/// CloudWatch accepts, and is never finer than what it retains for the
/// window's age.
pub proof fn the_chosen_period_is_safe(window: int, age: int, series: int)
    requires
        series >= 1,
    ensures
        datapoints(window, period_for(window, age, series), series) <= MAX_DATAPOINTS,
        acceptable_period(period_for(window, age, series)),
        age > retained_for(60) ==> period_for(window, age, series) >= 300,
        age > retained_for(300) ==> period_for(window, age, series) >= 3600,
{
    let p = period_for(window, age, series);
    if !fits(window, age, series, 60) && !fits(window, age, series, 300) && !fits(
        window,
        age,
        series,
        3600,
    ) {
        assert(p >= shortest(window, series));
        long_enough_is_safe(window, p, series);
    }
}

/// A period stays under the cap exactly when it is long enough.
proof fn long_enough_is_safe(window: int, period: int, series: int)
    requires
        series >= 1,
        period >= 1,
    ensures
        datapoints(window, period, series) <= MAX_DATAPOINTS <==> period >= shortest(
            window,
            series,
        ),
{
    if window <= 0 {
        no_window_no_datapoints(window, period, series);
    } else {
        let m = MAX_DATAPOINTS as int;
        let d = m / series + 1;
        assert(d >= 1) by (nonlinear_arith)
            requires
                d == m / series + 1,
                series >= 1,
                m >= 0,
        ;
        product_is_bounded(window / period, series, m);
        assert(window / period < d <==> window < d * period) by (nonlinear_arith)
            requires
                window > 0,
                period >= 1,
        ;
        assert(window / d < period <==> window < d * period) by (nonlinear_arith)
            requires
                window > 0,
                d >= 1,
        ;
    }
}

/// No finer period would have done: neither a finer tier, nor, beyond the
/// tiers, a smaller whole number of minutes.
pub proof fn the_chosen_period_is_the_finest(window: int, age: int, series: int, finer: int)
    requires
        series >= 1,
    ensures
        period_for(window, age, series) > 60 ==> !fits(window, age, series, 60),
        period_for(window, age, series) > 300 ==> !fits(window, age, series, 300),
        period_for(window, age, series) > 3600 ==> !fits(window, age, series, 3600),
        3600 <= finer < period_for(window, age, series) && finer % 60 == 0 ==> datapoints(
            window,
            finer,
            series,
        ) > MAX_DATAPOINTS,
{
    if 3600 <= finer < period_for(window, age, series) && finer % 60 == 0 {
        long_enough_is_safe(window, finer, series);
        let need = shortest(window, series);
        assert(period_for(window, age, series) == rounded_up(need, 60) * 60);
        assert(finer < need);
    }
}

// ---------------------------------------------------------------------------
// Alignment
// ---------------------------------------------------------------------------

/// An instant snapped down to the start of its period. Where that start lies
/// before the calendar, the instant itself.
pub open spec fn snapped(at: Instant, period: int) -> Instant {
    let floor = at.secs - (at.secs as int) % period;
    if floor >= MIN_SECS {
        Instant { secs: floor as i64, nanos: 0 }
    } else {
        at
    }
}

/// Snap an instant down to the start of its period bucket.
pub fn bucket(at: Instant, period: i64) -> (r: Instant)
    requires
        at.valid(),
        period > 0,
    ensures
        r == snapped(at, period as int),
        r.valid(),
{
    proof {
        assert(0 <= (at.secs as int) % (period as int) && (at.secs as int) % (period as int)
            < period) by (nonlinear_arith)
            requires
                period > 0,
        ;
    }
    let rest = match at.secs.checked_rem_euclid(period) {
        Some(r) => r,
        None => 0,
    };
    let floor = at.secs as i128 - rest as i128;
    if floor >= MIN_SECS as i128 {
        Instant { secs: floor as i64, nanos: 0 }
    } else {
        at
    }
}

/// The instants of the grid from `from` up to, and not including, `until`.
pub open spec fn grid(from: Instant, until: Instant, period: int) -> Seq<Instant>
    decreases
            if until.secs < from.secs {
                0
            } else {
                until.secs - from.secs + 1
            },
{
    if until.after(from) && period > 0 {
        match moved_on(from, period) {
            Some(next) => seq![from] + grid(next, until, period),
            None => seq![from],
        }
    } else {
        Seq::empty()
    }
}

/// The instants of a window: the grid from the start of its first period. An
/// empty or inverted window has none.
pub open spec fn timeline(since: Instant, until: Instant, period: int) -> Seq<Instant> {
    if until.after(since) {
        grid(snapped(since, period), until, period)
    } else {
        Seq::empty()
    }
}

/// The value of a series at an instant of the grid: that of its last point in
/// the bucket, or `None` where it has no point there.
pub open spec fn value_at<T>(points: Seq<(Instant, T)>, at: Instant, period: int) -> Option<T>
    decreases points.len(),
{
    if points.len() == 0 {
        None
    } else if snapped(points.last().0, period) == at {
        Some(points.last().1)
    } else {
        value_at(points.drop_last(), at, period)
    }
}

/// Every point is in the calendar.
pub open spec fn dated<T>(series: Seq<Series<T>>) -> bool {
    forall|j: int, k: int|
        0 <= j < series.len() && 0 <= k < series[j].points@.len() ==> (
        #[trigger] series[j].points@[k]).0.valid()
}

/// A period of at least one second.
pub open spec fn whole(period: int) -> int {
    if period < 1 {
        1
    } else {
        period
    }
}

/// The labels of series.
pub open spec fn labels_of<T>(series: Seq<Series<T>>) -> Seq<Seq<char>> {
    series.map_values(|s: Series<T>| s.label@)
}

impl<T> Matrix<T> {
    /// One row per instant of the grid, one value per series.
    pub open spec fn aligns(
        self,
        series: Seq<Series<T>>,
        since: Instant,
        until: Instant,
        period: int,
    ) -> bool {
        let times = timeline(since, until, period);
        &&& self.period_seconds == period
        &&& strings(self.labels@) == labels_of(series)
        &&& self.rows@.len() == times.len()
        &&& forall|i: int|
            0 <= i < self.rows@.len() ==> {
                &&& (#[trigger] self.rows@[i]).ts == times[i]
                &&& self.rows@[i].values@ == row_values(series, times[i], period)
            }
    }
}

/// The values of all series at one instant.
pub open spec fn row_values<T>(series: Seq<Series<T>>, at: Instant, period: int) -> Seq<Option<T>> {
    series.map_values(|s: Series<T>| value_at(s.points@, at, period))
}

/// A number that tells an instant from every other.
pub open spec fn stamp(at: Instant) -> int {
    at.secs * 4_000_000_000 + at.nanos
}

/// Compute `stamp`.
fn stamp_of(at: Instant) -> (r: i128)
    ensures
        r == stamp(at),
{
    at.secs as i128 * 4_000_000_000 + at.nanos as i128
}

/// What an index holds for an instant.
spec fn indexed<T>(m: Map<i128, T>, at: Instant) -> Option<T> {
    if m.contains_key(stamp(at) as i128) {
        Some(m[stamp(at) as i128])
    } else {
        None
    }
}

/// Index a series by bucket. Later points in the same bucket overwrite
/// earlier ones, which cannot happen when CloudWatch returns one point per
/// period, and is the least surprising resolution if it ever does.
fn index_points<T: Copy>(points: &Vec<(Instant, T)>, period: i64) -> (m: HashMap<i128, T>)
    requires
        period > 0,
        forall|k: int| 0 <= k < points@.len() ==> (#[trigger] points@[k]).0.valid(),
    ensures
        forall|at: Instant|
            at.valid() ==> #[trigger] indexed(m@, at) == value_at(points@, at, period as int),
{
    let mut m: HashMap<i128, T> = HashMap::new();
    let mut k: usize = 0;
    while k < points.len()
        invariant
            period > 0,
            k <= points@.len(),
            forall|j: int| 0 <= j < points@.len() ==> (#[trigger] points@[j]).0.valid(),
            forall|at: Instant|
                at.valid() ==> #[trigger] indexed(m@, at) == value_at(
                    points@.take(k as int),
                    at,
                    period as int,
                ),
        decreases points@.len() - k,
    {
        let (ts, v) = points[k];
        let b = bucket(ts, period);
        let key = stamp_of(b);
        let ghost m0 = m@;
        m.insert(key, v);
        proof {
            let past = points@.take(k as int);
            let next = points@.take(k + 1);
            assert(next.drop_last() == past);
            assert(next.last() == points@[k as int]);
            assert forall|at: Instant| at.valid() implies #[trigger] indexed(m@, at) == value_at(
                next,
                at,
                period as int,
            ) by {
                assert(indexed(m0, at) == value_at(past, at, period as int));
                assert(stamp(at) == stamp(b) ==> at == b);
                assert(-0x8000_0000_0000_0000 * 4_000_000_000 - 4_000_000_000 < stamp(at)
                    < 0x8000_0000_0000_0000 * 4_000_000_000 + 4_000_000_000);
                assert(stamp(at) as i128 == stamp(at));
                assert(stamp(b) as i128 == stamp(b));
            }
        }
        k += 1;
    }
    proof {
        assert(points@.take(k as int) == points@);
    }
    m
}

/// One step of the grid.
proof fn grid_unfolds(from: Instant, until: Instant, period: int)
    requires
        from.valid(),
        until.valid(),
        period > 0,
    ensures
        until.after(from) && moved_on(from, period) is Some ==> moved_on(from, period)->0.valid()
            && moved_on(from, period)->0.secs == from.secs + period,
{
}

/// The instants of the grid are in the calendar.
proof fn the_grid_is_dated(from: Instant, until: Instant, period: int)
    requires
        from.valid(),
        until.valid(),
        period > 0,
    ensures
        forall|k: int|
            0 <= k < grid(from, until, period).len() ==> (#[trigger] grid(
                from,
                until,
                period,
            )[k]).valid(),
    decreases
            if until.secs < from.secs {
                0
            } else {
                until.secs - from.secs + 1
            },
{
    grid_unfolds(from, until, period);
    if until.after(from) && moved_on(from, period) is Some {
        let next = moved_on(from, period)->0;
        the_grid_is_dated(next, until, period);
        let rest = grid(next, until, period);
        let whole = grid(from, until, period);
        assert forall|k: int| 0 <= k < whole.len() implies (#[trigger] whole[k]).valid() by {
            if k > 0 {
                assert(whole[k] == rest[k - 1]);
            }
        }
    }
}

/// The instants of a window are in the calendar.
pub proof fn the_timeline_is_dated(since: Instant, until: Instant, period: int)
    requires
        since.valid(),
        until.valid(),
        period > 0,
    ensures
        forall|k: int|
            0 <= k < timeline(since, until, period).len() ==> (#[trigger] timeline(
                since,
                until,
                period,
            )[k]).valid(),
{
    assert(snapped(since, period).valid()) by {
        assert((since.secs as int) % period >= 0) by (nonlinear_arith)
            requires
                period > 0,
        ;
    }
    the_grid_is_dated(snapped(since, period), until, period);
}

/// Build a dense matrix over `[since, until)` at `period` resolution.
///
/// Every instant on the grid appears exactly once, in order, whether or not
/// any series had data there: a chart with an implicit gap misleads, and a
/// caller cannot tell a missing row from a missing series.
pub fn align<T: Copy>(series: &[Series<T>], since: Instant, until: Instant, period: i64) -> (r:
    Matrix<T>)
    requires
        since.valid(),
        until.valid(),
        dated(series@),
        period <= MAX_DELTA,
    ensures
        r.aligns(series@, since, until, whole(period as int)),
{
    let period = if period < 1 {
        1
    } else {
        period
    };
    let ghost p = period as int;
    let mut labels: Vec<String> = Vec::new();
    let mut maps: Vec<HashMap<i128, T>> = Vec::new();
    let mut j: usize = 0;
    while j < series.len()
        invariant
            j <= series@.len(),
            period > 0,
            p == period,
            dated(series@),
            strings(labels@) == labels_of(series@).take(j as int),
            maps@.len() == j,
            forall|h: int, at: Instant|
                0 <= h < j && at.valid() ==> #[trigger] indexed(maps@[h]@, at) == value_at(
                    series@[h].points@,
                    at,
                    p,
                ),
        decreases series@.len() - j,
    {
        let ghost labels0 = labels@;
        labels.push(series[j].label.as_str().to_owned());
        proof {
            assert(strings(labels@) == strings(labels0).push(labels_of(series@)[j as int]));
            assert(labels_of(series@).take(j + 1) == labels_of(series@).take(j as int).push(
                labels_of(series@)[j as int],
            ));
        }
        maps.push(index_points(&series[j].points, period));
        j += 1;
    }
    proof {
        assert(labels_of(series@).take(j as int) == labels_of(series@));
    }
    let start = bucket(since, period);
    let ghost times = timeline(since, until, p);
    let mut rows: Vec<Row<T>> = Vec::new();
    let mut ts = start;
    let mut more = until.is_after(since);
    proof {
        assert(times.skip(0) == times);
    }
    while more && until.is_after(ts)
        invariant
            0 < period <= MAX_DELTA,
            p == period,
            until.valid(),
            ts.valid(),
            maps@.len() == series@.len(),
            forall|h: int, at: Instant|
                0 <= h < series@.len() && at.valid() ==> #[trigger] indexed(maps@[h]@, at)
                    == value_at(series@[h].points@, at, p),
            rows@.len() <= times.len(),
            more ==> times.skip(rows@.len() as int) == grid(ts, until, p),
            !more ==> rows@.len() == times.len(),
            forall|i: int|
                0 <= i < rows@.len() ==> {
                    &&& (#[trigger] rows@[i]).ts == times[i]
                    &&& rows@[i].values@ == row_values(series@, times[i], p)
                },
        decreases
                if until.secs < ts.secs {
                    0
                } else {
                    until.secs - ts.secs + 1
                },
                if more {
                    1int
                } else {
                    0int
                },
    {
        let ghost n = rows@.len() as int;
        let ghost rest = times.skip(n);
        proof {
            grid_unfolds(ts, until, p);
            assert(rest[0] == ts);
            assert(times[n] == rest[0]);
        }
        let mut values: Vec<Option<T>> = Vec::new();
        let key = stamp_of(ts);
        let mut h: usize = 0;
        while h < maps.len()
            invariant
                h <= maps@.len(),
                maps@.len() == series@.len(),
                ts.valid(),
                key == stamp(ts),
                forall|g: int, at: Instant|
                    0 <= g < series@.len() && at.valid() ==> #[trigger] indexed(maps@[g]@, at)
                        == value_at(series@[g].points@, at, p),
                values@ == row_values(series@, ts, p).take(h as int),
            decreases maps@.len() - h,
        {
            let v = match maps[h].get(&key) {
                Some(v) => Some(*v),
                None => None,
            };
            proof {
                assert(stamp(ts) as i128 == stamp(ts));
                assert(indexed(maps@[h as int]@, ts) == v);
                let want = row_values(series@, ts, p);
                assert(want.take(h + 1) == want.take(h as int).push(want[h as int]));
            }
            values.push(v);
            h += 1;
        }
        proof {
            let want = row_values(series@, ts, p);
            assert(want.take(h as int) == want);
        }
        let ghost rows0 = rows@;
        rows.push(Row { ts, values });
        match seconds_after(ts, period) {
            Some(next) => {
                proof {
                    assert(rest == seq![ts] + grid(next, until, p));
                    assert(rest.skip(1) == grid(next, until, p));
                    assert(times.skip(n + 1) == rest.skip(1));
                }
                ts = next;
            },
            None => {
                proof {
                    assert(rest == seq![ts]);
                    assert(times.len() == n + 1);
                }
                more = false;
            },
        }
        proof {
            assert forall|i: int| 0 <= i < rows@.len() implies {
                &&& (#[trigger] rows@[i]).ts == times[i]
                &&& rows@[i].values@ == row_values(series@, times[i], p)
            } by {
                if i < n {
                    assert(rows@[i] == rows0[i]);
                }
            }
        }
    }
    proof {
        if more {
            assert(times.skip(rows@.len() as int).len() == 0);
        }
    }
    Matrix { labels, period_seconds: period, rows }
}

/// The grid is ordered and evenly spaced: one period lies between neighbours.
/// (A grid that starts inside a leap second leaves it with its first step.)
pub proof fn the_grid_is_evenly_spaced(from: Instant, until: Instant, period: int, i: int)
    requires
        from.valid(),
        until.valid(),
        period > 0,
        0 <= i < grid(from, until, period).len(),
    ensures
        grid(from, until, period)[i].secs == from.secs + i * period,
        until.after(grid(from, until, period)[i]),
        grid(from, until, period)[i].valid(),
        from.nanos == 0 ==> grid(from, until, period)[i].nanos == 0,
    decreases i,
{
    if i > 0 {
        grid_unfolds(from, until, period);
        let next = moved_on(from, period)->0;
        the_grid_is_evenly_spaced(next, until, period, i - 1);
        assert(grid(from, until, period)[i] == grid(next, until, period)[i - 1]);
        assert(next.secs + (i - 1) * period == from.secs + i * period) by (nonlinear_arith)
            requires
                next.secs == from.secs + period,
        ;
    }
}

/// The grid reaches the end of the window: the instant one period behind its
/// last is no longer before `until`, unless the calendar ends first.
pub proof fn the_grid_reaches_the_end(from: Instant, until: Instant, period: int)
    requires
        from.valid(),
        until.valid(),
        period > 0,
        until.after(from),
    ensures
        grid(from, until, period).len() > 0,
        moved_on(grid(from, until, period).last(), period) matches Some(next) ==> !until.after(
            next,
        ),
    decreases until.secs - from.secs + 1,
{
    grid_unfolds(from, until, period);
    if let Some(next) = moved_on(from, period) {
        if until.after(next) {
            the_grid_reaches_the_end(next, until, period);
            assert(grid(from, until, period).last() == grid(next, until, period).last());
        } else {
            assert(grid(next, until, period).len() == 0);
            assert(grid(from, until, period).last() == from);
        }
    }
}

/// An empty or inverted window has no rows.
pub proof fn an_inverted_window_has_no_rows(since: Instant, until: Instant, period: int)
    requires
        since.valid(),
        until.valid(),
        period > 0,
        !until.after(since),
    ensures
        timeline(since, until, period).len() == 0,
{
}

/// A gap is `None` exactly where the series has no point in the bucket, and a
/// value is one that the series has there: a gap never becomes a number.
pub proof fn a_gap_is_none<T>(points: Seq<(Instant, T)>, at: Instant, period: int)
    ensures
        value_at(points, at, period) is None <==> forall|k: int|
            0 <= k < points.len() ==> snapped((#[trigger] points[k]).0, period) != at,
        value_at(points, at, period) is Some ==> exists|k: int|
            0 <= k < points.len() && snapped((#[trigger] points[k]).0, period) == at && points[k].1
                == value_at(points, at, period)->0,
    decreases points.len(),
{
    if points.len() > 0 {
        let front = points.drop_last();
        a_gap_is_none(front, at, period);
        if snapped(points.last().0, period) == at {
            assert(points[points.len() - 1] == points.last());
        } else {
            if value_at(front, at, period) is Some {
                let k = choose|k: int|
                    0 <= k < front.len() && snapped((#[trigger] front[k]).0, period) == at
                        && front[k].1 == value_at(front, at, period)->0;
                assert(points[k] == front[k]);
            } else {
                assert forall|k: int| 0 <= k < points.len() implies snapped(
                    (#[trigger] points[k]).0,
                    period,
                ) != at by {
                    if k < front.len() {
                        assert(front[k] == points[k]);
                    }
                }
            }
        }
    }
}

// ---------------------------------------------------------------------------
// Reporting interval
// ---------------------------------------------------------------------------

/// Below this many intervals there is not enough evidence to infer anything.
pub const MIN_GAPS_TO_INFER: usize = 3;

impl Ordered for i64 {
    open spec fn before(self, other: i64) -> bool {
        self < other
    }

    proof fn is_weak_order(a: i64, b: i64, c: i64) {
    }
}

impl Sortable for i64 {
    fn precedes(&self, other: &i64) -> (r: bool) {
        *self < *other
    }
}

/// When points were taken, in seconds.
pub open spec fn times_of<T>(points: Seq<(Instant, T)>) -> Seq<i64> {
    points.map_values(|p: (Instant, T)| p.0.secs)
}

/// The positive gaps between neighbours.
pub open spec fn gaps(times: Seq<i64>) -> Seq<i64>
    decreases times.len(),
{
    if times.len() < 2 {
        Seq::empty()
    } else {
        let gap = times.last() - times[times.len() - 2];
        if gap > 0 {
            gaps(times.drop_last()).push(gap as i64)
        } else {
            gaps(times.drop_last())
        }
    }
}

/// The gaps between consecutive points of each series.
pub open spec fn all_gaps<T>(series: Seq<Series<T>>) -> Seq<i64>
    decreases series.len(),
{
    if series.len() == 0 {
        Seq::empty()
    } else {
        all_gaps(series.drop_last()) + gaps(ordered(times_of(series.last().points@)))
    }
}

/// How often a gap occurs.
pub open spec fn tally(s: Seq<i64>, g: i64) -> nat
    decreases s.len(),
{
    if s.len() == 0 {
        0
    } else if s.last() == g {
        tally(s.drop_last(), g) + 1
    } else {
        tally(s.drop_last(), g)
    }
}

/// The most common gap; of several, the smallest.
pub open spec fn is_mode(s: Seq<i64>, g: i64) -> bool {
    &&& s.contains(g)
    &&& forall|i: int|
        0 <= i < s.len() ==> (tally(s, #[trigger] s[i]) < tally(s, g) || (tally(s, s[i]) == tally(
            s,
            g,
        ) && g <= s[i]))
}

/// A sequence has one mode at most.
pub proof fn the_mode_is_unique(s: Seq<i64>, g: i64, h: i64)
    requires
        is_mode(s, g),
        is_mode(s, h),
    ensures
        g == h,
{
    let i = s.index_of(g);
    let j = s.index_of(h);
    assert(s[i] == g);
    assert(s[j] == h);
}

/// Append the gaps of one series.
fn push_gaps(out: &mut Vec<i64>, times: &Vec<i64>)
    requires
        forall|i: int| 0 <= i < times@.len() ==> MIN_SECS <= #[trigger] times@[i] <= MAX_SECS,
    ensures
        final(out)@ == old(out)@ + gaps(times@),
{
    let ghost before = out@;
    let mut i: usize = 0;
    proof {
        assert(times@.take(0).len() == 0);
        assert(before + gaps(times@.take(0)) == before);
    }
    while i < times.len()
        invariant
            i <= times@.len(),
            forall|k: int| 0 <= k < times@.len() ==> MIN_SECS <= #[trigger] times@[k] <= MAX_SECS,
            out@ == before + gaps(times@.take(i as int)),
        decreases times@.len() - i,
    {
        proof {
            assert(times@.take(i + 1).drop_last() == times@.take(i as int));
            assert(times@.take(i + 1).last() == times@[i as int]);
        }
        if i > 0 {
            proof {
                assert(times@.take(i + 1)[i - 1] == times@[i - 1]);
                assert(MIN_SECS <= times@[i - 1] <= MAX_SECS);
                assert(MIN_SECS <= times@[i as int] <= MAX_SECS);
            }
            let gap = times[i] - times[i - 1];
            if gap > 0 {
                let ghost out0 = out@;
                out.push(gap);
                proof {
                    let past = gaps(times@.take(i as int));
                    assert((before + past).push(gap) == before + past.push(gap));
                }
            }
        }
        i += 1;
    }
    proof {
        assert(times@.take(i as int) == times@);
    }
}

/// Find the mode of a non-empty sequence.
fn mode(s: &Vec<i64>) -> (g: i64)
    requires
        s@.len() > 0,
    ensures
        is_mode(s@, g),
{
    let mut counts: HashMap<i64, usize> = HashMap::new();
    let mut i: usize = 0;
    while i < s.len()
        invariant
            i <= s@.len(),
            forall|g: i64| #[trigger] counts@.contains_key(g) ==> counts@[g] == tally(
                s@.take(i as int),
                g,
            ),
            forall|g: i64| tally(s@.take(i as int), g) > 0 ==> #[trigger] counts@.contains_key(g),
            forall|g: i64| #[trigger] tally(s@.take(i as int), g) <= i,
        decreases s@.len() - i,
    {
        let g = s[i];
        let ghost past = s@.take(i as int);
        let ghost next = s@.take(i + 1);
        proof {
            assert(next.drop_last() == past);
            assert(next.last() == g);
            assert(tally(past, g) <= i);
        }
        let n = match counts.get(&g) {
            Some(n) => *n,
            None => 0,
        };
        let ghost counts0 = counts@;
        counts.insert(g, n + 1);
        proof {
            assert forall|h: i64| #[trigger] counts@.contains_key(h) implies counts@[h] == tally(
                next,
                h,
            ) by {
                if h != g {
                    assert(counts0.contains_key(h));
                } else if !counts0.contains_key(g) {
                    assert(tally(past, g) == 0);
                }
            }
            assert forall|h: i64| tally(next, h) > 0 implies #[trigger] counts@.contains_key(h) by {
                if h != g {
                    assert(counts0.contains_key(h));
                }
            }
            assert forall|h: i64| #[trigger] tally(next, h) <= i + 1 by {
                assert(tally(past, h) <= i);
            }
        }
        i += 1;
    }
    proof {
        assert(s@.take(i as int) == s@);
    }
    let mut best = s[0];
    let mut k: usize = 0;
    while k < s.len()
        invariant
            k <= s@.len(),
            forall|g: i64| #[trigger] counts@.contains_key(g) ==> counts@[g] == tally(s@, g),
            forall|g: i64| tally(s@, g) > 0 ==> #[trigger] counts@.contains_key(g),
            s@.contains(best),
            forall|j: int|
                0 <= j < k ==> (tally(s@, #[trigger] s@[j]) < tally(s@, best) || (tally(s@, s@[j])
                    == tally(s@, best) && best <= s@[j])),
        decreases s@.len() - k,
    {
        let g = s[k];
        proof {
            assert(s@[k as int] == g);
            occurrence_is_tallied(s@, k as int);
            let b = s@.index_of(best);
            occurrence_is_tallied(s@, b);
            assert(counts@.contains_key(g));
            assert(counts@.contains_key(best));
        }
        let n = match counts.get(&g) {
            Some(n) => *n,
            None => 0,
        };
        let m = match counts.get(&best) {
            Some(m) => *m,
            None => 0,
        };
        if n > m || (n == m && g < best) {
            best = g;
        }
        k += 1;
    }
    best
}

/// What occurs is tallied.
proof fn occurrence_is_tallied(s: Seq<i64>, i: int)
    requires
        0 <= i < s.len(),
    ensures
        tally(s, s[i]) > 0,
    decreases s.len(),
{
    if i < s.len() - 1 {
        occurrence_is_tallied(s.drop_last(), i);
        assert(s.drop_last()[i] == s[i]);
    }
}

/// The interval a metric actually reports at, inferred from its datapoints.
///
/// A metric's publishing interval is not discoverable up front: EC2 basic
/// monitoring emits every 5 minutes, detailed monitoring every minute, and a
/// custom metric whatever its publisher chose. Asking for a finer period than
/// the metric supports is not an error; it returns a mostly-empty matrix,
/// which looks like an outage rather than a resolution mismatch.
///
/// The *most common* gap, not the smallest: a metric that publishes only when
/// non-zero has large gaps between sparse events, and taking the minimum of an
/// otherwise regular series lets one close pair suppress the finding entirely.
/// `None` when there are too few gaps to be evidence.
pub fn native_period<T>(series: &[Series<T>]) -> (r: Option<i64>)
    requires
        dated(series@),
    ensures
        r is None <==> all_gaps(series@).len() < MIN_GAPS_TO_INFER,
        r is Some ==> is_mode(all_gaps(series@), r->0),
{
    let mut found: Vec<i64> = Vec::new();
    let mut j: usize = 0;
    while j < series.len()
        invariant
            j <= series@.len(),
            dated(series@),
            found@ == all_gaps(series@.take(j as int)),
        decreases series@.len() - j,
    {
        let ghost want = times_of(series@[j as int].points@);
        let mut times: Vec<i64> = Vec::new();
        let mut k: usize = 0;
        while k < series[j as usize].points.len()
            invariant
                j < series@.len(),
                dated(series@),
                want == times_of(series@[j as int].points@),
                k <= series@[j as int].points@.len(),
                times@ == want.take(k as int),
                forall|i: int|
                    0 <= i < times@.len() ==> MIN_SECS <= #[trigger] times@[i] <= MAX_SECS,
            decreases series@[j as int].points@.len() - k,
        {
            proof {
                assert(series@[j as int].points@[k as int].0.valid());
                assert(want.take(k + 1) == want.take(k as int).push(want[k as int]));
            }
            times.push(series[j].points[k].0.secs);
            k += 1;
        }
        proof {
            assert(want.take(k as int) == want);
            sorting_keeps_elements(times@);
            assert forall|i: int| 0 <= i < ordered(times@).len() implies MIN_SECS
                <= #[trigger] ordered(times@)[i] <= MAX_SECS by {
                assert(ordered(times@).contains(ordered(times@)[i]));
                let h = times@.index_of(ordered(times@)[i]);
                assert(times@[h] == ordered(times@)[i]);
            }
            assert(series@.take(j + 1).drop_last() == series@.take(j as int));
            assert(series@.take(j + 1).last() == series@[j as int]);
        }
        let sorted = sort(times);
        push_gaps(&mut found, &sorted);
        j += 1;
    }
    proof {
        assert(series@.take(j as int) == series@);
    }
    if found.len() < MIN_GAPS_TO_INFER {
        None
    } else {
        Some(mode(&found))
    }
}

// ---------------------------------------------------------------------------
// Summaries
// ---------------------------------------------------------------------------

/// A series reduced to what it is ranked and scanned by. Each value is told by
/// an integer that is ordered as the values are.
#[derive(Debug, Clone, PartialEq, Eq)]
pub struct Summary {
    pub label: String,
    pub datapoints: usize,
    pub min: Option<i64>,
    pub mean: Option<i64>,
    pub max: Option<i64>,
    /// The most recent value, which answers "is it still happening".
    pub latest: Option<i64>,
}

/// How to rank series against each other.
#[derive(Debug, Clone, Copy, PartialEq, Eq, Structural)]
pub enum Rank {
    /// Highest peak. Finds the box that spiked.
    Max,
    /// Highest sustained level. Finds the box that is always busy.
    Mean,
    /// Highest current value. Finds what is wrong *now*.
    Latest,
}

impl Default for Rank {
    fn default() -> (r: Rank)
        ensures
            r == Rank::Max,
    {
        Rank::Max
    }
}

/// The values that are numbers, in order of input. `None` stands for a value
/// that is not finite.
pub open spec fn finite(points: Seq<(Instant, Option<i64>)>) -> Seq<i64>
    decreases points.len(),
{
    if points.len() == 0 {
        Seq::empty()
    } else {
        match points.last().1 {
            Some(v) => finite(points.drop_last()).push(v),
            None => finite(points.drop_last()),
        }
    }
}

/// Whether a value is the least.
pub open spec fn is_least(s: Seq<i64>, v: Option<i64>) -> bool {
    match v {
        Some(m) => s.contains(m) && forall|i: int| 0 <= i < s.len() ==> m <= #[trigger] s[i],
        None => s.len() == 0,
    }
}

/// Whether a value is the greatest.
pub open spec fn is_greatest(s: Seq<i64>, v: Option<i64>) -> bool {
    match v {
        Some(m) => s.contains(m) && forall|i: int| 0 <= i < s.len() ==> m >= #[trigger] s[i],
        None => s.len() == 0,
    }
}

/// The latest point by time, whatever the order of input; of several taken at
/// once, the last.
pub open spec fn newest(points: Seq<(Instant, Option<i64>)>) -> Option<(Instant, Option<i64>)>
    decreases points.len(),
{
    if points.len() == 0 {
        None
    } else {
        match newest(points.drop_last()) {
            Some(p) => if p.0.after(points.last().0) {
                Some(p)
            } else {
                Some(points.last())
            },
            None => Some(points.last()),
        }
    }
}

/// The value of the latest point, where that is a number.
pub open spec fn latest_value(points: Seq<(Instant, Option<i64>)>) -> Option<i64> {
    match newest(points) {
        Some(p) => p.1,
        None => None,
    }
}

/// Reduce a series to its summary. `mean` is the mean of the finite values.
///
/// A series with no datapoints yields `None` for every statistic rather than
/// zero: "not reporting" and "reported zero" are different findings, and only
/// one of them is good news.
pub fn summarise(series: &Series<Option<i64>>, mean: Option<i64>) -> (r: Summary)
    ensures
        r.label@ == series.label@,
        r.datapoints == finite(series.points@).len(),
        is_least(finite(series.points@), r.min),
        is_greatest(finite(series.points@), r.max),
        r.latest == latest_value(series.points@),
        r.mean == if finite(series.points@).len() > 0 {
            mean
        } else {
            None
        },
{
    let points = &series.points;
    let mut count: usize = 0;
    let mut min: Option<i64> = None;
    let mut max: Option<i64> = None;
    let mut last: Option<(Instant, Option<i64>)> = None;
    let mut i: usize = 0;
    while i < points.len()
        invariant
            i <= points@.len(),
            count == finite(points@.take(i as int)).len(),
            count <= i,
            is_least(finite(points@.take(i as int)), min),
            is_greatest(finite(points@.take(i as int)), max),
            last == newest(points@.take(i as int)),
        decreases points@.len() - i,
    {
        let (ts, v) = points[i];
        let ghost past = finite(points@.take(i as int));
        let ghost next = finite(points@.take(i + 1));
        proof {
            assert(points@.take(i + 1).drop_last() == points@.take(i as int));
            assert(points@.take(i + 1).last() == points@[i as int]);
        }
        let ghost min0 = min;
        let ghost max0 = max;
        if let Some(x) = v {
            count += 1;
            min = match min {
                Some(m) => Some(
                    if x < m {
                        x
                    } else {
                        m
                    },
                ),
                None => Some(x),
            };
            max = match max {
                Some(m) => Some(
                    if x > m {
                        x
                    } else {
                        m
                    },
                ),
                None => Some(x),
            };
            proof {
                assert(next == past.push(x));
                assert(next[past.len() as int] == x);
                if let Some(m) = min0 {
                    let k = past.index_of(m);
                    assert(next[k] == m);
                }
                if let Some(m) = max0 {
                    let k = past.index_of(m);
                    assert(next[k] == m);
                }
            }
        }
        last = match last {
            Some(p) => {
                if p.0.is_after(ts) {
                    Some(p)
                } else {
                    Some((ts, v))
                }
            },
            None => Some((ts, v)),
        };
        i += 1;
    }
    proof {
        assert(points@.take(i as int) == points@);
    }
    Summary {
        label: series.label.as_str().to_owned(),
        datapoints: count,
        min,
        mean: if count > 0 {
            mean
        } else {
            None
        },
        max,
        latest: match last {
            Some(p) => p.1,
            None => None,
        },
    }
}

/// The statistic a summary is ranked by.
pub open spec fn rank_key(s: Summary, by: Rank) -> Option<i64> {
    match by {
        Rank::Max => s.max,
        Rank::Mean => s.mean,
        Rank::Latest => s.latest,
    }
}

/// A summary beside the statistic it is ranked by.
pub struct Contender {
    pub key: Option<i64>,
    pub summary: Summary,
}

impl Ordered for Contender {
    /// Highest first, and those without data last; then by label.
    open spec fn before(self, other: Contender) -> bool {
        match (self.key, other.key) {
            (Some(x), Some(y)) => x > y || (x == y && text_less(
                self.summary.label@,
                other.summary.label@,
            )),
            (Some(_), None) => true,
            (None, Some(_)) => false,
            (None, None) => text_less(self.summary.label@, other.summary.label@),
        }
    }

    proof fn is_weak_order(a: Contender, b: Contender, c: Contender) {
        names_are_ordered(a.summary.label@, b.summary.label@, c.summary.label@);
    }
}

impl Sortable for Contender {
    fn precedes(&self, other: &Contender) -> (r: bool) {
        match (self.key, other.key) {
            (Some(x), Some(y)) => x > y || (x == y && less_str(
                self.summary.label.as_str(),
                other.summary.label.as_str(),
            )),
            (Some(_), None) => true,
            (None, Some(_)) => false,
            (None, None) => less_str(
                self.summary.label.as_str(),
                other.summary.label.as_str(),
            ),
        }
    }
}

/// Summaries beside their statistics.
pub open spec fn contenders(s: Seq<Summary>, by: Rank) -> Seq<Contender> {
    s.map_values(|x: Summary| Contender { key: rank_key(x, by), summary: x })
}

/// The summaries of contenders.
pub open spec fn contended(s: Seq<Contender>) -> Seq<Summary> {
    s.map_values(|c: Contender| c.summary)
}

/// Rank summaries highest-first by the chosen statistic.
///
/// Series with no data sort last regardless. They are not "zero" and must not
/// displace a series that actually reported something.
pub fn rank(summaries: Vec<Summary>, by: Rank) -> (r: Vec<Summary>)
    ensures
        r@ == contended(ordered(contenders(summaries@, by))),
{
    let ghost want = contenders(summaries@, by);
    let mut rest = summaries;
    let mut back: Vec<Contender> = Vec::new();
    let ghost n = rest@.len();
    proof {
        assert(want.skip(n as int).reverse() =~= back@);
    }
    while rest.len() > 0
        invariant
            rest@.len() <= want.len(),
            rest@ == summaries@.take(rest@.len() as int),
            want == contenders(summaries@, by),
            back@ == want.skip(rest@.len() as int).reverse(),
        decreases rest@.len(),
    {
        let ghost k = rest@.len() - 1;
        if let Some(s) = rest.pop() {
            let key = match by {
                Rank::Max => s.max,
                Rank::Mean => s.mean,
                Rank::Latest => s.latest,
            };
            back.push(Contender { key, summary: s });
            proof {
                assert(want[k] == back@.last());
                assert(want.skip(k) == seq![want[k]] + want.skip(k + 1));
                assert(back@ == want.skip(k).reverse());
            }
        }
    }
    proof {
        assert(want.skip(0) == want);
    }
    let forward = reversed(back);
    proof {
        assert(forward@ == want);
    }
    let sorted = sort(forward);
    let mut out: Vec<Summary> = Vec::new();
    let mut left = reversed(sorted);
    let ghost all = contended(ordered(want));
    while left.len() > 0
        invariant
            left@.len() <= ordered(want).len(),
            left@ == ordered(want).skip(ordered(want).len() - left@.len()).reverse(),
            all == contended(ordered(want)),
            out@ == all.take(ordered(want).len() - left@.len()),
        decreases left@.len(),
    {
        let ghost m = ordered(want).len() - left@.len();
        let ghost left0 = left@;
        if let Some(c) = left.pop() {
            proof {
                assert(left0.last() == ordered(want)[m]);
                assert(left@ == ordered(want).skip(m + 1).reverse());
                assert(all.take(m + 1) == all.take(m).push(all[m]));
            }
            out.push(c.summary);
        }
    }
    proof {
        assert(all.take(ordered(want).len() as int) == all);
    }
    out
}

/// A series without data never comes before one that reported something.
pub proof fn no_data_ranks_last(s: Seq<Summary>, by: Rank, i: int, j: int)
    requires
        0 <= i < j < ordered(contenders(s, by)).len(),
        ordered(contenders(s, by))[i].key is None,
    ensures
        ordered(contenders(s, by))[j].key is None,
{
    sorting_orders(contenders(s, by));
    let r = ordered(contenders(s, by));
    assert(!r[j].before(r[i]));
}

/// The ranking is highest-first.
pub proof fn the_ranking_is_highest_first(s: Seq<Summary>, by: Rank, i: int, j: int)
    requires
        0 <= i < j < ordered(contenders(s, by)).len(),
        ordered(contenders(s, by))[i].key is Some,
        ordered(contenders(s, by))[j].key is Some,
    ensures
        ordered(contenders(s, by))[i].key->0 >= ordered(contenders(s, by))[j].key->0,
{
    sorting_orders(contenders(s, by));
    let r = ordered(contenders(s, by));
    assert(!r[j].before(r[i]));
}

/// Whether the latest of some points is told without doubt: those taken at
/// the same latest instant have the same value.
pub open spec fn one_latest(points: Seq<(Instant, Option<i64>)>) -> bool {
    forall|i: int, j: int|
        0 <= i < points.len() && 0 <= j < points.len() && (#[trigger] points[i]).0 == (
        #[trigger] points[j]).0 && (forall|k: int|
            0 <= k < points.len() ==> !(#[trigger] points[k]).0.after(points[i].0))
            ==> points[i].1 == points[j].1
}

/// The values that are numbers, picked out of the points.
proof fn finite_values_are_picked(points: Seq<(Instant, Option<i64>)>)
    ensures
        finite(points) == points.filter(|p: (Instant, Option<i64>)| p.1 is Some).map_values(
            |p: (Instant, Option<i64>)| p.1->0,
        ),
    decreases points.len(),
{
    reveal(Seq::filter);
    let some = |p: (Instant, Option<i64>)| p.1 is Some;
    let value = |p: (Instant, Option<i64>)| p.1->0;
    if points.len() > 0 {
        let front = points.drop_last();
        finite_values_are_picked(front);
        let past = front.filter(some);
        if points.last().1 is Some {
            assert(past.push(points.last()).map_values(value) =~= past.map_values(value).push(
                points.last().1->0,
            ));
        }
    } else {
        assert(points.filter(some).map_values(value) =~= finite(points));
    }
}

/// The newest point is one of the points, and none is after it.
proof fn newest_is_last(points: Seq<(Instant, Option<i64>)>)
    requires
        points.len() > 0,
    ensures
        newest(points) is Some,
        points.contains(newest(points)->0),
        forall|k: int|
            0 <= k < points.len() ==> !(#[trigger] points[k]).0.after(newest(points).unwrap().0),
    decreases points.len(),
{
    let front = points.drop_last();
    let last = points.last();
    assert(points[points.len() - 1] == last);
    if front.len() > 0 {
        newest_is_last(front);
        let p = newest(front)->0;
        let h = front.index_of(p);
        assert(points[h] == p);
        assert forall|k: int| 0 <= k < points.len() implies !(#[trigger] points[k]).0.after(
            newest(points).unwrap().0,
        ) by {
            if k < front.len() {
                assert(points[k] == front[k]);
            }
        }
    }
}

/// The sequence of a series' points does not matter to its summary: in any
/// other sequence there are as many numbers, with the same least, greatest
/// and latest.
pub proof fn a_summary_ignores_sequence(
    a: Seq<(Instant, Option<i64>)>,
    b: Seq<(Instant, Option<i64>)>,
)
    requires
        permuted(a, b),
        one_latest(a),
    ensures
        permuted(finite(a), finite(b)),
        finite(a).len() == finite(b).len(),
        forall|v: Option<i64>| #[trigger] is_least(finite(a), v) <==> is_least(finite(b), v),
        forall|v: Option<i64>| #[trigger] is_greatest(finite(a), v) <==> is_greatest(finite(b), v),
        latest_value(a) == latest_value(b),
{
    let some = |p: (Instant, Option<i64>)| p.1 is Some;
    let value = |p: (Instant, Option<i64>)| p.1->0;
    finite_values_are_picked(a);
    finite_values_are_picked(b);
    filtering_permutes(a, b, some);
    replacing_permutes(a.filter(some), b.filter(some), value);
    assert(permuted(finite(a), finite(b)));
    permuted_is_same(finite(a), finite(b));
    permuted_is_same(a, b);
    assert forall|v: Option<i64>| #[trigger] is_least(finite(a), v) <==> is_least(
        finite(b),
        v,
    ) by {
        bounds_move(finite(a), finite(b), v);
        bounds_move(finite(b), finite(a), v);
    }
    assert forall|v: Option<i64>| #[trigger] is_greatest(finite(a), v) <==> is_greatest(
        finite(b),
        v,
    ) by {
        bounds_move(finite(a), finite(b), v);
        bounds_move(finite(b), finite(a), v);
    }
    if a.len() > 0 {
        newest_is_last(a);
        newest_is_last(b);
        let p = newest(a)->0;
        let q = newest(b)->0;
        let i = a.index_of(p);
        assert(b.contains(q));
        assert(a.contains(q));
        let j = a.index_of(q);
        assert(!a[j].0.after(p.0));
        assert(a.contains(p));
        assert(b.contains(p));
        let h = b.index_of(p);
        assert(!b[h].0.after(q.0));
        assert(a[i].0 == a[j].0);
        assert(forall|k: int| 0 <= k < a.len() ==> !(#[trigger] a[k]).0.after(a[i].0));
    }
}

/// What bounds some numbers bounds the same numbers in another sequence.
proof fn bounds_move(a: Seq<i64>, b: Seq<i64>, v: Option<i64>)
    requires
        permuted(a, b),
    ensures
        is_least(a, v) ==> is_least(b, v),
        is_greatest(a, v) ==> is_greatest(b, v),
{
    permuted_is_same(a, b);
    if let Some(m) = v {
        assert(a.contains(m) <==> b.contains(m));
        assert forall|i: int| 0 <= i < b.len() implies a.contains(#[trigger] b[i]) by {
            assert(b.contains(b[i]));
        }
        if is_least(a, v) {
            assert forall|i: int| 0 <= i < b.len() implies m <= #[trigger] b[i] by {
                assert(a.contains(b[i]));
                let k = a.index_of(b[i]);
                assert(m <= a[k]);
            }
        }
        if is_greatest(a, v) {
            assert forall|i: int| 0 <= i < b.len() implies m >= #[trigger] b[i] by {
                assert(a.contains(b[i]));
                let k = a.index_of(b[i]);
                assert(m >= a[k]);
            }
        }
    }
}

/// Numbers have one least and one greatest among them, and neither where there
/// are none.
pub proof fn bounds_are_unique(s: Seq<i64>, v: Option<i64>, w: Option<i64>)
    ensures
        is_least(s, v) && is_least(s, w) ==> v == w,
        is_greatest(s, v) && is_greatest(s, w) ==> v == w,
        s.len() == 0 <==> is_least(s, None),
        s.len() == 0 <==> is_greatest(s, None),
{
}

} // verus!
