//! The resolution of a query, and the rows it is aligned to.

use crate::cmd::metrics::resolution;
use crate::common::flags::Window;
use crate::common::time::{leap_step, millis, moved_back, moved_on, nanos_between, seconds, Instant};
use crate::metrics::align::{
    acceptable_period, gaps, grid, is_mode, period_for, snapped, tally, the_grid_is_evenly_spaced,
    the_grid_reaches_the_end, timeline, value_at,
};
use vstd::prelude::*;

verus! {

// ---------------------------------------------------------------------------
// Time that has passed
// ---------------------------------------------------------------------------

/// Whether an instant is not within a leap second.
pub open spec fn ordinary(at: Instant) -> bool {
    at.nanos < 1_000_000_000
}

/// The nanoseconds from one instant to another, counted from the beginning of
/// Unix time.
pub open spec fn nanos_passed(later: Instant, earlier: Instant) -> int {
    (later.secs * 1_000_000_000 + later.nanos) - (earlier.secs * 1_000_000_000 + earlier.nanos)
}

/// The whole seconds and the whole milliseconds from one instant to a later
/// one; back from it they are the same with the sign turned.
pub proof fn whole_seconds_pass(later: Instant, earlier: Instant)
    requires
        ordinary(later),
        ordinary(earlier),
    ensures
        nanos_passed(later, earlier) >= 0 ==> {
            &&& seconds(later, earlier) * 1_000_000_000 <= nanos_passed(later, earlier) < (seconds(
                later,
                earlier,
            ) + 1) * 1_000_000_000
            &&& millis(later, earlier) * 1_000_000 <= nanos_passed(later, earlier) < (millis(
                later,
                earlier,
            ) + 1) * 1_000_000
        },
        seconds(earlier, later) == -seconds(later, earlier),
        millis(earlier, later) == -millis(later, earlier),
        later.secs >= earlier.secs && later.nanos >= earlier.nanos ==> seconds(later, earlier)
            == later.secs - earlier.secs,
        later.secs > earlier.secs && later.nanos < earlier.nanos ==> seconds(later, earlier)
            == later.secs - earlier.secs - 1,
        later.secs >= earlier.secs && later.nanos >= earlier.nanos ==> millis(later, earlier) == (
        later.secs - earlier.secs) * 1000 + (later.nanos - earlier.nanos) / 1_000_000,
{
    let d = nanos_between(later, earlier);
    assert(nanos_between(earlier, later) == -d);
    assert(d == nanos_passed(later, earlier));
    if later.secs >= earlier.secs && later.nanos >= earlier.nanos {
        let s = later.secs - earlier.secs;
        let n = later.nanos - earlier.nanos;
        assert(d == s * 1_000_000_000 + n);
        assert(d / 1_000_000 == s * 1000 + n / 1_000_000);
    }
}

/// Even with leap seconds at both ends, the count is off by no more than two.
pub proof fn seconds_are_close(later: Instant, earlier: Instant)
    requires
        later.nanos < 2_000_000_000,
        earlier.nanos < 2_000_000_000,
    ensures
        later.secs - earlier.secs - 3 <= seconds(later, earlier) <= later.secs - earlier.secs + 3,
{
    let d = nanos_between(later, earlier);
    let s = later.secs - earlier.secs;
    assert((s - 3) * 1_000_000_000 <= d <= (s + 3) * 1_000_000_000);
}

/// Going back by a duration and forward again leads to the same instant.
pub proof fn going_back_is_undone(at: Instant, d: int)
    requires
        at.valid(),
        ordinary(at),
        d >= 0,
        moved_back(at, d) is Some,
    ensures
        moved_back(at, d)->0.secs == at.secs - d,
        moved_back(at, d)->0.nanos == at.nanos,
        moved_on(moved_back(at, d)->0, d) == Some(at),
        seconds(at, moved_back(at, d)->0) == d,
{
    whole_seconds_pass(at, moved_back(at, d)->0);
}

// ---------------------------------------------------------------------------
// The resolution of a query
// ---------------------------------------------------------------------------

/// How many points some series have over a time, at one point for each period.
pub open spec fn points(secs: int, period: int, series: int) -> int {
    (secs / period) * series
}

/// The finest of one minute, five minutes and an hour is chosen for which the
/// service still has the oldest point and the answer has no more than 100 800
/// points; where none of them will do, the least number of whole minutes that
/// will, and an hour at least.
pub proof fn the_finest_period_that_will_do(secs: int, age: int, series: int, finer: int)
    requires
        secs >= 1,
        series >= 1,
    ensures
        ({
            let p = period_for(secs, age, series);
            &&& points(secs, p, series) <= 100_800
            &&& p >= 60 && p % 60 == 0
            &&& p == 60 <==> age <= 15 * 86_400 && points(secs, 60, series) <= 100_800
            &&& p == 300 <==> p != 60 && age <= 63 * 86_400 && points(secs, 300, series) <= 100_800
            &&& p == 60 || p == 300 || p >= 3600
            &&& p > 3600 && 3600 <= finer < p && finer % 60 == 0 ==> points(secs, finer, series)
                > 100_800
        }),
{
    crate::metrics::align::the_chosen_period_is_safe(secs, age, series);
    crate::metrics::align::the_chosen_period_is_the_finest(secs, age, series, finer);
    if finer >= 3600 {
        assert(secs / finer >= 0) by (nonlinear_arith)
            requires
                secs >= 1,
                finer >= 3600,
        ;
    }
}

/// A period that was asked for is the one that is queried.
pub proof fn an_asked_period_is_kept(window: Window, now: Instant, series: int, asked: i64)
    ensures
        resolution(window, now, series, Some(asked)) == asked,
{
}

/// Without a period asked for, the service still has the oldest point of the
/// window at the resolution that is queried, whenever the window ends: more
/// than 15 days back takes five minutes or more, more than 63 days an hour or
/// more.
pub proof fn the_oldest_point_is_retained(window: Window, now: Instant, series: int)
    requires
        window.valid(),
        now.valid(),
    ensures
        seconds(now, window.since) > 15 * 86_400 ==> resolution(window, now, series, None) >= 300,
        seconds(now, window.since) > 63 * 86_400 ==> resolution(window, now, series, None) >= 3600,
        ordinary(now) && ordinary(window.since) && now.nanos >= window.since.nanos && now.secs
            - window.since.secs > 15 * 86_400 ==> resolution(window, now, series, None) >= 300,
        ordinary(now) && ordinary(window.since) && now.nanos >= window.since.nanos && now.secs
            - window.since.secs > 63 * 86_400 ==> resolution(window, now, series, None) >= 3600,
        now.secs - window.since.secs > 15 * 86_400 + 3 ==> resolution(window, now, series, None)
            >= 300,
        now.secs - window.since.secs > 63 * 86_400 + 3 ==> resolution(window, now, series, None)
            >= 3600,
{
    seconds_are_close(now, window.since);
    if ordinary(now) && ordinary(window.since) {
        whole_seconds_pass(now, window.since);
    }
    let n = if series < 1 {
        1
    } else {
        series
    };
    let secs = if seconds(window.until, window.since) < 1 {
        1
    } else {
        seconds(window.until, window.since)
    };
    let age = if seconds(now, window.since) < 0 {
        0
    } else {
        seconds(now, window.since)
    };
    the_finest_period_that_will_do(secs, age, n, 60);
}

/// A number, counted as at least another.
pub open spec fn no_fewer(n: int, least: int) -> int {
    if n >= least {
        n
    } else {
        least
    }
}

/// Without a period asked for, the answer stays within 100 800 points, and is
/// as fine as that and the age of the window's start allow. An empty window is
/// counted as a second, a start in the future as now, and no series as one.
pub proof fn a_query_is_as_fine_as_it_can_be(window: Window, now: Instant, series: int, finer: int)
    ensures
        ({
            let p = resolution(window, now, series, None);
            let length = no_fewer(seconds(window.until, window.since), 1);
            let age = no_fewer(seconds(now, window.since), 0);
            let n = no_fewer(series, 1);
            &&& points(length, p, n) <= 100_800
            &&& p >= 60 && p % 60 == 0
            &&& p == 60 <==> age <= 15 * 86_400 && points(length, 60, n) <= 100_800
            &&& p == 300 <==> p != 60 && age <= 63 * 86_400 && points(length, 300, n) <= 100_800
            &&& p == 60 || p == 300 || p >= 3600
            &&& p > 3600 && 3600 <= finer < p && finer % 60 == 0 ==> points(length, finer, n)
                > 100_800
        }),
{
    let length = no_fewer(seconds(window.until, window.since), 1);
    let age = no_fewer(seconds(now, window.since), 0);
    the_finest_period_that_will_do(length, age, no_fewer(series, 1), finer);
}

/// A period may be asked for exactly if it is 1, 5, 10, 20 or 30 seconds, or a
/// whole number of minutes.
pub proof fn which_periods_may_be_asked_for(period: int, minutes: int)
    ensures
        minutes >= 1 ==> acceptable_period(minutes * 60),
        acceptable_period(1) && acceptable_period(5) && acceptable_period(10) && acceptable_period(
            20,
        ) && acceptable_period(30),
        acceptable_period(period) && period < 60 ==> period == 1 || period == 5 || period == 10
            || period == 20 || period == 30,
        acceptable_period(period) && period >= 60 ==> period == (period / 60) * 60,
{
}

// ---------------------------------------------------------------------------
// Rows
// ---------------------------------------------------------------------------

/// The rows of a window start at the multiple of the period at or before its
/// start, follow one another a period apart, and stop before its end.
pub proof fn rows_stand_on_multiples_of_the_period(
    since: Instant,
    until: Instant,
    period: int,
    i: int,
)
    requires
        since.valid(),
        until.valid(),
        period > 0,
        since.secs - (since.secs as int) % period >= -8_334_601_228_800,
        0 <= i < timeline(since, until, period).len(),
    ensures
        ({
            let times = timeline(since, until, period);
            &&& times[i].nanos == 0
            &&& times[0].secs as int % period == 0
            &&& times[0].secs <= since.secs < times[0].secs + period
            &&& times[i].secs == times[0].secs + i * period
            &&& times[i].secs < until.secs || (times[i].secs == until.secs && until.nanos > 0)
        }),
{
    let from = snapped(since, period);
    let s = since.secs as int;
    assert(0 <= s % period < period) by (nonlinear_arith)
        requires
            period > 0,
    ;
    assert((s - s % period) % period == 0) by {
        vstd::arithmetic::div_mod::lemma_fundamental_div_mod(s, period);
        vstd::arithmetic::div_mod::lemma_mod_multiples_basic(s / period, period);
        assert(period * (s / period) == (s / period) * period) by (nonlinear_arith);
    }
    the_grid_is_evenly_spaced(from, until, period, i);
    the_grid_is_evenly_spaced(from, until, period, 0);
}

/// The rows of a window reach its end: one more row would start at or behind
/// it.
pub proof fn rows_reach_the_end(since: Instant, until: Instant, period: int)
    requires
        since.valid(),
        until.valid(),
        period > 0,
        since.secs - (since.secs as int) % period >= -8_334_601_228_800,
        until.secs > since.secs || (until.secs == since.secs && until.nanos > since.nanos),
    ensures
        ({
            let times = timeline(since, until, period);
            &&& times.len() > 0
            &&& until.secs <= times.last().secs + period
        }),
{
    let from = snapped(since, period);
    let s = since.secs as int;
    assert(0 <= s % period < period) by (nonlinear_arith)
        requires
            period > 0,
    ;
    the_grid_reaches_the_end(from, until, period);
    let times = grid(from, until, period);
    the_grid_is_evenly_spaced(from, until, period, times.len() - 1);
}

/// A row holds the value of the last point that falls within its period.
pub proof fn a_row_holds_the_last_point_of_its_period<T>(
    pts: Seq<(Instant, T)>,
    at: Instant,
    period: int,
    k: int,
)
    requires
        period > 0,
        at.nanos == 0,
        at.secs >= -8_334_601_228_800,
        at.secs as int % period == 0,
        0 <= k < pts.len(),
        at.secs <= pts[k].0.secs < at.secs + period,
        forall|j: int|
            k < j < pts.len() ==> !(at.secs <= (#[trigger] pts[j]).0.secs < at.secs + period),
    ensures
        value_at(pts, at, period) == Some(pts[k].1),
    decreases pts.len(),
{
    let last = pts.len() - 1;
    if k == last {
        within_the_period(pts[k].0, at, period);
    } else {
        let p = pts[last].0;
        if snapped(p, period) == at {
            only_within_the_period(p, at, period);
        }
        a_row_holds_the_last_point_of_its_period(pts.drop_last(), at, period, k);
    }
}

/// A row has no value where no point falls within its period.
pub proof fn a_row_without_points_is_empty<T>(pts: Seq<(Instant, T)>, at: Instant, period: int)
    requires
        period > 0,
        at.nanos == 0,
        at.secs >= -8_334_601_228_800,
        at.secs as int % period == 0,
        forall|j: int|
            0 <= j < pts.len() ==> !(at.secs <= (#[trigger] pts[j]).0.secs < at.secs + period),
    ensures
        value_at(pts, at, period) is None,
    decreases pts.len(),
{
    if pts.len() > 0 {
        let p = pts[pts.len() - 1].0;
        if snapped(p, period) == at {
            only_within_the_period(p, at, period);
        }
        assert forall|j: int| 0 <= j < pts.drop_last().len() implies !(at.secs <= (
        #[trigger] pts.drop_last()[j]).0.secs < at.secs + period) by {
            assert(pts.drop_last()[j] == pts[j]);
        }
        a_row_without_points_is_empty(pts.drop_last(), at, period);
    }
}

/// A time within a period snaps to its start.
proof fn within_the_period(p: Instant, at: Instant, period: int)
    requires
        period > 0,
        at.nanos == 0,
        at.secs >= -8_334_601_228_800,
        at.secs as int % period == 0,
        at.secs <= p.secs < at.secs + period,
    ensures
        snapped(p, period) == at,
{
    let d = p.secs - at.secs;
    let q = at.secs as int / period;
    vstd::arithmetic::div_mod::lemma_fundamental_div_mod(at.secs as int, period);
    assert(p.secs as int == q * period + d) by (nonlinear_arith)
        requires
            at.secs as int == period * q,
            d == p.secs - at.secs,
    ;
    vstd::arithmetic::div_mod::lemma_fundamental_div_mod_converse(p.secs as int, period, q, d);
}

/// A time that snaps to the start of a period lies within it.
proof fn only_within_the_period(p: Instant, at: Instant, period: int)
    requires
        period > 0,
        at.secs as int % period == 0,
        snapped(p, period) == at,
    ensures
        at.secs <= p.secs < at.secs + period,
{
    assert(0 <= (p.secs as int) % period < period) by (nonlinear_arith)
        requires
            period > 0,
    ;
}

// ---------------------------------------------------------------------------
// How often a series reports
// ---------------------------------------------------------------------------

/// The time between two reports counts, the second of two reports at one time
/// does not.
pub proof fn a_gap_is_the_time_between_two_reports(times: Seq<i64>, next: i64)
    requires
        times.len() > 0,
    ensures
        times.last() < next && next - times.last() <= i64::MAX ==> gaps(times.push(next))
            == gaps(times).push((next - times.last()) as i64),
        times.last() == next ==> gaps(times.push(next)) == gaps(times),
        gaps(seq![next]).len() == 0,
{
    assert(times.push(next).drop_last() == times);
}

/// A count is that of the multiset.
proof fn a_tally_is_a_count(s: Seq<i64>, g: i64)
    ensures
        tally(s, g) == s.to_multiset().count(g),
    decreases s.len(),
{
    broadcast use vstd::seq_lib::group_to_multiset_ensures;

    if s.len() > 0 {
        a_tally_is_a_count(s.drop_last(), g);
        assert(s == s.drop_last().push(s.last()));
    } else {
        assert(s.to_multiset().len() == 0);
        assert(s =~= Seq::empty());
    }
}

/// The native period is the gap that occurs most often, the shortest of those
/// that occur equally often.
pub proof fn the_commonest_gap_wins(s: Seq<i64>, g: i64, i: int)
    requires
        is_mode(s, g),
        0 <= i < s.len(),
    ensures
        s.contains(g),
        s.to_multiset().count(s[i]) <= s.to_multiset().count(g),
        s.to_multiset().count(s[i]) == s.to_multiset().count(g) ==> g <= s[i],
{
    a_tally_is_a_count(s, g);
    a_tally_is_a_count(s, s[i]);
}

// ---------------------------------------------------------------------------
// Leap seconds
// ---------------------------------------------------------------------------

/// From within a leap second, time is counted from the second that follows it.
pub proof fn a_leap_second_belongs_to_the_next(at: Instant, d: int)
    requires
        at.valid(),
        at.nanos >= 1_000_000_000,
        d > 0,
        at.secs + 1 - d >= -8_334_601_228_800,
        at.secs + d <= 8_210_266_876_799,
    ensures
        moved_back(at, d) == Some(
            Instant {
                secs: (at.secs + 1 - d) as i64,
                nanos: (at.nanos - 1_000_000_000) as u32,
            },
        ),
        moved_on(at, d) == Some(
            Instant { secs: (at.secs + d) as i64, nanos: (at.nanos - 1_000_000_000) as u32 },
        ),
        moved_back(at, 0) == Some(at),
        moved_on(at, 0) == Some(at),
{
}

/// The time from one instant to another is the time back, with the sign
/// turned.
pub proof fn time_runs_both_ways(a: Instant, b: Instant)
    ensures
        nanos_between(a, b) == -nanos_between(b, a),
        seconds(a, b) == -seconds(b, a),
        millis(a, b) == -millis(b, a),
        nanos_between(a, a) == 0,
{
    assert(leap_step(a, b) == -leap_step(b, a));
    let s = a.secs - b.secs + leap_step(a, b);
    assert(nanos_between(a, b) == s * 1_000_000_000 + a.nanos - b.nanos);
    assert(nanos_between(b, a) == (-s) * 1_000_000_000 + b.nanos - a.nanos);
}

} // verus!
