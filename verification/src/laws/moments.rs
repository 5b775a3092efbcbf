//! Points in time as a user writes them, and the window between two of them.

use crate::cmd::logs::covers;
use crate::cmd::logs::RawEvent;
use crate::common::errors::Fault;
use crate::common::flags::{window_between, TargetArgs, Window, WindowArgs};
use crate::common::time::{
    at_millis, clock_read, date_read, duration, instant_of, resolved, rfc3339_read, rfc3339_text,
    time_of_day, time_read, unit_secs, unix_millis, Instant, TimeFault,
};
use crate::laws::values::{digits, letters};
use crate::text::{decimal_value, lead_len_is, trimmed, CharClass};
use vstd::prelude::*;

verus! {

// ---------------------------------------------------------------------------
// Durations
// ---------------------------------------------------------------------------

/// The seconds of a unit.
pub open spec fn unit_length(unit: char) -> int {
    if unit == 's' {
        1
    } else if unit == 'm' {
        60
    } else if unit == 'h' {
        60int * 60
    } else if unit == 'd' {
        24int * 60 * 60
    } else {
        7int * 24 * 60 * 60
    }
}

/// A duration is a number and one of the units `s`, `m`, `h`, `d` and `w`, for
/// seconds, minutes, hours, days and weeks.
pub proof fn a_duration_is_a_number_of_units(number: Seq<char>, unit: char)
    requires
        number.len() > 0,
        digits(number),
        unit == 's' || unit == 'm' || unit == 'h' || unit == 'd' || unit == 'w',
        decimal_value(number) * unit_length(unit) <= 9_223_372_036_854_775,
    ensures
        duration(number.push(unit)) == Ok::<Option<i64>, TimeFault>(
            Some((decimal_value(number) * unit_length(unit)) as i64),
        ),
{
    let s = number.push(unit);
    the_number_ends_at_the_unit(number, seq![unit]);
    assert(s == number + seq![unit]);
    assert(s.take(number.len() as int) == number);
    assert(s.skip(number.len() as int) == seq![unit]);
    a_unit_is_one_letter(unit);
    let v = decimal_value(number) as int;
    let u = unit_length(unit);
    assert(v <= v * u) by (nonlinear_arith)
        requires
            v >= 0,
            u >= 1,
    ;
}

/// A number that is too large for its unit is refused.
pub proof fn a_duration_out_of_range_is_refused(number: Seq<char>, unit: char)
    requires
        number.len() > 0,
        digits(number),
        unit == 's' || unit == 'm' || unit == 'h' || unit == 'd' || unit == 'w',
        decimal_value(number) * unit_length(unit) > 9_223_372_036_854_775,
    ensures
        duration(number.push(unit)) == Err::<Option<i64>, TimeFault>(
            TimeFault::Overflow(number.push(unit)),
        ),
{
    let s = number.push(unit);
    the_number_ends_at_the_unit(number, seq![unit]);
    assert(s == number + seq![unit]);
    assert(s.take(number.len() as int) == number);
    assert(s.skip(number.len() as int) == seq![unit]);
    a_unit_is_one_letter(unit);
}

/// A number alone, or with letters behind it that are no unit, is told that
/// its unit is missing.
pub proof fn a_number_needs_its_unit(number: Seq<char>, word: Seq<char>)
    requires
        number.len() > 0,
        digits(number),
        decimal_value(number) <= i64::MAX,
        letters(word),
        word.len() > 0,
        word.len() == 1 ==> word[0] != 's' && word[0] != 'm' && word[0] != 'h' && word[0] != 'd'
            && word[0] != 'w',
    ensures
        duration(number) == Err::<Option<i64>, TimeFault>(TimeFault::MissingUnit(number)),
        duration(number + word) == Err::<Option<i64>, TimeFault>(
            TimeFault::MissingUnit(number + word),
        ),
{
    let none = Seq::<char>::empty();
    the_number_ends_at_the_unit(number, none);
    assert(number + none == number);
    assert(number.skip(number.len() as int) == none);
    assert(crate::laws::values::letter(word[0]));
    the_number_ends_at_the_unit(number, word);
    let s = number + word;
    assert(s.take(number.len() as int) == number);
    assert(s.skip(number.len() as int) == word);
    reveal_strlit("s");
    reveal_strlit("m");
    reveal_strlit("h");
    reveal_strlit("d");
    reveal_strlit("w");
    assert(unit_secs(word) is None) by {
        if word.len() == 1 {
            assert("s"@[0] == 's' && "m"@[0] == 'm' && "h"@[0] == 'h' && "d"@[0] == 'd' && "w"@[0]
                == 'w');
        }
    }
    assert forall|i: int| 0 <= i < word.len() implies #[trigger] CharClass::Alpha.has(word[i]) by {
        assert(crate::laws::values::letter(word[i]));
    }
}

/// What does not start with a digit is no duration.
pub proof fn a_duration_starts_with_a_digit(s: Seq<char>)
    requires
        s.len() == 0 || !('0' <= s[0] <= '9'),
    ensures
        duration(s) == Ok::<Option<i64>, TimeFault>(None),
{
    lead_len_is(s, CharClass::Digit, 0);
}

/// The digits of a duration end where its unit starts.
proof fn the_number_ends_at_the_unit(number: Seq<char>, unit: Seq<char>)
    requires
        digits(number),
        unit.len() > 0 ==> !('0' <= unit[0] <= '9'),
    ensures
        crate::text::lead_len(number + unit, CharClass::Digit) == number.len(),
{
    let s = number + unit;
    assert forall|i: int| 0 <= i < number.len() implies #[trigger] CharClass::Digit.has(s[i]) by {
        assert(s[i] == number[i]);
        assert(crate::laws::values::digit(number[i]));
    }
    if unit.len() > 0 {
        assert(s[number.len() as int] == unit[0]);
    }
    lead_len_is(s, CharClass::Digit, number.len());
}

/// Each unit is one letter.
proof fn a_unit_is_one_letter(unit: char)
    requires
        unit == 's' || unit == 'm' || unit == 'h' || unit == 'd' || unit == 'w',
    ensures
        unit_secs(seq![unit]) == Some(unit_length(unit)),
{
    reveal_strlit("s");
    reveal_strlit("m");
    reveal_strlit("h");
    reveal_strlit("d");
    reveal_strlit("w");
    let u = seq![unit];
    assert(u[0] == unit);
    if unit == 's' {
        assert(u =~= "s"@);
    } else if unit == 'm' {
        assert(u =~= "m"@);
        assert("s"@[0] == 's');
    } else if unit == 'h' {
        assert(u =~= "h"@);
        assert("s"@[0] == 's' && "m"@[0] == 'm');
    } else if unit == 'd' {
        assert(u =~= "d"@);
        assert("s"@[0] == 's' && "m"@[0] == 'm' && "h"@[0] == 'h');
    } else {
        assert(u =~= "w"@);
        assert("s"@[0] == 's' && "m"@[0] == 'm' && "h"@[0] == 'h' && "d"@[0] == 'd');
    }
}

// ---------------------------------------------------------------------------
// Instants
// ---------------------------------------------------------------------------

/// A duration means that long before now, to the second.
pub proof fn a_duration_reaches_back(number: Seq<char>, unit: char, now: Instant)
    requires
        number.len() > 0,
        digits(number),
        unit == 's' || unit == 'm' || unit == 'h' || unit == 'd' || unit == 'w',
        now.valid(),
        now.nanos < 1_000_000_000,
        now.secs - decimal_value(number) * unit_length(unit) >= -8_334_601_228_800,
        decimal_value(number) * unit_length(unit) <= 9_223_372_036_854_775,
    ensures
        ({
            let s = number.push(unit);
            forall|rfc: Option<Instant>, date: Option<i64>, clock: Option<(u32, u32)>| #[trigger]
                resolved(s, now, rfc, date, clock) == Ok::<Instant, TimeFault>(
                    Instant {
                        secs: (now.secs - decimal_value(number) * unit_length(unit)) as i64,
                        nanos: now.nanos,
                    },
                )
        }),
{
    a_duration_is_a_number_of_units(number, unit);
    let d = decimal_value(number) * unit_length(unit);
    assert(d >= 0) by (nonlinear_arith)
        requires
            d == decimal_value(number) * unit_length(unit),
            unit_length(unit) >= 1,
    ;
}

/// An instant in full is taken as it is; a date is its midnight; a time of day
/// is today's if that has been, and yesterday's otherwise.
pub proof fn what_a_moment_means(s: Seq<char>, now: Instant, rfc: Instant, date: i64, clock: (u32, u32))
    requires
        s.len() > 0,
        !('0' <= s[0] <= '9') || duration(s) == Ok::<Option<i64>, TimeFault>(None),
        now.valid(),
        time_of_day(clock),
    ensures
        forall|d: Option<i64>, c: Option<(u32, u32)>| #[trigger]
            resolved(s, now, Some(rfc), d, c) == Ok::<Instant, TimeFault>(rfc),
        forall|c: Option<(u32, u32)>| #[trigger]
            resolved(s, now, None, Some(date), c) == Ok::<Instant, TimeFault>(
                Instant { secs: date, nanos: 0 },
            ),
        resolved(s, now, None, None, None) == Err::<Instant, TimeFault>(TimeFault::Unparseable(s)),
        ({
            let midnight = now.secs - now.secs % 86_400;
            &&& midnight + clock.0 < now.secs ==> resolved(s, now, None, None, Some(clock)) == Ok::<
                Instant,
                TimeFault,
            >(Instant { secs: (midnight + clock.0) as i64, nanos: clock.1 })
            &&& midnight + clock.0 == now.secs && clock.1 <= now.nanos ==> resolved(
                s,
                now,
                None,
                None,
                Some(clock),
            ) == Ok::<Instant, TimeFault>(
                Instant { secs: (midnight + clock.0) as i64, nanos: clock.1 },
            )
            &&& midnight + clock.0 > now.secs && clock.1 == 0 && midnight + clock.0 - 86_400
                >= -8_334_601_228_800 ==> resolved(s, now, None, None, Some(clock)) == Ok::<
                Instant,
                TimeFault,
            >(Instant { secs: (midnight + clock.0 - 86_400) as i64, nanos: 0 })
            &&& midnight + clock.0 > now.secs && clock.1 > 0 && midnight + clock.0 + 1 - 86_400
                >= -8_334_601_228_800 ==> resolved(s, now, None, None, Some(clock)) == Ok::<
                Instant,
                TimeFault,
            >(
                Instant {
                    secs: (midnight + clock.0 + 1 - 86_400) as i64,
                    nanos: (clock.1 - 1_000_000_000) as u32,
                },
            )
        }),
{
    if !('0' <= s[0] <= '9') {
        a_duration_starts_with_a_digit(s);
    }
}

/// Nothing at all is refused, and white space around a moment does not count.
pub proof fn a_moment_is_read_without_its_margins(raw: Seq<char>, now: Instant)
    ensures
        trimmed(raw, CharClass::White).len() == 0 ==> instant_of(raw, now) == Err::<
            Instant,
            TimeFault,
        >(TimeFault::Empty),
        instant_of(raw, now) == resolved(
            trimmed(raw, CharClass::White),
            now,
            rfc3339_read(trimmed(raw, CharClass::White)),
            date_read(trimmed(raw, CharClass::White), "%Y-%m-%d"@),
            clock_read(trimmed(raw, CharClass::White)),
        ),
{
}

/// Milliseconds of Unix time count from its beginning, a thousand a second.
pub proof fn milliseconds_are_thousandths(secs: i64, ms: int, fallback: Instant)
    requires
        -8_334_601_228_800 <= secs <= 8_210_266_876_799,
        0 <= ms < 1000,
    ensures
        at_millis(secs * 1000 + ms, fallback) == (Instant {
            secs,
            nanos: (ms * 1_000_000) as u32,
        }),
        unix_millis(Instant { secs, nanos: (ms * 1_000_000) as u32 }) == secs * 1000 + ms,
{
}

// ---------------------------------------------------------------------------
// Windows
// ---------------------------------------------------------------------------

/// A window runs from its start to its end, and to now where no end is given;
/// one that starts after it ends is refused, naming both.
pub proof fn a_window_runs_forward(since: Instant, until: Instant)
    ensures
        since.secs < until.secs || (since.secs == until.secs && since.nanos <= until.nanos)
            ==> window_between(since, until) == Ok::<Window, Fault>(Window { since, until }),
        since.secs > until.secs || (since.secs == until.secs && since.nanos > until.nanos)
            ==> window_between(since, until) == Err::<Window, Fault>(
            Fault::InvertedWindow {
                since: rfc3339_text(since.secs, since.nanos),
                until: rfc3339_text(until.secs, until.nanos),
            },
        ),
{
}

/// Without an end, a window ends now.
pub proof fn a_window_ends_now_by_default(args: WindowArgs, now: Instant, since: Instant)
    requires
        instant_of(args.since@, now) == Ok::<Instant, TimeFault>(since),
        args.until is None,
    ensures
        args.window(now) == window_between(since, now),
{
}

/// The start of a window is what was given as its start, its end what was
/// given as its end.
pub proof fn a_window_has_the_bounds_that_were_given(
    args: WindowArgs,
    now: Instant,
    since: Instant,
    until: Instant,
)
    requires
        args.until is Some,
        instant_of(args.since@, now) == Ok::<Instant, TimeFault>(since),
        instant_of(args.until->0@, now) == Ok::<Instant, TimeFault>(until),
    ensures
        args.window(now) == window_between(since, until),
{
}

/// Several profiles go before one, and the profile is `default` where none is
/// named.
pub proof fn which_profiles_are_meant(t: TargetArgs)
    ensures
        t.profiles is Some ==> t.selected() == t.profiles->0@,
        t.profiles is None && t.profile is Some ==> t.selected() == t.profile->0@,
        t.profiles is None && t.profile is None ==> t.selected() == "default"@,
{
}

/// What events cover runs from the oldest of them to the newest.
pub proof fn events_cover_from_the_oldest_to_the_newest(
    events: Seq<RawEvent>,
    from: Instant,
    to: Instant,
    i: int,
)
    requires
        covers(events, Some((from, to))),
        0 <= i < events.len(),
    ensures
        from.secs < events[i].ts.secs || (from.secs == events[i].ts.secs && from.nanos
            <= events[i].ts.nanos),
        events[i].ts.secs < to.secs || (events[i].ts.secs == to.secs && events[i].ts.nanos
            <= to.nanos),
{
    let at = events[i].ts;
    assert(!from.after(at) && !at.after(to));
}

/// Digits with something behind them that is not all letters are no duration:
/// they may yet be a date or a time.
pub proof fn a_date_is_no_duration(number: Seq<char>, rest: Seq<char>, k: int)
    requires
        number.len() > 0,
        digits(number),
        decimal_value(number) <= i64::MAX,
        rest.len() > 0,
        !('0' <= rest[0] <= '9'),
        0 <= k < rest.len(),
        !crate::laws::values::letter(rest[k]),
    ensures
        duration(number + rest) == Ok::<Option<i64>, TimeFault>(None),
{
    the_number_ends_at_the_unit(number, rest);
    let s = number + rest;
    assert(s.take(number.len() as int) == number);
    assert(s.skip(number.len() as int) == rest);
    reveal_strlit("s");
    reveal_strlit("m");
    reveal_strlit("h");
    reveal_strlit("d");
    reveal_strlit("w");
    assert(unit_secs(rest) is None) by {
        if rest.len() == 1 {
            assert(k == 0);
            assert("s"@[0] == 's' && "m"@[0] == 'm' && "h"@[0] == 'h' && "d"@[0] == 'd' && "w"@[0]
                == 'w');
        }
    }
    assert(!CharClass::Alpha.has(rest[k]));
}

/// A time of day has seconds or goes without.
pub proof fn a_time_of_day_may_have_seconds(text: Seq<char>)
    ensures
        time_read(text, "%H:%M:%S"@) is Some ==> clock_read(text) == time_read(
            text,
            "%H:%M:%S"@,
        ),
        time_read(text, "%H:%M:%S"@) is None ==> clock_read(text) == time_read(text, "%H:%M"@),
{
}

/// A duration that reaches behind the calendar is refused; one that does not
/// leads to the instant that long ago, also from within a leap second.
pub proof fn a_duration_stays_on_the_calendar(s: Seq<char>, now: Instant, d: i64)
    requires
        s.len() > 0,
        now.valid(),
        d > 0,
        duration(s) == Ok::<Option<i64>, TimeFault>(Some(d)),
    ensures
        forall|rfc: Option<Instant>, date: Option<i64>, clock: Option<(u32, u32)>|
            {
                let r = #[trigger] resolved(s, now, rfc, date, clock);
                let leap = if now.nanos >= 1_000_000_000 {
                    1int
                } else {
                    0
                };
                &&& now.secs + leap - d >= -8_334_601_228_800 ==> r == Ok::<Instant, TimeFault>(
                    Instant {
                        secs: (now.secs + leap - d) as i64,
                        nanos: (now.nanos - leap * 1_000_000_000) as u32,
                    },
                )
                &&& now.secs + leap - d < -8_334_601_228_800 ==> r == Err::<Instant, TimeFault>(
                    TimeFault::Overflow(s),
                )
            },
{
}

/// An instant is on the calendar from the year -262143 to the year 262142, and
/// within a leap second only at the end of a minute.
pub proof fn which_instants_are_on_the_calendar(secs: i64, nanos: u32, r: Option<Instant>)
    requires
        call_ensures(Instant::new, (secs, nanos), r),
    ensures
        r is Some <==> {
            &&& -8_334_601_228_800 <= secs <= 8_210_266_876_799
            &&& nanos < 1_000_000_000 || (nanos < 2_000_000_000 && secs % 60 == 59)
        },
        r is Some ==> r->0.secs == secs && r->0.nanos == nanos,
{
}

/// One instant is after another if it is of a later second, or of the same
/// second and later in it.
pub proof fn which_instant_is_later(a: Instant, b: Instant, r: bool)
    requires
        call_ensures(Instant::is_after, (a, b), r),
    ensures
        r <==> a.secs > b.secs || (a.secs == b.secs && a.nanos > b.nanos),
{
}

/// What events cover starts and ends with an event; without events nothing is
/// covered.
pub proof fn what_is_covered_is_bounded_by_events(
    events: Seq<RawEvent>,
    r: Option<(Instant, Instant)>,
)
    requires
        covers(events, r),
    ensures
        r is None <==> events.len() == 0,
        r is Some ==> (exists|i: int|
            0 <= i < events.len() && (#[trigger] events[i]).ts == r.unwrap().0),
        r is Some ==> (exists|i: int|
            0 <= i < events.len() && (#[trigger] events[i]).ts == r.unwrap().1),
{
}

} // verus!
