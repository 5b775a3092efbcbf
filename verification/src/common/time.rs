//! Time-window parsing for the `--since` / `--until` flags.
//!
//! Accepts four forms, resolved against a caller-supplied `now` so the
//! parser stays deterministic and testable:
//!
//! | Form            | Example                  | Meaning                          |
//! |-----------------|--------------------------|----------------------------------|
//! | relative        | `2h`, `30m`, `7d`, `1w`  | `now` minus that duration        |
//! | RFC 3339        | `2026-09-04T10:00:00Z`   | exactly that instant             |
//! | date only       | `2026-09-04`             | midnight UTC that day            |
//! | clock time only | `10:35`, `10:35:20`      | that time today (UTC), see below |
//!
//! A bare clock time that would land in the future resolves to the previous
//! day instead. During an incident "since 10:35" always means the 10:35 that
//! has already happened, never one 23 hours away.

use crate::text::{
    all, all_in, chars_of, decimal_value, is_str, lead, lead_len, lead_len_stops, read_decimal,
    string_of, trim, trimmed, CharClass,
};
use chrono::{DateTime, NaiveDate, NaiveTime, TimeDelta, Timelike, Utc};
use vstd::prelude::*;
use vstd::slice::slice_subrange;

verus! {

/// The first second of the calendar, midnight on January 1, 262144 BCE.
pub const MIN_SECS: i64 = -8_334_601_228_800;

/// The last second of the calendar, on December 31, 262142 CE.
pub const MAX_SECS: i64 = 8_210_266_876_799;

/// Seconds in a day.
pub const DAY: i64 = 86_400;

/// Nanoseconds in a second.
pub const SECOND: u32 = 1_000_000_000;

/// The longest duration that can be told in seconds.
pub const MAX_DELTA: i64 = 9_223_372_036_854_775;

/// An instant in UTC: seconds since 1970, and nanoseconds within the second.
/// A leap second is told as the second before it with a further 10^9
/// nanoseconds.
#[derive(Clone, Copy, Debug, PartialEq, Eq, Structural)]
pub struct Instant {
    pub secs: i64,
    pub nanos: u32,
}

impl Instant {
    /// Whether the calendar holds the instant.
    pub open spec fn valid(self) -> bool {
        &&& MIN_SECS <= self.secs <= MAX_SECS
        &&& self.nanos < 2 * SECOND
        &&& self.nanos >= SECOND ==> self.secs % 60 == 59
    }

    /// Whether the instant lies after another.
    pub open spec fn after(self, other: Instant) -> bool {
        self.secs > other.secs || (self.secs == other.secs && self.nanos > other.nanos)
    }

    /// Decide `after`.
    pub fn is_after(self, other: Instant) -> (r: bool)
        ensures
            r == self.after(other),
    {
        self.secs > other.secs || (self.secs == other.secs && self.nanos > other.nanos)
    }

    /// The instant, if the calendar holds it.
    pub fn new(secs: i64, nanos: u32) -> (r: Option<Instant>)
        ensures
            (Instant { secs, nanos }).valid() ==> r == Some(Instant { secs, nanos }),
            !(Instant { secs, nanos }).valid() ==> r is None,
    {
        if secs < MIN_SECS || secs > MAX_SECS || nanos >= 2 * SECOND {
            return None;
        }
        if nanos >= SECOND && (secs - MIN_SECS) % 60 != 59 {
            return None;
        }
        Some(Instant { secs, nanos })
    }
}

// ---------------------------------------------------------------------------
// Arithmetic
// ---------------------------------------------------------------------------

/// The instant `d` seconds earlier, leaving a leap second if it was in one,
/// or `None` where the calendar ends.
pub open spec fn moved_back(at: Instant, d: int) -> Option<Instant> {
    let leap = d > 0 && at.nanos >= SECOND;
    let secs = if leap {
        at.secs + 1 - d
    } else {
        at.secs - d
    };
    if MIN_SECS <= secs <= MAX_SECS {
        Some(
            Instant {
                secs: secs as i64,
                nanos: if leap {
                    (at.nanos - SECOND) as u32
                } else {
                    at.nanos
                },
            },
        )
    } else {
        None
    }
}

/// `chrono::DateTime::checked_sub_signed` by a whole, non-negative number of
/// seconds: the earlier instant, or `None` outside the calendar. Moving out of
/// a leap second counts that second.
#[verifier::external_body]
fn seconds_before(at: Instant, d: i64) -> (r: Option<Instant>)
    requires
        at.valid(),
        0 <= d <= MAX_DELTA,
    ensures
        r == moved_back(at, d as int),
{
    let t = DateTime::<Utc>::from_timestamp(at.secs, at.nanos)?;
    let e = t.checked_sub_signed(TimeDelta::try_seconds(d)?)?;
    Some(Instant { secs: e.timestamp(), nanos: e.timestamp_subsec_nanos() })
}

/// The instant `d` seconds later, leaving a leap second if it was in one, or
/// `None` where the calendar ends.
pub open spec fn moved_on(at: Instant, d: int) -> Option<Instant> {
    let secs = at.secs + d;
    if MIN_SECS <= secs <= MAX_SECS {
        Some(
            Instant {
                secs: secs as i64,
                nanos: if d > 0 && at.nanos >= SECOND {
                    (at.nanos - SECOND) as u32
                } else {
                    at.nanos
                },
            },
        )
    } else {
        None
    }
}

/// `chrono::DateTime::checked_add_signed` by a whole, non-negative number of
/// seconds: the later instant, or `None` outside the calendar. Moving out of
/// a leap second counts it with the second before.
#[verifier::external_body]
pub(crate) fn seconds_after(at: Instant, d: i64) -> (r: Option<Instant>)
    requires
        at.valid(),
        0 <= d <= MAX_DELTA,
    ensures
        r == moved_on(at, d as int),
{
    let t = DateTime::<Utc>::from_timestamp(at.secs, at.nanos)?;
    let e = t.checked_add_signed(TimeDelta::try_seconds(d)?)?;
    Some(Instant { secs: e.timestamp(), nanos: e.timestamp_subsec_nanos() })
}

/// The correction to a difference of seconds where one end is in a leap
/// second and the other is at another time of day.
pub open spec fn leap_step(a: Instant, b: Instant) -> int {
    let x = a.secs % DAY;
    let y = b.secs % DAY;
    if x > y && b.nanos >= SECOND {
        1
    } else if x < y && a.nanos >= SECOND {
        -1
    } else {
        0
    }
}

/// Nanoseconds from `b` to `a`.
pub open spec fn nanos_between(a: Instant, b: Instant) -> int {
    (a.secs - b.secs + leap_step(a, b)) * SECOND + a.nanos - b.nanos
}

/// `n / d` rounded toward zero.
pub open spec fn toward_zero(n: int, d: int) -> int {
    if n >= 0 {
        n / d
    } else {
        -((-n) / d)
    }
}

/// Whole milliseconds from `b` to `a`.
pub open spec fn millis(a: Instant, b: Instant) -> int {
    toward_zero(nanos_between(a, b), 1_000_000)
}

/// `chrono::DateTime::signed_duration_since`, in milliseconds rounded toward
/// zero.
#[verifier::external_body]
pub(crate) fn millis_between(a: Instant, b: Instant) -> (r: i64)
    requires
        a.valid(),
        b.valid(),
    ensures
        r == millis(a, b),
{
    let x = DateTime::<Utc>::from_timestamp(a.secs, a.nanos).unwrap_or_default();
    let y = DateTime::<Utc>::from_timestamp(b.secs, b.nanos).unwrap_or_default();
    x.signed_duration_since(y).num_milliseconds()
}

/// Bounds on the milliseconds between two instants of the calendar.
pub proof fn millis_are_bounded(a: Instant, b: Instant)
    requires
        a.valid(),
        b.valid(),
    ensures
        -17_000_000_000_000_000 < millis(a, b) < 17_000_000_000_000_000,
{
}

/// Whole seconds from `b` to `a`, rounded toward zero.
pub open spec fn seconds(a: Instant, b: Instant) -> int {
    toward_zero(nanos_between(a, b), 1_000_000_000)
}

/// Compute `seconds`.
pub fn seconds_between(a: Instant, b: Instant) -> (r: i64)
    requires
        a.valid(),
        b.valid(),
    ensures
        r == seconds(a, b),
{
    let ms = millis_between(a, b);
    proof {
        millis_are_bounded(a, b);
    }
    if ms >= 0 {
        ms / 1000
    } else {
        -((-ms) / 1000)
    }
}

/// Milliseconds since 1970, rounded down.
pub open spec fn unix_millis(at: Instant) -> int {
    at.secs * 1000 + at.nanos / 1_000_000
}

/// Compute `unix_millis`.
pub fn to_millis(at: Instant) -> (r: i64)
    requires
        at.valid(),
    ensures
        r == unix_millis(at),
{
    at.secs * 1000 + (at.nanos / 1_000_000) as i64
}

/// The instant some milliseconds since 1970, or `fallback` outside the
/// calendar.
pub open spec fn at_millis(ms: int, fallback: Instant) -> Instant {
    let secs = ms / 1000;
    if MIN_SECS <= secs <= MAX_SECS {
        Instant { secs: secs as i64, nanos: (ms % 1000 * 1_000_000) as u32 }
    } else {
        fallback
    }
}

/// Find `at_millis`.
pub fn from_millis(ms: i64, fallback: Instant) -> (r: Instant)
    requires
        fallback.valid(),
    ensures
        r == at_millis(ms as int, fallback),
        r.valid(),
{
    let rest = match ms.checked_rem_euclid(1000) {
        Some(r) => r,
        None => 0,
    };
    let secs = (ms as i128 - rest as i128) / 1000;
    if MIN_SECS as i128 <= secs && secs <= MAX_SECS as i128 {
        Instant { secs: secs as i64, nanos: rest as u32 * 1_000_000 }
    } else {
        fallback
    }
}

/// Milliseconds and back: an instant on a whole millisecond outside a leap
/// second is told exactly.
pub proof fn millis_tell_the_instant(at: Instant, fallback: Instant)
    requires
        at.valid(),
        at.nanos < SECOND,
        at.nanos % 1_000_000 == 0,
    ensures
        at_millis(unix_millis(at), fallback) == at,
{
}

// ---------------------------------------------------------------------------
// Text
// ---------------------------------------------------------------------------

/// How `chrono` writes an instant in RFC 3339.
pub uninterp spec fn rfc3339_text(secs: i64, nanos: u32) -> Seq<char>;

/// `chrono::DateTime::to_rfc3339`: a text that depends on the instant alone.
#[verifier::external_body]
pub(crate) fn to_rfc3339(at: Instant) -> (r: String)
    requires
        at.valid(),
    ensures
        r@ == rfc3339_text(at.secs, at.nanos),
{
    DateTime::<Utc>::from_timestamp(at.secs, at.nanos).unwrap_or_default().to_rfc3339()
}

/// How `chrono` writes an instant in RFC 3339 with a `Z` for UTC.
pub uninterp spec fn zulu_text(secs: i64, nanos: u32) -> Seq<char>;

/// `chrono::DateTime::to_rfc3339_opts` with as many fractional digits as are
/// needed and `Z` for UTC, which is how instants are serialized: a text that
/// depends on the instant alone.
#[verifier::external_body]
pub(crate) fn to_zulu(at: Instant) -> (r: String)
    requires
        at.valid(),
    ensures
        r@ == zulu_text(at.secs, at.nanos),
{
    let t = DateTime::<Utc>::from_timestamp(at.secs, at.nanos).unwrap_or_default();
    t.to_rfc3339_opts(chrono::SecondsFormat::AutoSi, true)
}

/// How `chrono` writes an instant under a format.
pub uninterp spec fn formatted_text(secs: i64, nanos: u32, format: Seq<char>) -> Seq<char>;

/// `chrono::DateTime::format`, to a text that depends on the instant and the
/// format alone. Of the formats, those that could fail are left out.
#[verifier::external_body]
pub(crate) fn formatted(at: Instant, format: &str) -> (r: String)
    requires
        at.valid(),
        format@ == "%Y-%m-%dT%H:%M:%SZ"@,
    ensures
        r@ == formatted_text(at.secs, at.nanos, format@),
{
    let t = DateTime::<Utc>::from_timestamp(at.secs, at.nanos).unwrap_or_default();
    t.format(format).to_string()
}

/// What `chrono` reads a text as in RFC 3339.
pub uninterp spec fn rfc3339_read(text: Seq<char>) -> Option<Instant>;

/// `chrono::DateTime::parse_from_rfc3339`, in UTC: the instant, or `None` for
/// a text that is not RFC 3339. An instant it reads has a four-digit year.
#[verifier::external_body]
fn read_rfc3339(text: &str) -> (r: Option<Instant>)
    ensures
        r == rfc3339_read(text@),
        r is Some ==> r->0.valid(),
{
    let t = DateTime::parse_from_rfc3339(text).ok()?.with_timezone(&Utc);
    Some(Instant { secs: t.timestamp(), nanos: t.timestamp_subsec_nanos() })
}

/// What `chrono` reads a text as under a date format, as seconds since 1970
/// at midnight.
pub uninterp spec fn date_read(text: Seq<char>, format: Seq<char>) -> Option<i64>;

/// `chrono::NaiveDate::parse_from_str`, as midnight UTC that day: `None` where
/// the text does not have the format. The calendar holds every date it reads.
#[verifier::external_body]
fn read_date(text: &str, format: &str) -> (r: Option<i64>)
    ensures
        r == date_read(text@, format@),
        r is Some ==> MIN_SECS <= r->0 <= MAX_SECS,
{
    let d = NaiveDate::parse_from_str(text, format).ok()?;
    Some(d.and_hms_opt(0, 0, 0)?.and_utc().timestamp())
}

/// A time of day: seconds since midnight, and nanoseconds within the second.
pub open spec fn time_of_day(t: (u32, u32)) -> bool {
    t.0 < DAY && (t.1 == 0 || (t.1 == SECOND && t.0 % 60 == 59))
}

/// What `chrono` reads a text as under a format for the time of day.
pub uninterp spec fn time_read(text: Seq<char>, format: Seq<char>) -> Option<(u32, u32)>;

/// `chrono::NaiveTime::parse_from_str` under a format without a fraction:
/// `None` where the text does not have the format. A second of 60 is the leap
/// second after 59.
#[verifier::external_body]
fn read_time(text: &str, format: &str) -> (r: Option<(u32, u32)>)
    requires
        format@ == "%H:%M:%S"@ || format@ == "%H:%M"@,
    ensures
        r == time_read(text@, format@),
        r is Some ==> time_of_day(r->0),
{
    let t = NaiveTime::parse_from_str(text, format).ok()?;
    Some((t.num_seconds_from_midnight(), t.nanosecond()))
}

/// A clock time with seconds, or else one without.
pub open spec fn clock_read(text: Seq<char>) -> Option<(u32, u32)> {
    match time_read(text, "%H:%M:%S"@) {
        Some(t) => Some(t),
        None => time_read(text, "%H:%M"@),
    }
}

/// Read a clock time.
fn parse_clock(text: &str) -> (r: Option<(u32, u32)>)
    ensures
        r == clock_read(text@),
        r is Some ==> time_of_day(r->0),
{
    match read_time(text, "%H:%M:%S") {
        Some(t) => Some(t),
        None => read_time(text, "%H:%M"),
    }
}

/// How Rust shows a text in its `Debug` form.
pub uninterp spec fn debug_text(s: Seq<char>) -> Seq<char>;

/// `std`'s `Debug` for `str`: the text in double quotes, with escapes.
#[verifier::external_body]
pub(crate) fn debug(s: &str) -> (r: String)
    ensures
        r@ == debug_text(s@),
{
    format!("{s:?}")
}

// ---------------------------------------------------------------------------
// Window bounds
// ---------------------------------------------------------------------------

/// Why a time value was refused.
#[derive(Debug, PartialEq, Eq)]
pub enum TimeError {
    Empty,
    Unparseable(String),
    MissingUnit(String),
    Overflow(String),
}

/// The content of a `TimeError`.
pub enum TimeFault {
    Empty,
    Unparseable(Seq<char>),
    MissingUnit(Seq<char>),
    Overflow(Seq<char>),
}

impl View for TimeError {
    type V = TimeFault;

    open spec fn view(&self) -> TimeFault {
        match *self {
            TimeError::Empty => TimeFault::Empty,
            TimeError::Unparseable(s) => TimeFault::Unparseable(s@),
            TimeError::MissingUnit(s) => TimeFault::MissingUnit(s@),
            TimeError::Overflow(s) => TimeFault::Overflow(s@),
        }
    }
}

/// A result with its error's content.
pub open spec fn outcome<T>(r: Result<T, TimeError>) -> Result<T, TimeFault> {
    match r {
        Ok(t) => Ok(t),
        Err(e) => Err(e@),
    }
}

/// Seconds in one unit of a duration.
pub open spec fn unit_secs(unit: Seq<char>) -> Option<int> {
    if unit == "s"@ {
        Some(1)
    } else if unit == "m"@ {
        Some(60)
    } else if unit == "h"@ {
        Some(3600)
    } else if unit == "d"@ {
        Some(86_400)
    } else if unit == "w"@ {
        Some(604_800)
    } else {
        None
    }
}

/// The seconds a duration tells. `Ok(None)` when the text is not shaped like
/// a duration at all, which leaves the other forms to be tried. Digits alone,
/// or digits and letters that are no unit, are a malformed duration.
pub open spec fn duration(s: Seq<char>) -> Result<Option<i64>, TimeFault> {
    let n = lead_len(s, CharClass::Digit) as int;
    let value = decimal_value(s.take(n)) as int;
    let unit = s.skip(n);
    if n == 0 {
        Ok(None)
    } else if unit.len() == 0 {
        Err(TimeFault::MissingUnit(s))
    } else if value > i64::MAX {
        Err(TimeFault::Overflow(s))
    } else if unit_secs(unit) is Some {
        if value * unit_secs(unit)->0 <= MAX_DELTA {
            Ok(Some((value * unit_secs(unit)->0) as i64))
        } else {
            Err(TimeFault::Overflow(s))
        }
    } else if all_in(unit, CharClass::Alpha) {
        Err(TimeFault::MissingUnit(s))
    } else {
        Ok(None)
    }
}

/// Find `unit_secs`.
fn seconds_per(unit: &[char]) -> (r: Option<i64>)
    ensures
        r is Some <==> unit_secs(unit@) is Some,
        r is Some ==> r->0 == unit_secs(unit@)->0 && 1 <= r->0 <= 604_800,
{
    if is_str(unit, "s") {
        Some(1)
    } else if is_str(unit, "m") {
        Some(60)
    } else if is_str(unit, "h") {
        Some(3600)
    } else if is_str(unit, "d") {
        Some(86_400)
    } else if is_str(unit, "w") {
        Some(604_800)
    } else {
        None
    }
}

/// Read a duration.
pub fn parse_duration(s: &[char]) -> (r: Result<Option<i64>, TimeError>)
    ensures
        outcome(r) == duration(s@),
        r matches Ok(Some(d)) ==> 0 <= d <= MAX_DELTA,
{
    let n = lead(s, CharClass::Digit);
    proof {
        lead_len_stops(s@, CharClass::Digit);
    }
    if n == 0 {
        return Ok(None);
    }
    if n == s.len() {
        return Err(TimeError::MissingUnit(string_of(s)));
    }
    let unit = slice_subrange(s, n, s.len());
    let value = match read_decimal(slice_subrange(s, 0, n)) {
        Some(v) => v,
        None => {
            return Err(TimeError::Overflow(string_of(s)));
        },
    };
    if value > i64::MAX as u64 {
        return Err(TimeError::Overflow(string_of(s)));
    }
    match seconds_per(unit) {
        Some(k) => {
            let total = value as i128 * k as i128;
            proof {
                assert(total == value * k);
                assert(0 <= value * k) by (nonlinear_arith)
                    requires
                        0 <= value,
                        1 <= k,
                ;
            }
            if total <= MAX_DELTA as i128 {
                Ok(Some(total as i64))
            } else {
                Err(TimeError::Overflow(string_of(s)))
            }
        },
        None => {
            if all(unit, CharClass::Alpha) {
                Err(TimeError::MissingUnit(string_of(s)))
            } else {
                Ok(None)
            }
        },
    }
}

/// The given time of day, on the day of `now`.
pub open spec fn today_at(now: Instant, t: (u32, u32)) -> Instant {
    Instant { secs: (now.secs - now.secs % DAY + t.0) as i64, nanos: t.1 }
}

/// The instant a trimmed text tells, given what it reads as in the forms
/// other than a duration.
pub open spec fn resolved(
    s: Seq<char>,
    now: Instant,
    rfc: Option<Instant>,
    date: Option<i64>,
    clock: Option<(u32, u32)>,
) -> Result<Instant, TimeFault> {
    if s.len() == 0 {
        Err(TimeFault::Empty)
    } else {
        match duration(s) {
            Err(e) => Err(e),
            Ok(Some(d)) => match moved_back(now, d as int) {
                Some(t) => Ok(t),
                None => Err(TimeFault::Overflow(s)),
            },
            Ok(None) => if rfc is Some {
                Ok(rfc->0)
            } else if date is Some {
                Ok(Instant { secs: date->0, nanos: 0 })
            } else if clock is Some {
                let today = today_at(now, clock->0);
                if !today.after(now) {
                    Ok(today)
                } else {
                    match moved_back(today, DAY as int) {
                        Some(t) => Ok(t),
                        None => Err(TimeFault::Overflow(s)),
                    }
                }
            } else {
                Err(TimeFault::Unparseable(s))
            },
        }
    }
}

/// The instant a window bound tells.
pub open spec fn instant_of(raw: Seq<char>, now: Instant) -> Result<Instant, TimeFault> {
    let s = trimmed(raw, CharClass::White);
    resolved(s, now, rfc3339_read(s), date_read(s, "%Y-%m-%d"@), clock_read(s))
}

/// A valid instant less whole seconds stays valid.
proof fn moving_back_stays_valid(at: Instant, d: int)
    requires
        at.valid(),
        0 <= d,
    ensures
        moved_back(at, d) is Some ==> moved_back(at, d)->0.valid(),
{
}

/// Resolve a trimmed text, given what it reads as in the forms other than a
/// duration.
pub fn resolve_instant(
    s: &str,
    now: Instant,
    rfc: Option<Instant>,
    date: Option<i64>,
    clock: Option<(u32, u32)>,
) -> (r: Result<Instant, TimeError>)
    requires
        now.valid(),
        rfc is Some ==> rfc->0.valid(),
        date is Some ==> MIN_SECS <= date->0 <= MAX_SECS,
        clock is Some ==> time_of_day(clock->0),
    ensures
        outcome(r) == resolved(s@, now, rfc, date, clock),
        r is Ok ==> r->Ok_0.valid(),
{
    let cs = chars_of(s);
    if cs.len() == 0 {
        return Err(TimeError::Empty);
    }
    match parse_duration(cs.as_slice()) {
        Err(e) => {
            return Err(e);
        },
        Ok(Some(d)) => {
            proof {
                moving_back_stays_valid(now, d as int);
            }
            return match seconds_before(now, d) {
                Some(t) => Ok(t),
                None => Err(TimeError::Overflow(string_of(cs.as_slice()))),
            };
        },
        Ok(None) => {},
    }
    if let Some(t) = rfc {
        return Ok(t);
    }
    if let Some(secs) = date {
        return Ok(Instant { secs, nanos: 0 });
    }
    if let Some(t) = clock {
        let since_midnight = (now.secs - MIN_SECS) % DAY;
        let today = Instant { secs: now.secs - since_midnight + t.0 as i64, nanos: t.1 };
        proof {
            assert(today == today_at(now, t));
            assert(today.valid());
            moving_back_stays_valid(today, DAY as int);
        }
        // A future clock time means the caller meant yesterday.
        if !today.is_after(now) {
            return Ok(today);
        }
        return match seconds_before(today, DAY) {
            Some(e) => Ok(e),
            None => Err(TimeError::Overflow(string_of(cs.as_slice()))),
        };
    }
    Err(TimeError::Unparseable(string_of(cs.as_slice())))
}

/// Parse a `--since` / `--until` value into an absolute instant.
pub fn parse_instant(raw: &str, now: Instant) -> (r: Result<Instant, TimeError>)
    requires
        now.valid(),
    ensures
        outcome(r) == instant_of(raw@, now),
        r is Ok ==> r->Ok_0.valid(),
{
    let cs = chars_of(raw);
    let s = string_of(trim(cs.as_slice(), CharClass::White));
    let s = s.as_str();
    resolve_instant(s, now, read_rfc3339(s), read_date(s, "%Y-%m-%d"), parse_clock(s))
}

// ---------------------------------------------------------------------------
// Laws
// ---------------------------------------------------------------------------

/// A duration never reaches into the future.
pub proof fn a_duration_is_in_the_past(s: Seq<char>, now: Instant)
    requires
        now.valid(),
        duration(s) matches Ok(Some(_)),
    ensures
        resolved(s, now, None, None, None) matches Ok(t) ==> !t.after(now),
{
    let d = duration(s)->Ok_0->Some_0;
    let n = lead_len(s, CharClass::Digit) as int;
    let value = decimal_value(s.take(n)) as int;
    assert(0 <= value * unit_secs(s.skip(n))->0) by (nonlinear_arith)
        requires
            0 <= value,
            0 <= unit_secs(s.skip(n))->0,
    ;
    assert(0 <= d);
}

/// A bare clock time never resolves to the future: it is the last time the
/// clock showed it, less than a day ago. Where a leap second is on neither
/// side, it is that very time of day.
pub proof fn a_clock_time_has_already_happened(s: Seq<char>, now: Instant, clock: (u32, u32))
    requires
        now.valid(),
        time_of_day(clock),
        s.len() > 0,
        duration(s) == Ok::<Option<i64>, TimeFault>(None),
    ensures
        resolved(s, now, None, None, Some(clock)) matches Ok(t) ==> {
            &&& !t.after(now)
            &&& now.secs - t.secs <= DAY
            &&& now.nanos < SECOND && clock.1 < SECOND ==> {
                &&& t.secs % DAY == clock.0
                &&& t.nanos == clock.1
                &&& (now.secs - t.secs) * SECOND + now.nanos - t.nanos < DAY * SECOND
            }
        },
{
}

} // verus!
