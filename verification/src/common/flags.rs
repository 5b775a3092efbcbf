//! Shared command-line arguments.
//!
//! Composed rather than flattened into one universal struct: `--since` on a
//! command with no time dimension would be accepted and silently ignored,
//! which is a worse contract than not offering it. So every command takes
//! `TargetArgs` and `OutputArgs`, and only time-ranged commands add
//! `WindowArgs`.

use crate::common::errors::{outcome, Error, Fault};
use crate::common::progress::ProgressMode;
use crate::common::time::{instant_of, parse_instant, rfc3339_text, to_rfc3339, Instant};
use vstd::prelude::*;

verus! {

/// Which account(s) and region to talk to.
#[derive(Debug, Clone)]
pub struct TargetArgs {
    /// A single AWS profile from ~/.aws/config.
    pub profile: Option<String>,
    /// A glob selecting several profiles to query in parallel.
    pub profiles: Option<String>,
    /// Override the region configured for the profile.
    pub region: Option<String>,
}

impl TargetArgs {
    /// The glob if there is one, or else the single profile, or else
    /// `default`.
    pub open spec fn selected(self) -> Seq<char> {
        match self.profiles {
            Some(p) => p@,
            None => match self.profile {
                Some(p) => p@,
                None => "default"@,
            },
        }
    }

    /// The profile selector, defaulting to the ambient `default` profile when
    /// neither flag is given.
    pub fn selector(&self) -> (r: &str)
        ensures
            r@ == self.selected(),
    {
        match &self.profiles {
            Some(p) => p.as_str(),
            None => match &self.profile {
                Some(p) => p.as_str(),
                None => "default",
            },
        }
    }
}

/// How results are written.
#[derive(Debug, Clone, Copy, PartialEq, Eq, Structural)]
pub enum OutputFormat {
    /// A single envelope object. The default, and what tooling should consume.
    Json,
    /// One JSON object per line, for streaming into line-oriented tools.
    Ndjson,
    /// Terse human-readable columns.
    Text,
}

/// How results are written, and how many.
#[derive(Debug, Clone)]
pub struct OutputArgs {
    pub output: OutputFormat,
    /// Cap the number of records returned. Hitting the cap sets
    /// `truncated: true` in the envelope rather than failing.
    pub limit: Option<usize>,
    /// Progress reporting on stderr. `auto` draws only on an interactive
    /// terminal. stdout is unaffected either way.
    pub progress: ProgressMode,
}

/// The time range for commands that query over one.
#[derive(Debug, Clone)]
pub struct WindowArgs {
    /// Start of the window: a duration (2h, 30m, 7d), an RFC 3339 instant,
    /// a date (2026-09-04), or a clock time (10:35).
    pub since: String,
    /// End of the window. Defaults to now.
    pub until: Option<String>,
}

/// A resolved, validated time range.
#[derive(Debug, Clone, Copy, PartialEq, Eq, Structural)]
pub struct Window {
    pub since: Instant,
    pub until: Instant,
}

impl Window {
    /// Both ends are in the calendar.
    pub open spec fn valid(self) -> bool {
        self.since.valid() && self.until.valid()
    }

    /// The window does not end before it starts.
    pub open spec fn forward(self) -> bool {
        !self.since.after(self.until)
    }
}

/// The window from one bound to another, refused when it would end before it
/// starts.
pub open spec fn window_between(since: Instant, until: Instant) -> Result<Window, Fault> {
    if since.after(until) {
        Err(
            Fault::InvertedWindow {
                since: rfc3339_text(since.secs, since.nanos),
                until: rfc3339_text(until.secs, until.nanos),
            },
        )
    } else {
        Ok(Window { since, until })
    }
}

impl WindowArgs {
    /// The window the arguments tell.
    pub open spec fn window(self, now: Instant) -> Result<Window, Fault> {
        match instant_of(self.since@, now) {
            Err(e) => Err(Fault::Time(e)),
            Ok(since) => match self.until {
                Some(u) => match instant_of(u@, now) {
                    Err(e) => Err(Fault::Time(e)),
                    Ok(until) => window_between(since, until),
                },
                None => window_between(since, now),
            },
        }
    }

    /// Resolve both bounds against a single `now`, so a slow parse cannot make
    /// the window's ends disagree about what "now" was.
    pub fn resolve(&self, now: Instant) -> (r: Result<Window, Error>)
        requires
            now.valid(),
        ensures
            outcome(r) == self.window(now),
            r is Ok ==> r->Ok_0.valid() && r->Ok_0.forward(),
    {
        let since = match parse_instant(self.since.as_str(), now) {
            Ok(t) => t,
            Err(e) => {
                return Err(Error::from(e));
            },
        };
        let until = match &self.until {
            Some(u) => match parse_instant(u.as_str(), now) {
                Ok(t) => t,
                Err(e) => {
                    return Err(Error::from(e));
                },
            },
            None => now,
        };
        ordered_window(since, until)
    }
}

/// The window from one bound to another.
///
/// An inverted range would return zero results and read as "nothing
/// happened", which during an incident is a dangerous thing to imply.
pub fn ordered_window(since: Instant, until: Instant) -> (r: Result<Window, Error>)
    requires
        since.valid(),
        until.valid(),
    ensures
        outcome(r) == window_between(since, until),
        r is Ok ==> r->Ok_0.valid() && r->Ok_0.forward(),
{
    if since.is_after(until) {
        return Err(
            Error::InvertedWindow { since: to_rfc3339(since), until: to_rfc3339(until) },
        );
    }
    Ok(Window { since, until })
}

} // verus!
