//! Structured errors carrying an actionable `hint`.
//!
//! Every variant answers two questions: what went wrong, and what to run next.
//! The second is what lets a caller recover on its own instead of retrying the
//! same failing call, and expired SSO credentials (by far the most common
//! failure here) are otherwise indistinguishable from a permissions problem.

use crate::common::time::{debug, debug_text, TimeError, TimeFault};
use vstd::prelude::*;
use vstd::string::StringExecFns;

verus! {

/// What went wrong.
#[derive(Debug)]
pub enum Error {
    Time(TimeError),
    Auth {
        profile: String,
        /// Whether the profile authenticates via SSO. Decides which recovery
        /// command the hint names; suggesting `aws sso login` for a profile
        /// using static keys sends the caller somewhere that cannot help.
        sso: bool,
    },
    AccessDenied { profile: String, operation: String },
    NoProfileMatch { pattern: String },
    InvertedWindow { since: String, until: String },
    BadSpec { spec: String, reason: String },
    /// An argument that cannot be acted on, with no single command to fix it.
    BadArgument { message: String },
    BadFindings { source_name: String, detail: String },
    Aws { operation: String, message: String },
    File {
        action: &'static str,
        path: String,
        /// The operating system's own words.
        source: String,
    },
    /// The operating system's own words.
    Io(String),
}

/// The content of an `Error`.
pub enum Fault {
    Time(TimeFault),
    Auth { profile: Seq<char>, sso: bool },
    AccessDenied { profile: Seq<char>, operation: Seq<char> },
    NoProfileMatch { pattern: Seq<char> },
    InvertedWindow { since: Seq<char>, until: Seq<char> },
    BadSpec { spec: Seq<char>, reason: Seq<char> },
    BadArgument { message: Seq<char> },
    BadFindings { source_name: Seq<char>, detail: Seq<char> },
    Aws { operation: Seq<char>, message: Seq<char> },
    File { action: Seq<char>, path: Seq<char>, source: Seq<char> },
    Io(Seq<char>),
}

impl View for Error {
    type V = Fault;

    open spec fn view(&self) -> Fault {
        match *self {
            Error::Time(e) => Fault::Time(e@),
            Error::Auth { profile, sso } => Fault::Auth { profile: profile@, sso },
            Error::AccessDenied { profile, operation } => Fault::AccessDenied {
                profile: profile@,
                operation: operation@,
            },
            Error::NoProfileMatch { pattern } => Fault::NoProfileMatch { pattern: pattern@ },
            Error::InvertedWindow { since, until } => Fault::InvertedWindow {
                since: since@,
                until: until@,
            },
            Error::BadSpec { spec, reason } => Fault::BadSpec { spec: spec@, reason: reason@ },
            Error::BadArgument { message } => Fault::BadArgument { message: message@ },
            Error::BadFindings { source_name, detail } => Fault::BadFindings {
                source_name: source_name@,
                detail: detail@,
            },
            Error::Aws { operation, message } => Fault::Aws {
                operation: operation@,
                message: message@,
            },
            Error::File { action, path, source } => Fault::File {
                action: action@,
                path: path@,
                source: source@,
            },
            Error::Io(e) => Fault::Io(e@),
        }
    }
}

/// A result with its error's content.
pub open spec fn outcome<T>(r: Result<T, Error>) -> Result<T, Fault> {
    match r {
        Ok(t) => Ok(t),
        Err(e) => Err(e@),
    }
}

/// The machine-readable discriminant.
pub open spec fn kind_of(e: Fault) -> Seq<char> {
    match e {
        Fault::Time(_) => "bad_argument"@,
        Fault::InvertedWindow { .. } => "bad_argument"@,
        Fault::BadSpec { .. } => "bad_argument"@,
        Fault::BadArgument { .. } => "bad_argument"@,
        Fault::BadFindings { .. } => "bad_findings"@,
        Fault::Auth { .. } => "auth"@,
        Fault::AccessDenied { .. } => "access_denied"@,
        Fault::NoProfileMatch { .. } => "no_profile_match"@,
        Fault::Aws { .. } => "aws"@,
        Fault::File { .. } => "io"@,
        Fault::Io(_) => "io"@,
    }
}

/// The recovery step, where one exists.
pub open spec fn hint_of(e: Fault) -> Option<Seq<char>> {
    match e {
        Fault::Auth { profile, sso } => if sso {
            Some("run `aws sso login --profile "@ + profile + "`"@)
        } else {
            Some(
                "profile `"@ + profile
                    + "` does not use SSO; check its credentials with `aws sts get-caller-identity --profile "@
                    + profile + "`"@,
            )
        },
        Fault::AccessDenied { profile, operation } => Some(
            "profile `"@ + profile + "` lacks permission for "@ + operation
                + "; try a higher-privilege profile for the same account"@,
        ),
        Fault::NoProfileMatch { .. } => Some(
            "list configured profiles with `aws configure list-profiles`"@,
        ),
        Fault::BadFindings { .. } => Some(
            "print the expected shape with `awsdiag report --schema`"@,
        ),
        Fault::BadSpec { .. } => Some(
            "series format is Namespace/MetricName[:Stat][,Dim=Value...], e.g. AWS/EC2/CPUUtilization:Average,InstanceId=i-0abc"@,
        ),
        Fault::File { .. } => Some(
            "check the path exists and that the parent directory is writable"@,
        ),
        _ => None,
    }
}

/// What a refused time value is told.
pub open spec fn time_message(e: TimeFault) -> Seq<char> {
    match e {
        TimeFault::Empty => "empty time value"@,
        TimeFault::Unparseable(s) => "cannot parse time "@ + debug_text(s)
            + "; expected a duration (2h, 30m, 7d), an RFC 3339 instant (2026-09-04T10:00:00Z), a date (2026-09-04), or a clock time (10:35)"@,
        TimeFault::MissingUnit(s) => "duration "@ + debug_text(s)
            + " is missing a unit; use s, m, h, d or w (e.g. 2h)"@,
        TimeFault::Overflow(s) => "duration "@ + debug_text(s)
            + " overflows the representable range"@,
    }
}

/// What a person reads.
pub open spec fn message_of(e: Fault) -> Seq<char> {
    match e {
        Fault::Time(t) => time_message(t),
        Fault::Auth { profile, .. } => "AWS credentials for profile `"@ + profile
            + "` are missing or expired"@,
        Fault::AccessDenied { profile, operation } => "access denied calling "@ + operation
            + " with profile `"@ + profile + "`"@,
        Fault::NoProfileMatch { pattern } => "no configured profile matches "@ + debug_text(
            pattern,
        ),
        Fault::InvertedWindow { since, until } => "time window starts after it ends: since="@
            + since + " until="@ + until,
        Fault::BadSpec { spec, reason } => "cannot parse "@ + debug_text(spec) + ": "@ + reason,
        Fault::BadArgument { message } => message,
        Fault::BadFindings { source_name, detail } => source_name
            + " is not a valid findings document: "@ + detail,
        Fault::Aws { message, .. } => message,
        Fault::File { action, path, source } => "cannot "@ + action + " "@ + path + ": "@ + source,
        Fault::Io(m) => m,
    }
}

impl TimeError {
    /// What a person reads.
    pub fn message(&self) -> (r: String)
        ensures
            r@ == time_message(self@),
    {
        match self {
            TimeError::Empty => "empty time value".to_owned(),
            TimeError::Unparseable(s) => "cannot parse time ".to_owned().concat(
                debug(s.as_str()).as_str(),
            ).concat(
                "; expected a duration (2h, 30m, 7d), an RFC 3339 instant (2026-09-04T10:00:00Z), a date (2026-09-04), or a clock time (10:35)",
            ),
            TimeError::MissingUnit(s) => "duration ".to_owned().concat(
                debug(s.as_str()).as_str(),
            ).concat(" is missing a unit; use s, m, h, d or w (e.g. 2h)"),
            TimeError::Overflow(s) => "duration ".to_owned().concat(
                debug(s.as_str()).as_str(),
            ).concat(" overflows the representable range"),
        }
    }
}

impl Error {
    /// A stable machine-readable discriminant. Callers branch on this rather
    /// than pattern-matching the human message, which is free to change.
    pub fn kind(&self) -> (r: &'static str)
        ensures
            r@ == kind_of(self@),
    {
        match self {
            Error::Time(_) => "bad_argument",
            Error::InvertedWindow { .. } => "bad_argument",
            Error::BadSpec { .. } => "bad_argument",
            Error::BadArgument { .. } => "bad_argument",
            Error::BadFindings { .. } => "bad_findings",
            Error::Auth { .. } => "auth",
            Error::AccessDenied { .. } => "access_denied",
            Error::NoProfileMatch { .. } => "no_profile_match",
            Error::Aws { .. } => "aws",
            Error::File { .. } => "io",
            Error::Io(_) => "io",
        }
    }

    /// The recovery step, where one exists. `None` means there is no single
    /// command that fixes it; better to say nothing than to invent advice.
    pub fn hint(&self) -> (r: Option<String>)
        ensures
            r is Some <==> hint_of(self@) is Some,
            r is Some ==> r->0@ == hint_of(self@)->0,
    {
        match self {
            Error::Auth { profile, sso } => {
                if *sso {
                    Some(
                        "run `aws sso login --profile ".to_owned().concat(profile.as_str()).concat(
                            "`",
                        ),
                    )
                } else {
                    Some(
                        "profile `".to_owned().concat(profile.as_str()).concat(
                            "` does not use SSO; check its credentials with `aws sts get-caller-identity --profile ",
                        ).concat(profile.as_str()).concat("`"),
                    )
                }
            },
            Error::AccessDenied { profile, operation } => Some(
                "profile `".to_owned().concat(profile.as_str()).concat(
                    "` lacks permission for ",
                ).concat(operation.as_str()).concat(
                    "; try a higher-privilege profile for the same account",
                ),
            ),
            Error::NoProfileMatch { .. } => Some(
                "list configured profiles with `aws configure list-profiles`".to_owned(),
            ),
            Error::BadFindings { .. } => Some(
                "print the expected shape with `awsdiag report --schema`".to_owned(),
            ),
            // A malformed --series spec is worth a worked example: the format
            // is not guessable from the error text alone.
            Error::BadSpec { .. } => Some(
                "series format is Namespace/MetricName[:Stat][,Dim=Value...], e.g. AWS/EC2/CPUUtilization:Average,InstanceId=i-0abc".to_owned(),
            ),
            Error::File { .. } => Some(
                "check the path exists and that the parent directory is writable".to_owned(),
            ),
            Error::Time(_) => None,
            Error::InvertedWindow { .. } => None,
            Error::BadArgument { .. } => None,
            Error::Aws { .. } => None,
            Error::Io(_) => None,
        }
    }

    /// What a person reads.
    pub fn message(&self) -> (r: String)
        ensures
            r@ == message_of(self@),
    {
        match self {
            Error::Time(t) => t.message(),
            Error::Auth { profile, .. } => "AWS credentials for profile `".to_owned().concat(
                profile.as_str(),
            ).concat("` are missing or expired"),
            Error::AccessDenied { profile, operation } => "access denied calling ".to_owned().concat(
                operation.as_str(),
            ).concat(" with profile `").concat(profile.as_str()).concat("`"),
            Error::NoProfileMatch { pattern } => "no configured profile matches ".to_owned().concat(
                debug(pattern.as_str()).as_str(),
            ),
            Error::InvertedWindow { since, until } => "time window starts after it ends: since=".to_owned().concat(
                since.as_str(),
            ).concat(" until=").concat(until.as_str()),
            Error::BadSpec { spec, reason } => "cannot parse ".to_owned().concat(
                debug(spec.as_str()).as_str(),
            ).concat(": ").concat(reason.as_str()),
            Error::BadArgument { message } => message.as_str().to_owned(),
            Error::BadFindings { source_name, detail } => source_name.as_str().to_owned().concat(
                " is not a valid findings document: ",
            ).concat(detail.as_str()),
            Error::Aws { message, .. } => message.as_str().to_owned(),
            Error::File { action, path, source } => "cannot ".to_owned().concat(action).concat(
                " ",
            ).concat(path.as_str()).concat(": ").concat(source.as_str()),
            Error::Io(m) => m.as_str().to_owned(),
        }
    }
}

impl From<TimeError> for Error {
    fn from(e: TimeError) -> (r: Error) {
        Error::Time(e)
    }
}

impl vstd::std_specs::convert::FromSpecImpl<TimeError> for Error {
    open spec fn obeys_from_spec() -> bool {
        true
    }

    open spec fn from_spec(e: TimeError) -> Error {
        Error::Time(e)
    }
}

// ---------------------------------------------------------------------------
// Laws
// ---------------------------------------------------------------------------

/// Advice to log in again is given to SSO profiles alone, and names the
/// profile.
pub proof fn only_sso_profiles_are_told_to_log_in(profile: Seq<char>)
    ensures
        hint_of(Fault::Auth { profile, sso: true }) == Some(
            "run `aws sso login --profile "@ + profile + "`"@,
        ),
        hint_of(Fault::Auth { profile, sso: false }) != hint_of(Fault::Auth { profile, sso: true }),
{
    reveal_strlit("run `aws sso login --profile ");
    reveal_strlit("profile `");
    let a = hint_of(Fault::Auth { profile, sso: true })->0;
    let b = hint_of(Fault::Auth { profile, sso: false })->0;
    assert(a[0] == 'r');
    assert(b[0] == 'p');
}

/// Denied access is never reported as a credential problem.
pub proof fn denied_access_is_not_a_credential_problem(
    profile: Seq<char>,
    operation: Seq<char>,
    sso: bool,
)
    ensures
        kind_of(Fault::AccessDenied { profile, operation }) != kind_of(
            Fault::Auth { profile, sso },
        ),
{
    reveal_strlit("access_denied");
    reveal_strlit("auth");
    assert("access_denied"@.len() != "auth"@.len());
}

} // verus!
