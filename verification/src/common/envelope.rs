//! The uniform output envelope every subcommand emits.
//!
//! One shape for every command means a consumer never has to learn a
//! per-command result format. Two fields carry more weight than they look:
//!
//! - `truncated` says the result is incomplete. Without it a capped query is
//!   indistinguishable from an exhaustive one, and a diagnosis gets built on
//!   a partial picture with no indication anything is missing.
//! - `count` is derived from the data, never passed in, so it cannot drift
//!   from what was actually returned.

use crate::common::errors::{hint_of, kind_of, message_of, Error};
use crate::glob::opt_text;
use crate::json::Json;
use crate::order::up_to;
use vstd::prelude::*;

verus! {

/// What a command returns.
#[derive(Debug)]
pub struct Envelope<T> {
    /// Always `true`. Present so success and failure share one discriminant.
    pub ok: bool,
    pub command: String,
    pub params: Json,
    pub count: usize,
    pub truncated: bool,
    /// Reserved for a resume token. No command can resume a partial result
    /// yet, so this is always `None`; `truncated` is what says data is
    /// missing.
    pub next: Option<String>,
    pub data: Vec<T>,
}

impl<T> Envelope<T> {
    /// Success, with as many records counted as there are.
    pub open spec fn sound(self) -> bool {
        self.ok && self.count == self.data@.len() && self.next is None
    }

    /// A complete result.
    pub fn new(command: &str, params: Json, data: Vec<T>) -> (r: Envelope<T>)
        ensures
            r.sound(),
            r.command@ == command@,
            r.params == params,
            r.data@ == data@,
            !r.truncated,
    {
        Envelope {
            ok: true,
            command: command.to_owned(),
            params,
            count: data.len(),
            truncated: false,
            next: None,
            data,
        }
    }

    /// Mark the result as incomplete. Call this whenever a limit was hit or a
    /// page boundary was left unread.
    pub fn truncated(self, truncated: bool) -> (r: Envelope<T>)
        ensures
            r == (Envelope { truncated, ..self }),
    {
        Envelope {
            ok: self.ok,
            command: self.command,
            params: self.params,
            count: self.count,
            truncated,
            next: self.next,
            data: self.data,
        }
    }

    /// At most `limit` records. Leaving some out makes the result an
    /// incomplete one.
    pub fn limited(self, limit: Option<usize>) -> (r: Envelope<T>)
        ensures
            r.data@ == match limit {
                Some(n) => up_to(self.data@, n as int),
                None => self.data@,
            },
            r.truncated == (self.truncated || (limit is Some && self.data@.len() > limit->0)),
            r.count == r.data@.len(),
            r.ok == self.ok,
            r.command == self.command,
            r.params == self.params,
            r.next == self.next,
    {
        let (data, more) = capped(self.data, limit);
        Envelope {
            ok: self.ok,
            command: self.command,
            params: self.params,
            count: data.len(),
            truncated: self.truncated || more,
            next: self.next,
            data,
        }
    }
}

/// The failure counterpart. `hint` is the actionable half: it carries the
/// command that fixes the problem, so a caller can recover without guessing.
#[derive(Debug)]
pub struct ErrorEnvelope {
    /// Always `false`.
    pub ok: bool,
    pub command: String,
    pub kind: &'static str,
    pub error: String,
    pub hint: Option<String>,
}

impl ErrorEnvelope {
    /// What a failure tells the caller.
    pub fn new(command: &str, err: &Error) -> (r: ErrorEnvelope)
        ensures
            !r.ok,
            r.command@ == command@,
            r.kind@ == kind_of(err@),
            r.error@ == message_of(err@),
            opt_text(r.hint) == hint_of(err@),
    {
        ErrorEnvelope {
            ok: false,
            command: command.to_owned(),
            kind: err.kind(),
            error: err.message(),
            hint: err.hint(),
        }
    }
}

/// At most `limit` records, and whether there were more.
pub fn capped<T>(rows: Vec<T>, limit: Option<usize>) -> (r: (Vec<T>, bool))
    ensures
        limit is None ==> r.0@ == rows@ && !r.1,
        limit is Some && rows@.len() <= limit->0 ==> r.0@ == rows@ && !r.1,
        limit is Some && rows@.len() > limit->0 ==> r.0@ == rows@.take(limit->0 as int) && r.1,
{
    match limit {
        Some(n) => {
            if rows.len() > n {
                let mut rows = rows;
                rows.truncate(n);
                (rows, true)
            } else {
                (rows, false)
            }
        },
        None => (rows, false),
    }
}

} // verus!
