//! `awsdiag whoami`: resolve identity for the selected profile(s).
//!
//! The fastest way to answer "are my credentials live, and which account am I
//! actually pointed at" before a longer query fails halfway through.

use crate::common::aws::{chain_of, lowercase, map_sdk_error, meaning};
use crate::common::envelope::Envelope;
use crate::common::errors::{hint_of, message_of, Error, Fault};
use crate::common::flags::TargetArgs;
use crate::glob::opt_text;
use crate::json::{self, fields_of, text_or_null, Json, JsonTree};
use crate::output::{string_opt, Record};
use crate::text::strings;
use vstd::prelude::*;

verus! {

/// Who a profile is.
#[derive(Debug)]
pub struct Identity {
    pub profile: String,
    pub account: Option<String>,
    pub arn: Option<String>,
    pub user_id: Option<String>,
    pub region: Option<String>,
    /// `None` when the lookup succeeded. Populated per row so one dead profile
    /// in a fan-out does not discard the results from the live ones.
    pub error: Option<String>,
    pub hint: Option<String>,
}

/// What the service answered.
#[derive(Debug)]
pub enum Reply {
    /// The caller it knows.
    Caller { account: Option<String>, arn: Option<String>, user_id: Option<String> },
    /// The messages of a failure, from the outermost to its cause.
    Failure(Vec<String>),
}

/// The call whose failure is reported.
pub open spec fn operation() -> Seq<char> {
    "sts:GetCallerIdentity"@
}

/// Whether a row reports a caller.
pub open spec fn reports_caller(
    row: Identity,
    account: Option<Seq<char>>,
    arn: Option<Seq<char>>,
    user_id: Option<Seq<char>>,
) -> bool {
    &&& opt_text(row.account) == account
    &&& opt_text(row.arn) == arn
    &&& opt_text(row.user_id) == user_id
    &&& row.error is None
    &&& row.hint is None
}

/// Whether a row reports a failure.
pub open spec fn reports_failure(row: Identity, fault: Fault) -> bool {
    &&& row.account is None
    &&& row.arn is None
    &&& row.user_id is None
    &&& opt_text(row.error) == Some(message_of(fault))
    &&& opt_text(row.hint) == hint_of(fault)
}

/// The row of a profile whose lookup failed.
pub fn unavailable(profile: &str, region: Option<String>, error: &Error) -> (r: Identity)
    ensures
        r.profile@ == profile@,
        r.region == region,
        reports_failure(r, error@),
{
    Identity {
        profile: profile.to_owned(),
        account: None,
        arn: None,
        user_id: None,
        region,
        error: Some(error.message()),
        hint: error.hint(),
    }
}

/// The row of a profile, given what the service answered.
pub fn identity(profile: &str, region: Option<String>, reply: Reply, sso: bool) -> (r: Identity)
    ensures
        r.profile@ == profile@,
        r.region == region,
        match reply {
            Reply::Caller { account, arn, user_id } => reports_caller(
                r,
                opt_text(account),
                opt_text(arn),
                opt_text(user_id),
            ),
            Reply::Failure(messages) => {
                let chain = chain_of(strings(messages@));
                reports_failure(r, meaning(chain, lowercase(chain), profile@, operation(), sso))
            },
        },
{
    match reply {
        Reply::Caller { account, arn, user_id } => Identity {
            profile: profile.to_owned(),
            account,
            arn,
            user_id,
            region,
            error: None,
            hint: None,
        },
        Reply::Failure(messages) => {
            let mapped = map_sdk_error(&messages, profile, "sts:GetCallerIdentity", sso);
            unavailable(profile, region, &mapped)
        },
    }
}

/// How many lookups succeeded.
pub open spec fn resolved(rows: Seq<Identity>) -> nat
    decreases rows.len(),
{
    if rows.len() == 0 {
        0
    } else {
        resolved(rows.drop_last()) + if rows.last().error is None {
            1nat
        } else {
            0
        }
    }
}

/// Count the lookups that succeeded.
pub fn count_resolved(rows: &Vec<Identity>) -> (r: usize)
    ensures
        r == resolved(rows@),
        r <= rows@.len(),
{
    let len = rows.len();
    let mut n: usize = 0;
    let mut i: usize = 0;
    while i < len
        invariant
            len == rows@.len(),
            i <= len,
            n <= i,
            n == resolved(rows@.take(i as int)),
        decreases len - i,
    {
        proof {
            assert(rows@.take(i + 1).drop_last() == rows@.take(i as int));
            assert(rows@.take(i + 1).last() == rows@[i as int]);
        }
        if rows[i].error.is_none() {
            n += 1;
        }
        i += 1;
    }
    proof {
        assert(rows@.take(i as int) == rows@);
    }
    n
}

/// The parameters a run reports.
pub open spec fn run_params(selector: Seq<char>, region: Option<Seq<char>>) -> JsonTree {
    JsonTree::Object(
        seq![("selector"@, JsonTree::Text(selector)), ("region"@, text_or_null(region))],
    )
}

/// What `whoami` returns for the rows of the selected profiles.
pub fn run(target: &TargetArgs, rows: Vec<Identity>) -> (r: Envelope<Identity>)
    ensures
        r.sound(),
        r.command@ == "whoami"@,
        !r.truncated,
        r.params@ == run_params(target.selected(), opt_text(target.region)),
        r.data@ == rows@,
{
    let mut params: Vec<(String, Json)> = Vec::new();
    json::put(&mut params, "selector", json::text(target.selector()));
    json::put(&mut params, "region", string_opt(&target.region));
    proof {
        assert(fields_of(params@) =~= run_params(
            target.selected(),
            opt_text(target.region),
        )->Object_0);
    }
    Envelope::new("whoami", json::object(params), rows)
}

impl Record for Identity {
    open spec fn presentable(&self) -> bool {
        true
    }

    open spec fn shape(&self) -> JsonTree {
        JsonTree::Object(
            seq![
                ("profile"@, JsonTree::Text(self.profile@)),
                ("account"@, text_or_null(opt_text(self.account))),
                ("arn"@, text_or_null(opt_text(self.arn))),
                ("user_id"@, text_or_null(opt_text(self.user_id))),
                ("region"@, text_or_null(opt_text(self.region))),
                ("error"@, text_or_null(opt_text(self.error))),
                ("hint"@, text_or_null(opt_text(self.hint))),
            ],
        )
    }

    fn record(&self) -> (r: Json) {
        let mut fields: Vec<(String, Json)> = Vec::new();
        json::put(&mut fields, "profile", json::text(self.profile.as_str()));
        json::put(&mut fields, "account", string_opt(&self.account));
        json::put(&mut fields, "arn", string_opt(&self.arn));
        json::put(&mut fields, "user_id", string_opt(&self.user_id));
        json::put(&mut fields, "region", string_opt(&self.region));
        json::put(&mut fields, "error", string_opt(&self.error));
        json::put(&mut fields, "hint", string_opt(&self.hint));
        proof {
            assert(fields_of(fields@) =~= self.shape()->Object_0);
        }
        json::object(fields)
    }
}

} // verus!
