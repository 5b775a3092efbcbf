//! Which profiles to query, and what an SDK failure means.

use crate::common::errors::{Error, Fault};
use crate::common::flags::TargetArgs;
use crate::common::profiles::{
    config_lines, matching, parse_profile_names, profile_names, resolve, section_body,
    section_digest, section_of, section_text, selection, strs,
};
use crate::common::credcache::{key_for, key_text, stable_digest, var_text, CacheKey};
use crate::glob::refusal;
use crate::path::{join_path, path_joined};
use crate::text::{
    chars_of, contains_str, join, joined, occurs, same_str, string_of, strings, texts, trim_end,
    trimmed_end, CharClass,
};
use vstd::prelude::*;

verus! {

/// Location of the AWS config file, honouring `AWS_CONFIG_FILE`.
pub open spec fn config_file(override_path: Option<Seq<char>>, home: Option<Seq<char>>) -> Seq<
    char,
> {
    match override_path {
        Some(p) => p,
        None => path_joined(
            path_joined(
                match home {
                    Some(h) => h,
                    None => ""@,
                },
                ".aws"@,
            ),
            "config"@,
        ),
    }
}

/// Location of the AWS config file, given `AWS_CONFIG_FILE` and `HOME`.
pub fn config_path(override_path: Option<&str>, home: Option<&str>) -> (r: String)
    ensures
        r@ == config_file(var_text(override_path), var_text(home)),
{
    match override_path {
        Some(p) => p.to_owned(),
        None => {
            let base = match home {
                Some(h) => h,
                None => "",
            };
            let dir = join_path(base, ".aws");
            join_path(dir.as_str(), "config")
        },
    }
}

/// Why a file could not be read.
pub struct ReadFailure {
    /// Whether there is no such file.
    pub missing: bool,
    /// The operating system's own words.
    pub message: String,
}

/// Profile names configured on this machine, out of what reading the config
/// file gave.
///
/// A missing config file yields an empty list rather than an error; the
/// caller's glob will then fail with a message naming the pattern, which is
/// more useful than a bare "file not found".
pub fn available_profiles(read: Result<String, ReadFailure>) -> (r: Result<Vec<String>, Error>)
    ensures
        match read {
            Ok(text) => r is Ok && strings(r->Ok_0@) == profile_names(config_lines(text@)),
            Err(e) => if e.missing {
                r is Ok && r->Ok_0@.len() == 0
            } else {
                r is Err && r->Err_0@ == Fault::Io(e.message@)
            },
        },
{
    match read {
        Ok(text) => Ok(parse_profile_names(text.as_str())),
        Err(e) => {
            if e.missing {
                Ok(Vec::new())
            } else {
                Err(Error::Io(e.message))
            }
        },
    }
}

/// The profiles a target selects.
pub open spec fn targets(target: TargetArgs, available: Seq<Seq<char>>) -> Result<
    Seq<Seq<char>>,
    Fault,
> {
    let selector = target.selected();
    if target.profiles is None && selector == "default"@ && available.len() == 0 {
        Ok(seq!["default"@])
    } else {
        selection(selector, refusal(selector), matching(selector, available))
    }
}

/// The content of resolved targets.
pub open spec fn resolved(r: Result<Vec<String>, Error>) -> Result<Seq<Seq<char>>, Fault> {
    match r {
        Ok(v) => Ok(strings(v@)),
        Err(e) => Err(e@),
    }
}

/// Expand `--profile` / `--profiles` into the concrete profiles to query.
///
/// An explicit `--profile` naming something absent from the config could
/// still work via environment credentials, so only globs and non-default
/// names are validated against the file.
pub fn resolve_targets(target: &TargetArgs, available: &Vec<String>) -> (r: Result<
    Vec<String>,
    Error,
>)
    ensures
        resolved(r) == targets(*target, strings(available@)),
{
    let selector = target.selector();
    proof {
        assert(strings(available@).len() == available@.len());
    }
    if target.profiles.is_none() && same_str(selector, "default") && available.len() == 0 {
        let mut out: Vec<String> = Vec::new();
        out.push("default".to_owned());
        proof {
            assert(strings(out@) == seq!["default"@]);
        }
        return Ok(out);
    }
    match resolve(selector, available.as_slice()) {
        Err(e) => Err(e),
        Ok(names) => {
            let ghost want = strs(names@);
            let mut out: Vec<String> = Vec::new();
            let mut i: usize = 0;
            while i < names.len()
                invariant
                    i <= names@.len(),
                    want == strs(names@),
                    strings(out@) == want.take(i as int),
                decreases names@.len() - i,
            {
                let ghost out0 = out@;
                out.push(names[i].to_owned());
                proof {
                    assert(want[i as int] == names@[i as int]@);
                    assert(strings(out@) == strings(out0).push(want[i as int]));
                    assert(want.take(i + 1) == want.take(i as int).push(want[i as int]));
                }
                i += 1;
            }
            proof {
                assert(want.take(i as int) == want);
            }
            Ok(out)
        },
    }
}

/// The first selected profile.
///
/// Log scans are heavy; fanning one across accounts silently would be a
/// surprising amount of work from a single flag.
pub fn single_profile(target: &TargetArgs, available: &Vec<String>) -> (r: Result<String, Error>)
    ensures
        match targets(*target, strings(available@)) {
            Ok(names) => names.len() > 0 && r is Ok && r->Ok_0@ == names[0],
            Err(e) => r is Err && r->Err_0@ == e,
        },
{
    match resolve_targets(target, available) {
        Err(e) => Err(e),
        Ok(names) => {
            proof {
                assert(strings(names@).len() == names@.len());
                assert(names@.len() > 0);
                assert(strings(names@)[0] == names@[0]@);
            }
            Ok(names[0].as_str().to_owned())
        },
    }
}

/// The key under which a profile's credentials are cached.
///
/// It must cover what decides the principal, not just the profile name.
pub fn cache_key(profile: &str, config_path: &str, config: &str) -> (r: CacheKey)
    ensures
        r@ == stable_digest(
            key_text(
                profile@,
                config_path@,
                section_digest(section_body(config_lines(config@), section_of(profile@))),
            ),
        ),
{
    let section = section_text(config, profile);
    key_for(profile, config_path, section.as_str())
}

// ---------------------------------------------------------------------------
// Failures
// ---------------------------------------------------------------------------

/// Messages without those that repeat the one before.
pub open spec fn without_repeats(ts: Seq<Seq<char>>) -> Seq<Seq<char>>
    decreases ts.len(),
{
    if ts.len() == 0 {
        Seq::empty()
    } else if ts.len() > 1 && ts[ts.len() - 2] == ts.last() {
        without_repeats(ts.drop_last())
    } else {
        without_repeats(ts.drop_last()).push(ts.last())
    }
}

/// Messages from the outermost error to the innermost, as one line.
pub open spec fn chain_of(ts: Seq<Seq<char>>) -> Seq<char> {
    joined(without_repeats(ts), ": "@)
}

/// Whether a failure, in lower case, tells of missing or stale credentials.
pub open spec fn tells_of_credentials(lower: Seq<char>) -> bool {
    ||| occurs(lower, "expiredtoken"@)
    ||| occurs(lower, "token has expired"@)
    ||| occurs(lower, "sso session associated with this profile has expired"@)
    ||| occurs(lower, "no credentials in the property bag"@)
    ||| occurs(lower, "credentialsnotloaded"@)
    ||| occurs(lower, "failed to load credentials"@)
    ||| occurs(lower, "failed to load the cached sso token"@)
    ||| occurs(lower, "error occurred while loading an access token"@)
    ||| occurs(lower, "error occurred while loading credentials"@)
}

/// Whether a failure, in lower case, tells of a missing permission.
pub open spec fn tells_of_permission(lower: Seq<char>) -> bool {
    ||| occurs(lower, "accessdenied"@)
    ||| occurs(lower, "not authorized to perform"@)
    ||| occurs(lower, "unauthorizedoperation"@)
}

/// What a failure means, given its text in lower case. Anything unrecognised
/// keeps its message, rather than sending the caller to re-login for
/// something a login will not fix.
pub open spec fn meaning(
    chain: Seq<char>,
    lower: Seq<char>,
    profile: Seq<char>,
    operation: Seq<char>,
    sso: bool,
) -> Fault {
    if tells_of_credentials(lower) {
        Fault::Auth { profile, sso }
    } else if tells_of_permission(lower) {
        Fault::AccessDenied { profile, operation }
    } else {
        Fault::Aws { operation, message: trimmed_end(chain, CharClass::White) }
    }
}

/// A text in lower case, as Unicode defines it.
pub uninterp spec fn lowercase(s: Seq<char>) -> Seq<char>;

/// `str::to_lowercase`: the lower-case equivalent of a text, which depends on
/// the text alone.
#[verifier::external_body]
fn to_lowercase(s: &str) -> (r: String)
    ensures
        r@ == lowercase(s@),
{
    s.to_lowercase()
}

/// Join messages from the outermost error to the innermost.
///
/// Newlines here would break single-line table output and make the JSON
/// harder to read for no gain. The SDK repeats the same wrapper text at
/// several levels.
pub fn error_chain(messages: &Vec<String>) -> (r: String)
    ensures
        r@ == chain_of(strings(messages@)),
{
    let ghost all = strings(messages@);
    let mut parts: Vec<Vec<char>> = Vec::new();
    let mut i: usize = 0;
    while i < messages.len()
        invariant
            i <= messages@.len(),
            all == strings(messages@),
            texts(parts@) == without_repeats(all.take(i as int)),
        decreases messages@.len() - i,
    {
        let ghost parts0 = parts@;
        let text = messages[i].as_str();
        proof {
            assert(all[i as int] == text@);
            assert(all.take(i + 1).drop_last() == all.take(i as int));
            assert(all.take(i + 1).last() == text@);
        }
        let repeated = i > 0 && same_str(messages[i - 1].as_str(), text);
        proof {
            if i > 0 {
                assert(all.take(i + 1)[i - 1] == messages@[i - 1]@);
            }
        }
        if !repeated {
            parts.push(chars_of(text));
            proof {
                assert(texts(parts@) == texts(parts0).push(text@));
            }
        }
        i += 1;
    }
    proof {
        assert(all.take(i as int) == all);
    }
    let out = join(&parts, ": ");
    string_of(out.as_slice())
}

/// Translate a failure, given its text in lower case as well.
pub fn classify_failure(chain: &str, lower: &str, profile: &str, operation: &str, sso: bool) -> (r:
    Error)
    ensures
        r@ == meaning(chain@, lower@, profile@, operation@, sso),
{
    let l = chars_of(lower);
    let l = l.as_slice();
    if contains_str(l, "expiredtoken") || contains_str(l, "token has expired") || contains_str(
        l,
        "sso session associated with this profile has expired",
    ) || contains_str(l, "no credentials in the property bag") || contains_str(
        l,
        "credentialsnotloaded",
    ) || contains_str(l, "failed to load credentials") || contains_str(
        l,
        "failed to load the cached sso token",
    ) || contains_str(l, "error occurred while loading an access token") || contains_str(
        l,
        "error occurred while loading credentials",
    ) {
        return Error::Auth { profile: profile.to_owned(), sso };
    }
    if contains_str(l, "accessdenied") || contains_str(l, "not authorized to perform")
        || contains_str(l, "unauthorizedoperation") {
        return Error::AccessDenied {
            profile: profile.to_owned(),
            operation: operation.to_owned(),
        };
    }
    let c = chars_of(chain);
    Error::Aws {
        operation: operation.to_owned(),
        message: string_of(trim_end(c.as_slice(), CharClass::White)),
    }
}

/// Translate an SDK error, given its messages from the outermost to the
/// innermost, into the structured form.
///
/// The SDK does not expose a single typed variant for "credentials are stale",
/// so this looks through the source chain for the markers AWS actually emits.
/// It is a heuristic, and deliberately conservative.
pub fn map_sdk_error(messages: &Vec<String>, profile: &str, operation: &str, sso: bool) -> (r:
    Error)
    ensures
        r@ == meaning(
            chain_of(strings(messages@)),
            lowercase(chain_of(strings(messages@))),
            profile@,
            operation@,
            sso,
        ),
{
    let chain = error_chain(messages);
    let lower = to_lowercase(chain.as_str());
    classify_failure(chain.as_str(), lower.as_str(), profile, operation, sso)
}

// ---------------------------------------------------------------------------
// Laws
// ---------------------------------------------------------------------------

/// A failure is reported as a credential problem only on a marker of one.
pub proof fn credentials_are_blamed_only_on_a_marker(
    chain: Seq<char>,
    lower: Seq<char>,
    profile: Seq<char>,
    operation: Seq<char>,
    sso: bool,
)
    ensures
        meaning(chain, lower, profile, operation, sso) is Auth <==> tells_of_credentials(lower),
        !tells_of_credentials(lower) && !tells_of_permission(lower) ==> meaning(
            chain,
            lower,
            profile,
            operation,
            sso,
        ) == (Fault::Aws { operation, message: trimmed_end(chain, CharClass::White) }),
{
}

/// No message in a chain repeats the one before it.
pub proof fn no_message_repeats(ts: Seq<Seq<char>>)
    ensures
        ts.len() > 0 ==> without_repeats(ts).len() > 0 && without_repeats(ts).last() == ts.last(),
        forall|i: int|
            0 < i < without_repeats(ts).len() ==> #[trigger] without_repeats(ts)[i]
                != without_repeats(ts)[i - 1],
    decreases ts.len(),
{
    if ts.len() > 0 {
        no_message_repeats(ts.drop_last());
        if ts.len() > 1 {
            assert(ts.drop_last().last() == ts[ts.len() - 2]);
        }
    }
}

} // verus!
