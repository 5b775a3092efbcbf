//! Profiles, credentials and what went wrong with them.

use crate::cmd::cache::{entry_files, tells_of, CacheEntry, FoundFile};
use crate::cmd::whoami::{identity, Identity, Reply};
use crate::common::aws::{
    available_profiles, cache_key, chain_of, config_file, lowercase, meaning, single_profile,
    targets, tells_of_credentials, without_repeats, ReadFailure,
};
use crate::common::credcache::{
    bypassed, directory, entry_path, evictable, holds_entry, key_text, load, stable_digest, store,
    usable_until, CacheKey, Entry,
};
use crate::common::errors::{hint_of, kind_of, message_of, Error, Fault};
use crate::common::flags::TargetArgs;
use crate::common::profiles::{
    cleaned, config_lines, fingerprint, header, matching, opened_profile, profile_names, profile_of,
    section_body, section_of, selection, sso_setting, uses_sso,
};
use crate::common::time::{debug_text, zulu_text, Instant, TimeFault};
use crate::hash::folded;
use crate::json::JsonTree;
use crate::laws::texts::{cutting_takes_the_first, cutting_takes_the_last, trimming_keeps_the_core};
use crate::output::Record;
use crate::path::{absolute, path_joined};
use crate::text::{begins, hex, joined, occurs, stands_at, trimmed_end, CharClass};
use vstd::prelude::*;

verus! {

// ---------------------------------------------------------------------------
// Profiles
// ---------------------------------------------------------------------------

/// Whether a text has no white space at its ends, no comment and no bracket.
pub open spec fn plain(s: Seq<char>) -> bool {
    &&& s.len() > 0
    &&& !CharClass::White.has(s[0])
    &&& !CharClass::White.has(s.last())
    &&& !s.contains('#')
}

/// A line `[profile NAME]` opens the section of that profile, `[default]` that
/// of the default one.
pub proof fn a_section_is_opened_by_its_header(name: Seq<char>)
    requires
        plain(name),
    ensures
        opened_profile("[profile "@ + name + seq![']']) == Some(name),
        opened_profile("[default]"@) == Some("default"@),
        profile_of(name) is Some && name != "default"@ ==> begins(name, "profile "@),
{
    reveal_strlit("[profile ");
    reveal_strlit("profile ");
    reveal_strlit("[default]");
    reveal_strlit("default");
    let none = Seq::<char>::empty();
    let line = "[profile "@ + name + seq![']'];
    let inner = line.subrange(1, line.len() - 1);
    assert(inner =~= "profile "@ + name);
    assert(inner[0] == 'p');
    assert(inner.last() == name.last());
    trimming_keeps_the_core(none, inner, none, CharClass::White);
    assert(none + inner + none == inner);
    assert(inner.take(8) =~= "profile "@);
    assert(inner.skip(8) =~= name);
    assert(inner != "default"@) by {
        assert("default"@[0] == 'd');
    }
    trimming_keeps_the_core(none, name, none, CharClass::White);
    assert(none + name + none == name);
    let d = "[default]"@;
    let core = d.subrange(1, d.len() - 1);
    assert(core =~= "default"@);
    assert(core[0] == 'd' && core.last() == 't');
    trimming_keeps_the_core(none, core, none, CharClass::White);
    assert(none + core + none == core);
}

/// The profiles of a file are those whose sections it opens, as they follow
/// one another.
pub proof fn each_section_names_its_profile(ls: Seq<Seq<char>>, name: Seq<char>, other: Seq<char>)
    requires
        plain(name),
        header(other) is None,
    ensures
        profile_names(ls.push("[profile "@ + name + seq![']'])) == profile_names(ls).push(name),
        profile_names(ls.push("[default]"@)) == profile_names(ls).push("default"@),
        profile_names(ls.push(other)) == profile_names(ls),
        profile_names(Seq::empty()).len() == 0,
{
    a_section_is_opened_by_its_header(name);
    assert(ls.push("[profile "@ + name + seq![']']).drop_last() == ls);
    assert(ls.push("[default]"@).drop_last() == ls);
    assert(ls.push(other).drop_last() == ls);
}

/// A comment, and white space around a line, does not count.
pub proof fn a_comment_does_not_count(
    front: Seq<char>,
    text: Seq<char>,
    space: Seq<char>,
    comment: Seq<char>,
)
    requires
        plain(text),
        forall|i: int| 0 <= i < front.len() ==> CharClass::White.has(#[trigger] front[i]),
        forall|i: int| 0 <= i < space.len() ==> CharClass::White.has(#[trigger] space[i]),
        comment.len() > 0 ==> !CharClass::White.has(comment.last()),
    ensures
        cleaned(front + text + space) == text,
        cleaned(front + text + space + seq!['#'] + comment) == text,
{
    let none = Seq::<char>::empty();
    trimming_keeps_the_core(front, text, space, CharClass::White);
    cutting_takes_the_first(text, '#', none);
    let core = text + space + seq!['#'] + comment;
    let line = front + core;
    assert(front + text + space + seq!['#'] + comment == line + none);
    assert(core[0] == text[0]);
    assert(core.last() == if comment.len() > 0 {
        comment.last()
    } else {
        '#'
    });
    trimming_keeps_the_core(front, core, none, CharClass::White);
    assert(front + core + none == line);
    let head = text + space;
    assert(!head.contains('#')) by {
        assert forall|k: int| 0 <= k < head.len() implies head[k] != '#' by {
            if k < text.len() {
                assert(text.contains(text[k]));
            } else {
                assert(CharClass::White.has(space[k - text.len()]));
            }
        }
    }
    cutting_takes_the_first(head, '#', comment);
    trimming_keeps_the_core(none, text, space, CharClass::White);
    assert(none + text + space == head);
}

/// A section holds the lines behind its header, up to the next header.
pub proof fn a_section_ends_at_the_next_header(
    ls: Seq<Seq<char>>,
    own: Seq<char>,
    line: Seq<char>,
    wanted: Seq<char>,
)
    requires
        header(own) is Some,
        header(line) is None,
        line.len() > 0,
    ensures
        ({
            let opened = ls.push(own);
            let read = opened.push(line);
            &&& section_body(opened, wanted) == section_body(ls, wanted)
            &&& header(own)->0 == wanted ==> section_body(read, wanted) == section_body(
                ls,
                wanted,
            ).push(line)
            &&& header(own)->0 != wanted ==> section_body(read, wanted) == section_body(ls, wanted)
        }),
{
    let opened = ls.push(own);
    let read = opened.push(line);
    assert(opened.drop_last() == ls);
    assert(read.drop_last() == opened);
}

/// The section of a profile is `[profile NAME]`, that of the default profile
/// `[default]`.
pub proof fn the_section_of_a_profile(name: Seq<char>)
    ensures
        name == "default"@ ==> section_of(name) == "default"@,
        name != "default"@ ==> section_of(name) == "profile "@ + name,
{
}

/// A profile signs in through SSO if its section sets `sso_session` or
/// `sso_start_url`.
pub proof fn which_settings_mean_sso(key: Seq<char>, value: Seq<char>)
    requires
        key.len() > 0,
        !CharClass::White.has(key[0]),
        !CharClass::White.has(key.last()),
        !key.contains('='),
    ensures
        sso_setting(key + seq!['='] + value) <==> key == "sso_session"@ || key
            == "sso_start_url"@,
        sso_setting(key.push(' ') + seq!['='] + value) <==> key == "sso_session"@ || key
            == "sso_start_url"@,
        !sso_setting(key),
{
    let none = Seq::<char>::empty();
    cutting_takes_the_first(key, '=', value);
    trimming_keeps_the_core(none, key, none, CharClass::White);
    assert(none + key + none == key);
    let k = key.push(' ');
    assert(!k.contains('=')) by {
        assert forall|i: int| 0 <= i < k.len() implies k[i] != '=' by {
            if i < key.len() {
                assert(key.contains(key[i]));
            }
        }
    }
    cutting_takes_the_first(k, '=', value);
    trimming_keeps_the_core(none, key, seq![' '], CharClass::White);
    assert(none + key + seq![' '] == k);
}

/// Every configured profile that matches is selected, in the sequence of the
/// file, and no other.
pub proof fn every_matching_profile_is_selected(
    pattern: Seq<char>,
    names: Seq<Seq<char>>,
    name: Seq<char>,
)
    ensures
        crate::glob::glob_match(pattern, name) ==> matching(pattern, names.push(name)) == matching(
            pattern,
            names,
        ).push(name),
        !crate::glob::glob_match(pattern, name) ==> matching(pattern, names.push(name))
            == matching(pattern, names),
        matching(pattern, Seq::empty()).len() == 0,
{
    assert(names.push(name).drop_last() == names);
}

/// A selection that matches nothing is refused, naming the pattern; one that
/// cannot be read is refused with the reason behind it.
pub proof fn a_selection_must_match(
    pattern: Seq<char>,
    fault: Option<Seq<char>>,
    matched: Seq<Seq<char>>,
)
    ensures
        fault is None && matched.len() > 0 ==> selection(pattern, fault, matched) == Ok::<
            Seq<Seq<char>>,
            Fault,
        >(matched),
        fault is None && matched.len() == 0 ==> selection(pattern, fault, matched) == Err::<
            Seq<Seq<char>>,
            Fault,
        >(Fault::NoProfileMatch { pattern }),
        fault is Some ==> selection(pattern, fault, matched) == Err::<Seq<Seq<char>>, Fault>(
            Fault::NoProfileMatch { pattern: pattern + " ("@ + fault->0 + ")"@ },
        ),
{
}

/// Where nothing is configured and nothing named, the default profile is used.
pub proof fn without_a_configuration_there_is_the_default(target: TargetArgs)
    requires
        target.profiles is None,
        target.profile is None || target.profile->0@ == "default"@,
    ensures
        targets(target, Seq::empty()) == Ok::<Seq<Seq<char>>, Fault>(seq!["default"@]),
{
}

/// A configuration that is not there has no profiles; one that cannot be read
/// is an error.
pub proof fn a_missing_configuration_has_no_profiles(
    read: Result<String, ReadFailure>,
    r: Result<Vec<String>, Error>,
)
    requires
        call_ensures(available_profiles, (read,), r),
        read is Err,
    ensures
        read->Err_0.missing ==> r is Ok && r->Ok_0@.len() == 0,
        !read->Err_0.missing ==> r is Err && r->Err_0@ == Fault::Io(read->Err_0.message@),
{
}

/// The configuration is where the environment says, and `.aws/config` in the
/// home directory otherwise.
pub proof fn where_the_configuration_is(named: Seq<char>, home: Seq<char>)
    requires
        home.len() > 0,
        home.last() != '/',
    ensures
        config_file(Some(named), Some(home)) == named,
        config_file(Some(named), None) == named,
        config_file(None, Some(home)) == home + seq!['/'] + ".aws"@ + seq!['/'] + "config"@,
{
    reveal_strlit(".aws");
    reveal_strlit("config");
    assert(".aws"@.last() == 's');
    let d = home + seq!['/'] + ".aws"@;
    assert(d.last() == 's');
}

// ---------------------------------------------------------------------------
// Failures
// ---------------------------------------------------------------------------

/// Whether a text stands somewhere in another.
pub open spec fn has(s: Seq<char>, t: Seq<char>) -> bool {
    exists|a: Seq<char>, b: Seq<char>| #[trigger] (a + t + b) == s
}

/// A text occurs exactly where something stands in front of it and behind it.
proof fn occurring_is_having(s: Seq<char>, t: Seq<char>)
    ensures
        occurs(s, t) <==> has(s, t),
{
    if occurs(s, t) {
        let i = choose|i: int| #[trigger] stands_at(s, t, i);
        let a = s.take(i);
        let b = s.skip(i + t.len());
        assert(a + t + b =~= s) by {
            assert(s.subrange(i, i + t.len()) == t);
            assert forall|k: int| 0 <= k < s.len() implies (a + t + b)[k] == s[k] by {
                if i <= k < i + t.len() {
                    assert(t[k - i] == s.subrange(i, i + t.len())[k - i]);
                }
            }
        }
    }
    if has(s, t) {
        let (a, b) = choose|a: Seq<char>, b: Seq<char>| #[trigger] (a + t + b) == s;
        let i = a.len() as int;
        assert(s.subrange(i, i + t.len()) =~= t);
        assert(stands_at(s, t, i));
    }
}

/// A failure is one of credentials exactly if it says so in one of these ways.
pub proof fn what_tells_of_credentials(lower: Seq<char>)
    ensures
        tells_of_credentials(lower) <==> {
            ||| has(lower, "expiredtoken"@)
            ||| has(lower, "token has expired"@)
            ||| has(lower, "sso session associated with this profile has expired"@)
            ||| has(lower, "no credentials in the property bag"@)
            ||| has(lower, "credentialsnotloaded"@)
            ||| has(lower, "failed to load credentials"@)
            ||| has(lower, "failed to load the cached sso token"@)
            ||| has(lower, "error occurred while loading an access token"@)
            ||| has(lower, "error occurred while loading credentials"@)
        },
{
    occurring_is_having(lower, "expiredtoken"@);
    occurring_is_having(lower, "token has expired"@);
    occurring_is_having(lower, "sso session associated with this profile has expired"@);
    occurring_is_having(lower, "no credentials in the property bag"@);
    occurring_is_having(lower, "credentialsnotloaded"@);
    occurring_is_having(lower, "failed to load credentials"@);
    occurring_is_having(lower, "failed to load the cached sso token"@);
    occurring_is_having(lower, "error occurred while loading an access token"@);
    occurring_is_having(lower, "error occurred while loading credentials"@);
}

/// A failure is one of permission if it says so in one of these ways, and not
/// that credentials are at fault; any other is handed on in its own words.
pub proof fn what_a_failure_means(
    chain: Seq<char>,
    lower: Seq<char>,
    profile: Seq<char>,
    operation: Seq<char>,
    sso: bool,
)
    ensures
        ({
            let denied = has(lower, "accessdenied"@) || has(lower, "not authorized to perform"@)
                || has(lower, "unauthorizedoperation"@);
            let m = meaning(chain, lower, profile, operation, sso);
            &&& tells_of_credentials(lower) ==> m == (Fault::Auth { profile, sso })
            &&& !tells_of_credentials(lower) && denied ==> m == (Fault::AccessDenied {
                profile,
                operation,
            })
            &&& !tells_of_credentials(lower) && !denied ==> m == (Fault::Aws {
                operation,
                message: trimmed_end(chain, CharClass::White),
            })
        }),
{
    occurring_is_having(lower, "accessdenied"@);
    occurring_is_having(lower, "not authorized to perform"@);
    occurring_is_having(lower, "unauthorizedoperation"@);
}

/// A chain of messages is told from the outermost to its cause, each once.
pub proof fn a_chain_is_told_in_sequence(ts: Seq<Seq<char>>, next: Seq<char>)
    requires
        ts.len() > 0,
    ensures
        next == ts.last() ==> chain_of(ts.push(next)) == chain_of(ts),
        next != ts.last() ==> chain_of(ts.push(next)) == chain_of(ts) + ": "@ + next,
        chain_of(seq![next]) == next,
{
    let s = ts.push(next);
    assert(s.drop_last() == ts);
    assert(s[s.len() - 2] == ts.last());
    crate::common::aws::no_message_repeats(ts);
    let w = without_repeats(ts);
    assert(w.push(next).drop_last() == w);
    assert(seq![next].drop_last() == Seq::<Seq<char>>::empty());
    reveal_with_fuel(without_repeats, 2);
    assert(without_repeats(seq![next]) =~= seq![next]);
}

/// Each kind of failure has its own name.
pub proof fn each_failure_has_its_kind(f: Fault)
    ensures
        f is Auth ==> kind_of(f) == "auth"@,
        f is AccessDenied ==> kind_of(f) == "access_denied"@,
        f is NoProfileMatch ==> kind_of(f) == "no_profile_match"@,
        f is Aws ==> kind_of(f) == "aws"@,
        f is BadFindings ==> kind_of(f) == "bad_findings"@,
        f is File || f is Io ==> kind_of(f) == "io"@,
        f is Time || f is InvertedWindow || f is BadSpec || f is BadArgument ==> kind_of(f)
            == "bad_argument"@,
{
}

/// Each hint names what it is a hint for, and these failures alone have one.
pub proof fn which_failures_have_a_hint(f: Fault, p: Seq<char>, o: Seq<char>)
    ensures
        hint_of(f) is Some <==> f is Auth || f is AccessDenied || f is NoProfileMatch
            || f is BadFindings || f is BadSpec || f is File,
        hint_of(Fault::Auth { profile: p, sso: true }) == Some(
            "run `aws sso login --profile "@ + p + "`"@,
        ),
        hint_of(Fault::Auth { profile: p, sso: false }) == Some(
            "profile `"@ + p
                + "` does not use SSO; check its credentials with `aws sts get-caller-identity --profile "@
                + p + "`"@,
        ),
        hint_of(Fault::AccessDenied { profile: p, operation: o }) == Some(
            "profile `"@ + p + "` lacks permission for "@ + o
                + "; try a higher-privilege profile for the same account"@,
        ),
        hint_of(Fault::NoProfileMatch { pattern: p }) == Some(
            "list configured profiles with `aws configure list-profiles`"@,
        ),
        hint_of(Fault::BadFindings { source_name: p, detail: o }) == Some(
            "print the expected shape with `awsdiag report --schema`"@,
        ),
{
}

/// Each failure is told with its particulars in their places.
pub proof fn how_a_failure_is_told(a: Seq<char>, b: Seq<char>, c: Seq<char>, sso: bool)
    ensures
        message_of(Fault::Auth { profile: a, sso }) == "AWS credentials for profile `"@ + a
            + "` are missing or expired"@,
        message_of(Fault::AccessDenied { profile: a, operation: b }) == "access denied calling "@
            + b + " with profile `"@ + a + "`"@,
        message_of(Fault::NoProfileMatch { pattern: a }) == "no configured profile matches "@
            + debug_text(a),
        message_of(Fault::InvertedWindow { since: a, until: b })
            == "time window starts after it ends: since="@ + a + " until="@ + b,
        message_of(Fault::BadSpec { spec: a, reason: b }) == "cannot parse "@ + debug_text(a)
            + ": "@ + b,
        message_of(Fault::BadArgument { message: a }) == a,
        message_of(Fault::BadFindings { source_name: a, detail: b }) == a
            + " is not a valid findings document: "@ + b,
        message_of(Fault::Aws { operation: a, message: b }) == b,
        message_of(Fault::File { action: a, path: b, source: c }) == "cannot "@ + a + " "@ + b
            + ": "@ + c,
        message_of(Fault::Io(a)) == a,
        message_of(Fault::Time(TimeFault::Empty)) == "empty time value"@,
        message_of(Fault::Time(TimeFault::MissingUnit(a))) == "duration "@ + debug_text(a)
            + " is missing a unit; use s, m, h, d or w (e.g. 2h)"@,
        message_of(Fault::Time(TimeFault::Overflow(a))) == "duration "@ + debug_text(a)
            + " overflows the representable range"@,
{
}

// ---------------------------------------------------------------------------
// Who is calling
// ---------------------------------------------------------------------------

/// A text that may be missing.
pub open spec fn text_or_nothing(s: Option<String>) -> JsonTree {
    if s is Some {
        JsonTree::Text(s->0@)
    } else {
        JsonTree::Null
    }
}

/// What is written of a caller are the account, the ARN and the user that the
/// service gave, each under its own name.
pub proof fn a_caller_is_written_field_by_field(
    profile: &str,
    region: Option<String>,
    account: Option<String>,
    arn: Option<String>,
    user_id: Option<String>,
    sso: bool,
    r: Identity,
)
    requires
        call_ensures(
            identity,
            (profile, region, Reply::Caller { account, arn, user_id }, sso),
            r,
        ),
    ensures
        r.shape() == JsonTree::Object(
            seq![
                ("profile"@, JsonTree::Text(profile@)),
                ("account"@, text_or_nothing(account)),
                ("arn"@, text_or_nothing(arn)),
                ("user_id"@, text_or_nothing(user_id)),
                ("region"@, text_or_nothing(region)),
                ("error"@, JsonTree::Null),
                ("hint"@, JsonTree::Null),
            ],
        ),
{
}

/// A failed lookup keeps its row: it says what went wrong and what to do, and
/// nothing of a caller.
pub proof fn a_failed_lookup_says_why(
    profile: &str,
    region: Option<String>,
    messages: Vec<String>,
    sso: bool,
    r: Identity,
)
    requires
        call_ensures(identity, (profile, region, Reply::Failure(messages), sso), r),
    ensures
        ({
            let chain = chain_of(crate::text::strings(messages@));
            let f = meaning(chain, lowercase(chain), profile@, "sts:GetCallerIdentity"@, sso);
            r.shape() == JsonTree::Object(
                seq![
                    ("profile"@, JsonTree::Text(profile@)),
                    ("account"@, JsonTree::Null),
                    ("arn"@, JsonTree::Null),
                    ("user_id"@, JsonTree::Null),
                    ("region"@, text_or_nothing(region)),
                    ("error"@, JsonTree::Text(message_of(f))),
                    (
                        "hint"@,
                        if hint_of(f) is Some {
                            JsonTree::Text(hint_of(f)->0)
                        } else {
                            JsonTree::Null
                        },
                    ),
                ],
            )
        }),
{
}

// ---------------------------------------------------------------------------
// Cached credentials
// ---------------------------------------------------------------------------

/// Cached credentials are used only if they are good for more than two minutes
/// yet; those that never expire are not cached.
pub proof fn credentials_must_last_two_minutes(exp: Instant, now: Instant)
    requires
        now.valid(),
        now.nanos < 1_000_000_000,
        now.secs + 120 <= 8_210_266_876_799,
    ensures
        usable_until(Some(exp), now) <==> exp.secs > now.secs + 120 || (exp.secs == now.secs + 120
            && exp.nanos > now.nanos),
        !usable_until(None, now),
{
}

/// What is stored is what is loaded, as long as it lasts and the cache is in
/// use.
pub proof fn what_is_stored_is_loaded(
    access_key_id: &str,
    secret_access_key: &str,
    session_token: Option<&str>,
    expires_at: Option<Instant>,
    entry: Option<Entry>,
    now: Instant,
    r: Option<Entry>,
)
    requires
        call_ensures(
            store,
            (false, access_key_id, secret_access_key, session_token, expires_at),
            entry,
        ),
        expires_at is Some,
        now.valid(),
        usable_until(expires_at, now),
        call_ensures(load, (false, entry, now), r),
    ensures
        r is Some,
        r->0.access_key_id@ == access_key_id@,
        r->0.secret_access_key@ == secret_access_key@,
        session_token is Some ==> r->0.session_token is Some && r->0.session_token->0@
            == session_token->0@,
        session_token is None ==> r->0.session_token is None,
        r->0.expires_at == expires_at,
{
}

/// A cache that is switched off stores nothing and loads nothing.
pub proof fn a_cache_switched_off_is_left_alone(
    a: &str,
    b: &str,
    c: Option<&str>,
    d: Option<Instant>,
    stored: Option<Entry>,
    read: Option<Entry>,
    now: Instant,
    loaded: Option<Entry>,
)
    requires
        call_ensures(store, (true, a, b, c, d), stored),
        call_ensures(load, (true, read, now), loaded),
    ensures
        stored is None,
        loaded is None,
{
}

/// The cache is switched off by its own variable, unless that is empty or `0`,
/// and by credentials in the environment.
pub proof fn what_switches_the_cache_off(
    own: Option<Seq<char>>,
    key: Option<Seq<char>>,
    token: Option<Seq<char>>,
)
    ensures
        bypassed(own, key, token) <==> {
            ||| own is Some && own->0 != Seq::<char>::empty() && own->0 != seq!['0']
            ||| key is Some && key->0 != Seq::<char>::empty()
            ||| token is Some && token->0 != Seq::<char>::empty()
        },
{
    reveal_strlit("0");
    assert("0"@ =~= seq!['0']);
    if own is Some && own->0.len() == 0 {
        assert(own->0 =~= Seq::<char>::empty());
    }
    if key is Some && key->0.len() == 0 {
        assert(key->0 =~= Seq::<char>::empty());
    }
    if token is Some && token->0.len() == 0 {
        assert(token->0 =~= Seq::<char>::empty());
    }
}

/// The cache is in `awsdiag/creds` under the state directory, which is
/// `.local/state` in the home directory where none is named; a directory that
/// is not absolute is not used.
pub proof fn where_the_cache_is(named: Seq<char>, home: Seq<char>)
    requires
        named.len() > 1,
        named[0] == '/',
        named.last() != '/',
        home.len() > 1,
        home[0] == '/',
        home.last() != '/',
    ensures
        directory(Some(named), Some(home)) == Some(named + "/awsdiag/creds"@),
        directory(Some(named), None) == Some(named + "/awsdiag/creds"@),
        directory(None, Some(home)) == Some(home + "/.local/state/awsdiag/creds"@),
        directory(Some(Seq::empty()), Some(home)) == Some(home + "/.local/state/awsdiag/creds"@),
        directory(None, None) is None,
        directory(Some(named.skip(1)), Some(home)) is None || named[1] == '/',
{
    reveal_strlit("/awsdiag/creds");
    reveal_strlit("/.local/state/awsdiag/creds");
    reveal_strlit(".local/state");
    reveal_strlit("awsdiag");
    reveal_strlit("creds");
    let d = named + seq!['/'] + "awsdiag"@;
    assert(d.last() == 'g');
    assert(d + seq!['/'] + "creds"@ =~= named + "/awsdiag/creds"@);
    let s = home + seq!['/'] + ".local/state"@;
    assert(s.last() == 'e');
    let e = s + seq!['/'] + "awsdiag"@;
    assert(e.last() == 'g');
    assert(e + seq!['/'] + "creds"@ =~= home + "/.local/state/awsdiag/creds"@);
    assert(named.skip(1)[0] == named[1]);
}

/// A path is put behind a directory with one slash between them, unless it is
/// absolute.
pub proof fn how_paths_are_joined(dir: Seq<char>, part: Seq<char>)
    requires
        dir.len() > 0,
        part.len() > 0,
        part[0] != '/',
    ensures
        dir.last() != '/' ==> path_joined(dir, part) == dir + seq!['/'] + part,
        dir.last() == '/' ==> path_joined(dir, part) == dir + part,
        path_joined(dir, seq!['/'] + part) == seq!['/'] + part,
        absolute(seq!['/'] + part) && !absolute(part),
{
}

/// An entry is a file that ends in `.json`; clearing the cache also takes
/// files whose ending starts with `tmp`, and nothing else.
pub proof fn which_files_are_entries(stem: Seq<char>, ending: Seq<char>)
    requires
        stem.len() > 0,
        !ending.contains('.'),
    ensures
        holds_entry(stem + seq!['.'] + ending) <==> ending == "json"@,
        evictable(stem + seq!['.'] + ending) <==> ending == "json"@ || (ending.len() >= 3
            && ending[0] == 't' && ending[1] == 'm' && ending[2] == 'p'),
        !holds_entry(ending) && !evictable(ending),
        !holds_entry(seq!['.'] + ending) && !evictable(seq!['.'] + ending),
{
    reveal_strlit("tmp");
    cutting_takes_the_last(stem, '.', ending);
    let none = Seq::<char>::empty();
    cutting_takes_the_last(none, '.', ending);
    assert(none + seq!['.'] + ending == seq!['.'] + ending);
    if ending.len() >= 3 {
        let t = ending.take(3);
        assert(t[0] == ending[0] && t[1] == ending[1] && t[2] == ending[2]);
        if ending[0] == 't' && ending[1] == 'm' && ending[2] == 'p' {
            assert(t =~= "tmp"@);
        }
    }
}

/// What is told of an entry is its file, when it expires and whether it can
/// still be used.
pub proof fn an_entry_is_written_field_by_field(row: CacheEntry, file: FoundFile, now: Instant)
    requires
        tells_of(row, file, now),
    ensures
        row.shape() == JsonTree::Object(
            seq![
                ("file"@, JsonTree::Text(file.name@)),
                (
                    "expires_at"@,
                    if file.entry is Some && file.entry->0.expires_at is Some {
                        JsonTree::Text(
                            zulu_text(
                                file.entry->0.expires_at->0.secs,
                                file.entry->0.expires_at->0.nanos,
                            ),
                        )
                    } else {
                        JsonTree::Null
                    },
                ),
                (
                    "usable"@,
                    JsonTree::Bool(
                        file.entry is Some && usable_until(file.entry->0.expires_at, now),
                    ),
                ),
            ],
        ),
{
}

/// A key is made of the path, the profile and its section, in this sequence.
pub proof fn what_a_key_is_made_of(profile: Seq<char>, path: Seq<char>, section: Seq<char>)
    ensures
        key_text(profile, path, section) == path + seq!['\0'] + profile + seq!['\0'] + section,
{
    reveal_strlit("\0");
    assert("\0"@ =~= seq!['\0']);
}

/// A hash starts at the basis of FNV and takes in one byte after the other.
pub proof fn a_hash_takes_in_byte_after_byte(bytes: Seq<u8>, b: u8, m: u64)
    ensures
        folded(Seq::empty(), m) == 0xcbf2_9ce4_8422_2325u64,
        folded(bytes.push(b), m) == (folded(bytes, m) ^ (b as u64)).wrapping_mul(m),
{
    assert(bytes.push(b).drop_last() == bytes);
}

/// A digest is the hash with the prime of FNV, in sixteen digits; an
/// identifier is twelve digits of one with its own multiplier.
pub proof fn how_digests_are_written(s: Seq<char>)
    ensures
        stable_digest(s) == hex(
            folded(vstd::utf8::encode_utf8(s), 0x100_0000_01b3u64) as nat,
            16,
        ),
        crate::cluster::template::id_of(s) == hex(
            (folded(vstd::utf8::encode_utf8(s), 0x1000_0000_01b3u64) % 0x1_0000_0000_0000) as nat,
            12,
        ),
{
}

/// With profiles configured, those that match are the targets.
pub proof fn targets_are_configured_profiles(target: TargetArgs, available: Seq<Seq<char>>)
    requires
        available.len() > 0,
        crate::glob::refusal(target.selected()) is None,
    ensures
        matching(target.selected(), available).len() > 0 ==> targets(target, available) == Ok::<
            Seq<Seq<char>>,
            Fault,
        >(matching(target.selected(), available)),
        matching(target.selected(), available).len() == 0 ==> targets(target, available) == Err::<
            Seq<Seq<char>>,
            Fault,
        >(Fault::NoProfileMatch { pattern: target.selected() }),
{
}

/// Where one profile is wanted, it is the first of the targets.
pub proof fn one_profile_is_the_first(
    target: &TargetArgs,
    available: &Vec<String>,
    r: Result<String, Error>,
    names: Seq<Seq<char>>,
)
    requires
        call_ensures(single_profile, (target, available), r),
        targets(*target, crate::text::strings(available@)) == Ok::<Seq<Seq<char>>, Fault>(names),
    ensures
        r is Ok,
        r->Ok_0@ == names[0],
{
}

/// The entries of a directory are told of one by one.
pub proof fn every_entry_is_told_of(files: Seq<FoundFile>, f: FoundFile)
    ensures
        holds_entry(f.name@) ==> entry_files(files.push(f)) == entry_files(files).push(f),
        !holds_entry(f.name@) ==> entry_files(files.push(f)) == entry_files(files),
        entry_files(Seq::empty()).len() == 0,
{
    assert(files.push(f).drop_last() == files);
}

/// A usable entry counts as one.
pub proof fn a_usable_entry_counts(rows: Seq<CacheEntry>, row: CacheEntry)
    ensures
        crate::cmd::cache::usable(rows.push(row)) == crate::cmd::cache::usable(rows)
            + if row.usable {
            1nat
        } else {
            0
        },
        crate::cmd::cache::usable(Seq::empty()) == 0,
{
    assert(rows.push(row).drop_last() == rows);
}

/// A series that cannot be read and a file that cannot be used are told how to
/// do better.
pub proof fn hints_for_series_and_files(a: Seq<char>, b: Seq<char>, c: Seq<char>)
    ensures
        hint_of(Fault::BadSpec { spec: a, reason: b }) == Some(
            "series format is Namespace/MetricName[:Stat][,Dim=Value...], e.g. AWS/EC2/CPUUtilization:Average,InstanceId=i-0abc"@,
        ),
        hint_of(Fault::File { action: a, path: b, source: c }) == Some(
            "check the path exists and that the parent directory is writable"@,
        ),
{
}

/// The lines of a configuration are those of its text, each by itself.
pub proof fn a_configuration_is_read_line_by_line(lines: Seq<Seq<char>>, i: int)
    requires
        0 <= i < lines.len(),
        forall|k: int| 0 <= k < lines.len() ==> !(#[trigger] lines[k]).contains('\n'),
    ensures
        config_lines(joined(lines, seq!['\n'])).len() == lines.len(),
        config_lines(joined(lines, seq!['\n']))[i] == cleaned(lines[i]),
{
    crate::text::joined_texts_are_its_pieces(lines, '\n');
}

/// A profile signs in through SSO exactly if a line of its section says so.
pub proof fn a_profile_uses_sso_if_its_section_says_so(config: Seq<char>, profile: Seq<char>, i: int)
    requires
        0 <= i < section_body(config_lines(config), section_of(profile)).len(),
    ensures
        sso_setting(section_body(config_lines(config), section_of(profile))[i]) ==> uses_sso(
            config,
            profile,
        ),
        uses_sso(config, profile) ==> exists|k: int|
            0 <= k < section_body(config_lines(config), section_of(profile)).len() && sso_setting(
                #[trigger] section_body(config_lines(config), section_of(profile))[k],
            ),
{
    if uses_sso(config, profile) {
        let body = section_body(config_lines(config), section_of(profile));
        let k = choose|k: int| 0 <= k < body.len() && #[trigger] sso_setting(body[k]);
        assert(sso_setting(section_body(config_lines(config), section_of(profile))[k]));
    }
}

/// An error is read by its own fields.
pub proof fn an_error_is_read_by_its_fields(a: String, b: String, sso: bool)
    ensures
        (Error::Auth { profile: a, sso })@ == (Fault::Auth { profile: a@, sso }),
        (Error::AccessDenied { profile: a, operation: b })@ == (Fault::AccessDenied {
            profile: a@,
            operation: b@,
        }),
        (Error::NoProfileMatch { pattern: a })@ == (Fault::NoProfileMatch { pattern: a@ }),
        (Error::InvertedWindow { since: a, until: b })@ == (Fault::InvertedWindow {
            since: a@,
            until: b@,
        }),
        (Error::BadSpec { spec: a, reason: b })@ == (Fault::BadSpec { spec: a@, reason: b@ }),
        (Error::BadFindings { source_name: a, detail: b })@ == (Fault::BadFindings {
            source_name: a@,
            detail: b@,
        }),
        (Error::Aws { operation: a, message: b })@ == (Fault::Aws { operation: a@, message: b@ }),
{
}

/// An empty line adds nothing to a section and does not end it.
pub proof fn an_empty_line_does_not_count(ls: Seq<Seq<char>>, wanted: Seq<char>, line: Seq<char>)
    requires
        header(line) is None,
        line.len() > 0,
    ensures
        section_body(ls.push(Seq::empty()), wanted) == section_body(ls, wanted),
        section_body(ls.push(Seq::empty()).push(line), wanted) == section_body(
            ls.push(line),
            wanted,
        ),
{
    let none = Seq::<char>::empty();
    let a = ls.push(none);
    assert(a.drop_last() == ls);
    assert(a.push(line).drop_last() == a);
    assert(ls.push(line).drop_last() == ls);
}

/// Credentials are cached under the profile, the path of the configuration and
/// what its section holds.
pub proof fn what_credentials_are_cached_under(
    profile: &str,
    config_path: &str,
    config: &str,
    r: CacheKey,
)
    requires
        call_ensures(cache_key, (profile, config_path, config), r),
    ensures
        r@ == stable_digest(
            config_path@ + seq!['\0'] + profile@ + seq!['\0'] + fingerprint(config@, profile@),
        ),
{
    what_a_key_is_made_of(profile@, config_path@, fingerprint(config@, profile@));
}

/// An entry is a file of the cache, named by its key.
pub proof fn where_an_entry_is(key: &CacheKey, dir: Option<&str>, r: Option<String>)
    requires
        call_ensures(entry_path, (key, dir), r),
    ensures
        dir is None ==> r is None,
        dir is Some ==> r is Some && r->0@ == path_joined(dir->0@, key@ + ".json"@),
{
}

} // verus!
