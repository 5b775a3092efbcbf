//! On-disk cache of resolved AWS credentials.
//!
//! # Why this exists
//!
//! The SDK caches resolved credentials in-process only, so every `awsdiag`
//! invocation would perform a fresh `sso:GetRoleCredentials` round trip. For a
//! tool whose premise is being fast, paying a network round trip per process
//! is the wrong trade.
//!
//! # What lands on disk
//!
//! Short-lived STS credentials. Nothing here is a long-lived secret, and an
//! entry is refused once expired.
//!
//! Set `AWSDIAG_NO_CACHE=1` to disable reading and writing entirely.
//!
//! What the environment says is passed in, so every decision here is a
//! function of plain values.

use crate::common::time::{moved_on, seconds_after, Instant};
use crate::glob::opt_text;
use crate::hash::{hash_of, text_hash, FNV_PRIME};
use crate::path::{
    absolute, extension, extension_of, is_absolute, join_path, path_joined,
};
use crate::text::{
    all_in, begins, chars_of, digit_char, hex, hex_of, is_str, same_str, starts_with_str,
    string_of, CharClass,
};
use vstd::prelude::*;
use vstd::string::StringExecFns;

verus! {

/// Refuse an entry this many seconds from its expiry, so credentials cannot
/// lapse mid-request on a slow call.
pub const EXPIRY_SKEW: i64 = 120;

/// Cached credentials.
#[derive(Debug, PartialEq, Eq)]
pub struct Entry {
    pub access_key_id: String,
    pub secret_access_key: String,
    pub session_token: Option<String>,
    /// Absent means non-expiring, which is never cached.
    pub expires_at: Option<Instant>,
}

/// Whether an expiry leaves enough time.
pub open spec fn usable_until(expires_at: Option<Instant>, now: Instant) -> bool {
    match (expires_at, moved_on(now, EXPIRY_SKEW as int)) {
        (Some(exp), Some(limit)) => exp.after(limit),
        _ => false,
    }
}

impl Entry {
    /// Whether the entry outlives `now` by more than the skew.
    pub fn is_usable_at(&self, now: Instant) -> (r: bool)
        requires
            now.valid(),
        ensures
            r == usable_until(self.expires_at, now),
    {
        match self.expires_at {
            Some(exp) => match seconds_after(now, EXPIRY_SKEW) {
                Some(limit) => exp.is_after(limit),
                None => false,
            },
            None => false,
        }
    }
}

/// Whether an environment variable is set to something.
pub open spec fn is_set(v: Option<Seq<char>>) -> bool {
    v is Some && v->0.len() > 0
}

/// The content of an optional variable.
pub open spec fn var_text(v: Option<&str>) -> Option<Seq<char>> {
    match v {
        Some(s) => Some(s@),
        None => None,
    }
}

/// Decide `is_set`.
fn set(v: Option<&str>) -> (r: bool)
    ensures
        r == is_set(var_text(v)),
{
    match v {
        Some(s) => {
            let cs = chars_of(s);
            cs.len() > 0
        },
        None => false,
    }
}

/// Whether the cache is bypassed: on request, or because ambient credentials
/// override profile configuration.
pub open spec fn bypassed(
    no_cache: Option<Seq<char>>,
    access_key_id: Option<Seq<char>>,
    session_token: Option<Seq<char>>,
) -> bool {
    ||| is_set(no_cache) && no_cache->0 != "0"@
    ||| is_set(access_key_id)
    ||| is_set(session_token)
}

/// Whether the cache is bypassed, given `AWSDIAG_NO_CACHE`,
/// `AWS_ACCESS_KEY_ID` and `AWS_SESSION_TOKEN`.
///
/// Ambient credentials in the environment override profile configuration
/// entirely, so a profile-keyed entry would describe a principal that is not
/// the one in use.
pub fn disabled(
    no_cache: Option<&str>,
    access_key_id: Option<&str>,
    session_token: Option<&str>,
) -> (r: bool)
    ensures
        r == bypassed(var_text(no_cache), var_text(access_key_id), var_text(session_token)),
{
    if let Some(v) = no_cache {
        if set(no_cache) && !same_str(v, "0") {
            return true;
        }
    }
    set(access_key_id) || set(session_token)
}

/// The cache directory, if the environment gives an absolute place for it.
pub open spec fn directory(xdg: Option<Seq<char>>, home: Option<Seq<char>>) -> Option<Seq<char>> {
    let base = if is_set(xdg) {
        Some(xdg->0)
    } else if is_set(home) {
        Some(path_joined(home->0, ".local/state"@))
    } else {
        None
    };
    if base is Some && absolute(base->0) {
        Some(path_joined(path_joined(base->0, "awsdiag"@), "creds"@))
    } else {
        None
    }
}

/// `$XDG_STATE_HOME/awsdiag/creds`, falling back to `~/.local/state`.
///
/// `None` rather than a relative path when neither variable yields an
/// absolute location: a relative base is never acceptable for credential
/// material. Callers treat `None` as "no cache", which is always a safe
/// outcome.
pub fn cache_dir_opt(xdg: Option<&str>, home: Option<&str>) -> (r: Option<String>)
    ensures
        opt_text(r) == directory(var_text(xdg), var_text(home)),
{
    let base = if set(xdg) {
        match xdg {
            Some(x) => x.to_owned(),
            None => {
                return None;
            },
        }
    } else if set(home) {
        match home {
            Some(h) => join_path(h, ".local/state"),
            None => {
                return None;
            },
        }
    } else {
        return None;
    };
    if !is_absolute(base.as_str()) {
        return None;
    }
    let app = join_path(base.as_str(), "awsdiag");
    Some(join_path(app.as_str(), "creds"))
}

/// Convenience for display and for callers that tolerate a missing cache.
pub fn cache_dir(xdg: Option<&str>, home: Option<&str>) -> (r: String)
    ensures
        r@ == match directory(var_text(xdg), var_text(home)) {
            Some(d) => d,
            None => ""@,
        },
{
    match cache_dir_opt(xdg, home) {
        Some(d) => d,
        None => "".to_owned(),
    }
}

/// A cache entry's filename stem.
///
/// A newtype rather than a `String` so it cannot be constructed from
/// arbitrary text. `entry_path` interpolates it into a path, and a profile
/// may legitimately be named `../../etc/passwd`; making `key_for` the only
/// constructor means the hashing step cannot be skipped by accident at a
/// future call site.
#[derive(Debug, PartialEq, Eq)]
pub struct CacheKey(String);

impl View for CacheKey {
    type V = Seq<char>;

    closed spec fn view(&self) -> Seq<char> {
        self.0@
    }
}

/// Sixteen hexadecimal digits.
pub open spec fn digest(s: Seq<char>) -> bool {
    s.len() == 16 && all_in(s, CharClass::Hex)
}

impl CacheKey {
    #[verifier::type_invariant]
    spec fn is_digest(self) -> bool {
        digest(self.0@)
    }

    /// The stem as text.
    pub fn text(&self) -> (r: String)
        ensures
            r@ == self@,
            digest(r@),
    {
        proof {
            use_type_invariant(self);
        }
        self.0.as_str().to_owned()
    }
}

impl Clone for CacheKey {
    fn clone(&self) -> (r: CacheKey)
        ensures
            r@ == self@,
    {
        proof {
            use_type_invariant(self);
        }
        CacheKey(self.0.as_str().to_owned())
    }
}

/// What a key is derived from.
pub open spec fn key_text(profile: Seq<char>, config_path: Seq<char>, section: Seq<char>) -> Seq<
    char,
> {
    config_path + "\0"@ + profile + "\0"@ + section
}

/// The FNV-1a hash of a text in sixteen hexadecimal digits.
pub open spec fn stable_digest(s: Seq<char>) -> Seq<char> {
    hex(text_hash(s, FNV_PRIME) as nat, 16)
}

/// Hexadecimal digits are hexadecimal digits.
proof fn hex_is_hexadecimal(n: nat, width: nat)
    ensures
        hex(n, width).len() == width,
        all_in(hex(n, width), CharClass::Hex),
    decreases width,
{
    if width > 0 {
        hex_is_hexadecimal(n / 16, (width - 1) as nat);
        assert(CharClass::Hex.has(digit_char(n % 16)));
    }
}

/// Hash a text by FNV-1a.
fn stable_hash(s: &str) -> (r: String)
    ensures
        r@ == stable_digest(s@),
        digest(r@),
{
    let h = hash_of(s, FNV_PRIME);
    proof {
        hex_is_hexadecimal(h as nat, 16);
    }
    let digits = hex_of(h, 16);
    string_of(digits.as_slice())
}

/// Identity of a cache entry.
///
/// **Not** the profile name alone. The name says nothing about which
/// principal it resolves to, and a hit *replaces* the credential provider
/// chain, so keying on the name alone means a profile re-pointed from an
/// admin role to a read-only one keeps using the old, higher-privileged
/// credentials until the entry expires, silently.
///
/// So the key covers the config file path, the profile name, and the
/// profile's own section, which is where everything that decides the
/// principal lives.
pub fn key_for(profile: &str, config_path: &str, section: &str) -> (r: CacheKey)
    ensures
        r@ == stable_digest(key_text(profile@, config_path@, section@)),
{
    let text = config_path.to_owned().concat("\0").concat(profile).concat("\0").concat(section);
    CacheKey(stable_hash(text.as_str()))
}

/// Path for one cache entry.
///
/// The filename is a hash, never a name: profile names may contain `/` or
/// `..`, and interpolating one into a path is a traversal waiting to happen.
pub fn entry_path(key: &CacheKey, dir: Option<&str>) -> (r: Option<String>)
    ensures
        opt_text(r) == match dir {
            Some(d) => Some(path_joined(d@, key@ + ".json"@)),
            None => None,
        },
        digest(key@),
{
    proof {
        use_type_invariant(key);
    }
    match dir {
        Some(d) => {
            let name = key.text().concat(".json");
            Some(join_path(d, name.as_str()))
        },
        None => None,
    }
}

/// The entry to use, out of what was read from disk: none where the cache is
/// bypassed, where nothing could be read, and where the entry expires too
/// soon.
pub fn load(disabled: bool, read: Option<Entry>, now: Instant) -> (r: Option<Entry>)
    requires
        now.valid(),
    ensures
        !disabled && read is Some && usable_until(read->0.expires_at, now) ==> r == read,
        disabled || read is None || !usable_until(read->0.expires_at, now) ==> r is None,
{
    if disabled {
        return None;
    }
    match read {
        Some(e) => {
            if e.is_usable_at(now) {
                Some(e)
            } else {
                None
            }
        },
        None => None,
    }
}

/// The entry to write for resolved credentials.
///
/// Credentials with no expiry are not cached: without one there is no way to
/// know when the entry became wrong, and a stale entry is worse than none.
pub fn store(
    disabled: bool,
    access_key_id: &str,
    secret_access_key: &str,
    session_token: Option<&str>,
    expires_at: Option<Instant>,
) -> (r: Option<Entry>)
    ensures
        r is Some <==> !disabled && expires_at is Some,
        r is Some ==> {
            &&& r->0.access_key_id@ == access_key_id@
            &&& r->0.secret_access_key@ == secret_access_key@
            &&& opt_text(r->0.session_token) == var_text(session_token)
            &&& r->0.expires_at == expires_at
        },
{
    if disabled || expires_at.is_none() {
        return None;
    }
    Some(
        Entry {
            access_key_id: access_key_id.to_owned(),
            secret_access_key: secret_access_key.to_owned(),
            session_token: match session_token {
                Some(t) => Some(t.to_owned()),
                None => None,
            },
            expires_at,
        },
    )
}

/// Whether a file in the cache directory holds an entry.
pub open spec fn holds_entry(name: Seq<char>) -> bool {
    extension_of(name) == Some("json"@)
}

/// Whether a file in the cache directory is removed when it is cleared: an
/// entry, or a temporary file that a killed process left behind.
pub open spec fn evictable(name: Seq<char>) -> bool {
    extension_of(name) is Some && (extension_of(name)->0 == "json"@ || begins(
        extension_of(name)->0,
        "tmp"@,
    ))
}

/// Decide `holds_entry`.
pub fn is_entry(name: &str) -> (r: bool)
    ensures
        r == holds_entry(name@),
{
    let cs = chars_of(name);
    match extension(cs.as_slice()) {
        Some(ext) => is_str(ext, "json"),
        None => false,
    }
}

/// Decide `evictable`.
pub fn is_evictable(name: &str) -> (r: bool)
    ensures
        r == evictable(name@),
{
    let cs = chars_of(name);
    match extension(cs.as_slice()) {
        Some(ext) => is_str(ext, "json") || starts_with_str(ext, "tmp"),
        None => false,
    }
}

// ---------------------------------------------------------------------------
// Laws
// ---------------------------------------------------------------------------

/// The text before the first NUL is told by the whole.
proof fn nul_ends_the_first_part(a: Seq<char>, x: Seq<char>, b: Seq<char>, y: Seq<char>)
    requires
        forall|i: int| 0 <= i < a.len() ==> a[i] != '\0',
        forall|i: int| 0 <= i < b.len() ==> b[i] != '\0',
        a + seq!['\0'] + x == b + seq!['\0'] + y,
    ensures
        a == b,
        x == y,
{
    let s = a + seq!['\0'] + x;
    let t = b + seq!['\0'] + y;
    if a.len() < b.len() {
        assert(s[a.len() as int] == '\0');
        assert(t[a.len() as int] == b[a.len() as int]);
    }
    if b.len() < a.len() {
        assert(t[b.len() as int] == '\0');
        assert(s[b.len() as int] == a[b.len() as int]);
    }
    assert(s.take(a.len() as int) == a);
    assert(t.take(b.len() as int) == b);
    assert(s.skip(a.len() as int + 1) == x);
    assert(t.skip(b.len() as int + 1) == y);
}

/// The key covers the config file, the profile and its section: two of these
/// that differ anywhere are keyed by different texts, as long as neither a
/// path nor a profile name holds a NUL.
pub proof fn the_key_tells_everything_apart(
    profile: Seq<char>,
    path: Seq<char>,
    section: Seq<char>,
    profile2: Seq<char>,
    path2: Seq<char>,
    section2: Seq<char>,
)
    requires
        forall|i: int| 0 <= i < profile.len() ==> profile[i] != '\0',
        forall|i: int| 0 <= i < profile2.len() ==> profile2[i] != '\0',
        forall|i: int| 0 <= i < path.len() ==> path[i] != '\0',
        forall|i: int| 0 <= i < path2.len() ==> path2[i] != '\0',
        key_text(profile, path, section) == key_text(profile2, path2, section2),
    ensures
        profile == profile2,
        path == path2,
        section == section2,
{
    reveal_strlit("\0");
    let nul = seq!['\0'];
    assert("\0"@ == nul);
    let x = profile + nul + section;
    let y = profile2 + nul + section2;
    assert(key_text(profile, path, section) == path + nul + x);
    assert(key_text(profile2, path2, section2) == path2 + nul + y);
    nul_ends_the_first_part(path, x, path2, y);
    nul_ends_the_first_part(profile, section, profile2, section2);
}

/// The file of an entry stays in the cache directory whatever the profile is
/// called: behind the directory there is one separator, and a name without
/// one.
pub proof fn an_entry_stays_in_the_directory(dir: Seq<char>, key: Seq<char>)
    requires
        dir.len() > 0,
        dir.last() != '/',
        digest(key),
    ensures
        path_joined(dir, key + ".json"@) == dir + seq!['/'] + key + ".json"@,
        forall|i: int| 0 <= i < (key + ".json"@).len() ==> (key + ".json"@)[i] != '/',
{
    reveal_strlit(".json");
    let name = key + ".json"@;
    assert forall|i: int| 0 <= i < name.len() implies name[i] != '/' by {
        if i < key.len() {
            assert(CharClass::Hex.has(key[i]));
        }
    }
    assert(dir + seq!['/'] + name == dir + seq!['/'] + key + ".json"@);
}

/// The cache directory is absolute, and does not end in a separator.
pub proof fn the_directory_is_absolute(xdg: Option<Seq<char>>, home: Option<Seq<char>>)
    ensures
        directory(xdg, home) is Some ==> {
            &&& absolute(directory(xdg, home)->0)
            &&& directory(xdg, home)->0.last() != '/'
        },
{
    reveal_strlit("awsdiag");
    reveal_strlit("creds");
}

/// What `cache status` can show, `cache clear` removes.
pub proof fn what_is_listed_is_cleared(name: Seq<char>)
    requires
        holds_entry(name),
    ensures
        evictable(name),
{
}

/// Credentials close to their expiry are never used.
pub proof fn near_expiry_is_refused(exp: Instant, now: Instant)
    requires
        now.valid(),
        exp.secs < now.secs + EXPIRY_SKEW,
    ensures
        !usable_until(Some(exp), now),
{
}

} // verus!
