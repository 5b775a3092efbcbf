//! The credential cache: what is stored, under which name, and for how long.

use awsdiag::common::credcache::{
    cache_dir, cache_dir_opt, disabled, entry_path, is_entry, is_evictable, key_for, load, store,
    CacheKey, Entry,
};
use awsdiag::common::time::Instant;
use chrono::{TimeZone, Utc};

fn now() -> Instant {
    let t = Utc.with_ymd_and_hms(2026, 9, 4, 14, 0, 0).unwrap();
    Instant {
        secs: t.timestamp(),
        nanos: t.timestamp_subsec_nanos(),
    }
}

fn entry(mins: i64) -> Entry {
    Entry {
        access_key_id: "AKIAEXAMPLE".into(),
        secret_access_key: "secret".into(),
        session_token: Some("token".into()),
        expires_at: Some(Instant {
            secs: now().secs + mins * 60,
            nanos: 0,
        }),
    }
}

#[test]
fn a_fresh_entry_is_usable() {
    assert!(entry(60).is_usable_at(now()));
}

#[test]
fn an_expired_entry_is_refused() {
    assert!(!entry(-1).is_usable_at(now()));
}

#[test]
fn an_entry_inside_the_skew_window_is_refused() {
    // Expiring in 60s would very likely lapse mid-request; the 120s skew
    // is what stops a "valid" cache hit from failing the call it serves.
    assert!(!entry(1).is_usable_at(now()));
    assert!(entry(3).is_usable_at(now()));
}

#[test]
fn an_entry_without_an_expiry_is_never_usable() {
    let mut e = entry(60);
    e.expires_at = None;
    assert!(!e.is_usable_at(now()));
}

fn key(profile: &str) -> CacheKey {
    key_for(profile, "/home/u/.aws/config", "sso_session = s")
}

#[test]
fn the_filename_is_a_hash_so_a_profile_name_cannot_escape_the_directory() {
    // A profile literally named "../../etc/passwd" must not resolve
    // outside the cache directory. `CacheKey` makes hashing unskippable.
    let dir = cache_dir(None, Some("/home/u"));
    let p = entry_path(&key("../../etc/passwd"), Some(&dir)).expect("HOME is set");
    assert_eq!(
        std::path::Path::new(&p).parent().unwrap(),
        std::path::Path::new(&dir)
    );
    assert!(!p.contains(".."));
}

#[test]
fn the_key_covers_more_than_the_profile_name() {
    // Two config files each defining `[profile prod]` for different
    // accounts must not share an entry: `config_for` replaces the whole
    // provider chain on a hit, so a collision means authenticating as the
    // wrong principal while reporting the right profile name.
    let a = key_for("prod", "/a/config", "sso_account_id = 111");
    let b = key_for("prod", "/b/config", "sso_account_id = 111");
    assert_ne!(a.text(), b.text(), "config file path must be part of the key");

    // Re-pointing a profile at a different role must invalidate too, or
    // the old higher-privileged credentials keep being used until expiry.
    let ro = key_for("prod", "/a/config", "sso_role_name = ReadOnly");
    let admin = key_for("prod", "/a/config", "sso_role_name = Admin");
    assert_ne!(ro.text(), admin.text(), "the resolved role must be part of the key");

    // Unchanged configuration keeps hitting the same entry.
    assert_eq!(
        key_for("prod", "/a/config", "sso_role_name = ReadOnly").text(),
        key_for("prod", "/a/config", "sso_role_name = ReadOnly").text()
    );
}

#[test]
fn different_profiles_get_different_files() {
    assert_ne!(
        entry_path(&key("alpha-power"), Some("/d")),
        entry_path(&key("beta-power"), Some("/d"))
    );
    assert_eq!(
        entry_path(&key("beta-power"), Some("/d")),
        entry_path(&key("beta-power"), Some("/d"))
    );
}

#[test]
fn ambient_environment_credentials_bypass_the_cache() {
    // Environment credentials override profile configuration, so a
    // profile-keyed entry would describe a principal that is not in use.
    let off = disabled(None, Some("AKIAEXAMPLE"), None);
    assert!(off);
    assert!(load(off, Some(entry(60)), now()).is_none());
    assert!(disabled(None, None, Some("token")));
    assert!(disabled(Some("1"), None, None));
    assert!(!disabled(Some("0"), None, None));
    assert!(!disabled(Some(""), Some(""), Some("")));
    assert!(!disabled(None, None, None));
}

#[test]
fn no_cache_dir_is_resolved_when_the_environment_gives_no_absolute_home() {
    // A relative path would write credentials into whatever the current
    // working directory happened to be.
    assert_eq!(cache_dir_opt(None, None), None);
    assert_eq!(entry_path(&key("any-profile"), None), None);
    assert_eq!(cache_dir_opt(Some("relative/path"), None), None);
    assert_eq!(cache_dir(None, None), "");
}

#[test]
fn the_cache_dir_follows_xdg_state_home() {
    assert_eq!(
        cache_dir_opt(Some("/tmp/awsdiag-xdg"), Some("/home/u")).unwrap(),
        "/tmp/awsdiag-xdg/awsdiag/creds"
    );
    assert_eq!(
        cache_dir_opt(Some(""), Some("/home/u")).unwrap(),
        "/home/u/.local/state/awsdiag/creds"
    );
}

#[test]
fn a_missing_entry_is_a_miss_and_a_usable_one_a_hit() {
    assert!(load(false, None, now()).is_none());
    assert!(load(false, Some(entry(1)), now()).is_none());
    assert_eq!(load(false, Some(entry(60)), now()), Some(entry(60)));
}

#[test]
fn only_expiring_credentials_are_stored() {
    let e = entry(60);
    let kept = store(false, "AKIAEXAMPLE", "secret", Some("token"), e.expires_at);
    assert_eq!(kept, Some(entry(60)));
    assert_eq!(store(false, "AKIAEXAMPLE", "secret", None, None), None);
    assert_eq!(store(true, "AKIAEXAMPLE", "secret", None, e.expires_at), None);
}

#[test]
fn the_exact_skew_is_not_enough() {
    assert!(!entry(2).is_usable_at(now()));
    let mut e = entry(2);
    e.expires_at = Some(Instant {
        secs: now().secs + 120,
        nanos: 1,
    });
    assert!(e.is_usable_at(now()));
}

#[test]
fn a_key_is_sixteen_hexadecimal_digits() {
    let k = key("prod").text();
    assert_eq!(k.len(), 16);
    assert!(k.chars().all(|c| c.is_ascii_hexdigit()));
    assert_eq!(
        entry_path(&key("prod"), Some("/d")),
        Some(format!("/d/{k}.json"))
    );
}

#[test]
fn what_is_listed_is_an_entry_and_what_is_cleared_includes_leftovers() {
    assert!(is_entry("abc.json"));
    assert!(!is_entry("abc.tmp123"));
    assert!(!is_entry(".json"));
    assert!(is_evictable("abc.json"));
    assert!(is_evictable("abc.tmp123"));
    assert!(!is_evictable("notes.txt"));
    assert!(!is_evictable("json"));
}
