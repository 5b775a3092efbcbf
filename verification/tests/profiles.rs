//! Profiles of the shared configuration file, and how they are selected.

use awsdiag::common::profiles::{is_sso, parse_profile_names, resolve, section_text};

const CONFIG: &str = r#"
[sso-session example-sso]
sso_start_url = https://example.awsapps.com/start
sso_region = us-east-1

[default]
region = us-east-1

[profile alpha-readonly]
sso_session = example-sso
sso_role_name = ReadOnly

[profile alpha-power]
sso_session = example-sso

[profile beta-power]
sso_session = example-sso

[profile beta-admin]
sso_session = example-sso

[profile gamma-admin]
region = us-east-1
"#;

fn names() -> Vec<String> {
    parse_profile_names(CONFIG)
}

#[test]
fn parses_default_and_named_profiles() {
    assert_eq!(
        names(),
        vec![
            "default",
            "alpha-readonly",
            "alpha-power",
            "beta-power",
            "beta-admin",
            "gamma-admin",
        ]
    );
}

#[test]
fn sso_session_sections_are_not_profiles() {
    // `[sso-session example-sso]` is not usable as --profile; selecting it
    // would fail at credential resolution with an opaque message.
    assert!(!names().contains(&"example-sso".to_string()));
}

#[test]
fn tolerates_comments_and_odd_spacing() {
    let cfg = "[ profile spaced ]\n[profile commented] # trailing note\n";
    assert_eq!(parse_profile_names(cfg), vec!["spaced", "commented"]);
}

#[test]
fn glob_selects_across_environments() {
    let n = names();
    assert_eq!(
        resolve("*-power", &n).unwrap(),
        vec!["alpha-power", "beta-power"]
    );
}

#[test]
fn glob_selects_all_roles_in_one_environment() {
    let n = names();
    assert_eq!(
        resolve("beta-*", &n).unwrap(),
        vec!["beta-power", "beta-admin"]
    );
}

#[test]
fn an_exact_name_resolves_to_just_itself() {
    let n = names();
    assert_eq!(resolve("gamma-admin", &n).unwrap(), vec!["gamma-admin"]);
}

#[test]
fn a_typo_fails_loudly_instead_of_matching_nothing_silently() {
    // Returning an empty set here would look like "no results found",
    // which reads as a clean bill of health rather than a mistake.
    let n = names();
    let err = resolve("beta-powr", &n).unwrap_err();
    assert_eq!(err.kind(), "no_profile_match");
    assert!(err.message().contains("beta-powr"));
}

#[test]
fn a_glob_matching_nothing_also_fails() {
    let n = names();
    assert!(resolve("nonexistent-*", &n).is_err());
}

#[test]
fn sso_profiles_are_detected_from_their_own_section() {
    assert!(is_sso(CONFIG, "alpha-readonly"));
    assert!(is_sso(CONFIG, "beta-power"));
}

#[test]
fn a_profile_without_sso_keys_is_not_sso() {
    // `gamma-admin` here has only `region`, while the profile directly
    // above it has `sso_session` -- so this also proves section state is
    // reset at each header rather than leaking downward.
    assert!(!is_sso(CONFIG, "gamma-admin"));
    assert!(!is_sso(CONFIG, "default"));
    assert!(!is_sso(CONFIG, "nonexistent"));
}

#[test]
fn section_text_captures_what_decides_the_principal() {
    let t = section_text(CONFIG, "alpha-readonly");
    assert!(t.contains("sso_session = example-sso"));
    assert!(t.contains("sso_role_name = ReadOnly"));
    // Only this profile's own section.
    assert!(!t.contains("prod"));
}

#[test]
fn section_text_changes_when_the_role_changes() {
    // Re-pointing a profile at a different role must produce a different
    // fingerprint, or a cached credential outlives the change.
    let before = section_text(CONFIG, "alpha-readonly");
    let after = section_text(&CONFIG.replace("ReadOnly", "AdminAccess"), "alpha-readonly");
    assert_ne!(before, after);
}

#[test]
fn section_text_is_insensitive_to_line_order() {
    let reordered = CONFIG.replace(
        "[profile alpha-readonly]\nsso_session = example-sso\nsso_role_name = ReadOnly",
        "[profile alpha-readonly]\nsso_role_name = ReadOnly\nsso_session = example-sso",
    );
    assert_eq!(
        section_text(CONFIG, "alpha-readonly"),
        section_text(&reordered, "alpha-readonly")
    );
}

#[test]
fn an_absent_profile_has_an_empty_section() {
    assert_eq!(section_text(CONFIG, "nonexistent"), "");
}

#[test]
fn empty_config_yields_no_profiles() {
    assert!(parse_profile_names("").is_empty());
    assert!(resolve("*", &[]).is_err());
}

#[test]
fn section_text_ignores_other_sections_and_their_order() {
    let before = section_text(CONFIG, "alpha-power");
    assert_eq!(before, "sso_session = example-sso");
    let changed = CONFIG.replace("ReadOnly", "AdminAccess").replace(
        "region = us-east-1",
        "region = eu-west-1\nfirst = 1\nsecond = 2",
    );
    assert_eq!(section_text(&changed, "alpha-power"), before);
    let exchanged = CONFIG.replace("[profile beta-power]\nsso_session = example-sso\n\n", "")
        + "[profile beta-power]\nsso_session = example-sso\n";
    for p in ["alpha-readonly", "beta-power", "beta-admin"] {
        assert_eq!(section_text(&exchanged, p), section_text(CONFIG, p), "{p}");
    }
}

#[test]
fn section_text_tells_every_line_of_the_section() {
    let text = |body: &str| section_text(&format!("[profile p]\n{body}"), "p");
    assert_eq!(text("b = 2\n\na = 1 # why\n"), "a = 1\nb = 2");
    assert_ne!(text("a = 1\nb = 2"), text("a = 1\nb = 3"));
    assert_ne!(text("a = 1\nb = 2"), text("a = 1\nb = 2\nb = 2"));
}

#[test]
fn a_selector_beyond_the_bounds_is_an_error() {
    let n = names();
    let nested = format!("{}a*{}", "{".repeat(300), "}".repeat(300));
    for pattern in [nested, "a".repeat(20_000)] {
        let e = resolve(&pattern, &n).unwrap_err();
        assert!(e.message().contains("too long or nests too deeply"));
    }
}

#[test]
fn sso_is_told_by_the_lines_of_the_section() {
    for p in ["default", "alpha-readonly", "beta-admin", "gamma-admin", "nonexistent"] {
        let told = section_text(CONFIG, p).lines().any(|l| {
            l.split_once('=')
                .is_some_and(|(k, _)| k.trim() == "sso_session" || k.trim() == "sso_start_url")
        });
        assert_eq!(is_sso(CONFIG, p), told, "{p}");
    }
}
