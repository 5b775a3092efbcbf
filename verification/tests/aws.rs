//! Failures of the service, and where its configuration is read from.

use awsdiag::common::aws::{config_path, map_sdk_error};
use awsdiag::common::errors::Error;

/// The chain this SDK emits for a logged-out SSO profile.
///
/// These are the SDK's own wrapper strings, not service output. They are
/// pinned here because the marker list is matched against them: if a SDK
/// upgrade reworded any of them the expiry hint would silently stop
/// firing, which is exactly the failure this guards.
const LOGGED_OUT_SSO_CHAIN: [&str; 5] = [
    "dispatch failure",
    "an error occurred while loading credentials",
    "an error occurred while loading credentials",
    "an error occurred while loading an access token",
    "failed to load the cached SSO token",
];

fn nest(msgs: &[&str]) -> Vec<String> {
    msgs.iter().map(|m| m.to_string()).collect()
}

fn err(outer: &str, inner: Option<&str>) -> Vec<String> {
    let mut v = vec![outer.to_string()];
    v.extend(inner.map(str::to_string));
    v
}

#[test]
fn the_real_logged_out_sso_chain_produces_a_login_hint() {
    // The commonest failure, so the one a hint matters most for.
    let mapped = map_sdk_error(
        &nest(&LOGGED_OUT_SSO_CHAIN),
        "beta-power",
        "sts:GetCallerIdentity",
        true,
    );
    assert_eq!(mapped.kind(), "auth");
    assert_eq!(
        mapped.hint().unwrap(),
        "run `aws sso login --profile beta-power`"
    );
}

#[test]
fn the_rendered_chain_is_single_line_and_deduplicated() {
    // Newlines broke text-mode column alignment; the SDK also repeats the
    // same wrapper text at consecutive levels.
    let mapped = map_sdk_error(&nest(&LOGGED_OUT_SSO_CHAIN), "p", "op", true);
    let Error::Auth { .. } = mapped else {
        panic!("expected auth")
    };
    let generic = map_sdk_error(&nest(&["outer", "outer", "inner detail"]), "p", "op", true);
    let text = generic.message();
    assert!(!text.contains('\n'), "single line: {text:?}");
    assert_eq!(text, "outer: inner detail");
}

#[test]
fn expired_sso_is_recognised_from_a_nested_source() {
    // The useful marker is never in the outermost message, so a
    // non-recursive check would miss every real expiry.
    let e = err(
        "dispatch failure",
        Some("the SSO session associated with this profile has expired"),
    );
    assert_eq!(
        map_sdk_error(&e, "beta-power", "sts:GetCallerIdentity", true).kind(),
        "auth"
    );
}

#[test]
fn expired_token_service_error_is_recognised() {
    let e = err(
        "service error",
        Some("ExpiredToken: The security token included in the request is expired"),
    );
    assert_eq!(
        map_sdk_error(&e, "p", "sts:GetCallerIdentity", true).kind(),
        "auth"
    );
}

#[test]
fn access_denied_maps_to_its_own_kind() {
    let e = err(
        "service error",
        Some("AccessDenied: User is not authorized to perform ssm:SendCommand"),
    );
    let mapped = map_sdk_error(&e, "beta-readonly", "ssm:SendCommand", true);
    assert_eq!(mapped.kind(), "access_denied");
    assert!(mapped.hint().unwrap().contains("higher-privilege"));
}

#[test]
fn an_unrecognised_error_keeps_its_message_and_is_not_called_auth() {
    // Mislabelling a throttle as expired credentials sends the caller to
    // `aws sso login`, which wastes time and does not help.
    let e = err(
        "dispatch failure",
        Some("ThrottlingException: Rate exceeded"),
    );
    let mapped = map_sdk_error(&e, "p", "logs:FilterLogEvents", true);
    assert_eq!(mapped.kind(), "aws");
    assert!(mapped.message().contains("Rate exceeded"));
    assert!(mapped.hint().is_none());
}

#[test]
fn marker_matching_is_case_insensitive() {
    let e = err("x", Some("EXPIREDTOKEN"));
    assert_eq!(map_sdk_error(&e, "p", "op", true).kind(), "auth");
}

#[test]
fn config_path_honours_the_environment_override() {
    assert_eq!(
        config_path(Some("/tmp/awsdiag-test-config"), Some("/home/u")),
        "/tmp/awsdiag-test-config"
    );
}
