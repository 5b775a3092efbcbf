//! What each error says, and what it advises.

use awsdiag::common::errors::Error;
use awsdiag::common::time::TimeError;

#[test]
fn expired_credentials_name_the_exact_login_command() {
    // The whole point of the hint: recoverable without guessing the flag.
    let e = Error::Auth {
        profile: "beta-power".into(),
        sso: true,
    };
    assert_eq!(e.kind(), "auth");
    assert_eq!(
        e.hint().unwrap(),
        "run `aws sso login --profile beta-power`"
    );
}

#[test]
fn a_non_sso_profile_is_not_told_to_run_sso_login() {
    let e = Error::Auth {
        profile: "static-keys".into(),
        sso: false,
    };
    let hint = e.hint().unwrap();
    assert!(!hint.contains("sso login"), "got: {hint}");
    assert!(hint.contains("static-keys"));
}

#[test]
fn access_denied_is_distinct_from_auth() {
    // Conflating these sends the caller to re-login when the real problem
    // is the role, which wastes an SSO round trip and still fails.
    let e = Error::AccessDenied {
        profile: "beta-readonly".into(),
        operation: "ssm:SendCommand".into(),
    };
    assert_eq!(e.kind(), "access_denied");
    assert!(e.message().contains("ssm:SendCommand"));
    assert!(e.hint().unwrap().contains("higher-privilege"));
}

#[test]
fn unmatched_profile_glob_suggests_how_to_list_them() {
    let e = Error::NoProfileMatch {
        pattern: "*-admin".into(),
    };
    assert_eq!(e.kind(), "no_profile_match");
    assert!(e.message().contains("*-admin"));
    assert!(e.hint().is_some());
}

#[test]
fn errors_without_a_known_remedy_offer_no_hint() {
    // Fabricating a plausible-sounding fix is worse than admitting none.
    assert!(
        Error::Aws {
            operation: "logs:FilterLogEvents".into(),
            message: "throttled".into()
        }
        .hint()
        .is_none()
    );
    assert!(Error::Time(TimeError::Empty).hint().is_none());
}

#[test]
fn time_errors_convert_and_keep_their_message() {
    let e: Error = TimeError::MissingUnit("12".into()).into();
    assert_eq!(e.kind(), "bad_argument");
    assert!(e.message().contains("missing a unit"));
}
