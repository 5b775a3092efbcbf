//! What `whoami` reports for each profile.

use awsdiag::cmd::whoami::{count_resolved, identity, run, unavailable, Reply};
use awsdiag::common::errors::Error;
use awsdiag::common::flags::{OutputFormat, TargetArgs};
use awsdiag::output::render;

#[test]
fn one_dead_profile_does_not_discard_the_live_ones() {
    let target = TargetArgs {
        profile: None,
        profiles: Some("*-power".into()),
        region: Some("us-east-1".into()),
    };
    let live = identity(
        "alpha-power",
        Some("us-east-1".into()),
        Reply::Caller {
            account: Some("111122223333".into()),
            arn: Some("arn:aws:sts::111122223333:x".into()),
            user_id: None,
        },
        true,
    );
    let dead = identity(
        "beta-power",
        None,
        Reply::Failure(vec![
            "dispatch failure".into(),
            "Token has expired and refresh failed".into(),
        ]),
        true,
    );
    assert_eq!(
        dead.hint.as_deref(),
        Some("run `aws sso login --profile beta-power`")
    );
    assert!(dead.error.as_deref().unwrap().contains("beta-power"));
    let rows = vec![live, dead];
    assert_eq!(count_resolved(&rows), 1);
    let env = run(&target, rows);
    assert_eq!(env.count, 2);
    let out = render(&env, OutputFormat::Ndjson);
    assert_eq!(
        out.lines().next(),
        Some(
            "{\"profile\":\"alpha-power\",\"account\":\"111122223333\",\
             \"arn\":\"arn:aws:sts::111122223333:x\",\"user_id\":null,\
             \"region\":\"us-east-1\",\"error\":null,\"hint\":null}"
        )
    );
    let json = render(&env, OutputFormat::Json);
    assert!(json.contains("\"selector\": \"*-power\""), "{json}");
    assert!(json.contains("\"region\": \"us-east-1\""), "{json}");
}

#[test]
fn a_failure_without_advice_has_no_hint() {
    let e = Error::Aws {
        operation: "sts:GetCallerIdentity".into(),
        message: "throttled".into(),
    };
    let row = unavailable("p", None, &e);
    assert_eq!(row.error.as_deref(), Some("throttled"));
    assert_eq!(row.hint, None);
    assert_eq!(row.account, None);
}
