//! What a failure writes, in each output format.

use awsdiag::cmd::ec2::check_show;
use awsdiag::cmd::metrics::check_period;
use awsdiag::common::aws::resolve_targets;
use awsdiag::common::envelope::ErrorEnvelope;
use awsdiag::common::errors::Error;
use awsdiag::common::flags::{OutputFormat, TargetArgs};
use awsdiag::output::{failure_summary, render_failure};
use serde_json::Value;

fn no_such_profile() -> Error {
    let target = TargetArgs {
        profile: Some("definitely-not-a-real-profile".into()),
        profiles: None,
        region: None,
    };
    resolve_targets(&target, &Vec::new()).unwrap_err()
}

fn unknown_profile(format: OutputFormat) -> String {
    render_failure(&ErrorEnvelope::new("whoami", &no_such_profile()), format)
}

fn envelope(e: &Error) -> Value {
    let out = render_failure(&ErrorEnvelope::new("c", e), OutputFormat::Json);
    serde_json::from_str(&out).expect("envelope parses")
}

#[test]
fn json_failure_is_one_envelope_on_stdout() {
    let v: Value = serde_json::from_str(&unknown_profile(OutputFormat::Json)).unwrap();
    assert_eq!(v["ok"], Value::from(false));
    assert_eq!(v["kind"], Value::from("no_profile_match"));
}

#[test]
fn ndjson_failure_is_exactly_one_line() {
    let out = unknown_profile(OutputFormat::Ndjson);
    let lines: Vec<&str> = out.lines().collect();
    assert_eq!(lines.len(), 1, "one line: {out:?}");
    let v: Value = serde_json::from_str(lines[0]).expect("the line parses");
    assert_eq!(v["ok"], Value::from(false));
    assert_eq!(v["kind"], Value::from("no_profile_match"));
}

#[test]
fn text_failure_goes_to_stderr_only() {
    // A person reads stderr; a redirect must not capture an error line as if
    // it were data.
    assert_eq!(unknown_profile(OutputFormat::Text), "", "nothing on stdout");
    let stderr = failure_summary(&no_such_profile());
    assert_eq!(stderr.matches("error:").count(), 1, "stated once: {stderr}");
    assert!(stderr.contains("hint:"), "{stderr}");
}

#[test]
fn a_failure_without_a_hint_is_one_line() {
    let e = check_show(&Vec::new(), None).unwrap_err();
    assert_eq!(failure_summary(&e), format!("error: {}", e.message()));
}

#[test]
fn an_unacceptable_period_is_a_bad_argument_before_any_call() {
    for period in [0, 45] {
        let e = check_period(Some(period)).unwrap_err();
        let v = envelope(&e);
        assert_eq!(v["kind"], Value::from("bad_argument"), "{period}");
        assert!(
            v["error"].as_str().unwrap_or_default().contains("--period"),
            "{v}"
        );
    }
}

#[test]
fn ec2_show_without_instance_or_name_is_a_bad_argument_with_no_series_hint() {
    // Advice on the `--series` format would be nonsensical for a command that
    // has no such flag.
    let v = envelope(&check_show(&Vec::new(), None).unwrap_err());
    assert_eq!(v["kind"], Value::from("bad_argument"));
    assert!(v["hint"].is_null(), "no --series hint here: {v}");
    assert!(
        v["error"]
            .as_str()
            .unwrap_or_default()
            .contains("--instance"),
        "{v}"
    );
}
