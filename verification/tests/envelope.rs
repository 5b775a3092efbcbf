//! The envelope every command emits.

use awsdiag::common::envelope::{capped, Envelope, ErrorEnvelope};
use awsdiag::common::errors::Error;
use awsdiag::common::flags::OutputFormat;
use awsdiag::json::{object, put, text, Json};
use awsdiag::output::{render, render_failure};
use serde_json::Value;

fn env(data: Vec<&'static str>) -> Envelope<Json> {
    let mut params = Vec::new();
    put(&mut params, "group", text("/aws/lambda/x"));
    Envelope::new("logs scan", object(params), data.into_iter().map(text).collect())
}

#[test]
fn count_is_derived_from_the_data_it_describes() {
    assert_eq!(env(vec!["a", "b", "c"]).count, 3);
    assert_eq!(env(vec![]).count, 0);
}

#[test]
fn a_complete_result_is_not_marked_truncated() {
    let e = env(vec!["a"]);
    assert!(e.ok);
    assert!(!e.truncated);
    assert!(e.next.is_none());
}

#[test]
fn success_serializes_with_every_contract_field_present() {
    let out = render(&env(vec!["a", "b"]), OutputFormat::Json);
    let v: Value = serde_json::from_str(&out).unwrap();
    assert_eq!(v["ok"], Value::from(true));
    assert_eq!(v["command"], Value::from("logs scan"));
    assert_eq!(v["count"], Value::from(2));
    assert_eq!(v["truncated"], Value::from(false));
    assert_eq!(v["next"], Value::Null);
    assert_eq!(v["data"], Value::from(vec!["a", "b"]));
    assert_eq!(v["params"]["group"], Value::from("/aws/lambda/x"));
}

#[test]
fn failure_serializes_with_ok_false_and_carries_the_hint() {
    let err = Error::Auth {
        profile: "beta-power".into(),
        sso: true,
    };
    let out = render_failure(&ErrorEnvelope::new("logs scan", &err), OutputFormat::Json);
    let v: Value = serde_json::from_str(&out).unwrap();
    assert_eq!(v["ok"], Value::from(false));
    assert_eq!(v["kind"], Value::from("auth"));
    assert!(v["error"].as_str().unwrap().contains("beta-power"));
    assert_eq!(
        v["hint"],
        Value::from("run `aws sso login --profile beta-power`")
    );
}

#[test]
fn marking_changes_nothing_else() {
    let e = env(vec!["a"]).truncated(true);
    assert!(e.truncated && e.ok && e.count == 1 && e.next.is_none());
    assert_eq!(e.command, "logs scan");
}

#[test]
fn a_cap_keeps_the_front_and_says_that_it_cut() {
    assert_eq!(capped(vec![1, 2, 3], Some(2)), (vec![1, 2], true));
    assert_eq!(capped(vec![1, 2], Some(2)), (vec![1, 2], false));
    assert_eq!(capped(vec![1, 2], None), (vec![1, 2], false));
    assert_eq!(capped(vec![1], Some(0)), (vec![], true));
}

#[test]
fn a_limit_cuts_the_records_and_says_so() {
    let e = env(vec!["a", "b", "c"]).limited(Some(2));
    assert_eq!((e.count, e.data.len()), (2, 2));
    assert!(e.ok && e.truncated);
    assert_eq!(e.command, "logs scan");
    let e = env(vec!["a", "b"]).limited(Some(2));
    assert!(e.count == 2 && !e.truncated);
    let e = env(vec!["a"]).truncated(true).limited(None);
    assert!(e.count == 1 && e.truncated);
    let e = env(vec!["a"]).limited(Some(0));
    assert!(e.count == 0 && e.truncated);
}
