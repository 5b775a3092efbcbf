//! Instance health and the filters behind a listing.

use awsdiag::cmd::ec2::{build_filters, is_concerning, Filter, HealthRow};

fn names(filters: &[Filter]) -> Vec<&str> {
    filters.iter().filter_map(|f| f.name()).collect()
}

fn row_of(state: &str, sys: &str, inst: &str, events: &[&str]) -> HealthRow {
    HealthRow {
        instance_id: "i-placeholder".into(),
        name: Some("placeholder".into()),
        state: Some(state.into()),
        system_status: Some(sys.into()),
        instance_status: Some(inst.into()),
        events: events.iter().map(|e| (*e).to_string()).collect(),
    }
}

#[test]
fn a_healthy_running_instance_is_not_concerning() {
    assert!(!is_concerning(&row_of("running", "ok", "ok", &[])));
}

#[test]
fn an_impaired_running_instance_is_concerning() {
    assert!(is_concerning(&row_of("running", "impaired", "ok", &[])));
    assert!(is_concerning(&row_of("running", "ok", "impaired", &[])));
}

#[test]
fn a_scheduled_event_is_concerning_even_when_every_check_passes() {
    // The reason events are collected at all: an instance can pass every
    // check and still be scheduled for a stop tonight.
    assert!(is_concerning(&row_of(
        "running",
        "ok",
        "ok",
        &["instance-stop: retiring"]
    )));
}

#[test]
fn a_stopped_instance_is_not_concerning() {
    // AWS reports not-applicable / insufficient-data for anything not
    // running. Treating that as a failure would sort every deliberately
    // stopped instance above the running ones, burying a genuinely
    // impaired host -- the opposite of what "worst first" is for.
    for state in ["stopped", "terminated", "shutting-down", "stopping"] {
        assert!(
            !is_concerning(&row_of(state, "not-applicable", "not-applicable", &[])),
            "{state} should not be flagged"
        );
        assert!(
            !is_concerning(&row_of(
                state,
                "insufficient-data",
                "insufficient-data",
                &[]
            )),
            "{state} should not be flagged"
        );
    }
}

#[test]
fn the_ordering_and_the_count_cannot_disagree() {
    // One function drives both, so a pending retirement cannot sort to the
    // top of a table headed `0 not ok`.
    let rows = vec![
        row_of("running", "ok", "ok", &[]),
        row_of("running", "ok", "ok", &["instance-reboot: scheduled"]),
        row_of("stopped", "not-applicable", "not-applicable", &[]),
        row_of("running", "impaired", "ok", &[]),
    ];
    let mut sorted = rows.clone();
    sorted.sort_by_key(|r| (!is_concerning(r), r.name.clone(), r.instance_id.clone()));
    let count = rows.iter().filter(|r| is_concerning(r)).count();
    assert_eq!(count, 2, "the scheduled reboot and the impaired host");
    assert!(
        sorted.iter().take(count).all(is_concerning),
        "everything counted must sort first"
    );
    assert!(
        !sorted.iter().skip(count).any(is_concerning),
        "nothing after the counted rows may be concerning"
    );
}

#[test]
fn no_criteria_produces_no_filters() {
    assert!(build_filters(None, None).is_empty());
}

#[test]
fn state_and_name_become_server_side_filters() {
    // Filtering server-side matters: an account with thousands of
    // instances would otherwise page all of them back to discard most.
    let f = build_filters(Some("running"), Some("web-*"));
    assert_eq!(names(&f), vec!["instance-state-name", "tag:Name"]);
    assert_eq!(f[0].values(), ["running"]);
    assert_eq!(f[1].values(), ["web-*"]);
}

#[test]
fn either_criterion_works_alone() {
    assert_eq!(
        names(&build_filters(Some("stopped"), None)),
        vec!["instance-state-name"]
    );
    assert_eq!(names(&build_filters(None, Some("db-?"))), vec!["tag:Name"]);
}

#[test]
fn a_name_glob_is_passed_through_for_ec2_to_match() {
    // EC2 filter values support `*` and `?` natively; expanding them here
    // would mean fetching everything first, which is the cost this avoids.
    let f = build_filters(None, Some("app-*-01"));
    assert_eq!(f[0].values(), ["app-*-01"]);
}
