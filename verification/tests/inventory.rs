//! Instances as they are described, listed and shown.

use awsdiag::cmd::ec2::{
    count_concerning, describe, describe_event, describe_page, describe_when, detail_of, health,
    health_rows, iso, ls, name_of, row, show, DescribedEvent, DescribedGroup, DescribedInstance,
    DescribedStatus, DescribedTag, InstanceRow, VolumeRef,
};
use awsdiag::common::flags::OutputFormat;
use awsdiag::output::render;

fn tag(k: &str, v: &str) -> DescribedTag {
    DescribedTag {
        key: Some(k.into()),
        value: Some(v.into()),
    }
}

fn described(id: &str, name: Option<&str>) -> DescribedInstance {
    DescribedInstance {
        instance_id: Some(id.into()),
        tags: name.map(|n| tag("Name", n)).into_iter().collect(),
        state: Some("running".into()),
        instance_type: Some("t3.micro".into()),
        az: Some("us-east-1a".into()),
        private_ip: None,
        launch_secs: Some(1_788_516_000),
        vpc_id: None,
        subnet_id: None,
        image_id: None,
        key_name: None,
        iam_profile: None,
        public_ip: None,
        monitoring: Some("enabled".into()),
        security_groups: vec![],
        volumes: vec![],
    }
}

fn ids(rows: &[InstanceRow]) -> Vec<&str> {
    rows.iter().map(|r| r.instance_id.as_str()).collect()
}

#[test]
fn the_name_is_the_first_name_tag() {
    let tags = vec![tag("env", "prod"), tag("Name", "web"), tag("Name", "other")];
    assert_eq!(name_of(&tags).as_deref(), Some("web"));
    assert_eq!(name_of(&vec![tag("name", "x")]), None);
}

#[test]
fn a_listing_is_by_name_and_id_and_says_that_it_was_cut() {
    let mut rows = Vec::new();
    describe_page(
        &mut rows,
        &vec![described("i-3", Some("web")), described("i-2", Some("app"))],
    );
    describe_page(&mut rows, &vec![described("i-1", None), described("i-0", Some("web"))]);
    assert_eq!(ids(&rows), ["i-3", "i-2", "i-1", "i-0"]);
    let (all, cut) = describe(rows, None);
    assert_eq!(ids(&all), ["i-1", "i-2", "i-0", "i-3"]);
    assert!(!cut);
    let env = ls("p", Some("running"), None, Some(2), all);
    assert_eq!(ids(&env.data), ["i-1", "i-2"]);
    assert!(env.truncated);
    let json = render(&env, OutputFormat::Json);
    assert!(json.contains("\"launched\": \"2026-09-04T10:00:00Z\""), "{json}");
    assert!(json.contains("\"state\": \"running\""), "{json}");
}

#[test]
fn a_row_keeps_what_was_described() {
    let r = row(&described("i-1", Some("web")));
    assert_eq!(r.name.as_deref(), Some("web"));
    assert_eq!(r.instance_type.as_deref(), Some("t3.micro"));
    assert_eq!(r.launched.unwrap().secs, 1_788_516_000);
    let mut far = described("i-1", None);
    far.launch_secs = Some(i64::MAX);
    assert!(row(&far).launched.is_none());
}

#[test]
fn a_detail_lists_groups_volumes_and_each_tag_once() {
    let mut i = described("i-1", None);
    i.tags = vec![tag("b", "1"), tag("a", "2"), tag("b", "3")];
    i.security_groups = vec![
        DescribedGroup {
            name: Some("web".into()),
            id: Some("sg-1".into()),
        },
        DescribedGroup {
            name: None,
            id: Some("sg-2".into()),
        },
        DescribedGroup {
            name: None,
            id: None,
        },
    ];
    i.volumes = vec![VolumeRef {
        device: Some("/dev/xvda".into()),
        volume_id: Some("vol-1".into()),
        delete_on_termination: Some(true),
        attach_status: Some("attached".into()),
    }];
    let d = detail_of(&i);
    assert!(d.detailed_monitoring);
    assert_eq!(
        d.tags,
        vec![
            ("a".to_string(), "2".to_string()),
            ("b".to_string(), "3".to_string())
        ]
    );
    assert_eq!(d.security_groups, ["web", "sg-2"]);
    assert_eq!(d.volumes[0].volume_id.as_deref(), Some("vol-1"));
}

#[test]
fn showing_sorts_by_name() {
    let ds = vec![described("i-2", Some("z")), described("i-1", Some("a"))];
    let env = show("p", &vec!["i-1".into()], None, &ds);
    let order: Vec<&str> = env
        .data
        .iter()
        .map(|d| d.summary.instance_id.as_str())
        .collect();
    assert_eq!(order, ["i-1", "i-2"]);
    assert!(!env.truncated);
}

#[test]
fn an_event_says_when_it_happens() {
    assert_eq!(iso(1_788_516_000), "2026-09-04T10:00:00Z");
    assert_eq!(describe_when(None, None), "");
    assert_eq!(describe_when(Some("a".into()), Some("b".into())), " [a to b]");
    assert_eq!(describe_when(Some("a".into()), None), " [from a]");
    assert_eq!(describe_when(None, Some("b".into())), " [by b]");
    let e = DescribedEvent {
        code: Some("instance-stop".into()),
        description: Some("retiring".into()),
        not_before: Some(1_788_516_000),
        not_after: None,
    };
    assert_eq!(
        describe_event(&e),
        "instance-stop: retiring [from 2026-09-04T10:00:00Z]"
    );
}

fn status(id: &str, system: &str) -> DescribedStatus {
    DescribedStatus {
        instance_id: Some(id.into()),
        state: Some("running".into()),
        system_status: Some(system.into()),
        instance_status: Some("ok".into()),
        events: vec![],
    }
}

#[test]
fn health_is_worst_first_and_a_cap_keeps_the_worst() {
    let named = vec![
        row(&described("i-1", Some("a"))),
        row(&described("i-2", Some("b"))),
    ];
    let statuses = vec![status("i-1", "ok"), status("i-2", "impaired")];
    let rows = health_rows(&statuses, &named);
    assert_eq!(count_concerning(&rows), 1);
    assert_eq!(rows[0].name.as_deref(), Some("a"));
    let env = health("p", &Vec::new(), Some(1), rows);
    assert_eq!(env.data.len(), 1);
    assert_eq!(env.data[0].instance_id, "i-2");
    assert!(env.truncated);
}
