//! The rows of each command, as they are written.

use awsdiag::cluster::template::{cluster, LogEvent};
use awsdiag::cmd::ec2::{HealthRow, InstanceDetail, InstanceRow, VolumeRef};
use awsdiag::cmd::logs::{LogGroup, RawEvent};
use awsdiag::cmd::records::{summary_record, Figures};
use awsdiag::common::time::Instant;
use awsdiag::json::compact_text;
use awsdiag::metrics::align::Summary;
use awsdiag::output::Record;

const AT: Instant = Instant {
    secs: 1_788_516_000,
    nanos: 0,
};

fn text_of(r: &impl Record) -> String {
    compact_text(&r.record()).into_iter().collect()
}

#[test]
fn log_rows() {
    let g = LogGroup {
        name: "/g".into(),
        retention_days: Some(14),
        stored_bytes: None,
        created: Some(AT),
    };
    assert_eq!(
        text_of(&g),
        r#"{"name":"/g","retention_days":14,"stored_bytes":null,"created":"2026-09-04T10:00:00Z"}"#
    );
    let e = RawEvent {
        ts: Instant {
            secs: AT.secs,
            nanos: 250_000_000,
        },
        group: "/g".into(),
        stream: "s".into(),
        message: "a\"b".into(),
    };
    let want =
        r#"{"ts":"2026-09-04T10:00:00.250Z","group":"/g","stream":"s","message":"a\"b"}"#;
    assert_eq!(text_of(&e), want);
    assert_eq!(text_of(&&e), want);
}

#[test]
fn cluster_rows() {
    let events = [LogEvent {
        timestamp: AT,
        stream: "s".into(),
        message: "took 12ms".into(),
    }];
    let c = cluster(&events, AT, AT, 2);
    let id = &c[0].cluster_id;
    assert_eq!(
        text_of(&c[0]),
        format!(
            "{{\"cluster_id\":\"{id}\",\"status\":\"unknown\",\"count\":1,\
             \"first_seen\":\"2026-09-04T10:00:00Z\",\"last_seen\":\"2026-09-04T10:00:00Z\",\
             \"template\":\"took <*>\",\"histogram\":[1,0],\
             \"by_stream\":[{{\"stream\":\"s\",\"count\":1}}],\"other_streams\":0,\
             \"exemplar\":{{\"ts\":\"2026-09-04T10:00:00Z\",\"stream\":\"s\",\
             \"message\":\"took 12ms\"}}}}"
        )
    );
}

fn instance() -> InstanceRow {
    InstanceRow {
        instance_id: "i-1".into(),
        name: Some("web".into()),
        state: Some("running".into()),
        instance_type: None,
        az: None,
        private_ip: None,
        launched: None,
    }
}

#[test]
fn instance_rows() {
    let head = "{\"instance_id\":\"i-1\",\"name\":\"web\",\"state\":\"running\",\
                \"instance_type\":null,\"az\":null,\"private_ip\":null,\"launched\":null";
    assert_eq!(text_of(&instance()), format!("{head}}}"));
    let d = InstanceDetail {
        summary: instance(),
        vpc_id: None,
        subnet_id: None,
        image_id: None,
        key_name: None,
        iam_profile: None,
        public_ip: None,
        detailed_monitoring: true,
        security_groups: vec!["sg (1)".into()],
        volumes: vec![VolumeRef {
            device: Some("/dev/xvda".into()),
            volume_id: None,
            delete_on_termination: Some(false),
            attach_status: None,
        }],
        tags: vec![("Name".into(), "web".into())],
    };
    assert_eq!(
        text_of(&d),
        format!(
            "{head},\"vpc_id\":null,\"subnet_id\":null,\"image_id\":null,\"key_name\":null,\
             \"iam_profile\":null,\"public_ip\":null,\"detailed_monitoring\":true,\
             \"security_groups\":[\"sg (1)\"],\"volumes\":[{{\"device\":\"/dev/xvda\",\
             \"volume_id\":null,\"delete_on_termination\":false,\"attach_status\":null}}],\
             \"tags\":{{\"Name\":\"web\"}}}}"
        )
    );
    let h = HealthRow {
        instance_id: "i-1".into(),
        name: None,
        state: Some("running".into()),
        system_status: Some("ok".into()),
        instance_status: None,
        events: vec!["e".into()],
    };
    assert_eq!(
        text_of(&h),
        "{\"instance_id\":\"i-1\",\"name\":null,\"state\":\"running\",\
         \"system_status\":\"ok\",\"instance_status\":null,\"events\":[\"e\"]}"
    );
}

#[test]
fn summary_rows() {
    let s = Summary {
        label: "a".into(),
        datapoints: 2,
        min: None,
        mean: None,
        max: None,
        latest: None,
    };
    let f = Figures {
        min: Some("1.0".into()),
        mean: Some("1.5".into()),
        max: Some("2.0".into()),
        latest: None,
    };
    let out: String = compact_text(&summary_record(&s, &f)).into_iter().collect();
    assert_eq!(
        out,
        r#"{"label":"a","datapoints":2,"min":1.0,"mean":1.5,"max":2.0,"latest":null}"#
    );
}
