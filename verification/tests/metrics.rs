//! Series specifications and their labels.

use awsdiag::cmd::metrics::{label_series, SeriesSpec};

#[test]
fn a_full_spec_parses_into_its_parts() {
    let s = SeriesSpec::parse("AWS/EC2/CPUUtilization:Maximum,InstanceId=i-0abc").unwrap();
    assert_eq!(s.namespace, "AWS/EC2");
    assert_eq!(s.metric, "CPUUtilization");
    assert_eq!(s.stat, "Maximum");
    assert_eq!(s.dimensions, vec![("InstanceId".into(), "i-0abc".into())]);
}

#[test]
fn the_statistic_defaults_to_average() {
    // The commonest choice, and leaving it out keeps a comparison of ten
    // resources readable on one line.
    let s = SeriesSpec::parse("AWS/EC2/CPUUtilization,InstanceId=x").unwrap();
    assert_eq!(s.stat, "Average");
}

#[test]
fn a_namespace_containing_slashes_keeps_them() {
    // `AWS/ApplicationELB` and the metric name both contain no slash, but
    // the namespace itself does -- splitting on the first slash would put
    // `EC2/CPUUtilization` in the metric name.
    let s = SeriesSpec::parse("AWS/ApplicationELB/HTTPCode_Target_5XX_Count").unwrap();
    assert_eq!(s.namespace, "AWS/ApplicationELB");
    assert_eq!(s.metric, "HTTPCode_Target_5XX_Count");
}

#[test]
fn several_dimensions_are_kept_in_order() {
    let s =
        SeriesSpec::parse("AWS/FSx/StorageUsed,FileSystemId=fs-1,VolumeId=fsvol-2").unwrap();
    assert_eq!(
        s.dimensions,
        vec![
            ("FileSystemId".into(), "fs-1".into()),
            ("VolumeId".into(), "fsvol-2".into())
        ]
    );
}

#[test]
fn a_spec_with_no_dimensions_is_allowed() {
    // Namespace-wide aggregates are legitimate.
    let s = SeriesSpec::parse("AWS/Lambda/Errors:Sum").unwrap();
    assert!(s.dimensions.is_empty());
    assert_eq!(s.stat, "Sum");
}

#[test]
fn malformed_specs_are_rejected_with_the_offending_text() {
    for bad in [
        "CPUUtilization",
        "AWS/EC2/CPU,InstanceId",
        "AWS/EC2/CPU,=v",
        "/Metric",
        "AWS/",
    ] {
        let e = SeriesSpec::parse(bad).unwrap_err();
        assert_eq!(e.kind(), "bad_argument", "{bad}");
        assert!(e.message().contains(bad) || bad.is_empty(), "{bad}: {e:?}");
    }
}

fn specs(raw: &[&str]) -> Vec<SeriesSpec> {
    raw.iter().map(|r| SeriesSpec::parse(r).unwrap()).collect()
}

#[test]
fn labels_use_the_dimension_that_actually_differs() {
    // The last dimension is shared and only `Resource` tells them apart.
    let s = specs(&[
        "AWS/Usage/CallCount:Sum,Class=None,Resource=GetMetricData,Service=CloudWatch,Type=API",
        "AWS/Usage/CallCount:Sum,Class=None,Resource=ListMetrics,Service=CloudWatch,Type=API",
    ]);
    assert_eq!(label_series(&s), vec!["GetMetricData", "ListMetrics"]);
}

#[test]
fn labels_are_always_distinct() {
    // A legend with duplicate entries cannot be read, and these labels are
    // what the report charts key on.
    for raw in [
        vec![
            "AWS/EC2/CPUUtilization,InstanceId=i-a",
            "AWS/EC2/CPUUtilization,InstanceId=i-b",
        ],
        vec!["AWS/Lambda/Errors:Sum", "AWS/Lambda/Invocations:Sum"],
        vec![
            "AWS/EC2/CPUUtilization,InstanceId=i-a",
            "AWS/EC2/NetworkIn,InstanceId=i-b",
        ],
        vec![
            "AWS/Usage/CallCount,Type=API,Resource=A",
            "AWS/Usage/CallCount,Type=API,Resource=B",
        ],
        vec![
            "AWS/FSx/StorageUsed,FileSystemId=f1,VolumeId=v1",
            "AWS/FSx/StorageUsed,FileSystemId=f1,VolumeId=v2",
        ],
    ] {
        let labels = label_series(&specs(&raw));
        let unique: std::collections::BTreeSet<&String> = labels.iter().collect();
        assert_eq!(
            unique.len(),
            labels.len(),
            "duplicate labels for {raw:?}: {labels:?}"
        );
    }
}

#[test]
fn a_differing_metric_name_is_kept_in_the_label() {
    assert_eq!(
        label_series(&specs(&[
            "AWS/Lambda/Errors:Sum",
            "AWS/Lambda/Invocations:Sum"
        ])),
        vec!["Errors", "Invocations"]
    );
}

#[test]
fn both_metric_and_dimension_appear_when_both_vary() {
    assert_eq!(
        label_series(&specs(&[
            "AWS/EC2/CPUUtilization,InstanceId=i-a",
            "AWS/EC2/NetworkIn,InstanceId=i-b",
        ])),
        vec!["CPUUtilization i-a", "NetworkIn i-b"]
    );
}

#[test]
fn a_shared_dimension_is_left_out_of_the_label() {
    // FileSystemId is the same for both, so naming it adds noise.
    let labels = label_series(&specs(&[
        "AWS/FSx/StorageUsed,FileSystemId=f1,VolumeId=v1",
        "AWS/FSx/StorageUsed,FileSystemId=f1,VolumeId=v2",
    ]));
    assert_eq!(labels, vec!["v1", "v2"]);
}

#[test]
fn a_single_series_is_labelled_by_its_metric() {
    assert_eq!(
        label_series(&specs(&["AWS/Lambda/Errors:Sum"])),
        vec!["Errors"]
    );
}

#[test]
fn identical_specs_fall_back_to_the_full_text_rather_than_colliding() {
    // Two genuinely identical series cannot be told apart by any subset,
    // so the full spec is used: ugly, but never ambiguous.
    let labels = label_series(&specs(&["AWS/Lambda/Errors:Sum", "AWS/Lambda/Errors:Sum"]));
    assert_eq!(labels.len(), 2);
    assert!(labels.iter().all(|l| l.contains("AWS/Lambda/Errors")));
}
