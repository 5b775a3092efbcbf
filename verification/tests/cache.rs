//! What the cache commands report.

use awsdiag::cmd::cache::{clear, count_usable, status, FoundFile};
use awsdiag::common::credcache::Entry;
use awsdiag::common::flags::OutputFormat;
use awsdiag::common::time::Instant;
use awsdiag::output::render;

const NOW: Instant = Instant {
    secs: 1_788_530_400,
    nanos: 0,
};

fn file(name: &str, expires_in: Option<i64>) -> FoundFile {
    FoundFile {
        name: name.into(),
        entry: expires_in.map(|s| Entry {
            access_key_id: "a".into(),
            secret_access_key: "b".into(),
            session_token: None,
            expires_at: Some(Instant {
                secs: NOW.secs + s,
                nanos: 0,
            }),
        }),
    }
}

#[test]
fn status_lists_entries_by_file_and_keeps_malformed_ones() {
    let files = vec![
        file("b.json", Some(3600)),
        file("a.json", None),
        file("c.tmp12", Some(3600)),
        file("0.json", Some(60)),
    ];
    let env = status(NOW, Some("/d"), files);
    let names: Vec<&str> = env.data.iter().map(|e| e.file.as_str()).collect();
    assert_eq!(names, ["0.json", "a.json", "b.json"]);
    let usable: Vec<bool> = env.data.iter().map(|e| e.usable).collect();
    assert_eq!(usable, [false, false, true]);
    assert!(env.data[1].expires_at.is_none());
    assert_eq!(count_usable(&env.data), 1);
    assert_eq!(
        render(&env, OutputFormat::Ndjson).lines().last(),
        Some(r#"{"file":"b.json","expires_at":"2026-09-04T15:00:00Z","usable":true}"#)
    );
}

#[test]
fn without_a_directory_nothing_is_listed() {
    let env = status(NOW, None, vec![file("a.json", Some(3600))]);
    assert_eq!(env.count, 0);
    assert!(render(&env, OutputFormat::Json).contains("\"dir\": null"));
}

#[test]
fn clearing_reports_how_much_and_where() {
    let env = clear("/d", 3);
    assert_eq!(env.command, "cache clear");
    assert_eq!(
        render(&env, OutputFormat::Ndjson),
        r#"{"removed":3,"dir":"/d"}"#
    );
}
