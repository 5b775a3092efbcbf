//! What the tokenizer masks and what it keeps.

use awsdiag::cluster::tokenize::{template, MAX_TEMPLATE_CHARS, MAX_TOKENS};

/// Assert two lines share a template — the same failure, one cluster.
fn same(a: &str, b: &str) {
    assert_eq!(
        template(a),
        template(b),
        "\n  {a}\n  {b}\nshould cluster together"
    );
}

/// Assert two lines do *not* — different failures, kept apart.
fn differ(a: &str, b: &str) {
    assert_ne!(
        template(a),
        template(b),
        "\n  {a}\n  {b}\nshould stay separate"
    );
}

#[test]
fn the_documented_example_masks_exactly_the_variable_parts() {
    assert_eq!(
        template("Connection to 10.0.1.5:5432 failed after 1234ms (attempt 3)"),
        "Connection to <*> failed after <*> (attempt <*>)"
    );
}

#[test]
fn the_same_failure_with_different_values_is_one_cluster() {
    same(
        "Connection to 10.0.1.5:5432 failed after 1234ms (attempt 3)",
        "Connection to 10.0.9.71:5432 failed after 87ms (attempt 11)",
    );
}

#[test]
fn different_failures_are_not_merged() {
    // The whole point of clustering is losing volume, not distinctions.
    differ(
        "Connection to 10.0.1.5:5432 failed",
        "Connection to 10.0.1.5:5432 refused",
    );
    differ("Timeout reading from disk", "Timeout writing to disk");
}

#[test]
fn aws_resource_ids_and_uuids_are_masked() {
    // Deliberately sequential rather than realistic. The masking only
    // cares about the shape -- `i-` plus 17 hex -- and a fixture that
    // looks like a real instance id makes every future PII scan of this
    // repository report a false positive that someone has to re-triage.
    same(
        "Instance i-0123456789abcdef0 entered state stopping",
        "Instance i-0fedcba987654321f entered state stopping",
    );
    same(
        "request 3f2504e0-4f89-11d3-9a0c-0305e82c3301 failed",
        "request 7c9e6679-7425-40de-944b-e07fc1f90ae7 failed",
    );
    assert_eq!(
        template("volume vol-0123abcd detached"),
        "volume <*> detached"
    );
}

#[test]
fn timestamps_paths_urls_arns_and_emails_are_masked() {
    assert_eq!(template("at 2026-09-04T10:00:00Z start"), "at <*> start");
    assert_eq!(template("read /var/log/httpd/error_log ok"), "read <*> ok");
    assert_eq!(
        template("GET https://api.example.com/v1/x 200"),
        "GET <*> <*>"
    );
    assert_eq!(
        template("denied arn:aws:iam::123456789012:role/App now"),
        "denied <*> now"
    );
    assert_eq!(template("user user@example.com in"), "user <*> in");
}

#[test]
fn windows_paths_are_masked_for_the_iis_and_coldfusion_collectors() {
    assert_eq!(
        template("opening C:\\inetpub\\logs\\LogFiles\\W3SVC1 now"),
        "opening <*> now"
    );
}

#[test]
fn numbers_keep_their_units_so_durations_cluster() {
    same("took 1234ms", "took 87ms");
    same("freed 12KB", "freed 900KB");
    same("cpu at 99%", "cpu at 3%");
    same("delta -5", "delta 42");
}

// ---- the over-masking edge: real words must survive -------------------

#[test]
fn ordinary_words_are_never_masked() {
    let msg = "Connection refused by upstream server during handshake";
    assert_eq!(template(msg), msg, "no token here is a value");
}

#[test]
fn short_mixed_tokens_that_look_like_words_survive() {
    // These are the tokens most at risk from a loose "has a digit" rule.
    for t in ["HTTP/1.1", "utf-8", "s3", "ec2", "sha256", "base64", "v2"] {
        assert_eq!(template(t), t, "{t} should not be masked");
    }
}

#[test]
fn mime_types_and_versions_stay_literal() {
    assert_eq!(
        template("Accept: application/json"),
        "Accept: application/json"
    );
    assert_eq!(template("nginx/1.24.0 ready"), "nginx/1.24.0 ready");
}

#[test]
fn the_w3c_no_value_marker_clusters_with_a_populated_field() {
    // An IIS field that is `-` on one request and a value on the next is
    // the same event, not two.
    same("GET /health - 200 12", "GET /health 10.0.1.5 200 12");
    // A hyphen inside a word is untouched.
    assert_eq!(template("well-formed request"), "well-formed request");
}

#[test]
fn an_unrecognised_identifier_is_left_alone_by_the_tokenizer() {
    // Host names have no format -- `db-master`, `srv12345`, `web01-a98a`
    // are all plausible -- so there is no shape to match on, and guessing
    // at one masks ordinary words. Lines that differ only by such a token
    // are reunited by variant families in `cluster::template`, which uses
    // how a token varies across the corpus rather than how it looks.
    differ(
        "W3SVC1 web01-a98a GET /health",
        "W3SVC1 web01-ea46 GET /health",
    );
}

#[test]
fn hyphenated_words_are_not_mistaken_for_identifiers() {
    // `face`, `beef` and `cafe` are all valid hexadecimal, which is why
    // matching on "looks like hex" is a trap for ordinary English.
    for t in [
        "well-face",
        "add-beef",
        "grand-cafe",
        "stone-dead",
        "utf-8",
        "sha-256",
    ] {
        assert_eq!(template(t), t, "{t} should not be masked");
    }
}

#[test]
fn a_short_hex_looking_word_is_not_treated_as_a_hash() {
    // `deadbeef` and `decaf` are hex-valid but read as words; the 16-char
    // floor is what keeps them out.
    assert_eq!(template("cafe deadbeef decaf"), "cafe deadbeef decaf");
}

// ---- the under-masking edge -------------------------------------------

#[test]
fn long_opaque_request_ids_are_masked() {
    same(
        "x-amzn-RequestId a1b2c3d4e5f6a7b8c9d0 handled",
        "x-amzn-RequestId 9f8e7d6c5b4a39281706 handled",
    );
}

#[test]
fn a_lambda_stack_trace_collapses_to_its_first_line_shape() {
    let a = "ERROR Invoke Error {\"errorType\":\"TypeError\"}\n    at handler (/var/task/index.js:12:9)\n    at Runtime";
    let b = "ERROR Invoke Error {\"errorType\":\"TypeError\"}\n    at handler (/var/task/index.js:88:3)\n    at Runtime";
    same(a, b);
}

#[test]
fn an_extremely_long_line_is_truncated_rather_than_producing_a_vast_template() {
    let long = (0..500)
        .map(|i| format!("tok{i}x"))
        .collect::<Vec<_>>()
        .join(" ");
    let t = template(&long);
    assert!(t.ends_with('…'), "truncation marker present");
    assert!(t.split_whitespace().count() <= MAX_TOKENS + 1);
}

#[test]
fn empty_and_whitespace_messages_are_handled() {
    assert_eq!(template(""), "");
    assert_eq!(template("   \n\t "), "");
}

#[test]
fn punctuation_structure_is_preserved_around_masks() {
    // `<*> <*> <*>` would be unreadable; the brackets carry the meaning.
    assert_eq!(
        template("retry (attempt 3) of [5] max"),
        "retry (attempt <*>) of [<*>] max"
    );
    assert_eq!(
        template("failed after 30s, retrying"),
        "failed after <*>, retrying"
    );
}

// ---- structured payloads ---------------------------------------------
//
// Representative JSON service-log lines. Word-splitting
// alone gave 3,000 clusters for 3,000 events, because a JSON object has
// no whitespace to split on.

const DRIFT_A: &str = r#"{"severity":"ERROR","gatewayTimeDriftSeconds":"12300","source":"sgw-0A1B2C3D","type":"GatewayClockOutOfSync","gateway":"sgw-0A1B2C3D","timestamp":"1700000000000"}"#;
const DRIFT_B: &str = r#"{"severity":"ERROR","gatewayTimeDriftSeconds":"6300","source":"sgw-0A1B2C3D","type":"GatewayClockOutOfSync","gateway":"sgw-0A1B2C3D","timestamp":"1700000600000"}"#;
const REBOOT: &str = r#"{"severity":"INFO","source":"AvailabilityMonitor","type":"Reboot","gateway":"sgw-0A1B2C3D","timestamp":"1700000000000"}"#;

#[test]
fn json_events_differing_only_in_values_form_one_cluster() {
    same(DRIFT_A, DRIFT_B);
}

#[test]
fn json_templates_keep_keys_and_low_cardinality_labels() {
    // Keeping `severity` and `type` literal is what preserves the
    // distinction between failures; the numbers carry no identity.
    let t = template(DRIFT_A);
    assert!(t.contains(r#""severity":"ERROR""#), "{t}");
    assert!(t.contains(r#""type":"GatewayClockOutOfSync""#), "{t}");
    assert!(t.contains(r#""gatewayTimeDriftSeconds":<*>"#), "{t}");
    assert!(t.contains(r#""timestamp":<*>"#), "{t}");
    assert!(
        !t.contains("12300"),
        "the drifting value must not survive: {t}"
    );
}

#[test]
fn different_json_event_types_are_never_merged() {
    // An INFO reboot and an ERROR clock drift are different incidents.
    differ(DRIFT_A, REBOOT);
}

#[test]
fn a_message_embedded_in_a_json_field_is_itself_templated() {
    same(
        r#"{"level":"error","msg":"upstream failed after 1234ms"}"#,
        r#"{"level":"error","msg":"upstream failed after 9ms"}"#,
    );
    differ(
        r#"{"level":"error","msg":"upstream failed after 1234ms"}"#,
        r#"{"level":"error","msg":"upstream refused after 1234ms"}"#,
    );
}

#[test]
fn booleans_and_nulls_are_kept_because_they_carry_meaning() {
    let t = template(r#"{"retryable":true,"cause":null,"attempts":3}"#);
    assert!(t.contains("\"retryable\":true"), "{t}");
    assert!(t.contains("\"cause\":null"), "{t}");
    assert!(t.contains("\"attempts\":<*>"), "{t}");
}

#[test]
fn nested_objects_and_long_arrays_are_bounded() {
    let t = template(r#"{"a":{"b":{"c":{"d":{"e":{"f":{"g":1}}}}}},"list":[1,2,3,4,5,6,7]}"#);
    assert!(t.contains('…'), "long array collapses: {t}");
    assert!(t.len() < 200, "bounded: {t}");
}

/// Shape of a Windows Security audit record (Event ID 5145, a file share
/// access check). Real records are far longer; this keeps the structure.
fn win_event(event_id: &str, ip: &str, guid: &str) -> String {
    format!(
        "<Event xmlns='http://schemas.microsoft.com/win/2004/08/events/event'>\
         <System><Provider Name='Microsoft-Windows-Security-Auditing' Guid='{{{guid}}}'/>\
         <EventID>{event_id}</EventID><Version>0</Version><Level>0</Level>\
         <EventRecordID>1234567</EventRecordID></System>\
         <EventData><Data Name='IpAddress'>{ip}</Data></EventData></Event>"
    )
}

#[test]
fn windows_event_xml_clusters_by_event_id() {
    // Same event id from different addresses is one cluster ...
    same(
        &win_event("5145", "10.0.1.5", "54849625-5478-4994-a5ba-3e3b0328c30d"),
        &win_event("5145", "10.0.9.71", "54849625-5478-4994-a5ba-3e3b0328c30d"),
    );
    // ... but a different event id is a different event, and must not be
    // masked away: EventID is the identity of a Windows log record.
    differ(
        &win_event("5145", "10.0.1.5", "54849625-5478-4994-a5ba-3e3b0328c30d"),
        &win_event("4625", "10.0.1.5", "54849625-5478-4994-a5ba-3e3b0328c30d"),
    );
}

#[test]
fn xml_element_names_survive_while_their_values_are_masked() {
    let t = template(&win_event(
        "5145",
        "10.0.1.5",
        "54849625-5478-4994-a5ba-3e3b0328c30d",
    ));
    assert!(
        t.contains("EventID"),
        "element names identify the record: {t}"
    );
    assert!(!t.contains("10.0.1.5"), "the address is a value: {t}");
    assert!(!t.contains("1234567"), "the record id is a value: {t}");
}

#[test]
fn a_malformed_json_line_falls_back_to_word_splitting() {
    // Truncated JSON is common in real logs; it must still cluster.
    let a = r#"{"severity":"ERROR","drift":"12300"#;
    let b = r#"{"severity":"ERROR","drift":"6300"#;
    assert!(!template(a).is_empty());
    same(a, b);
}

#[test]
fn logfmt_pairs_mask_the_value_and_keep_the_key() {
    assert_eq!(
        template("level=error duration=1234ms host=10.0.1.5 msg=timeout"),
        "level=error duration=<*> host=<*> msg=timeout"
    );
    same("level=error duration=1234ms", "level=error duration=7ms");
    differ("level=error duration=1234ms", "level=warn duration=1234ms");
}

#[test]
fn a_very_long_structured_payload_is_truncated() {
    let big: String = format!(
        "{{{}}}",
        (0..200)
            .map(|i| format!(r#""key{i}":"value{i}""#))
            .collect::<Vec<_>>()
            .join(",")
    );
    let t = template(&big);
    assert!(
        t.chars().count() <= MAX_TEMPLATE_CHARS + 1,
        "len {}",
        t.chars().count()
    );
    assert!(t.ends_with('…'));
}

#[test]
fn an_alb_access_log_line_clusters_by_shape() {
    let a = "https 2026-09-04T10:00:00.123456Z app/my-alb/abc123 10.0.1.5:41234 10.0.2.9:8080 0.001 0.030 0.000 502 502 340 1200";
    let b = "https 2026-09-04T10:00:31.998811Z app/my-alb/abc123 10.0.7.2:55010 10.0.2.9:8080 0.002 0.041 0.000 502 502 512 900";
    same(a, b);
    // The same line with another status code.
    let c = "https 2026-09-04T10:00:31.998811Z app/my-alb/abc123 10.0.7.2:55010 10.0.2.9:8080 0.002 0.041 0.000 200 200 512 900";
    assert_eq!(template(&b.replace("502 502", "200 200")), template(c));
}
