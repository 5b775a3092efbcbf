//! Rendering an envelope in the three output formats.

use awsdiag::common::envelope::Envelope;
use awsdiag::common::flags::OutputFormat;
use awsdiag::json::{array, object, parse, put, text, Json};
use awsdiag::output::{flatten, render, table};
use serde_json::Value;

fn row(profile: &str, account: &str) -> Json {
    let mut fields = Vec::new();
    put(&mut fields, "profile", text(profile));
    put(&mut fields, "account", text(account));
    object(fields)
}

fn env(rows: Vec<Json>) -> Envelope<Json> {
    Envelope::new("whoami", object(Vec::new()), rows)
}

fn sample() -> Envelope<Json> {
    env(vec![
        row("gamma-admin", "123456789012"),
        row("beta-power", "111122223333"),
    ])
}

fn one(key: &str, value: &str) -> Vec<Json> {
    let mut fields = Vec::new();
    put(&mut fields, key, text(value));
    vec![object(fields)]
}

#[test]
fn json_emits_the_whole_envelope_not_just_the_rows() {
    let out = render(&sample(), OutputFormat::Json);
    let v: Value = serde_json::from_str(&out).unwrap();
    assert_eq!(v["ok"], Value::from(true));
    assert_eq!(v["count"], Value::from(2));
    assert_eq!(v["data"][0]["profile"], Value::from("gamma-admin"));
}

#[test]
fn ndjson_emits_one_parseable_object_per_row_and_no_envelope() {
    let out = render(&sample(), OutputFormat::Ndjson);
    let lines: Vec<&str> = out.lines().collect();
    assert_eq!(lines.len(), 2);
    for l in lines {
        serde_json::from_str::<Value>(l).expect("each line parses alone");
    }
    assert!(!out.contains("\"ok\""));
}

#[test]
fn text_aligns_columns_under_headers() {
    let out = render(&sample(), OutputFormat::Text);
    let lines: Vec<&str> = out.lines().collect();
    assert_eq!(lines.len(), 3, "header plus one line per row");
    // Declaration order, not alphabetical, so `profile` leads and the table
    // reads naturally.
    assert!(lines[0].starts_with("profile"), "got header: {}", lines[0]);
    assert!(lines[0].find("profile").unwrap() < lines[0].find("account").unwrap());
    // "gamma-admin" is the widest value, so the account column starts
    // at the same offset on every line.
    let col = lines[0].find("account").unwrap();
    assert_eq!(lines[1].find("123456789012").unwrap(), col);
    assert_eq!(lines[2].find("111122223333").unwrap(), col);
}

#[test]
fn text_announces_truncation_because_a_table_cannot_show_it() {
    let out = render(&env(vec![row("a", "b")]).truncated(true), OutputFormat::Text);
    assert!(out.contains("truncated"), "got: {out}");
    assert_eq!(
        out,
        "profile  account\na        b\n(1 rows shown; result truncated — narrow the window \
         or raise --limit)"
    );
}

#[test]
fn empty_results_render_without_panicking_in_every_format() {
    let e = env(vec![]);
    assert_eq!(render(&e, OutputFormat::Text), "");
    assert_eq!(render(&e, OutputFormat::Ndjson), "");
    assert_eq!(
        serde_json::from_str::<Value>(&render(&e, OutputFormat::Json)).unwrap()["count"],
        Value::from(0)
    );
}

#[test]
fn a_multiline_value_cannot_break_the_table() {
    // A multi-line AWS error chain in one cell would spill across rows and
    // destroy alignment for everything below it.
    let mut fields = Vec::new();
    put(&mut fields, "a", text("one\ntwo\nthree"));
    put(&mut fields, "b", text("x"));
    let out = table(&vec![object(fields)]);
    assert_eq!(out.lines().count(), 2, "header + one row: {out:?}");
    assert!(out.contains("one two three"));
}

#[test]
fn terminal_control_sequences_in_log_content_are_neutralised() {
    // Log content is written by whatever produces the logs. Rendered raw
    // to a TTY, `ESC[2K` and `ESC[A` erase and overwrite lines already on
    // screen -- so an operator reading `logs tail` mid-incident can be
    // shown a different picture than the log contains.
    let hostile = "before\u{1b}[2K\u{1b}[Aerased";
    let out = table(&one("message", hostile));
    assert!(
        !out.contains('\u{1b}'),
        "no ESC reaches the terminal: {out:?}"
    );
    assert!(out.contains("\\x1b"), "its presence stays visible: {out:?}");
    assert!(
        out.contains("before") && out.contains("erased"),
        "text is preserved"
    );
}

#[test]
fn other_control_bytes_are_neutralised_too() {
    // Backspace, NUL, and the C1 range are all interpreted by terminals.
    for c in ['\u{0}', '\u{8}', '\u{7}', '\u{9b}'] {
        let out = table(&one("m", &format!("a{c}b")));
        assert!(
            !out.contains(c),
            "control {:#x} survived: {out:?}",
            c as u32
        );
    }
}

#[test]
fn json_output_was_never_affected_and_still_is_not() {
    // Every byte below 0x20 is escaped in the machine-readable formats.
    let env = Envelope::new("logs tail", object(Vec::new()), vec![text("a\u{1b}[2Kb")]);
    let out = render(&env, OutputFormat::Json);
    assert!(!out.contains('\u{1b}'));
    let nd = render(&env, OutputFormat::Ndjson);
    assert!(!nd.contains('\u{1b}'));
}

#[test]
fn ordinary_text_is_returned_unchanged() {
    // The fast path must not disturb normal content, including unicode.
    for t in ["plain", "café 🔥", "a-b_c.d", ""] {
        assert_eq!(flatten(t), t);
    }
}

#[test]
fn missing_and_nested_values_survive_text_rendering() {
    let rows = vec![
        parse(r#"{"a": 1, "b": {"n": 2}}"#).unwrap(),
        parse(r#"{"a": null}"#).unwrap(),
    ];
    let out = table(&rows);
    assert!(out.contains("{\"n\":2}"), "nested value kept: {out}");
    assert!(out.contains('-'), "missing value marked: {out}");
    assert_eq!(out, "a  b\n1  {\"n\":2}\n-  -");
}

#[test]
fn indented_json_is_what_serde_writes() {
    // Every shape at once: nesting, empty containers, escapes and numbers.
    let raw = r#"{"a":[],"b":{},"c":[1,-2.5,[true,null]],"d":{"e":"x\n\"y\" \u0001 é","f":[{}]}}"#;
    let value: Value = serde_json::from_str(raw).unwrap();
    let json = parse(raw).unwrap();
    let env = Envelope::new("c", json, vec![array(Vec::new())]);
    let out = render(&env, OutputFormat::Json);
    let mut fields = serde_json::Map::new();
    fields.insert("ok".into(), Value::from(true));
    fields.insert("command".into(), Value::from("c"));
    fields.insert("params".into(), value);
    fields.insert("count".into(), Value::from(1));
    fields.insert("truncated".into(), Value::from(false));
    fields.insert("next".into(), Value::Null);
    fields.insert("data".into(), Value::from(vec![Value::Array(Vec::new())]));
    assert_eq!(
        out,
        serde_json::to_string_pretty(&Value::Object(fields)).unwrap()
    );
}

#[test]
fn breaks_become_single_blanks_and_other_controls_visible() {
    assert_eq!(flatten("\r\n a\tb\n\nc\u{7f}"), "a b c\\x7f");
    assert_eq!(flatten("\n\t"), "");
}

#[test]
fn a_first_row_that_is_no_object_makes_no_table() {
    assert_eq!(table(&vec![text("x")]), "");
    assert_eq!(table(&Vec::new()), "");
}

#[test]
fn columns_come_from_the_first_row() {
    let rows = vec![
        parse(r#"{"a":"longer","b":1}"#).unwrap(),
        parse(r#"{"b":22,"c":3}"#).unwrap(),
    ];
    assert_eq!(table(&rows), "a       b\nlonger  1\n-       22");
}
