//! The report page and the document in it.

use awsdiag::cmd::report::{no_data, summarise, EXAMPLE};
use awsdiag::json::{compact_text, parse};
use awsdiag::output::Record;
use awsdiag::report::model::{
    Appendix, Chart, Cluster, EventMarker, Exemplar, Findings, Section, StreamCount, Window,
};
use awsdiag::report::render::{self, escape_for_script, escape_html_text, substitute, Page};
use serde_json::Value;

const PAGE: Page = Page {
    shell: "<html><head><title>__TITLE__</title><style>__UPLOT_CSS__</style></head>\n\
            <body><h1 id=\"title\">__TITLE__</h1>\n\
            <script type=\"application/json\">__DATA__</script>\n\
            <script>__UPLOT_JS__</script>\n<script>draw();</script></body></html>\n",
    css: ".uplot{}",
    js: "var uPlot=1;",
};

fn render(f: &Findings) -> String {
    render::render(f, &PAGE)
}

fn findings_with(message: &str) -> Findings {
    Findings {
        title: "Incident".into(),
        subtitle: None,
        summary: None,
        window: None,
        sections: vec![],
        charts: vec![],
        events: vec![],
        clusters: vec![Cluster {
            cluster_id: "abc123def456".into(),
            template: message.into(),
            count: 1,
            status: None,
            first_seen: None,
            last_seen: None,
            histogram: vec![],
            by_stream: vec![],
            other_streams: 0,
            exemplar: Some(Exemplar {
                ts: "2026-09-04T10:00:00Z".into(),
                stream: "s".into(),
                message: message.into(),
            }),
        }],
        appendix: vec![],
    }
}

fn text_of(r: &impl Record) -> String {
    compact_text(&r.record()).into_iter().collect()
}

#[test]
fn a_log_line_cannot_close_the_script_element() {
    // The attack: anything that can write to a watched log group emits
    // this, and the report becomes a script-injection vector in a file
    // people open in a browser and forward to colleagues.
    let hostile = "</script><img src=x onerror=alert(1)>";
    let html = render(&findings_with(hostile));
    assert!(
        !html.contains("</script><img"),
        "the element was closed early"
    );
    assert!(
        html.contains("\\u003c/script"),
        "the sequence is escaped instead"
    );
    // Exactly the script tags the shell itself opens, and no more.
    assert_eq!(
        html.matches("</script>").count(),
        3,
        "no extra closing tags"
    );
}

#[test]
fn escaping_is_lossless() {
    // Escaping must not corrupt the data: the parsed value has to be
    // byte-identical or the report shows something other than the log.
    let tricky = "a<b>c&d \u{2028} \u{2029} </SCRIPT> <!-- -->";
    let escaped = escape_for_script(&serde_json::to_string(tricky).unwrap());
    let back: String = serde_json::from_str(&escaped).unwrap();
    assert_eq!(back, tricky);
}

#[test]
fn every_angle_bracket_and_ampersand_is_escaped() {
    let out = escape_for_script("{\"k\":\"<&>\"}");
    assert!(
        !out.contains('<') && !out.contains('>') && !out.contains('&'),
        "{out}"
    );
    assert_eq!(out, "{\"k\":\"\\u003c\\u0026\\u003e\"}");
    assert_eq!(escape_for_script("\u{2028}\u{2029}"), "\\u2028\\u2029");
}

#[test]
fn the_title_is_escaped_where_it_lands_in_markup() {
    let mut f = findings_with("x");
    f.title = "<script>alert(1)</script>".into();
    let html = render(&f);
    assert!(html.contains("&lt;script&gt;alert(1)&lt;/script&gt;"));
    assert_eq!(html.matches("</script>").count(), 3);
}

#[test]
fn a_placeholder_in_the_title_is_not_substituted() {
    let mut f = findings_with("x");
    f.title = "PRE__DATA__POST".into();
    let html = render(&f);
    let open = html.find("<title>").unwrap() + "<title>".len();
    let close = html[open..].find("</title>").unwrap() + open;
    assert_eq!(
        &html[open..close],
        "PRE__DATA__POST",
        "the title is not a substitution site"
    );
}

#[test]
fn every_placeholder_is_consumed_exactly_once() {
    let html = render(&findings_with("x"));
    for p in ["__DATA__", "__TITLE__", "__UPLOT_JS__", "__UPLOT_CSS__"] {
        assert!(!html.contains(p), "{p} survived into the output");
    }
}

#[test]
fn html_text_escaping_covers_quotes_too() {
    // Correct for <title> either way, but the name must not set a trap
    // for anyone who reuses it in an attribute context.
    assert_eq!(
        escape_html_text("a\"b'c<d>e&f"),
        "a&quot;b&#39;c&lt;d&gt;e&amp;f"
    );
}

#[test]
fn a_placeholder_inside_log_content_is_not_substituted() {
    let html = render(&findings_with("__UPLOT_JS__ __DATA__ __TITLE__"));
    assert!(
        html.contains("__UPLOT_JS__"),
        "the literal survives as data"
    );
    assert!(
        !html.contains("__DATA__\n"),
        "the real placeholder was consumed"
    );
}

#[test]
fn the_payload_round_trips_through_the_page() {
    let f = findings_with("Connection to <*> failed after <*>ms");
    let html = render(&f);
    let start =
        html.find(r#"type="application/json">"#).unwrap() + r#"type="application/json">"#.len();
    let end = html[start..].find("</script>").unwrap() + start;
    let parsed: Value = serde_json::from_str(&html[start..end]).unwrap();
    assert_eq!(
        parsed["clusters"][0]["template"],
        Value::from("Connection to <*> failed after <*>ms")
    );
}

#[test]
fn the_heading_carries_the_title_without_running_scripts() {
    let mut f = findings_with("x");
    f.title = "Checkout latency".into();
    let html = render(&f);
    assert!(
        html.contains("<h1 id=\"title\">Checkout latency</h1>"),
        "the heading is populated in the markup"
    );
    // Still escaped -- it lands in markup twice, so both sites matter.
    f.title = "<img src=x onerror=alert(1)>".into();
    let html = render(&f);
    assert!(!html.contains("<img src=x"), "the heading is escaped too");
    assert_eq!(
        html.matches("&lt;img src=x").count(),
        2,
        "title and heading"
    );
}

#[test]
fn substitution_walks_the_template_once() {
    assert_eq!(
        substitute("a X b Y c X", &[("X", "Y"), ("Y", "X")]),
        "a Y b X c Y"
    );
    // The first pattern that matches wins.
    assert_eq!(substitute("AB", &[("A", "1"), ("AB", "2")]), "1B");
    assert_eq!(substitute("nothing here", &[("X", "1")]), "nothing here");
    assert_eq!(substitute("", &[("X", "1")]), "");
}

#[test]
fn the_document_is_written_field_by_field() {
    let f = Findings {
        title: "t".into(),
        subtitle: None,
        summary: Some("s".into()),
        window: Some(Window {
            since: "a".into(),
            until: "b".into(),
        }),
        sections: vec![Section {
            heading: "h".into(),
            body: "b".into(),
            severity: None,
        }],
        charts: vec![Chart {
            title: "CPU".into(),
            unit: Some("%".into()),
            series: vec!["a".into(), "b".into()],
            rows: vec![parse(r#"{"ts":"2026-09-04T10:00:00Z","a":1.5,"b":null}"#).unwrap()],
        }],
        events: vec![EventMarker {
            ts: "t".into(),
            label: "deploy".into(),
        }],
        clusters: vec![Cluster {
            cluster_id: "c".into(),
            template: "x".into(),
            count: 2,
            status: Some("new".into()),
            first_seen: None,
            last_seen: None,
            histogram: vec![0, 2],
            by_stream: vec![StreamCount {
                stream: "s".into(),
                count: 2,
            }],
            other_streams: 0,
            exemplar: None,
        }],
        appendix: vec![Appendix {
            title: "a".into(),
            content: "c".into(),
        }],
    };
    assert_eq!(
        text_of(&f),
        concat(&[
            r#"{"title":"t","subtitle":null,"summary":"s","window":{"since":"a","until":"b"},"#,
            r#""sections":[{"heading":"h","body":"b","severity":null}],"#,
            r#""charts":[{"title":"CPU","unit":"%","series":["a","b"],"#,
            r#""rows":[{"ts":"2026-09-04T10:00:00Z","a":1.5,"b":null}]}],"#,
            r#""events":[{"ts":"t","label":"deploy"}],"#,
            r#""clusters":[{"cluster_id":"c","template":"x","count":2,"status":"new","#,
            r#""first_seen":null,"last_seen":null,"histogram":[0,2],"#,
            r#""by_stream":[{"stream":"s","count":2}],"other_streams":0,"exemplar":null}],"#,
            r#""appendix":[{"title":"a","content":"c"}]}"#,
        ])
    );
    let s = summarise(&f, "out.html", "é<html>");
    assert_eq!(
        text_of(&s),
        r#"{"path":"out.html","bytes":8,"charts":1,"series":2,"clusters":1,"events":1}"#
    );
}

fn concat(parts: &[&str]) -> String {
    parts.concat()
}

#[test]
fn the_example_document_is_json_and_needs_no_escaping_of_its_own() {
    let v: Value = serde_json::from_str(EXAMPLE).unwrap();
    assert_eq!(v["title"], Value::from("Checkout latency incident"));
    assert_eq!(v["clusters"][0]["count"], Value::from(8412));
    assert_eq!(v["charts"].as_array().unwrap().len(), 1);
    assert_eq!(v["events"].as_array().unwrap().len(), 1);
}

#[test]
fn a_report_without_data_says_how_to_give_it() {
    let e = no_data();
    assert_eq!(e.kind(), "bad_findings");
    assert!(e.message().contains("--data <FILE>"), "{}", e.message());
}

#[test]
fn a_whole_document_reads_the_same_after_escaping() {
    let document = "{ \"a<b\" : [ 1.5e3 , null,\ttrue ], \"\\ud83d\\ude00\": \"<&>\u{2028}\" }\n";
    let escaped = escape_for_script(document);
    assert_ne!(escaped, document);
    let before: Value = serde_json::from_str(document).unwrap();
    let after: Value = serde_json::from_str(&escaped).unwrap();
    assert_eq!(before, after);
}

#[test]
fn escaping_twice_is_escaping_once() {
    let once = escape_for_script("</script>&\u{2029}");
    assert_eq!(escape_for_script(&once), once);
    assert_eq!(escape_for_script("[1, \"plain\"]"), "[1, \"plain\"]");
}
