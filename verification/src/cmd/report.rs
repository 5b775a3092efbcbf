//! `awsdiag report`: render a findings document into a single HTML file.

use crate::cmd::records::count_tree;
use crate::common::errors::{Error, Fault};
use crate::json::{self, fields_of, Json, JsonTree};
use crate::output::Record;
use crate::report::model::{Chart, Findings};
use vstd::prelude::*;

verus! {

/// A worked example, printed by `--schema`.
///
/// A schema without a filled-in example leaves the caller guessing at shapes;
/// this one is a valid document that renders, so it doubles as a smoke test.
pub const EXAMPLE: &'static str = r##"{
  "title": "Checkout latency incident",
  "subtitle": "prod · investigated 2026-09-04",
  "window": { "since": "2026-09-04T09:30:00Z", "until": "2026-09-04T11:00:00Z" },
  "summary": "Checkout p99 rose from 120ms to 4.2s for 38 minutes.\nOne database host ran out of connections; the other two were unaffected.",
  "sections": [
    { "heading": "What happened", "body": "At 10:04 connection failures began...", "severity": "high" },
    { "heading": "Recommendation", "body": "Raise the pool ceiling and alert on saturation." }
  ],
  "charts": [
    {
      "title": "CPU utilisation",
      "unit": "%",
      "series": ["web-a", "web-b"],
      "rows": [
        { "ts": "2026-09-04T10:00:00Z", "web-a": 12.4, "web-b": 11.8 },
        { "ts": "2026-09-04T10:01:00Z", "web-a": 91.2, "web-b": null }
      ]
    }
  ],
  "events": [ { "ts": "2026-09-04T10:03:00Z", "label": "deploy 4f21a" } ],
  "clusters": [
    {
      "cluster_id": "c7f3a19b2e04",
      "status": "new",
      "count": 8412,
      "first_seen": "2026-09-04T10:04:12Z",
      "last_seen": "2026-09-04T10:41:55Z",
      "template": "Connection to <*> failed after <*>ms (attempt <*>)",
      "histogram": [0, 0, 3, 847, 2210, 1904, 12, 0],
      "by_stream": [ { "stream": "db-a", "count": 8201 }, { "stream": "db-b", "count": 211 } ],
      "other_streams": 0,
      "exemplar": {
        "ts": "2026-09-04T10:04:12Z",
        "stream": "db-a",
        "message": "Connection to 10.0.1.5:5432 failed after 1234ms (attempt 3)"
      }
    }
  ],
  "appendix": [ { "title": "Raw scan parameters", "content": "logs scan --group /aws/lambda/checkout --since 2h" } ]
}"##;

/// What was written.
#[derive(Debug)]
pub struct ReportSummary {
    pub path: String,
    pub bytes: usize,
    pub charts: usize,
    pub series: usize,
    pub clusters: usize,
    pub events: usize,
}

/// The number of series over all charts.
pub open spec fn series_total(charts: Seq<Chart>) -> nat
    decreases charts.len(),
{
    if charts.len() == 0 {
        0
    } else {
        series_total(charts.drop_last()) + charts.last().series@.len()
    }
}

/// Say what was written for a document: its page, and what is on it. A total
/// that no `usize` holds is reported as the greatest one.
pub fn summarise(findings: &Findings, path: &str, html: &str) -> (r: ReportSummary)
    ensures
        r.path@ == path@,
        r.bytes == html.len(),
        r.charts == findings.charts@.len(),
        series_total(findings.charts@) <= usize::MAX ==> r.series == series_total(
            findings.charts@,
        ),
        series_total(findings.charts@) > usize::MAX ==> r.series == usize::MAX,
        r.clusters == findings.clusters@.len(),
        r.events == findings.events@.len(),
{
    let charts = &findings.charts;
    let mut series: usize = 0;
    let mut i: usize = 0;
    while i < charts.len()
        invariant
            i <= charts@.len(),
            series_total(charts@.take(i as int)) <= usize::MAX ==> series == series_total(
                charts@.take(i as int),
            ),
            series_total(charts@.take(i as int)) > usize::MAX ==> series == usize::MAX,
        decreases charts@.len() - i,
    {
        proof {
            assert(charts@.take(i + 1).drop_last() == charts@.take(i as int));
            assert(charts@.take(i + 1).last() == charts@[i as int]);
        }
        series = series.saturating_add(charts[i].series.len());
        i += 1;
    }
    proof {
        assert(charts@.take(i as int) == charts@);
    }
    ReportSummary {
        path: path.to_owned(),
        bytes: html.len(),
        charts: findings.charts.len(),
        series,
        clusters: findings.clusters.len(),
        events: findings.events.len(),
    }
}

/// Fail for want of a document.
pub fn no_data() -> (r: Error)
    ensures
        r@ == (Fault::BadFindings {
            source_name: "input"@,
            detail: "give --data <FILE>, or --schema to see the expected shape"@,
        }),
{
    Error::BadFindings {
        source_name: "input".to_owned(),
        detail: "give --data <FILE>, or --schema to see the expected shape".to_owned(),
    }
}

impl Record for ReportSummary {
    open spec fn presentable(&self) -> bool {
        true
    }

    open spec fn shape(&self) -> JsonTree {
        JsonTree::Object(
            seq![
                ("path"@, JsonTree::Text(self.path@)),
                ("bytes"@, count_tree(self.bytes)),
                ("charts"@, count_tree(self.charts)),
                ("series"@, count_tree(self.series)),
                ("clusters"@, count_tree(self.clusters)),
                ("events"@, count_tree(self.events)),
            ],
        )
    }

    fn record(&self) -> (r: Json) {
        let mut fields: Vec<(String, Json)> = Vec::new();
        json::put(&mut fields, "path", json::text(self.path.as_str()));
        json::put(&mut fields, "bytes", json::count(self.bytes));
        json::put(&mut fields, "charts", json::count(self.charts));
        json::put(&mut fields, "series", json::count(self.series));
        json::put(&mut fields, "clusters", json::count(self.clusters));
        json::put(&mut fields, "events", json::count(self.events));
        proof {
            assert(fields_of(fields@) =~= self.shape()->Object_0);
        }
        json::object(fields)
    }
}

} // verus!
