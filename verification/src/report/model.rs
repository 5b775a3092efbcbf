//! The findings document: the contract between the analysis and the report.
//!
//! Shapes deliberately mirror what the acquisition commands already emit, so
//! a caller pastes `metrics compare` and `logs scan` output in rather than
//! transforming it. Every field except the title is optional, because a
//! report about a log-only incident should not have to invent charts.

use crate::cmd::records::count_tree;
use crate::glob::opt_text;
use crate::json::{self, fields_of, text_array, text_or_null, Json, JsonTree};
use crate::output::{records, shapes, string_opt, Record};
use crate::text::strings;
use vstd::prelude::*;

verus! {

/// A findings document.
#[derive(Debug)]
pub struct Findings {
    pub title: String,
    pub subtitle: Option<String>,
    /// Free text, shown first. This is the narrative: what happened, what
    /// broke, what to do.
    pub summary: Option<String>,
    pub window: Option<Window>,
    pub sections: Vec<Section>,
    pub charts: Vec<Chart>,
    /// Vertical markers drawn across every chart: a deploy, a CloudTrail
    /// event. Lining a spike up against its cause is the point of the report.
    pub events: Vec<EventMarker>,
    pub clusters: Vec<Cluster>,
    pub appendix: Vec<Appendix>,
}

/// The period the findings are about.
#[derive(Debug)]
pub struct Window {
    pub since: String,
    pub until: String,
}

/// A narrative section. `severity` only tints the heading; it carries no
/// behaviour, so an unfamiliar value degrades to plain rather than failing.
#[derive(Debug)]
pub struct Section {
    pub heading: String,
    pub body: String,
    pub severity: Option<String>,
}

/// One chart. `series` and `rows` are exactly `metrics compare`'s
/// `params.labels` and `data`.
#[derive(Debug)]
pub struct Chart {
    pub title: String,
    pub unit: Option<String>,
    pub series: Vec<String>,
    /// Objects with a `ts` key plus one key per series label. A missing or
    /// null value is a gap and is drawn as one, never as zero.
    pub rows: Vec<Json>,
}

/// A marker drawn across every chart.
#[derive(Debug)]
pub struct EventMarker {
    pub ts: String,
    pub label: String,
}

/// A log cluster, as `logs scan` emits it.
#[derive(Debug)]
pub struct Cluster {
    pub cluster_id: String,
    pub template: String,
    pub count: usize,
    pub status: Option<String>,
    pub first_seen: Option<String>,
    pub last_seen: Option<String>,
    pub histogram: Vec<u32>,
    pub by_stream: Vec<StreamCount>,
    pub other_streams: usize,
    pub exemplar: Option<Exemplar>,
}

/// How often a cluster occurs in one stream.
#[derive(Debug)]
pub struct StreamCount {
    pub stream: String,
    pub count: usize,
}

/// One line of a cluster, verbatim.
#[derive(Debug)]
pub struct Exemplar {
    pub ts: String,
    pub stream: String,
    pub message: String,
}

/// Material that belongs to the report but not to its narrative.
#[derive(Debug)]
pub struct Appendix {
    pub title: String,
    pub content: String,
}

impl Record for Window {
    open spec fn presentable(&self) -> bool {
        true
    }

    open spec fn shape(&self) -> JsonTree {
        JsonTree::Object(
            seq![
                ("since"@, JsonTree::Text(self.since@)),
                ("until"@, JsonTree::Text(self.until@)),
            ],
        )
    }

    fn record(&self) -> (r: Json) {
        let mut fields: Vec<(String, Json)> = Vec::new();
        json::put(&mut fields, "since", json::text(self.since.as_str()));
        json::put(&mut fields, "until", json::text(self.until.as_str()));
        proof {
            assert(fields_of(fields@) =~= self.shape()->Object_0);
        }
        json::object(fields)
    }
}

impl Record for Section {
    open spec fn presentable(&self) -> bool {
        true
    }

    open spec fn shape(&self) -> JsonTree {
        JsonTree::Object(
            seq![
                ("heading"@, JsonTree::Text(self.heading@)),
                ("body"@, JsonTree::Text(self.body@)),
                ("severity"@, text_or_null(opt_text(self.severity))),
            ],
        )
    }

    fn record(&self) -> (r: Json) {
        let mut fields: Vec<(String, Json)> = Vec::new();
        json::put(&mut fields, "heading", json::text(self.heading.as_str()));
        json::put(&mut fields, "body", json::text(self.body.as_str()));
        json::put(&mut fields, "severity", string_opt(&self.severity));
        proof {
            assert(fields_of(fields@) =~= self.shape()->Object_0);
        }
        json::object(fields)
    }
}

impl Record for Chart {
    open spec fn presentable(&self) -> bool {
        true
    }

    open spec fn shape(&self) -> JsonTree {
        JsonTree::Object(
            seq![
                ("title"@, JsonTree::Text(self.title@)),
                ("unit"@, text_or_null(opt_text(self.unit))),
                ("series"@, text_array(strings(self.series@))),
                ("rows"@, JsonTree::Array(shapes(self.rows@))),
            ],
        )
    }

    fn record(&self) -> (r: Json) {
        let mut fields: Vec<(String, Json)> = Vec::new();
        json::put(&mut fields, "title", json::text(self.title.as_str()));
        json::put(&mut fields, "unit", string_opt(&self.unit));
        json::put(&mut fields, "series", json::text_list(&self.series));
        json::put(&mut fields, "rows", json::array(records(&self.rows)));
        proof {
            assert(fields_of(fields@) =~= self.shape()->Object_0);
        }
        json::object(fields)
    }
}

impl Record for EventMarker {
    open spec fn presentable(&self) -> bool {
        true
    }

    open spec fn shape(&self) -> JsonTree {
        JsonTree::Object(
            seq![
                ("ts"@, JsonTree::Text(self.ts@)),
                ("label"@, JsonTree::Text(self.label@)),
            ],
        )
    }

    fn record(&self) -> (r: Json) {
        let mut fields: Vec<(String, Json)> = Vec::new();
        json::put(&mut fields, "ts", json::text(self.ts.as_str()));
        json::put(&mut fields, "label", json::text(self.label.as_str()));
        proof {
            assert(fields_of(fields@) =~= self.shape()->Object_0);
        }
        json::object(fields)
    }
}

impl Record for StreamCount {
    open spec fn presentable(&self) -> bool {
        true
    }

    open spec fn shape(&self) -> JsonTree {
        JsonTree::Object(
            seq![("stream"@, JsonTree::Text(self.stream@)), ("count"@, count_tree(self.count))],
        )
    }

    fn record(&self) -> (r: Json) {
        let mut fields: Vec<(String, Json)> = Vec::new();
        json::put(&mut fields, "stream", json::text(self.stream.as_str()));
        json::put(&mut fields, "count", json::count(self.count));
        proof {
            assert(fields_of(fields@) =~= self.shape()->Object_0);
        }
        json::object(fields)
    }
}

impl Record for Exemplar {
    open spec fn presentable(&self) -> bool {
        true
    }

    open spec fn shape(&self) -> JsonTree {
        JsonTree::Object(
            seq![
                ("ts"@, JsonTree::Text(self.ts@)),
                ("stream"@, JsonTree::Text(self.stream@)),
                ("message"@, JsonTree::Text(self.message@)),
            ],
        )
    }

    fn record(&self) -> (r: Json) {
        let mut fields: Vec<(String, Json)> = Vec::new();
        json::put(&mut fields, "ts", json::text(self.ts.as_str()));
        json::put(&mut fields, "stream", json::text(self.stream.as_str()));
        json::put(&mut fields, "message", json::text(self.message.as_str()));
        proof {
            assert(fields_of(fields@) =~= self.shape()->Object_0);
        }
        json::object(fields)
    }
}

impl Record for Appendix {
    open spec fn presentable(&self) -> bool {
        true
    }

    open spec fn shape(&self) -> JsonTree {
        JsonTree::Object(
            seq![
                ("title"@, JsonTree::Text(self.title@)),
                ("content"@, JsonTree::Text(self.content@)),
            ],
        )
    }

    fn record(&self) -> (r: Json) {
        let mut fields: Vec<(String, Json)> = Vec::new();
        json::put(&mut fields, "title", json::text(self.title.as_str()));
        json::put(&mut fields, "content", json::text(self.content.as_str()));
        proof {
            assert(fields_of(fields@) =~= self.shape()->Object_0);
        }
        json::object(fields)
    }
}

/// A part that may be missing: its shape, or `null`.
pub open spec fn shape_or_null<T: Record>(part: Option<T>) -> JsonTree {
    match part {
        Some(p) => p.shape(),
        None => JsonTree::Null,
    }
}

impl Record for Cluster {
    open spec fn presentable(&self) -> bool {
        true
    }

    open spec fn shape(&self) -> JsonTree {
        JsonTree::Object(
            seq![
                ("cluster_id"@, JsonTree::Text(self.cluster_id@)),
                ("template"@, JsonTree::Text(self.template@)),
                ("count"@, count_tree(self.count)),
                ("status"@, text_or_null(opt_text(self.status))),
                ("first_seen"@, text_or_null(opt_text(self.first_seen))),
                ("last_seen"@, text_or_null(opt_text(self.last_seen))),
                ("histogram"@, JsonTree::Array(shapes(self.histogram@))),
                ("by_stream"@, JsonTree::Array(shapes(self.by_stream@))),
                ("other_streams"@, count_tree(self.other_streams)),
                ("exemplar"@, shape_or_null(self.exemplar)),
            ],
        )
    }

    fn record(&self) -> (r: Json) {
        let exemplar = match &self.exemplar {
            Some(e) => e.record(),
            None => Json::Null,
        };
        let mut fields: Vec<(String, Json)> = Vec::new();
        json::put(&mut fields, "cluster_id", json::text(self.cluster_id.as_str()));
        json::put(&mut fields, "template", json::text(self.template.as_str()));
        json::put(&mut fields, "count", json::count(self.count));
        json::put(&mut fields, "status", string_opt(&self.status));
        json::put(&mut fields, "first_seen", string_opt(&self.first_seen));
        json::put(&mut fields, "last_seen", string_opt(&self.last_seen));
        json::put(&mut fields, "histogram", json::array(records(&self.histogram)));
        json::put(&mut fields, "by_stream", json::array(records(&self.by_stream)));
        json::put(&mut fields, "other_streams", json::count(self.other_streams));
        json::put(&mut fields, "exemplar", exemplar);
        proof {
            assert(fields_of(fields@) =~= self.shape()->Object_0);
        }
        json::object(fields)
    }
}

impl Record for Findings {
    open spec fn presentable(&self) -> bool {
        true
    }

    open spec fn shape(&self) -> JsonTree {
        JsonTree::Object(
            seq![
                ("title"@, JsonTree::Text(self.title@)),
                ("subtitle"@, text_or_null(opt_text(self.subtitle))),
                ("summary"@, text_or_null(opt_text(self.summary))),
                ("window"@, shape_or_null(self.window)),
                ("sections"@, JsonTree::Array(shapes(self.sections@))),
                ("charts"@, JsonTree::Array(shapes(self.charts@))),
                ("events"@, JsonTree::Array(shapes(self.events@))),
                ("clusters"@, JsonTree::Array(shapes(self.clusters@))),
                ("appendix"@, JsonTree::Array(shapes(self.appendix@))),
            ],
        )
    }

    fn record(&self) -> (r: Json) {
        let window = match &self.window {
            Some(w) => w.record(),
            None => Json::Null,
        };
        let mut fields: Vec<(String, Json)> = Vec::new();
        json::put(&mut fields, "title", json::text(self.title.as_str()));
        json::put(&mut fields, "subtitle", string_opt(&self.subtitle));
        json::put(&mut fields, "summary", string_opt(&self.summary));
        json::put(&mut fields, "window", window);
        json::put(&mut fields, "sections", json::array(records(&self.sections)));
        json::put(&mut fields, "charts", json::array(records(&self.charts)));
        json::put(&mut fields, "events", json::array(records(&self.events)));
        json::put(&mut fields, "clusters", json::array(records(&self.clusters)));
        json::put(&mut fields, "appendix", json::array(records(&self.appendix)));
        proof {
            assert(fields_of(fields@) =~= self.shape()->Object_0);
        }
        json::object(fields)
    }
}

/// The keys of an object.
pub open spec fn keys_of(t: JsonTree) -> Seq<Seq<char>> {
    match t {
        JsonTree::Object(m) => m.map_values(|e: (Seq<char>, JsonTree)| e.0),
        _ => Seq::empty(),
    }
}

/// A cluster pastes into a report: what `logs scan` writes has exactly the
/// fields that a cluster of a findings document has.
pub proof fn a_scanned_cluster_has_the_fields_of_a_report(
    scanned: crate::cluster::template::Cluster,
    reported: Cluster,
)
    ensures
        forall|k: Seq<char>|
            keys_of(scanned.shape()).contains(k) <==> #[trigger] keys_of(
                reported.shape(),
            ).contains(k),
{
    let a = keys_of(scanned.shape());
    let b = keys_of(reported.shape());
    // Where the fields of one stand in the other.
    let to_reported: Seq<int> = seq![0, 3, 2, 4, 5, 1, 6, 7, 8, 9];
    let to_scanned: Seq<int> = seq![0, 5, 2, 1, 3, 4, 6, 7, 8, 9];
    assert(a.len() == 10 && b.len() == 10);
    assert forall|i: int| 0 <= i < 10 implies #[trigger] a[i] == b[to_reported[i]] && 0
        <= to_reported[i] < 10 by {}
    assert forall|i: int| 0 <= i < 10 implies #[trigger] b[i] == a[to_scanned[i]] && 0
        <= to_scanned[i] < 10 by {}
    assert forall|k: Seq<char>| a.contains(k) <==> #[trigger] b.contains(k) by {
        if a.contains(k) {
            let i = a.index_of(k);
            assert(b[to_reported[i]] == k);
        }
        if b.contains(k) {
            let i = b.index_of(k);
            assert(a[to_scanned[i]] == k);
        }
    }
}

} // verus!
