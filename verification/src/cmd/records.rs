//! The rows of each command, as they are written.

use crate::cluster::template::{Cluster, Exemplar, Status, StreamCount};
use crate::cmd::ec2::{HealthRow, InstanceDetail, InstanceRow, VolumeRef};
use crate::cmd::logs::{LogGroup, RawEvent};
use crate::common::time::{to_zulu, zulu_text, Instant};
use crate::glob::opt_text;
use crate::json::{
    self, fields_of, number_or_null, text_array, text_or_null, Json, JsonTree,
};
use crate::metrics::align::Summary;
use crate::output::{
    instant_opt, instant_or_null, records, shapes, string_opt, valid_opt, Record,
};
use crate::text::{decimal, strings};
use vstd::prelude::*;

verus! {

/// An instant.
pub open spec fn instant_tree(at: Instant) -> JsonTree {
    JsonTree::Text(zulu_text(at.secs, at.nanos))
}

/// A count.
pub open spec fn count_tree(n: usize) -> JsonTree {
    JsonTree::Number(decimal(n as nat))
}

// ---------------------------------------------------------------------------
// logs
// ---------------------------------------------------------------------------

/// An optional small number, widened.
pub open spec fn widened(n: Option<i32>) -> Option<i64> {
    match n {
        Some(v) => Some(v as i64),
        None => None,
    }
}

impl Record for LogGroup {
    open spec fn presentable(&self) -> bool {
        valid_opt(self.created)
    }

    open spec fn shape(&self) -> JsonTree {
        JsonTree::Object(
            seq![
                ("name"@, JsonTree::Text(self.name@)),
                ("retention_days"@, number_or_null(widened(self.retention_days))),
                ("stored_bytes"@, number_or_null(self.stored_bytes)),
                ("created"@, instant_or_null(self.created)),
            ],
        )
    }

    fn record(&self) -> (r: Json) {
        let days = match self.retention_days {
            Some(n) => Some(n as i64),
            None => None,
        };
        let mut fields: Vec<(String, Json)> = Vec::new();
        json::put(&mut fields, "name", json::text(self.name.as_str()));
        json::put(&mut fields, "retention_days", json::whole_opt(days));
        json::put(&mut fields, "stored_bytes", json::whole_opt(self.stored_bytes));
        json::put(&mut fields, "created", instant_opt(self.created));
        proof {
            assert(fields_of(fields@) =~= self.shape()->Object_0);
        }
        json::object(fields)
    }
}

impl Record for RawEvent {
    open spec fn presentable(&self) -> bool {
        self.ts.valid()
    }

    open spec fn shape(&self) -> JsonTree {
        JsonTree::Object(
            seq![
                ("ts"@, instant_tree(self.ts)),
                ("group"@, JsonTree::Text(self.group@)),
                ("stream"@, JsonTree::Text(self.stream@)),
                ("message"@, JsonTree::Text(self.message@)),
            ],
        )
    }

    fn record(&self) -> (r: Json) {
        let mut fields: Vec<(String, Json)> = Vec::new();
        json::put(&mut fields, "ts", Json::Text(to_zulu(self.ts)));
        json::put(&mut fields, "group", json::text(self.group.as_str()));
        json::put(&mut fields, "stream", json::text(self.stream.as_str()));
        json::put(&mut fields, "message", json::text(self.message.as_str()));
        proof {
            assert(fields_of(fields@) =~= self.shape()->Object_0);
        }
        json::object(fields)
    }
}

/// How a status is written.
pub open spec fn status_name(s: Status) -> Seq<char> {
    match s {
        Status::New => "new"@,
        Status::Spiking => "spiking"@,
        Status::Steady => "steady"@,
        Status::Unknown => "unknown"@,
    }
}

impl Record for Status {
    open spec fn presentable(&self) -> bool {
        true
    }

    open spec fn shape(&self) -> JsonTree {
        JsonTree::Text(status_name(*self))
    }

    fn record(&self) -> (r: Json) {
        match self {
            Status::New => json::text("new"),
            Status::Spiking => json::text("spiking"),
            Status::Steady => json::text("steady"),
            Status::Unknown => json::text("unknown"),
        }
    }
}

impl Record for StreamCount {
    open spec fn presentable(&self) -> bool {
        true
    }

    open spec fn shape(&self) -> JsonTree {
        JsonTree::Object(
            seq![("stream"@, JsonTree::Text(self.stream@)), ("count"@, count_tree(self.count))],
        )
    }

    fn record(&self) -> (r: Json) {
        let mut fields: Vec<(String, Json)> = Vec::new();
        json::put(&mut fields, "stream", json::text(self.stream.as_str()));
        json::put(&mut fields, "count", json::count(self.count));
        proof {
            assert(fields_of(fields@) =~= self.shape()->Object_0);
        }
        json::object(fields)
    }
}

impl Record for Exemplar {
    open spec fn presentable(&self) -> bool {
        self.ts.valid()
    }

    open spec fn shape(&self) -> JsonTree {
        JsonTree::Object(
            seq![
                ("ts"@, instant_tree(self.ts)),
                ("stream"@, JsonTree::Text(self.stream@)),
                ("message"@, JsonTree::Text(self.message@)),
            ],
        )
    }

    fn record(&self) -> (r: Json) {
        let mut fields: Vec<(String, Json)> = Vec::new();
        json::put(&mut fields, "ts", Json::Text(to_zulu(self.ts)));
        json::put(&mut fields, "stream", json::text(self.stream.as_str()));
        json::put(&mut fields, "message", json::text(self.message.as_str()));
        proof {
            assert(fields_of(fields@) =~= self.shape()->Object_0);
        }
        json::object(fields)
    }
}

impl Record for u32 {
    open spec fn presentable(&self) -> bool {
        true
    }

    open spec fn shape(&self) -> JsonTree {
        JsonTree::Number(decimal(*self as nat))
    }

    fn record(&self) -> (r: Json) {
        json::count(*self as usize)
    }
}

impl Record for Cluster {
    open spec fn presentable(&self) -> bool {
        self.first_seen.valid() && self.last_seen.valid() && self.exemplar.ts.valid()
    }

    open spec fn shape(&self) -> JsonTree {
        JsonTree::Object(
            seq![
                ("cluster_id"@, JsonTree::Text(self.cluster_id@)),
                ("status"@, self.status.shape()),
                ("count"@, count_tree(self.count)),
                ("first_seen"@, instant_tree(self.first_seen)),
                ("last_seen"@, instant_tree(self.last_seen)),
                ("template"@, JsonTree::Text(self.template@)),
                ("histogram"@, JsonTree::Array(shapes(self.histogram@))),
                ("by_stream"@, JsonTree::Array(shapes(self.by_stream@))),
                ("other_streams"@, count_tree(self.other_streams)),
                ("exemplar"@, self.exemplar.shape()),
            ],
        )
    }

    fn record(&self) -> (r: Json) {
        let mut fields: Vec<(String, Json)> = Vec::new();
        json::put(&mut fields, "cluster_id", json::text(self.cluster_id.as_str()));
        json::put(&mut fields, "status", self.status.record());
        json::put(&mut fields, "count", json::count(self.count));
        json::put(&mut fields, "first_seen", Json::Text(to_zulu(self.first_seen)));
        json::put(&mut fields, "last_seen", Json::Text(to_zulu(self.last_seen)));
        json::put(&mut fields, "template", json::text(self.template.as_str()));
        json::put(&mut fields, "histogram", json::array(records(&self.histogram)));
        json::put(&mut fields, "by_stream", json::array(records(&self.by_stream)));
        json::put(&mut fields, "other_streams", json::count(self.other_streams));
        json::put(&mut fields, "exemplar", self.exemplar.record());
        proof {
            assert(fields_of(fields@) =~= self.shape()->Object_0);
        }
        json::object(fields)
    }
}

// ---------------------------------------------------------------------------
// ec2
// ---------------------------------------------------------------------------

/// An optional flag.
pub open spec fn flag_or_null(b: Option<bool>) -> JsonTree {
    match b {
        Some(v) => JsonTree::Bool(v),
        None => JsonTree::Null,
    }
}

/// The fields of an instance row.
pub open spec fn instance_fields(row: InstanceRow) -> Seq<(Seq<char>, JsonTree)> {
    seq![
        ("instance_id"@, JsonTree::Text(row.instance_id@)),
        ("name"@, text_or_null(opt_text(row.name))),
        ("state"@, text_or_null(opt_text(row.state))),
        ("instance_type"@, text_or_null(opt_text(row.instance_type))),
        ("az"@, text_or_null(opt_text(row.az))),
        ("private_ip"@, text_or_null(opt_text(row.private_ip))),
        ("launched"@, instant_or_null(row.launched)),
    ]
}

/// Write the fields of an instance row.
fn put_instance(row: &InstanceRow) -> (r: Vec<(String, Json)>)
    requires
        valid_opt(row.launched),
    ensures
        fields_of(r@) == instance_fields(*row),
{
    let mut fields: Vec<(String, Json)> = Vec::new();
    json::put(&mut fields, "instance_id", json::text(row.instance_id.as_str()));
    json::put(&mut fields, "name", string_opt(&row.name));
    json::put(&mut fields, "state", string_opt(&row.state));
    json::put(&mut fields, "instance_type", string_opt(&row.instance_type));
    json::put(&mut fields, "az", string_opt(&row.az));
    json::put(&mut fields, "private_ip", string_opt(&row.private_ip));
    json::put(&mut fields, "launched", instant_opt(row.launched));
    proof {
        assert(fields_of(fields@) =~= instance_fields(*row));
    }
    fields
}

impl Record for InstanceRow {
    open spec fn presentable(&self) -> bool {
        valid_opt(self.launched)
    }

    open spec fn shape(&self) -> JsonTree {
        JsonTree::Object(instance_fields(*self))
    }

    fn record(&self) -> (r: Json) {
        json::object(put_instance(self))
    }
}

impl Record for HealthRow {
    open spec fn presentable(&self) -> bool {
        true
    }

    open spec fn shape(&self) -> JsonTree {
        JsonTree::Object(
            seq![
                ("instance_id"@, JsonTree::Text(self.instance_id@)),
                ("name"@, text_or_null(opt_text(self.name))),
                ("state"@, text_or_null(opt_text(self.state))),
                ("system_status"@, text_or_null(opt_text(self.system_status))),
                ("instance_status"@, text_or_null(opt_text(self.instance_status))),
                ("events"@, text_array(strings(self.events@))),
            ],
        )
    }

    fn record(&self) -> (r: Json) {
        let mut fields: Vec<(String, Json)> = Vec::new();
        json::put(&mut fields, "instance_id", json::text(self.instance_id.as_str()));
        json::put(&mut fields, "name", string_opt(&self.name));
        json::put(&mut fields, "state", string_opt(&self.state));
        json::put(&mut fields, "system_status", string_opt(&self.system_status));
        json::put(&mut fields, "instance_status", string_opt(&self.instance_status));
        json::put(&mut fields, "events", json::text_list(&self.events));
        proof {
            assert(fields_of(fields@) =~= self.shape()->Object_0);
        }
        json::object(fields)
    }
}

impl Record for VolumeRef {
    open spec fn presentable(&self) -> bool {
        true
    }

    open spec fn shape(&self) -> JsonTree {
        JsonTree::Object(
            seq![
                ("device"@, text_or_null(opt_text(self.device))),
                ("volume_id"@, text_or_null(opt_text(self.volume_id))),
                ("delete_on_termination"@, flag_or_null(self.delete_on_termination)),
                ("attach_status"@, text_or_null(opt_text(self.attach_status))),
            ],
        )
    }

    fn record(&self) -> (r: Json) {
        let deleted = match self.delete_on_termination {
            Some(b) => Json::Bool(b),
            None => Json::Null,
        };
        let mut fields: Vec<(String, Json)> = Vec::new();
        json::put(&mut fields, "device", string_opt(&self.device));
        json::put(&mut fields, "volume_id", string_opt(&self.volume_id));
        json::put(&mut fields, "delete_on_termination", deleted);
        json::put(&mut fields, "attach_status", string_opt(&self.attach_status));
        proof {
            assert(fields_of(fields@) =~= self.shape()->Object_0);
        }
        json::object(fields)
    }
}

/// Tags as an object.
pub open spec fn tag_fields(tags: Seq<(String, String)>) -> Seq<(Seq<char>, JsonTree)> {
    tags.map_values(|t: (String, String)| (t.0@, JsonTree::Text(t.1@)))
}

/// Write tags as an object.
fn put_tags(tags: &Vec<(String, String)>) -> (r: Json)
    ensures
        r@ == JsonTree::Object(tag_fields(tags@)),
{
    let ghost want = tag_fields(tags@);
    let mut fields: Vec<(String, Json)> = Vec::new();
    let mut i: usize = 0;
    while i < tags.len()
        invariant
            i <= tags@.len(),
            want == tag_fields(tags@),
            fields_of(fields@) == want.take(i as int),
        decreases tags@.len() - i,
    {
        json::put(&mut fields, tags[i].0.as_str(), json::text(tags[i].1.as_str()));
        proof {
            assert(want.take(i + 1) == want.take(i as int).push(want[i as int]));
        }
        i += 1;
    }
    proof {
        assert(want.take(i as int) == want);
    }
    json::object(fields)
}

impl Record for InstanceDetail {
    open spec fn presentable(&self) -> bool {
        self.summary.presentable()
    }

    open spec fn shape(&self) -> JsonTree {
        JsonTree::Object(
            instance_fields(self.summary) + seq![
                ("vpc_id"@, text_or_null(opt_text(self.vpc_id))),
                ("subnet_id"@, text_or_null(opt_text(self.subnet_id))),
                ("image_id"@, text_or_null(opt_text(self.image_id))),
                ("key_name"@, text_or_null(opt_text(self.key_name))),
                ("iam_profile"@, text_or_null(opt_text(self.iam_profile))),
                ("public_ip"@, text_or_null(opt_text(self.public_ip))),
                ("detailed_monitoring"@, JsonTree::Bool(self.detailed_monitoring)),
                ("security_groups"@, text_array(strings(self.security_groups@))),
                ("volumes"@, JsonTree::Array(shapes(self.volumes@))),
                ("tags"@, JsonTree::Object(tag_fields(self.tags@))),
            ],
        )
    }

    fn record(&self) -> (r: Json) {
        let mut fields = put_instance(&self.summary);
        json::put(&mut fields, "vpc_id", string_opt(&self.vpc_id));
        json::put(&mut fields, "subnet_id", string_opt(&self.subnet_id));
        json::put(&mut fields, "image_id", string_opt(&self.image_id));
        json::put(&mut fields, "key_name", string_opt(&self.key_name));
        json::put(&mut fields, "iam_profile", string_opt(&self.iam_profile));
        json::put(&mut fields, "public_ip", string_opt(&self.public_ip));
        json::put(&mut fields, "detailed_monitoring", Json::Bool(self.detailed_monitoring));
        json::put(&mut fields, "security_groups", json::text_list(&self.security_groups));
        json::put(&mut fields, "volumes", json::array(records(&self.volumes)));
        json::put(&mut fields, "tags", put_tags(&self.tags));
        proof {
            assert(fields_of(fields@) =~= self.shape()->Object_0);
        }
        json::object(fields)
    }
}

// ---------------------------------------------------------------------------
// metrics
// ---------------------------------------------------------------------------

/// The numbers of a summary, as they are written.
#[derive(Debug)]
pub struct Figures {
    pub min: Option<String>,
    pub mean: Option<String>,
    pub max: Option<String>,
    pub latest: Option<String>,
}

/// A number by its text, or `null`.
pub open spec fn figure_or_null(n: Option<String>) -> JsonTree {
    match n {
        Some(t) => JsonTree::Number(t@),
        None => JsonTree::Null,
    }
}

/// Write a number, or `null`.
fn figure_opt(n: &Option<String>) -> (r: Json)
    ensures
        r@ == figure_or_null(*n),
{
    match n {
        Some(t) => Json::Number(t.as_str().to_owned()),
        None => Json::Null,
    }
}

/// A summary with its numbers.
pub open spec fn summary_fields(s: Summary, figures: Figures) -> Seq<(Seq<char>, JsonTree)> {
    seq![
        ("label"@, JsonTree::Text(s.label@)),
        ("datapoints"@, count_tree(s.datapoints)),
        ("min"@, figure_or_null(figures.min)),
        ("mean"@, figure_or_null(figures.mean)),
        ("max"@, figure_or_null(figures.max)),
        ("latest"@, figure_or_null(figures.latest)),
    ]
}

/// Write a summary with its numbers.
pub fn summary_record(s: &Summary, figures: &Figures) -> (r: Json)
    ensures
        r@ == JsonTree::Object(summary_fields(*s, *figures)),
{
    let mut fields: Vec<(String, Json)> = Vec::new();
    json::put(&mut fields, "label", json::text(s.label.as_str()));
    json::put(&mut fields, "datapoints", json::count(s.datapoints));
    json::put(&mut fields, "min", figure_opt(&figures.min));
    json::put(&mut fields, "mean", figure_opt(&figures.mean));
    json::put(&mut fields, "max", figure_opt(&figures.max));
    json::put(&mut fields, "latest", figure_opt(&figures.latest));
    proof {
        assert(fields_of(fields@) =~= summary_fields(*s, *figures));
    }
    json::object(fields)
}

} // verus!
