//! `awsdiag ec2`: instance inventory, detail and health.

use crate::common::envelope::{capped, Envelope};
use crate::common::errors::{Error, Fault};
use crate::common::time::{formatted, formatted_text, Instant};
use crate::glob::opt_text;
use crate::json::{self, fields_of, text_array, text_or_null, Json, JsonTree};
use crate::order::{
    in_order, names_are_ordered, ordered, sort, sorting_orders, sorting_permutes, up_to, Ordered,
    Sortable,
};
use crate::text::{less_str, same_str, strings, text_less};
use vstd::hash_map::StringHashMap;
use vstd::prelude::*;
use vstd::string::StringExecFns;

verus! {

// ---------------------------------------------------------------------------
// What the API describes
// ---------------------------------------------------------------------------

/// A tag as the API describes it.
#[derive(Debug)]
pub struct DescribedTag {
    pub key: Option<String>,
    pub value: Option<String>,
}

/// A security group as the API describes it.
#[derive(Debug)]
pub struct DescribedGroup {
    pub name: Option<String>,
    pub id: Option<String>,
}

/// A block device as the API describes it.
#[derive(Debug)]
pub struct VolumeRef {
    pub device: Option<String>,
    pub volume_id: Option<String>,
    pub delete_on_termination: Option<bool>,
    pub attach_status: Option<String>,
}

/// An instance as the API describes it.
#[derive(Debug)]
pub struct DescribedInstance {
    pub instance_id: Option<String>,
    pub tags: Vec<DescribedTag>,
    pub state: Option<String>,
    pub instance_type: Option<String>,
    pub az: Option<String>,
    pub private_ip: Option<String>,
    pub launch_secs: Option<i64>,
    pub vpc_id: Option<String>,
    pub subnet_id: Option<String>,
    pub image_id: Option<String>,
    pub key_name: Option<String>,
    pub iam_profile: Option<String>,
    pub public_ip: Option<String>,
    pub monitoring: Option<String>,
    pub security_groups: Vec<DescribedGroup>,
    pub volumes: Vec<VolumeRef>,
}

/// A scheduled event as the API describes it, its bounds in seconds.
#[derive(Debug)]
pub struct DescribedEvent {
    pub code: Option<String>,
    pub description: Option<String>,
    pub not_before: Option<i64>,
    pub not_after: Option<i64>,
}

/// The status of an instance as the API describes it.
#[derive(Debug)]
pub struct DescribedStatus {
    pub instance_id: Option<String>,
    pub state: Option<String>,
    pub system_status: Option<String>,
    pub instance_status: Option<String>,
    pub events: Vec<DescribedEvent>,
}

// ---------------------------------------------------------------------------
// What is reported
// ---------------------------------------------------------------------------

/// One instance in a listing.
#[derive(Debug)]
pub struct InstanceRow {
    pub instance_id: String,
    pub name: Option<String>,
    pub state: Option<String>,
    pub instance_type: Option<String>,
    pub az: Option<String>,
    pub private_ip: Option<String>,
    pub launched: Option<Instant>,
}

/// The health of one instance.
#[derive(Debug, Clone)]
pub struct HealthRow {
    pub instance_id: String,
    pub name: Option<String>,
    pub state: Option<String>,
    /// `ok`, `impaired`, `insufficient-data`, `not-applicable`, `initializing`.
    pub system_status: Option<String>,
    pub instance_status: Option<String>,
    /// Scheduled retirements, reboots and maintenance. Present here because
    /// an instance can be perfectly healthy right now and still be scheduled
    /// for a stop tonight, which is exactly the thing a status check hides.
    pub events: Vec<String>,
}

/// One instance in full: what a listing shows, plus what it is made of.
#[derive(Debug)]
pub struct InstanceDetail {
    pub summary: InstanceRow,
    pub vpc_id: Option<String>,
    pub subnet_id: Option<String>,
    pub image_id: Option<String>,
    pub key_name: Option<String>,
    pub iam_profile: Option<String>,
    pub public_ip: Option<String>,
    /// Whether CloudWatch receives 1-minute rather than 5-minute data. This
    /// decides what resolution `metrics compare` can actually return for the
    /// instance, so it belongs next to the instance rather than in a doc.
    pub detailed_monitoring: bool,
    pub security_groups: Vec<String>,
    pub volumes: Vec<VolumeRef>,
    /// By key, each key once.
    pub tags: Vec<(String, String)>,
}

/// The text of an optional text, empty when it is missing.
pub open spec fn or_empty(s: Option<String>) -> Seq<char> {
    match s {
        Some(t) => t@,
        None => ""@,
    }
}

/// Copy an optional text.
fn copy_opt(s: &Option<String>) -> (r: Option<String>)
    ensures
        opt_text(r) == opt_text(*s),
{
    match s {
        Some(t) => Some(t.as_str().to_owned()),
        None => None,
    }
}

/// Copy an optional text, empty when it is missing.
fn copy_or_empty(s: &Option<String>) -> (r: String)
    ensures
        r@ == or_empty(*s),
{
    match s {
        Some(t) => t.as_str().to_owned(),
        None => "".to_owned(),
    }
}

/// Decide whether an optional text is the given one.
fn opt_is(s: &Option<String>, t: &str) -> (r: bool)
    ensures
        r == (opt_text(*s) == Some(t@)),
{
    match s {
        Some(x) => same_str(x.as_str(), t),
        None => false,
    }
}

/// The value of the first `Name` tag, which is what a human calls the
/// instance.
pub open spec fn name_tag(tags: Seq<DescribedTag>) -> Option<Seq<char>>
    decreases tags.len(),
{
    if tags.len() == 0 {
        None
    } else if opt_text(tags[0].key) == Some("Name"@) {
        opt_text(tags[0].value)
    } else {
        name_tag(tags.skip(1))
    }
}

/// Find `name_tag`.
pub fn name_of(tags: &Vec<DescribedTag>) -> (r: Option<String>)
    ensures
        opt_text(r) == name_tag(tags@),
{
    let mut i: usize = 0;
    proof {
        assert(tags@.skip(0) == tags@);
    }
    while i < tags.len()
        invariant
            i <= tags@.len(),
            name_tag(tags@.skip(i as int)) == name_tag(tags@),
        decreases tags@.len() - i,
    {
        proof {
            assert(tags@.skip(i as int)[0] == tags@[i as int]);
            assert(tags@.skip(i as int).skip(1) == tags@.skip(i + 1));
        }
        if opt_is(&tags[i].key, "Name") {
            return copy_opt(&tags[i].value);
        }
        i += 1;
    }
    None
}

/// Whether a row reports a described instance.
pub open spec fn row_is(r: InstanceRow, i: DescribedInstance) -> bool {
    &&& r.instance_id@ == or_empty(i.instance_id)
    &&& opt_text(r.name) == name_tag(i.tags@)
    &&& opt_text(r.state) == opt_text(i.state)
    &&& opt_text(r.instance_type) == opt_text(i.instance_type)
    &&& opt_text(r.az) == opt_text(i.az)
    &&& opt_text(r.private_ip) == opt_text(i.private_ip)
    &&& r.launched == match i.launch_secs {
        Some(s) => if (Instant { secs: s, nanos: 0 }).valid() {
            Some(Instant { secs: s, nanos: 0 })
        } else {
            None
        },
        None => None,
    }
}

/// Report a described instance.
pub fn row(i: &DescribedInstance) -> (r: InstanceRow)
    ensures
        row_is(r, *i),
{
    InstanceRow {
        instance_id: copy_or_empty(&i.instance_id),
        name: name_of(&i.tags),
        state: copy_opt(&i.state),
        instance_type: copy_opt(&i.instance_type),
        az: copy_opt(&i.az),
        private_ip: copy_opt(&i.private_ip),
        launched: match i.launch_secs {
            Some(s) => Instant::new(s, 0),
            None => None,
        },
    }
}

// ---------------------------------------------------------------------------
// Filters
// ---------------------------------------------------------------------------

/// A filter applied by the API.
#[derive(Debug)]
pub struct Filter {
    key: String,
    accepted: Vec<String>,
}

impl View for Filter {
    type V = (Seq<char>, Seq<Seq<char>>);

    closed spec fn view(&self) -> (Seq<char>, Seq<Seq<char>>) {
        (self.key@, strings(self.accepted@))
    }
}

/// The contents of filters.
pub open spec fn filters_of(v: Seq<Filter>) -> Seq<(Seq<char>, Seq<Seq<char>>)> {
    v.map_values(|f: Filter| f@)
}

impl Filter {
    /// A filter on one value.
    fn on(name: &str, value: &str) -> (r: Filter)
        ensures
            r@ == (name@, seq![value@]),
    {
        let mut accepted: Vec<String> = Vec::new();
        accepted.push(value.to_owned());
        proof {
            assert(strings(accepted@) =~= seq![value@]);
        }
        Filter { key: name.to_owned(), accepted }
    }

    /// What is filtered on.
    pub fn name(&self) -> (r: Option<&str>)
        ensures
            r is Some && r->0@ == self@.0,
    {
        Some(self.key.as_str())
    }

    /// What is let through.
    pub fn values(&self) -> (r: &[String])
        ensures
            strings(r@) == self@.1,
    {
        self.accepted.as_slice()
    }
}

/// The filters for a state and a name.
pub open spec fn filters_for(state: Option<Seq<char>>, name: Option<Seq<char>>) -> Seq<
    (Seq<char>, Seq<Seq<char>>),
> {
    (match state {
        Some(s) => seq![("instance-state-name"@, seq![s])],
        None => Seq::empty(),
    }) + (match name {
        Some(n) => seq![("tag:Name"@, seq![n])],
        None => Seq::empty(),
    })
}

/// The content of an optional argument.
pub open spec fn asked(s: Option<&str>) -> Option<Seq<char>> {
    match s {
        Some(t) => Some(t@),
        None => None,
    }
}

/// Build the server-side filters for `ls`.
///
/// Filtering server-side matters: an account with thousands of instances
/// would otherwise page all of them back just to discard most locally. EC2
/// filter values take `*` and `?` wildcards natively, so a glob works without
/// fetching everything and matching locally.
pub fn build_filters(state: Option<&str>, name: Option<&str>) -> (r: Vec<Filter>)
    ensures
        filters_of(r@) == filters_for(asked(state), asked(name)),
{
    let mut filters: Vec<Filter> = Vec::new();
    if let Some(s) = state {
        filters.push(Filter::on("instance-state-name", s));
    }
    if let Some(n) = name {
        filters.push(Filter::on("tag:Name", n));
    }
    proof {
        assert(filters_of(filters@) =~= filters_for(asked(state), asked(name)));
    }
    filters
}

// ---------------------------------------------------------------------------
// ls
// ---------------------------------------------------------------------------

/// Whether an optional name comes before another: none before any, then by
/// text.
pub open spec fn name_less(a: Option<Seq<char>>, b: Option<Seq<char>>) -> bool {
    match (a, b) {
        (None, Some(_)) => true,
        (Some(x), Some(y)) => text_less(x, y),
        _ => false,
    }
}

/// Whether a name and id come before others.
pub open spec fn listed_before(
    a: Option<Seq<char>>,
    i: Seq<char>,
    b: Option<Seq<char>>,
    j: Seq<char>,
) -> bool {
    name_less(a, b) || (a == b && text_less(i, j))
}

/// The order of listings is a strict weak order.
proof fn listing_is_ordered(
    a: Option<Seq<char>>,
    i: Seq<char>,
    b: Option<Seq<char>>,
    j: Seq<char>,
    c: Option<Seq<char>>,
    k: Seq<char>,
)
    ensures
        !listed_before(a, i, a, i),
        listed_before(a, i, b, j) && listed_before(b, j, c, k) ==> listed_before(a, i, c, k),
        !listed_before(a, i, b, j) && !listed_before(b, j, c, k) ==> !listed_before(a, i, c, k),
{
    names_are_ordered(i, j, k);
    names_are_ordered(i, i, i);
    match (a, b, c) {
        (Some(x), Some(y), Some(z)) => {
            names_are_ordered(x, y, z);
            names_are_ordered(z, y, x);
            crate::text::text_less_is_total(x, y);
            crate::text::text_less_is_total(y, z);
            crate::text::text_less_is_total(x, z);
        },
        (Some(x), _, _) => {
            crate::text::text_less_is_total(x, x);
        },
        _ => {},
    }
}

/// Decide `listed_before`.
fn precedes_in_listing(a: &Option<String>, i: &str, b: &Option<String>, j: &str) -> (r: bool)
    ensures
        r == listed_before(opt_text(*a), i@, opt_text(*b), j@),
{
    match (a, b) {
        (None, Some(_)) => true,
        (Some(_), None) => false,
        (None, None) => less_str(i, j),
        (Some(x), Some(y)) => less_str(x.as_str(), y.as_str()) || (same_str(
            x.as_str(),
            y.as_str(),
        ) && less_str(i, j)),
    }
}

impl Ordered for InstanceRow {
    /// By name, then by id.
    open spec fn before(self, other: InstanceRow) -> bool {
        listed_before(
            opt_text(self.name),
            self.instance_id@,
            opt_text(other.name),
            other.instance_id@,
        )
    }

    proof fn is_weak_order(a: InstanceRow, b: InstanceRow, c: InstanceRow) {
        listing_is_ordered(
            opt_text(a.name),
            a.instance_id@,
            opt_text(b.name),
            b.instance_id@,
            opt_text(c.name),
            c.instance_id@,
        );
    }
}

impl Sortable for InstanceRow {
    fn precedes(&self, other: &InstanceRow) -> (r: bool) {
        precedes_in_listing(
            &self.name,
            self.instance_id.as_str(),
            &other.name,
            other.instance_id.as_str(),
        )
    }
}

/// Report a page of described instances behind what was there.
pub fn describe_page(rows: &mut Vec<InstanceRow>, page: &Vec<DescribedInstance>)
    ensures
        final(rows)@.len() == old(rows)@.len() + page@.len(),
        final(rows)@.take(old(rows)@.len() as int) == old(rows)@,
        forall|k: int|
            0 <= k < page@.len() ==> row_is(
                #[trigger] final(rows)@[old(rows)@.len() + k],
                page@[k],
            ),
        forall|k: int| 0 <= k < old(rows)@.len() ==> #[trigger] final(rows)@[k] == old(rows)@[k],
        forall|k: int|
            0 <= k < page@.len() && page@[k].instance_id is Some ==> (
            #[trigger] final(rows)@[old(rows)@.len() + k]).instance_id@
                == page@[k].instance_id->0@,
{
    let ghost before = rows@;
    let ghost n = before.len();
    let mut i: usize = 0;
    proof {
        assert(before.take(n as int) == before);
    }
    while i < page.len()
        invariant
            i <= page@.len(),
            before == old(rows)@,
            n == before.len(),
            rows@.len() == n + i,
            rows@.take(n as int) == before,
            forall|k: int| 0 <= k < i ==> row_is(#[trigger] rows@[n + k], page@[k]),
        decreases page@.len() - i,
    {
        let ghost rows0 = rows@;
        rows.push(row(&page[i]));
        proof {
            assert(rows@.take(n as int) == rows0.take(n as int));
            assert forall|k: int| 0 <= k < i + 1 implies row_is(
                #[trigger] rows@[n + k],
                page@[k],
            ) by {
                if k < i {
                    assert(rows@[n + k] == rows0[n + k]);
                }
            }
        }
        i += 1;
    }
}

/// Rows in order, as far as the limit allows.
pub open spec fn listed<T: Ordered>(rows: Seq<T>, limit: Option<usize>) -> Seq<T> {
    match limit {
        Some(n) => up_to(ordered(rows), n as int),
        None => ordered(rows),
    }
}

/// Whether rows were left out for the limit.
pub open spec fn cut_short(n: int, limit: Option<usize>) -> bool {
    limit is Some && n > limit->0
}

/// Sort first, then cap. Capping mid-page would return an arbitrary subset in
/// API order, so `--limit 5` would give five different instances run to run
/// and a different ordering from the uncapped command.
pub fn describe(rows: Vec<InstanceRow>, limit: Option<usize>) -> (r: (Vec<InstanceRow>, bool))
    ensures
        r.0@ == listed(rows@, limit),
        r.1 == cut_short(rows@.len() as int, limit),
{
    proof {
        sorting_permutes(rows@);
    }
    capped(sort(rows), limit)
}

/// The parameters a listing reports.
pub open spec fn ls_params(
    profile: Seq<char>,
    state: Option<Seq<char>>,
    name: Option<Seq<char>>,
) -> JsonTree {
    JsonTree::Object(
        seq![
            ("profile"@, JsonTree::Text(profile)),
            ("state"@, text_or_null(state)),
            ("name"@, text_or_null(name)),
        ],
    )
}

/// What `ec2 ls` returns for the instances that were described.
pub fn ls(
    profile: &str,
    state: Option<&str>,
    name: Option<&str>,
    limit: Option<usize>,
    described: Vec<InstanceRow>,
) -> (r: Envelope<InstanceRow>)
    ensures
        r.sound(),
        r.command@ == "ec2 ls"@,
        r.params@ == ls_params(profile@, asked(state), asked(name)),
        r.data@ == listed(described@, limit),
        r.truncated == cut_short(described@.len() as int, limit),
{
    let mut params: Vec<(String, Json)> = Vec::new();
    json::put(&mut params, "profile", json::text(profile));
    json::put(&mut params, "state", json::text_opt(state));
    json::put(&mut params, "name", json::text_opt(name));
    proof {
        assert(fields_of(params@) =~= ls_params(profile@, asked(state), asked(name))->Object_0);
    }
    let (rows, truncated) = describe(described, limit);
    Envelope::new("ec2 ls", json::object(params), rows).truncated(truncated)
}

// ---------------------------------------------------------------------------
// show
// ---------------------------------------------------------------------------

/// What groups are called: by name, or else by id; those with neither are
/// passed over.
pub open spec fn group_names(gs: Seq<DescribedGroup>) -> Seq<Seq<char>>
    decreases gs.len(),
{
    if gs.len() == 0 {
        Seq::empty()
    } else {
        let past = group_names(gs.drop_last());
        match gs.last().name {
            Some(n) => past.push(n@),
            None => match gs.last().id {
                Some(i) => past.push(i@),
                None => past,
            },
        }
    }
}

/// Find `group_names`.
fn names_of_groups(gs: &Vec<DescribedGroup>) -> (r: Vec<String>)
    ensures
        strings(r@) == group_names(gs@),
{
    let mut out: Vec<String> = Vec::new();
    let mut i: usize = 0;
    while i < gs.len()
        invariant
            i <= gs@.len(),
            strings(out@) == group_names(gs@.take(i as int)),
        decreases gs@.len() - i,
    {
        let ghost out0 = out@;
        proof {
            assert(gs@.take(i + 1).drop_last() == gs@.take(i as int));
            assert(gs@.take(i + 1).last() == gs@[i as int]);
        }
        if let Some(n) = &gs[i].name {
            out.push(n.as_str().to_owned());
            proof {
                assert(strings(out@) == strings(out0).push(n@));
            }
        } else if let Some(d) = &gs[i].id {
            out.push(d.as_str().to_owned());
            proof {
                assert(strings(out@) == strings(out0).push(d@));
            }
        }
        i += 1;
    }
    proof {
        assert(gs@.take(i as int) == gs@);
    }
    out
}

/// Whether a volume reports a described one.
pub open spec fn volume_is(r: VolumeRef, v: VolumeRef) -> bool {
    &&& opt_text(r.device) == opt_text(v.device)
    &&& opt_text(r.volume_id) == opt_text(v.volume_id)
    &&& r.delete_on_termination == v.delete_on_termination
    &&& opt_text(r.attach_status) == opt_text(v.attach_status)
}

/// Copy volumes.
fn copy_volumes(vs: &Vec<VolumeRef>) -> (r: Vec<VolumeRef>)
    ensures
        r@.len() == vs@.len(),
        forall|i: int| 0 <= i < vs@.len() ==> volume_is(#[trigger] r@[i], vs@[i]),
{
    let mut out: Vec<VolumeRef> = Vec::new();
    let mut i: usize = 0;
    while i < vs.len()
        invariant
            i <= vs@.len(),
            out@.len() == i,
            forall|k: int| 0 <= k < i ==> volume_is(#[trigger] out@[k], vs@[k]),
        decreases vs@.len() - i,
    {
        let v = &vs[i];
        out.push(
            VolumeRef {
                device: copy_opt(&v.device),
                volume_id: copy_opt(&v.volume_id),
                delete_on_termination: v.delete_on_termination,
                attach_status: copy_opt(&v.attach_status),
            },
        );
        i += 1;
    }
    out
}

/// The value of the last tag with a key; empty where that tag has none.
pub open spec fn tag_value(tags: Seq<DescribedTag>, key: Seq<char>) -> Option<Seq<char>>
    decreases tags.len(),
{
    if tags.len() == 0 {
        None
    } else if opt_text(tags.last().key) == Some(key) {
        Some(or_empty(tags.last().value))
    } else {
        tag_value(tags.drop_last(), key)
    }
}

/// Whether entries are the described tags, by key and each key once.
pub open spec fn tags_are(entries: Seq<(String, String)>, tags: Seq<DescribedTag>) -> bool {
    &&& forall|i: int, j: int|
        0 <= i < j < entries.len() ==> text_less(
            (#[trigger] entries[i]).0@,
            (#[trigger] entries[j]).0@,
        )
    &&& forall|i: int|
        0 <= i < entries.len() ==> tag_value(tags, (#[trigger] entries[i]).0@) == Some(
            entries[i].1@,
        )
    &&& forall|key: Seq<char>| #[trigger]
        tag_value(tags, key) is Some ==> exists|i: int|
            0 <= i < entries.len() && (#[trigger] entries[i]).0@ == key
}

/// Set a tag among those that stand by key.
fn set_tag(entries: &mut Vec<(String, String)>, key: &str, value: &str)
    requires
        forall|i: int, j: int|
            0 <= i < j < old(entries)@.len() ==> text_less(
                (#[trigger] old(entries)@[i]).0@,
                (#[trigger] old(entries)@[j]).0@,
            ),
    ensures
        forall|i: int, j: int|
            0 <= i < j < final(entries)@.len() ==> text_less(
                (#[trigger] final(entries)@[i]).0@,
                (#[trigger] final(entries)@[j]).0@,
            ),
        exists|i: int|
            0 <= i < final(entries)@.len() && (#[trigger] final(entries)@[i]).0@ == key@
                && final(entries)@[i].1@ == value@,
        forall|i: int|
            0 <= i < final(entries)@.len() && (#[trigger] final(entries)@[i]).0@ != key@
                ==> old(entries)@.contains(final(entries)@[i]),
        forall|i: int|
            0 <= i < final(entries)@.len() && (#[trigger] final(entries)@[i]).0@ == key@
                ==> final(entries)@[i].1@ == value@,
        forall|i: int|
            0 <= i < old(entries)@.len() && (#[trigger] old(entries)@[i]).0@ != key@
                ==> final(entries)@.contains(old(entries)@[i]),
{
    let ghost before = entries@;
    let n = entries.len();
    let mut i: usize = 0;
    while i < n && less_str(entries[i].0.as_str(), key)
        invariant
            n == entries@.len(),
            entries@ == before,
            i <= n,
            forall|k: int| 0 <= k < i ==> text_less((#[trigger] before[k]).0@, key@),
        decreases n - i,
    {
        i += 1;
    }
    if i < n && same_str(entries[i].0.as_str(), key) {
        entries.set(i, (key.to_owned(), value.to_owned()));
        proof {
            let after = entries@;
            assert(after[i as int].0@ == key@);
            assert forall|j: int|
                0 <= j < after.len() && (#[trigger] after[j]).0@ != key@ implies before.contains(
                after[j],
            ) by {
                assert(after[j] == before[j]);
            }
            assert forall|j: int|
                0 <= j < after.len() && (#[trigger] after[j]).0@ == key@ implies after[j].1@
                == value@ by {
                if j < i {
                    assert(text_less(before[j].0@, before[i as int].0@));
                    crate::text::text_less_is_total(key@, key@);
                } else if j > i {
                    assert(text_less(before[i as int].0@, before[j].0@));
                    crate::text::text_less_is_total(key@, key@);
                }
            }
            assert forall|j: int|
                0 <= j < before.len() && (#[trigger] before[j]).0@ != key@ implies after.contains(
                before[j],
            ) by {
                assert(after[j] == before[j]);
            }
            assert forall|a: int, b: int| 0 <= a < b < after.len() implies text_less(
                (#[trigger] after[a]).0@,
                (#[trigger] after[b]).0@,
            ) by {
                assert(after[a].0@ == before[a].0@);
                assert(after[b].0@ == before[b].0@);
            }
        }
    } else {
        proof {
            if i < n {
                crate::text::text_less_is_total(before[i as int].0@, key@);
                assert forall|k: int| i <= k < n implies text_less(
                    key@,
                    (#[trigger] before[k]).0@,
                ) by {
                    if k > i {
                        crate::text::text_less_is_transitive(
                            key@,
                            before[i as int].0@,
                            before[k].0@,
                        );
                    }
                }
            }
        }
        entries.insert(i, (key.to_owned(), value.to_owned()));
        proof {
            let after = entries@;
            assert(after[i as int].0@ == key@);
            assert forall|j: int| 0 <= j < after.len() && j != i implies #[trigger] after[j]
                == before[if j < i {
                j
            } else {
                j - 1
            }] by {}
            assert forall|j: int|
                0 <= j < after.len() && (#[trigger] after[j]).0@ != key@ implies before.contains(
                after[j],
            ) by {
                if j < i {
                    assert(after[j] == before[j]);
                } else {
                    assert(after[j] == before[j - 1]);
                }
            }
            assert forall|j: int|
                0 <= j < after.len() && (#[trigger] after[j]).0@ == key@ implies after[j].1@
                == value@ by {
                crate::text::text_less_is_total(key@, key@);
                if j < i {
                    assert(text_less(before[j].0@, key@));
                } else if j > i {
                    assert(text_less(key@, before[j - 1].0@));
                }
            }
            assert forall|j: int|
                0 <= j < before.len() && (#[trigger] before[j]).0@ != key@ implies after.contains(
                before[j],
            ) by {
                if j < i {
                    assert(after[j] == before[j]);
                } else {
                    assert(after[j + 1] == before[j]);
                }
            }
            assert forall|a: int, b: int| 0 <= a < b < after.len() implies text_less(
                (#[trigger] after[a]).0@,
                (#[trigger] after[b]).0@,
            ) by {
                if a == i {
                    assert(after[b] == before[b - 1]);
                } else if b == i {
                    assert(after[a] == before[a]);
                } else {
                    let x = if a < i {
                        a
                    } else {
                        a - 1
                    };
                    let y = if b < i {
                        b
                    } else {
                        b - 1
                    };
                    assert(after[a] == before[x]);
                    assert(after[b] == before[y]);
                }
            }
        }
    }
}

/// Put described tags by key.
fn tags_by_key(tags: &Vec<DescribedTag>) -> (r: Vec<(String, String)>)
    ensures
        tags_are(r@, tags@),
{
    let mut out: Vec<(String, String)> = Vec::new();
    let mut i: usize = 0;
    while i < tags.len()
        invariant
            i <= tags@.len(),
            tags_are(out@, tags@.take(i as int)),
        decreases tags@.len() - i,
    {
        let ghost past = tags@.take(i as int);
        let ghost next = tags@.take(i + 1);
        let ghost out0 = out@;
        proof {
            assert(next.drop_last() == past);
            assert(next.last() == tags@[i as int]);
        }
        if let Some(key) = &tags[i].key {
            let value = copy_or_empty(&tags[i].value);
            set_tag(&mut out, key.as_str(), value.as_str());
            proof {
                assert forall|k: int| 0 <= k < out@.len() implies tag_value(
                    next,
                    (#[trigger] out@[k]).0@,
                ) == Some(out@[k].1@) by {
                    if out@[k].0@ != key@ {
                        assert(out0.contains(out@[k]));
                        let j = out0.index_of(out@[k]);
                        assert(out0[j] == out@[k]);
                        assert(tag_value(past, out0[j].0@) == Some(out0[j].1@));
                    }
                }
                assert forall|t: Seq<char>| #[trigger] tag_value(next, t) is Some implies exists|
                    k: int,
                |
                    0 <= k < out@.len() && (#[trigger] out@[k]).0@ == t by {
                    if t != key@ {
                        assert(tag_value(past, t) is Some);
                        let j = choose|j: int|
                            0 <= j < out0.len() && (#[trigger] out0[j]).0@ == t;
                        assert(out@.contains(out0[j]));
                        let k = out@.index_of(out0[j]);
                        assert(out@[k] == out0[j]);
                    }
                }
            }
        } else {
            proof {
                assert forall|t: Seq<char>| tag_value(next, t) == #[trigger] tag_value(past, t) by {}
                assert forall|t: Seq<char>| #[trigger] tag_value(next, t) is Some implies exists|
                    k: int,
                |
                    0 <= k < out@.len() && (#[trigger] out@[k]).0@ == t by {
                    assert(tag_value(past, t) is Some);
                }
            }
        }
        i += 1;
    }
    proof {
        assert(tags@.take(i as int) == tags@);
    }
    out
}

/// Whether a detail reports a described instance.
pub open spec fn detail_is(d: InstanceDetail, i: DescribedInstance) -> bool {
    &&& row_is(d.summary, i)
    &&& opt_text(d.vpc_id) == opt_text(i.vpc_id)
    &&& opt_text(d.subnet_id) == opt_text(i.subnet_id)
    &&& opt_text(d.image_id) == opt_text(i.image_id)
    &&& opt_text(d.key_name) == opt_text(i.key_name)
    &&& opt_text(d.iam_profile) == opt_text(i.iam_profile)
    &&& opt_text(d.public_ip) == opt_text(i.public_ip)
    &&& d.detailed_monitoring == (opt_text(i.monitoring) == Some("enabled"@))
    &&& strings(d.security_groups@) == group_names(i.security_groups@)
    &&& d.volumes@.len() == i.volumes@.len()
    &&& forall|k: int|
        0 <= k < i.volumes@.len() ==> volume_is(#[trigger] d.volumes@[k], i.volumes@[k])
    &&& tags_are(d.tags@, i.tags@)
}

/// Report a described instance in full.
pub fn detail_of(i: &DescribedInstance) -> (r: InstanceDetail)
    ensures
        detail_is(r, *i),
{
    InstanceDetail {
        summary: row(i),
        vpc_id: copy_opt(&i.vpc_id),
        subnet_id: copy_opt(&i.subnet_id),
        image_id: copy_opt(&i.image_id),
        key_name: copy_opt(&i.key_name),
        iam_profile: copy_opt(&i.iam_profile),
        public_ip: copy_opt(&i.public_ip),
        detailed_monitoring: opt_is(&i.monitoring, "enabled"),
        security_groups: names_of_groups(&i.security_groups),
        volumes: copy_volumes(&i.volumes),
        tags: tags_by_key(&i.tags),
    }
}

/// Refuse to show every instance: that is what a listing is for.
pub fn check_show(instances: &Vec<String>, name: Option<&str>) -> (r: Result<(), Error>)
    ensures
        instances@.len() > 0 || name is Some ==> r is Ok,
        instances@.len() == 0 && name is None ==> r is Err && r->Err_0@ == (Fault::BadArgument {
            message: "give --instance or --name; showing every instance is what `ls` is for"@,
        }),
{
    if instances.len() == 0 && name.is_none() {
        return Err(
            Error::BadArgument {
                message: "give --instance or --name; showing every instance is what `ls` is for".to_owned(),
            },
        );
    }
    Ok(())
}

impl Ordered for InstanceDetail {
    open spec fn before(self, other: InstanceDetail) -> bool {
        self.summary.before(other.summary)
    }

    proof fn is_weak_order(a: InstanceDetail, b: InstanceDetail, c: InstanceDetail) {
        InstanceRow::is_weak_order(a.summary, b.summary, c.summary);
    }
}

impl Sortable for InstanceDetail {
    fn precedes(&self, other: &InstanceDetail) -> (r: bool) {
        self.summary.precedes(&other.summary)
    }
}

/// The parameters a detail reports.
pub open spec fn show_params(
    profile: Seq<char>,
    instances: Seq<Seq<char>>,
    name: Option<Seq<char>>,
) -> JsonTree {
    JsonTree::Object(
        seq![
            ("profile"@, JsonTree::Text(profile)),
            ("instances"@, text_array(instances)),
            ("name"@, text_or_null(name)),
        ],
    )
}

/// Whether details report described instances, in order.
pub open spec fn details_are(ds: Seq<InstanceDetail>, page: Seq<DescribedInstance>) -> bool {
    &&& ds.len() == page.len()
    &&& forall|k: int| 0 <= k < page.len() ==> detail_is(#[trigger] ds[k], page[k])
}

/// What `ec2 show` returns for the instances that were described.
pub fn show(
    profile: &str,
    instances: &Vec<String>,
    name: Option<&str>,
    described: &Vec<DescribedInstance>,
) -> (r: Envelope<InstanceDetail>)
    ensures
        r.sound(),
        r.command@ == "ec2 show"@,
        r.params@ == show_params(profile@, strings(instances@), asked(name)),
        !r.truncated,
        exists|ds: Seq<InstanceDetail>|
            details_are(ds, described@) && r.data@ == #[trigger] ordered(ds),
{
    let mut params: Vec<(String, Json)> = Vec::new();
    json::put(&mut params, "profile", json::text(profile));
    json::put(&mut params, "instances", json::text_list(instances));
    json::put(&mut params, "name", json::text_opt(name));
    proof {
        assert(fields_of(params@) =~= show_params(
            profile@,
            strings(instances@),
            asked(name),
        )->Object_0);
    }
    let mut rows: Vec<InstanceDetail> = Vec::new();
    let mut i: usize = 0;
    while i < described.len()
        invariant
            i <= described@.len(),
            rows@.len() == i,
            forall|k: int| 0 <= k < i ==> detail_is(#[trigger] rows@[k], described@[k]),
        decreases described@.len() - i,
    {
        rows.push(detail_of(&described[i]));
        i += 1;
    }
    proof {
        assert(details_are(rows@, described@));
    }
    Envelope::new("ec2 show", json::object(params), sort(rows))
}

// ---------------------------------------------------------------------------
// health
// ---------------------------------------------------------------------------

/// Whether a row deserves an operator's attention: it is running, and a check
/// does not pass or an event is scheduled.
pub open spec fn concerning(row: HealthRow) -> bool {
    &&& opt_text(row.state) == Some("running"@)
    &&& {
        ||| opt_text(row.system_status) != Some("ok"@)
        ||| opt_text(row.instance_status) != Some("ok"@)
        ||| row.events@.len() > 0
    }
}

/// Whether a row deserves an operator's attention.
///
/// One predicate drives both the ordering and the summary count. A stopped
/// instance is not concerning: AWS reports `not-applicable` or
/// `insufficient-data` for anything not running, and counting that as a
/// failure would sort every deliberately-stopped instance above the running
/// ones, burying a genuinely impaired host.
pub fn is_concerning(row: &HealthRow) -> (r: bool)
    ensures
        r == concerning(*row),
{
    if !opt_is(&row.state, "running") {
        return false;
    }
    !opt_is(&row.system_status, "ok") || !opt_is(&row.instance_status, "ok") || row.events.len()
        > 0
}

impl Ordered for HealthRow {
    /// Anything concerning first, then by name and id: a healthy fleet should
    /// need no scrolling to find the one box that is not.
    open spec fn before(self, other: HealthRow) -> bool {
        ||| concerning(self) && !concerning(other)
        ||| concerning(self) == concerning(other) && listed_before(
            opt_text(self.name),
            self.instance_id@,
            opt_text(other.name),
            other.instance_id@,
        )
    }

    proof fn is_weak_order(a: HealthRow, b: HealthRow, c: HealthRow) {
        listing_is_ordered(
            opt_text(a.name),
            a.instance_id@,
            opt_text(b.name),
            b.instance_id@,
            opt_text(c.name),
            c.instance_id@,
        );
    }
}

impl Sortable for HealthRow {
    fn precedes(&self, other: &HealthRow) -> (r: bool) {
        let a = is_concerning(self);
        let b = is_concerning(other);
        (a && !b) || (a == b && precedes_in_listing(
            &self.name,
            self.instance_id.as_str(),
            &other.name,
            other.instance_id.as_str(),
        ))
    }
}

/// A second of the calendar as a readable instant.
pub open spec fn iso_text(secs: i64) -> Seq<char> {
    if (Instant { secs, nanos: 0 }).valid() {
        formatted_text(secs, 0, "%Y-%m-%dT%H:%M:%SZ"@)
    } else {
        "?"@
    }
}

/// Render a timestamp as a readable instant.
pub fn iso(secs: i64) -> (r: String)
    ensures
        r@ == iso_text(secs),
{
    match Instant::new(secs, 0) {
        Some(at) => formatted(at, "%Y-%m-%dT%H:%M:%SZ"),
        None => "?".to_owned(),
    }
}

/// The window of an event, given its bounds as text. "Scheduled for a stop"
/// cannot be triaged without knowing whether that means tonight or in three
/// months.
pub open spec fn when_text(from: Option<Seq<char>>, by: Option<Seq<char>>) -> Seq<char> {
    match (from, by) {
        (Some(a), Some(b)) => " ["@ + a + " to "@ + b + "]"@,
        (Some(a), None) => " [from "@ + a + "]"@,
        (None, Some(b)) => " [by "@ + b + "]"@,
        (None, None) => ""@,
    }
}

/// An optional second as text.
pub open spec fn iso_opt(secs: Option<i64>) -> Option<Seq<char>> {
    match secs {
        Some(s) => Some(iso_text(s)),
        None => None,
    }
}

/// A scheduled event in words.
pub open spec fn event_text(e: DescribedEvent) -> Seq<char> {
    (match e.code {
        Some(c) => c@,
        None => "event"@,
    }) + ": "@ + or_empty(e.description) + when_text(iso_opt(e.not_before), iso_opt(e.not_after))
}

/// Describe the window of an event, given its bounds as text.
pub fn describe_when(from: Option<String>, by: Option<String>) -> (r: String)
    ensures
        r@ == when_text(opt_text(from), opt_text(by)),
{
    match (from, by) {
        (Some(a), Some(b)) => " [".to_owned().concat(a.as_str()).concat(" to ").concat(
            b.as_str(),
        ).concat("]"),
        (Some(a), None) => " [from ".to_owned().concat(a.as_str()).concat("]"),
        (None, Some(b)) => " [by ".to_owned().concat(b.as_str()).concat("]"),
        (None, None) => "".to_owned(),
    }
}

/// Describe a scheduled event.
pub fn describe_event(e: &DescribedEvent) -> (r: String)
    ensures
        r@ == event_text(*e),
{
    let from = match e.not_before {
        Some(s) => Some(iso(s)),
        None => None,
    };
    let by = match e.not_after {
        Some(s) => Some(iso(s)),
        None => None,
    };
    let when = describe_when(from, by);
    let code = match &e.code {
        Some(c) => c.as_str().to_owned(),
        None => "event".to_owned(),
    };
    let what = copy_or_empty(&e.description);
    code.concat(": ").concat(what.as_str()).concat(when.as_str())
}

/// The name an instance goes by: that of the last row with its id that has
/// one.
pub open spec fn name_for(rows: Seq<InstanceRow>, id: Seq<char>) -> Option<Seq<char>>
    decreases rows.len(),
{
    if rows.len() == 0 {
        None
    } else if rows.last().instance_id@ == id && rows.last().name is Some {
        opt_text(rows.last().name)
    } else {
        name_for(rows.drop_last(), id)
    }
}

/// Whether a row reports a described status.
pub open spec fn health_is(r: HealthRow, s: DescribedStatus, named: Seq<InstanceRow>) -> bool {
    &&& r.instance_id@ == or_empty(s.instance_id)
    &&& opt_text(r.name) == name_for(named, r.instance_id@)
    &&& opt_text(r.state) == opt_text(s.state)
    &&& opt_text(r.system_status) == opt_text(s.system_status)
    &&& opt_text(r.instance_status) == opt_text(s.instance_status)
    &&& strings(r.events@) == s.events@.map_values(|e: DescribedEvent| event_text(e))
}

/// What an index holds for an id.
spec fn found_name(m: Map<Seq<char>, String>, id: Seq<char>) -> Option<Seq<char>> {
    if m.contains_key(id) {
        Some(m[id]@)
    } else {
        None
    }
}

/// Index names by id: a map, not a linear scan per row.
fn index_names(rows: &Vec<InstanceRow>) -> (m: StringHashMap<String>)
    ensures
        forall|id: Seq<char>| #[trigger] found_name(m@, id) == name_for(rows@, id),
{
    let mut m: StringHashMap<String> = StringHashMap::new();
    let mut i: usize = 0;
    while i < rows.len()
        invariant
            i <= rows@.len(),
            forall|id: Seq<char>| #[trigger]
                found_name(m@, id) == name_for(rows@.take(i as int), id),
        decreases rows@.len() - i,
    {
        let ghost m0 = m@;
        proof {
            assert(rows@.take(i + 1).drop_last() == rows@.take(i as int));
            assert(rows@.take(i + 1).last() == rows@[i as int]);
        }
        if let Some(n) = &rows[i].name {
            m.insert(rows[i].instance_id.as_str().to_owned(), n.as_str().to_owned());
        }
        proof {
            assert forall|id: Seq<char>| #[trigger] found_name(m@, id) == name_for(
                rows@.take(i + 1),
                id,
            ) by {
                assert(found_name(m0, id) == name_for(rows@.take(i as int), id));
            }
        }
        i += 1;
    }
    proof {
        assert(rows@.take(i as int) == rows@);
    }
    m
}

/// Report a described status.
fn health_row(s: &DescribedStatus, names: &StringHashMap<String>, named: &Vec<InstanceRow>) -> (r:
    HealthRow)
    requires
        forall|id: Seq<char>| #[trigger] found_name(names@, id) == name_for(named@, id),
    ensures
        health_is(r, *s, named@),
{
    let id = copy_or_empty(&s.instance_id);
    let name = match names.get(id.as_str()) {
        Some(n) => Some(n.as_str().to_owned()),
        None => None,
    };
    proof {
        assert(found_name(names@, id@) == name_for(named@, id@));
    }
    let ghost want = s.events@.map_values(|e: DescribedEvent| event_text(e));
    let mut events: Vec<String> = Vec::new();
    let mut i: usize = 0;
    while i < s.events.len()
        invariant
            i <= s.events@.len(),
            want == s.events@.map_values(|e: DescribedEvent| event_text(e)),
            strings(events@) == want.take(i as int),
        decreases s.events@.len() - i,
    {
        let ghost events0 = events@;
        events.push(describe_event(&s.events[i]));
        proof {
            assert(strings(events@) == strings(events0).push(want[i as int]));
            assert(want.take(i + 1) == want.take(i as int).push(want[i as int]));
        }
        i += 1;
    }
    proof {
        assert(want.take(i as int) == want);
    }
    HealthRow {
        name,
        state: copy_opt(&s.state),
        system_status: copy_opt(&s.system_status),
        instance_status: copy_opt(&s.instance_status),
        events,
        instance_id: id,
    }
}

/// Whether rows report described statuses, in order.
pub open spec fn healths_are(
    rows: Seq<HealthRow>,
    statuses: Seq<DescribedStatus>,
    named: Seq<InstanceRow>,
) -> bool {
    &&& rows.len() == statuses.len()
    &&& forall|k: int| 0 <= k < statuses.len() ==> health_is(#[trigger] rows[k], statuses[k], named)
}

/// Report described statuses.
///
/// Names come from one description of the instances and status checks from
/// another. Both are needed for a row a person can read.
pub fn health_rows(statuses: &Vec<DescribedStatus>, named: &Vec<InstanceRow>) -> (r: Vec<HealthRow>)
    ensures
        healths_are(r@, statuses@, named@),
{
    let names = index_names(named);
    let mut rows: Vec<HealthRow> = Vec::new();
    let mut i: usize = 0;
    while i < statuses.len()
        invariant
            i <= statuses@.len(),
            forall|id: Seq<char>| #[trigger] found_name(names@, id) == name_for(named@, id),
            rows@.len() == i,
            forall|k: int| 0 <= k < i ==> health_is(#[trigger] rows@[k], statuses@[k], named@),
        decreases statuses@.len() - i,
    {
        rows.push(health_row(&statuses[i], &names, named));
        i += 1;
    }
    rows
}

/// How many rows are concerning.
pub open spec fn concerns(rows: Seq<HealthRow>) -> nat
    decreases rows.len(),
{
    if rows.len() == 0 {
        0
    } else {
        concerns(rows.drop_last()) + if concerning(rows.last()) {
            1nat
        } else {
            0nat
        }
    }
}

/// Count the concerning rows.
pub fn count_concerning(rows: &Vec<HealthRow>) -> (r: usize)
    ensures
        r == concerns(rows@),
{
    let mut n: usize = 0;
    let mut i: usize = 0;
    while i < rows.len()
        invariant
            i <= rows@.len(),
            n <= i,
            n == concerns(rows@.take(i as int)),
        decreases rows@.len() - i,
    {
        proof {
            assert(rows@.take(i + 1).drop_last() == rows@.take(i as int));
            assert(rows@.take(i + 1).last() == rows@[i as int]);
        }
        if is_concerning(&rows[i]) {
            n += 1;
        }
        i += 1;
    }
    proof {
        assert(rows@.take(i as int) == rows@);
    }
    n
}

/// The parameters a health report reports.
pub open spec fn health_params(profile: Seq<char>, instances: Seq<Seq<char>>) -> JsonTree {
    JsonTree::Object(
        seq![("profile"@, JsonTree::Text(profile)), ("instances"@, text_array(instances))],
    )
}

/// What `ec2 health` returns: worst first, then as far as the limit allows,
/// and marked incomplete when rows were left out.
pub fn health(
    profile: &str,
    instances: &Vec<String>,
    limit: Option<usize>,
    rows: Vec<HealthRow>,
) -> (r: Envelope<HealthRow>)
    ensures
        r.sound(),
        r.command@ == "ec2 health"@,
        r.params@ == health_params(profile@, strings(instances@)),
        r.data@ == listed(rows@, limit),
        r.truncated == cut_short(rows@.len() as int, limit),
{
    let mut params: Vec<(String, Json)> = Vec::new();
    json::put(&mut params, "profile", json::text(profile));
    json::put(&mut params, "instances", json::text_list(instances));
    proof {
        assert(fields_of(params@) =~= health_params(profile@, strings(instances@))->Object_0);
        sorting_permutes(rows@);
    }
    let (shown, truncated) = capped(sort(rows), limit);
    Envelope::new("ec2 health", json::object(params), shown).truncated(truncated)
}

// ---------------------------------------------------------------------------
// Laws
// ---------------------------------------------------------------------------

/// Insertion counts the inserted row.
proof fn insertion_counts(rows: Seq<HealthRow>, x: HealthRow)
    ensures
        concerns(crate::order::inserted(rows, x)) == concerns(rows) + if concerning(x) {
            1nat
        } else {
            0nat
        },
    decreases rows.len(),
{
    let r = crate::order::inserted(rows, x);
    if rows.len() == 0 || !x.before(rows.last()) {
        assert(r.drop_last() == rows);
    } else {
        insertion_counts(rows.drop_last(), x);
        assert(r.drop_last() == crate::order::inserted(rows.drop_last(), x));
    }
}

/// Sorting does not change how many rows are concerning.
proof fn sorting_keeps_the_concerns(rows: Seq<HealthRow>)
    ensures
        concerns(ordered(rows)) == concerns(rows),
    decreases rows.len(),
{
    if rows.len() > 0 {
        sorting_keeps_the_concerns(rows.drop_last());
        insertion_counts(ordered(rows.drop_last()), rows.last());
    }
}

/// In rows where nothing concerning follows anything else, the first rows, as
/// many as are concerning, are exactly the concerning ones.
proof fn concerns_come_first(rows: Seq<HealthRow>, k: int)
    requires
        in_order(rows),
        0 <= k < rows.len(),
    ensures
        concerning(rows[k]) <==> k < concerns(rows),
        concerns(rows) <= rows.len(),
    decreases rows.len(),
{
    let front = rows.drop_last();
    assert forall|i: int, j: int| 0 <= i < j < front.len() implies !(#[trigger] front[j]).before(
        #[trigger] front[i],
    ) by {
        assert(rows[j] == front[j] && rows[i] == front[i]);
    }
    if front.len() > 0 {
        let m = if k < front.len() {
            k
        } else {
            front.len() - 1
        };
        concerns_come_first(front, m);
        concerns_come_first(front, front.len() - 1);
        if concerning(rows.last()) {
            assert(!rows[rows.len() - 1].before(rows[front.len() - 1]));
            assert(concerning(front[front.len() - 1]));
            assert(concerns(front) == front.len());
        }
    }
}

/// The ordering and the count cannot disagree: everything counted comes first,
/// and nothing behind the counted rows is concerning.
pub proof fn the_ordering_and_the_count_agree(rows: Seq<HealthRow>, k: int)
    requires
        0 <= k < ordered(rows).len(),
    ensures
        concerning(ordered(rows)[k]) <==> k < concerns(rows),
{
    sorting_orders(rows);
    sorting_keeps_the_concerns(rows);
    concerns_come_first(ordered(rows), k);
}

/// An instance that is not running is never concerning.
pub proof fn only_running_instances_are_concerning(row: HealthRow)
    requires
        opt_text(row.state) != Some("running"@),
    ensures
        !concerning(row),
{
}

/// A scheduled event on a running instance is concerning whatever its checks
/// say.
pub proof fn a_scheduled_event_is_concerning(row: HealthRow)
    requires
        opt_text(row.state) == Some("running"@),
        row.events@.len() > 0,
    ensures
        concerning(row),
{
}

} // verus!
