//! Instances and their health, from what the service describes to what is
//! written.

use crate::cmd::ec2::{
    concerning, concerns, describe, detail_is, event_text, filters_for, group_names, health_is,
    name_for, name_tag, row_is, tag_value, tags_are, volume_is, DescribedEvent, DescribedGroup,
    DescribedInstance, DescribedStatus, DescribedTag, HealthRow, InstanceDetail, InstanceRow,
    VolumeRef,
};
use crate::common::time::{formatted_text, zulu_text};
use crate::json::JsonTree;
use crate::order::{ordered, sorting_orders, Ordered};
use crate::output::{shapes, Record};
use crate::text::{strings, text_less};
use vstd::prelude::*;

verus! {

// ---------------------------------------------------------------------------
// Fields
// ---------------------------------------------------------------------------

/// A text the service may leave out: the text, or `null`.
pub open spec fn written(s: Option<String>) -> JsonTree {
    if s is Some {
        JsonTree::Text(s->0@)
    } else {
        JsonTree::Null
    }
}

/// An identifier the service may leave out: empty if it does.
pub open spec fn identifier(s: Option<String>) -> JsonTree {
    if s is Some {
        JsonTree::Text(s->0@)
    } else {
        JsonTree::Text(Seq::empty())
    }
}

/// A text that was found, or `null`.
pub open spec fn found(s: Option<Seq<char>>) -> JsonTree {
    if s is Some {
        JsonTree::Text(s->0)
    } else {
        JsonTree::Null
    }
}

/// A time of launch: the instant, or `null` if there is none on the calendar.
pub open spec fn launch(secs: Option<i64>) -> JsonTree {
    if secs is Some && -8_334_601_228_800 <= secs->0 <= 8_210_266_876_799 {
        JsonTree::Text(zulu_text(secs->0, 0))
    } else {
        JsonTree::Null
    }
}

// ---------------------------------------------------------------------------
// Rows
// ---------------------------------------------------------------------------

/// What is written for an instance are the fields of the same name that the
/// service gave, in this sequence.
pub proof fn an_instance_is_written_field_by_field(r: InstanceRow, i: DescribedInstance)
    requires
        row_is(r, i),
    ensures
        r.shape() == JsonTree::Object(
            seq![
                ("instance_id"@, identifier(i.instance_id)),
                ("name"@, found(name_tag(i.tags@))),
                ("state"@, written(i.state)),
                ("instance_type"@, written(i.instance_type)),
                ("az"@, written(i.az)),
                ("private_ip"@, written(i.private_ip)),
                ("launched"@, launch(i.launch_secs)),
            ],
        ),
{
    reveal_strlit("");
    assert(""@ == Seq::<char>::empty());
}

/// What is written for a status check are the fields of the same name that the
/// service gave: the check of the system as `system_status`, the check of the
/// instance as `instance_status`.
pub proof fn a_health_row_is_written_field_by_field(
    r: HealthRow,
    s: DescribedStatus,
    named: Seq<InstanceRow>,
)
    requires
        health_is(r, s, named),
    ensures
        r.shape() == JsonTree::Object(
            seq![
                ("instance_id"@, identifier(s.instance_id)),
                (
                    "name"@,
                    found(
                        name_for(
                            named,
                            if s.instance_id is Some {
                                s.instance_id->0@
                            } else {
                                Seq::empty()
                            },
                        ),
                    ),
                ),
                ("state"@, written(s.state)),
                ("system_status"@, written(s.system_status)),
                ("instance_status"@, written(s.instance_status)),
                (
                    "events"@,
                    JsonTree::Array(
                        Seq::new(
                            s.events@.len(),
                            |k: int| JsonTree::Text(event_text(s.events@[k])),
                        ),
                    ),
                ),
            ],
        ),
{
    reveal_strlit("");
    assert(""@ == Seq::<char>::empty());
    let texts = strings(r.events@);
    assert(texts.map_values(|t: Seq<char>| JsonTree::Text(t)) =~= Seq::new(
        s.events@.len(),
        |k: int| JsonTree::Text(event_text(s.events@[k])),
    ));
}

/// What is written for a volume are the fields of the same name that the
/// service gave.
pub proof fn a_volume_is_written_field_by_field(r: VolumeRef, v: VolumeRef)
    requires
        volume_is(r, v),
    ensures
        r.shape() == JsonTree::Object(
            seq![
                ("device"@, written(v.device)),
                ("volume_id"@, written(v.volume_id)),
                (
                    "delete_on_termination"@,
                    if v.delete_on_termination is Some {
                        JsonTree::Bool(v.delete_on_termination->0)
                    } else {
                        JsonTree::Null
                    },
                ),
                ("attach_status"@, written(v.attach_status)),
            ],
        ),
{
}

/// What is written for an instance in detail is its row, followed by the
/// fields of the same name that the service gave.
pub proof fn a_detail_is_written_field_by_field(d: InstanceDetail, i: DescribedInstance)
    requires
        detail_is(d, i),
    ensures
        ({
            let fields = d.shape()->Object_0;
            &&& d.shape() is Object
            &&& fields.len() == 17
            &&& fields.take(7) == d.summary.shape()->Object_0
            &&& fields[0] == ("instance_id"@, identifier(i.instance_id))
            &&& fields[2] == ("state"@, written(i.state))
            &&& fields[7] == ("vpc_id"@, written(i.vpc_id))
            &&& fields[8] == ("subnet_id"@, written(i.subnet_id))
            &&& fields[9] == ("image_id"@, written(i.image_id))
            &&& fields[10] == ("key_name"@, written(i.key_name))
            &&& fields[11] == ("iam_profile"@, written(i.iam_profile))
            &&& fields[12] == ("public_ip"@, written(i.public_ip))
            &&& fields[13] == (
                "detailed_monitoring"@,
                JsonTree::Bool(i.monitoring is Some && i.monitoring->0@ == "enabled"@),
            )
            &&& fields[14].0 == "security_groups"@
            &&& fields[15].0 == "volumes"@
            &&& fields[15].1 is Array
            &&& fields[15].1->Array_0.len() == i.volumes@.len()
            &&& forall|k: int|
                0 <= k < i.volumes@.len() ==> #[trigger] fields[15].1->Array_0[k]
                    == i.volumes@[k].shape()
            &&& fields[16].0 == "tags"@
            &&& fields[16].1 is Object
        }),
{
    reveal_strlit("");
    assert(""@ == Seq::<char>::empty());
    let fields = d.shape()->Object_0;
    let volumes = fields[15].1->Array_0;
    assert(volumes == shapes(d.volumes@));
    assert forall|k: int| 0 <= k < i.volumes@.len() implies #[trigger] volumes[k]
        == i.volumes@[k].shape() by {
        a_volume_is_written_field_by_field(d.volumes@[k], i.volumes@[k]);
        assert(volume_is(i.volumes@[k], i.volumes@[k]));
        a_volume_is_written_field_by_field(i.volumes@[k], i.volumes@[k]);
    }
    assert(fields.take(7) =~= d.summary.shape()->Object_0);
}

// ---------------------------------------------------------------------------
// Names and tags
// ---------------------------------------------------------------------------

/// Whether a tag has a key.
pub open spec fn keyed(tag: DescribedTag, key: Seq<char>) -> bool {
    tag.key is Some && tag.key->0@ == key
}

/// The name of an instance is the value of its first tag called `Name`.
pub proof fn the_first_name_tag_names(tags: Seq<DescribedTag>, k: int)
    requires
        0 <= k < tags.len(),
        keyed(tags[k], "Name"@),
        forall|j: int| 0 <= j < k ==> !keyed(#[trigger] tags[j], "Name"@),
    ensures
        name_tag(tags) == if tags[k].value is Some {
            Some(tags[k].value->0@)
        } else {
            None
        },
    decreases tags.len(),
{
    if k > 0 {
        assert(!keyed(tags[0], "Name"@));
        let rest = tags.skip(1);
        assert forall|j: int| 0 <= j < k - 1 implies !keyed(#[trigger] rest[j], "Name"@) by {
            assert(rest[j] == tags[j + 1]);
        }
        the_first_name_tag_names(rest, k - 1);
    }
}

/// An instance without a tag called `Name` has no name.
pub proof fn without_a_name_tag_there_is_no_name(tags: Seq<DescribedTag>)
    requires
        forall|j: int| 0 <= j < tags.len() ==> !keyed(#[trigger] tags[j], "Name"@),
    ensures
        name_tag(tags) is None,
    decreases tags.len(),
{
    if tags.len() > 0 {
        assert(!keyed(tags[0], "Name"@));
        let rest = tags.skip(1);
        assert forall|j: int| 0 <= j < rest.len() implies !keyed(#[trigger] rest[j], "Name"@) by {
            assert(rest[j] == tags[j + 1]);
        }
        without_a_name_tag_there_is_no_name(rest);
    }
}

/// Of tags with one key, the last gives the value; a tag without a value gives
/// the empty one.
proof fn the_last_tag_gives_the_value(tags: Seq<DescribedTag>, k: int, key: Seq<char>)
    requires
        0 <= k < tags.len(),
        keyed(tags[k], key),
        forall|j: int| k < j < tags.len() ==> !keyed(#[trigger] tags[j], key),
    ensures
        tag_value(tags, key) == Some(
            if tags[k].value is Some {
                tags[k].value->0@
            } else {
                ""@
            },
        ),
    decreases tags.len(),
{
    if k < tags.len() - 1 {
        assert(!keyed(tags[tags.len() - 1], key));
        the_last_tag_gives_the_value(tags.drop_last(), k, key);
    }
}

/// Every tag with a key is among those reported, under its key and with the
/// value that the service gave last for it.
pub proof fn every_tag_is_reported(
    entries: Seq<(String, String)>,
    tags: Seq<DescribedTag>,
    k: int,
    key: Seq<char>,
)
    requires
        tags_are(entries, tags),
        0 <= k < tags.len(),
        keyed(tags[k], key),
        forall|j: int| k < j < tags.len() ==> !keyed(#[trigger] tags[j], key),
    ensures
        exists|i: int|
            0 <= i < entries.len() && (#[trigger] entries[i]).0@ == key && entries[i].1@
                == if tags[k].value is Some {
                tags[k].value->0@
            } else {
                ""@
            },
{
    the_last_tag_gives_the_value(tags, k, key);
    let i = choose|i: int| 0 <= i < entries.len() && (#[trigger] entries[i]).0@ == key;
    assert(tag_value(tags, entries[i].0@) == Some(entries[i].1@));
}

/// Where no tag has a key, no value is found for it.
proof fn an_absent_tag_has_no_value(tags: Seq<DescribedTag>, key: Seq<char>)
    requires
        forall|j: int| 0 <= j < tags.len() ==> !keyed(#[trigger] tags[j], key),
    ensures
        tag_value(tags, key) is None,
    decreases tags.len(),
{
    if tags.len() > 0 {
        assert(!keyed(tags[tags.len() - 1], key));
        assert forall|j: int| 0 <= j < tags.drop_last().len() implies !keyed(
            #[trigger] tags.drop_last()[j],
            key,
        ) by {
            assert(tags.drop_last()[j] == tags[j]);
        }
        an_absent_tag_has_no_value(tags.drop_last(), key);
    }
}

/// Nothing but the described tags is reported.
pub proof fn no_tag_is_made_up(entries: Seq<(String, String)>, tags: Seq<DescribedTag>, i: int)
    requires
        tags_are(entries, tags),
        0 <= i < entries.len(),
    ensures
        exists|k: int| 0 <= k < tags.len() && keyed(#[trigger] tags[k], entries[i].0@),
{
    if forall|k: int| 0 <= k < tags.len() ==> !keyed(#[trigger] tags[k], entries[i].0@) {
        an_absent_tag_has_no_value(tags, entries[i].0@);
        assert(tag_value(tags, entries[i].0@) == Some(entries[i].1@));
    }
}

/// A security group is reported by its name, and by its identifier where it
/// has no name; one with neither is left out.
pub proof fn groups_go_by_name(before: Seq<DescribedGroup>, g: DescribedGroup)
    ensures
        g.name is Some ==> group_names(before.push(g)) == group_names(before).push(g.name->0@),
        g.name is None && g.id is Some ==> group_names(before.push(g)) == group_names(before).push(
            g.id->0@,
        ),
        g.name is None && g.id is None ==> group_names(before.push(g)) == group_names(before),
        group_names(Seq::empty()).len() == 0,
{
    assert(before.push(g).drop_last() == before);
}

/// The name shown beside a status check is that of a listed instance with the
/// same identifier, and there is one whenever such an instance has a name.
pub proof fn a_health_row_has_the_name_of_its_instance(rows: Seq<InstanceRow>, id: Seq<char>)
    ensures
        name_for(rows, id) is Some ==> exists|k: int|
            0 <= k < rows.len() && (#[trigger] rows[k]).instance_id@ == id && rows[k].name is Some
                && name_for(rows, id) == Some(rows[k].name->0@),
        forall|k: int|
            0 <= k < rows.len() && (#[trigger] rows[k]).instance_id@ == id && rows[k].name is Some
                ==> name_for(rows, id) is Some,
    decreases rows.len(),
{
    if rows.len() > 0 {
        let n = rows.len() - 1;
        let past = rows.drop_last();
        a_health_row_has_the_name_of_its_instance(past, id);
        if rows[n].instance_id@ == id && rows[n].name is Some {
        } else {
            if name_for(rows, id) is Some {
                let k = choose|k: int|
                    0 <= k < past.len() && (#[trigger] past[k]).instance_id@ == id
                        && past[k].name is Some && name_for(past, id) == Some(past[k].name->0@);
                assert(rows[k] == past[k]);
            }
            assert forall|k: int|
                0 <= k < rows.len() && (#[trigger] rows[k]).instance_id@ == id
                    && rows[k].name is Some implies name_for(rows, id) is Some by {
                assert(rows[k] == past[k]);
            }
        }
    }
}

// ---------------------------------------------------------------------------
// Health
// ---------------------------------------------------------------------------

/// An instance is a concern exactly when it runs and one of the two checks is
/// not `ok`, or something is scheduled for it.
pub proof fn what_is_a_concern(r: HealthRow, s: DescribedStatus, named: Seq<InstanceRow>)
    requires
        health_is(r, s, named),
    ensures
        concerning(r) <==> {
            &&& s.state is Some && s.state->0@ == "running"@
            &&& {
                ||| s.system_status is None
                ||| s.system_status->0@ != "ok"@
                ||| s.instance_status is None
                ||| s.instance_status->0@ != "ok"@
                ||| s.events@.len() > 0
            }
        },
{
    assert(strings(r.events@).len() == r.events@.len());
    assert(s.events@.map_values(|e: DescribedEvent| event_text(e)).len() == s.events@.len());
}

/// Whether a second has an instant on the calendar.
pub open spec fn on_the_calendar(secs: i64) -> bool {
    -8_334_601_228_800 <= secs <= 8_210_266_876_799
}

/// The time of a scheduled event, or a question mark.
pub open spec fn event_time(secs: i64) -> Seq<char> {
    if on_the_calendar(secs) {
        formatted_text(secs, 0, "%Y-%m-%dT%H:%M:%SZ"@)
    } else {
        "?"@
    }
}

/// A scheduled event is reported by its code, its description and the time it
/// is set for, the start before the end.
pub proof fn an_event_is_told_with_its_times(e: DescribedEvent)
    ensures
        ({
            let head = (if e.code is Some {
                e.code->0@
            } else {
                "event"@
            }) + ": "@ + (if e.description is Some {
                e.description->0@
            } else {
                ""@
            });
            &&& e.not_before is None && e.not_after is None ==> event_text(e) == head + ""@
            &&& e.not_before is Some && e.not_after is None ==> event_text(e) == head + (
            " [from "@ + event_time(e.not_before->0) + "]"@)
            &&& e.not_before is None && e.not_after is Some ==> event_text(e) == head + (" [by "@
                + event_time(e.not_after->0) + "]"@)
            &&& e.not_before is Some && e.not_after is Some ==> event_text(e) == head + (" ["@
                + event_time(e.not_before->0) + " to "@ + event_time(e.not_after->0) + "]"@)
        }),
{
}

// ---------------------------------------------------------------------------
// The order of listings
// ---------------------------------------------------------------------------

/// Instances without a name are listed first, the others by name, and those of
/// one name by identifier.
pub proof fn instances_are_listed_by_name(rows: Seq<InstanceRow>, i: int, j: int)
    requires
        0 <= i < j < ordered(rows).len(),
    ensures
        ({
            let a = ordered(rows)[i];
            let b = ordered(rows)[j];
            &&& b.name is None ==> a.name is None
            &&& a.name is Some && b.name is Some ==> !text_less(b.name->0@, a.name->0@)
            &&& a.name is None && b.name is None || (a.name is Some && b.name is Some && a.name->0@
                == b.name->0@) ==> !text_less(b.instance_id@, a.instance_id@)
        }),
{
    sorting_orders(rows);
    let a = ordered(rows)[i];
    let b = ordered(rows)[j];
    assert(!b.before(a));
}

/// Concerns are listed before everything else; among concerns, and among the
/// rest, the order is that of instances.
pub proof fn concerns_are_listed_first(rows: Seq<HealthRow>, i: int, j: int)
    requires
        0 <= i < j < ordered(rows).len(),
    ensures
        ({
            let a = ordered(rows)[i];
            let b = ordered(rows)[j];
            &&& concerning(b) ==> concerning(a)
            &&& concerning(a) == concerning(b) ==> {
                &&& b.name is None ==> a.name is None
                &&& a.name is Some && b.name is Some ==> !text_less(b.name->0@, a.name->0@)
                &&& a.name is None && b.name is None || (a.name is Some && b.name is Some
                    && a.name->0@ == b.name->0@) ==> !text_less(b.instance_id@, a.instance_id@)
            }
        }),
{
    sorting_orders(rows);
    let a = ordered(rows)[i];
    let b = ordered(rows)[j];
    assert(!b.before(a));
}

/// Instances in detail are listed as their rows are.
pub proof fn details_are_listed_by_name(ds: Seq<InstanceDetail>, i: int, j: int)
    requires
        0 <= i < j < ordered(ds).len(),
    ensures
        ({
            let a = ordered(ds)[i].summary;
            let b = ordered(ds)[j].summary;
            &&& b.name is None ==> a.name is None
            &&& a.name is Some && b.name is Some ==> !text_less(b.name->0@, a.name->0@)
            &&& a.name is None && b.name is None || (a.name is Some && b.name is Some && a.name->0@
                == b.name->0@) ==> !text_less(b.instance_id@, a.instance_id@)
        }),
{
    sorting_orders(ds);
    let a = ordered(ds)[i];
    let b = ordered(ds)[j];
    assert(!b.before(a));
}

// ---------------------------------------------------------------------------
// What the service is asked
// ---------------------------------------------------------------------------

/// A state that was asked for is asked of `instance-state-name`, a name of
/// `tag:Name`, and nothing else is.
pub proof fn filters_ask_for_what_was_given(state: Option<Seq<char>>, name: Option<Seq<char>>)
    ensures
        state is None && name is None ==> filters_for(state, name).len() == 0,
        state is Some && name is None ==> filters_for(state, name) == seq![
            ("instance-state-name"@, seq![state->0]),
        ],
        state is None && name is Some ==> filters_for(state, name) == seq![
            ("tag:Name"@, seq![name->0]),
        ],
        state is Some && name is Some ==> filters_for(state, name) == seq![
            ("instance-state-name"@, seq![state->0]),
            ("tag:Name"@, seq![name->0]),
        ],
{
}

/// Of several listed instances with one identifier, the last that has a name
/// gives it.
pub proof fn the_last_name_of_an_instance_counts(rows: Seq<InstanceRow>, id: Seq<char>, k: int)
    requires
        0 <= k < rows.len(),
        rows[k].instance_id@ == id,
        rows[k].name is Some,
        forall|j: int|
            k < j < rows.len() ==> (#[trigger] rows[j]).instance_id@ != id || rows[j].name is None,
    ensures
        name_for(rows, id) == Some(rows[k].name->0@),
    decreases rows.len(),
{
    let n = rows.len() - 1;
    if k < n {
        assert(rows[n].instance_id@ != id || rows[n].name is None);
        the_last_name_of_an_instance_counts(rows.drop_last(), id, k);
    }
}

/// A listing keeps the first rows as far as its limit allows.
pub proof fn a_listing_keeps_its_limit(
    rows: Vec<InstanceRow>,
    limit: Option<usize>,
    r: (Vec<InstanceRow>, bool),
)
    requires
        call_ensures(describe, (rows, limit), r),
    ensures
        limit is None || rows@.len() <= limit->0 ==> r.0@ == ordered(rows@) && !r.1,
        limit is Some && rows@.len() > limit->0 ==> r.0@ == ordered(rows@).subrange(
            0,
            limit->0 as int,
        ) && r.1,
{
    crate::order::sorting_permutes(rows@);
}

/// The concerns of a list are those of its rows.
pub proof fn every_concern_is_counted(rows: Seq<HealthRow>, row: HealthRow)
    ensures
        concerns(rows.push(row)) == concerns(rows) + if concerning(row) {
            1nat
        } else {
            0
        },
        concerns(Seq::empty()) == 0,
{
    assert(rows.push(row).drop_last() == rows);
}

/// What is written of an instance's groups and tags are their names, and each
/// tag under its key.
pub proof fn groups_and_tags_are_written_one_by_one(d: InstanceDetail, i: DescribedInstance, k: int)
    requires
        detail_is(d, i),
    ensures
        ({
            let fields = d.shape()->Object_0;
            let names = group_names(i.security_groups@);
            &&& fields[14].1 == JsonTree::Array(
                Seq::new(names.len(), |j: int| JsonTree::Text(names[j])),
            )
            &&& fields[16].1->Object_0.len() == d.tags@.len()
            &&& 0 <= k < d.tags@.len() ==> fields[16].1->Object_0[k] == (
                d.tags@[k].0@,
                JsonTree::Text(d.tags@[k].1@),
            )
        }),
{
    let names = group_names(i.security_groups@);
    assert(names.map_values(|t: Seq<char>| JsonTree::Text(t)) =~= Seq::new(
        names.len(),
        |j: int| JsonTree::Text(names[j]),
    ));
}

} // verus!
