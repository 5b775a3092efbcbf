//! Templates: what stays of a message, and what gives way to `<*>`.

use crate::cluster::tokenize::{
    clipped, closing, field_shapes, fields_masked, identity_key, identity_name, item_shapes, kernel,
    masked, masked_words, opening, payload, shape, shown_field, structured, template_given,
    variable, words_masked,
};
use crate::json::JsonTree;
use crate::laws::texts::{
    a_joined_text_tells_each_part, bytes_are_those_of_utf8, lowering_changes_capitals_alone,
    trimming_keeps_the_core,
};
use crate::text::{cut, joined, lowered, trimmed, words, CharClass};
use vstd::prelude::*;

verus! {

// ---------------------------------------------------------------------------
// Fields that tell what kind of message it is
// ---------------------------------------------------------------------------

/// Whether a field is called by a name, in small letters or capitals.
pub open spec fn called(key: Seq<char>, name: Seq<char>) -> bool {
    &&& key.len() == name.len()
    &&& forall|i: int|
        0 <= i < key.len() ==> (#[trigger] key[i] == name[i] || ('A' <= key[i] <= 'Z' && key[i] as int
            + 32 == name[i] as int))
}

/// Whether a field tells what kind of message it is in.
pub open spec fn tells_the_kind(key: Seq<char>) -> bool {
    ||| called(key, "eventid"@)
    ||| called(key, "event_id"@)
    ||| called(key, "level"@)
    ||| called(key, "severity"@)
    ||| called(key, "code"@)
    ||| called(key, "status"@)
    ||| called(key, "statuscode"@)
    ||| called(key, "status_code"@)
    ||| called(key, "errorcode"@)
    ||| called(key, "error_code"@)
    ||| called(key, "type"@)
    ||| called(key, "kind"@)
    ||| called(key, "result"@)
    ||| called(key, "state"@)
    ||| called(key, "priority"@)
    ||| called(key, "opcode"@)
    ||| called(key, "task"@)
}

/// Whether a name is of small letters and underscores.
spec fn small(name: Seq<char>) -> bool {
    &&& name.len() > 0
    &&& forall|i: int|
        0 <= i < name.len() ==> ('a' <= #[trigger] name[i] <= 'z' || name[i] == '_')
}

/// The names are of small letters.
proof fn the_names_are_small()
    ensures
        small("eventid"@),
        small("event_id"@),
        small("level"@),
        small("severity"@),
        small("code"@),
        small("status"@),
        small("statuscode"@),
        small("status_code"@),
        small("errorcode"@),
        small("error_code"@),
        small("type"@),
        small("kind"@),
        small("result"@),
        small("state"@),
        small("priority"@),
        small("opcode"@),
        small("task"@),
        forall|k: Seq<char>| #[trigger] tells_the_kind(k) ==> k.len() <= 11,
{
    reveal_strlit("eventid");
    reveal_strlit("event_id");
    reveal_strlit("level");
    reveal_strlit("severity");
    reveal_strlit("code");
    reveal_strlit("status");
    reveal_strlit("statuscode");
    reveal_strlit("status_code");
    reveal_strlit("errorcode");
    reveal_strlit("error_code");
    reveal_strlit("type");
    reveal_strlit("kind");
    reveal_strlit("result");
    reveal_strlit("state");
    reveal_strlit("priority");
    reveal_strlit("opcode");
    reveal_strlit("task");
}

/// A field called by a name has that name, lowered and bare.
proof fn a_called_field_has_the_name(key: Seq<char>, name: Seq<char>)
    requires
        small(name),
        called(key, name),
    ensures
        lowered(trimmed(key, CharClass::Wrapping)) == name,
        key.len() > 0,
        !CharClass::Wrapping.has(key[0]),
        !CharClass::Wrapping.has(key.last()),
{
    let none = Seq::<char>::empty();
    let n = key.len() - 1;
    assert('a' <= name[0] <= 'z' || name[0] == '_');
    assert('a' <= name[n] <= 'z' || name[n] == '_');
    assert(key[0] == name[0] || 'A' <= key[0] <= 'Z');
    assert(key[n] == name[n] || 'A' <= key[n] <= 'Z');
    trimming_keeps_the_core(none, key, none, CharClass::Wrapping);
    assert(none + key + none == key);
    assert forall|i: int| 0 <= i < key.len() implies lowered(key)[i] == name[i] by {
        lowering_changes_capitals_alone(key, i);
        assert('a' <= name[i] <= 'z' || name[i] == '_');
        assert(key[i] == name[i] || ('A' <= key[i] <= 'Z' && key[i] as int + 32 == name[i] as int));
    }
    assert(lowered(key) =~= name);
}

/// Each of these fields is taken to tell the kind of its message, also with
/// slashes, angle brackets, quotes or blanks around its name.
pub proof fn the_fields_that_tell_the_kind(front: Seq<char>, key: Seq<char>, back: Seq<char>)
    requires
        tells_the_kind(key),
        forall|i: int| 0 <= i < front.len() ==> "/<>\"' "@.contains(#[trigger] front[i]),
        forall|i: int| 0 <= i < back.len() ==> "/<>\"' "@.contains(#[trigger] back[i]),
    ensures
        identity_key(key),
        identity_key(front + key + back),
{
    the_names_are_small();
    let name = if called(key, "eventid"@) {
        "eventid"@
    } else if called(key, "event_id"@) {
        "event_id"@
    } else if called(key, "level"@) {
        "level"@
    } else if called(key, "severity"@) {
        "severity"@
    } else if called(key, "code"@) {
        "code"@
    } else if called(key, "status"@) {
        "status"@
    } else if called(key, "statuscode"@) {
        "statuscode"@
    } else if called(key, "status_code"@) {
        "status_code"@
    } else if called(key, "errorcode"@) {
        "errorcode"@
    } else if called(key, "error_code"@) {
        "error_code"@
    } else if called(key, "type"@) {
        "type"@
    } else if called(key, "kind"@) {
        "kind"@
    } else if called(key, "result"@) {
        "result"@
    } else if called(key, "state"@) {
        "state"@
    } else if called(key, "priority"@) {
        "priority"@
    } else if called(key, "opcode"@) {
        "opcode"@
    } else {
        "task"@
    };
    assert(called(key, name) && small(name));
    a_called_field_has_the_name(key, name);
    assert forall|i: int| 0 <= i < front.len() implies CharClass::Wrapping.has(
        #[trigger] front[i],
    ) by {
        crate::laws::texts::what_the_classes_hold(front[i]);
    }
    assert forall|i: int| 0 <= i < back.len() implies CharClass::Wrapping.has(
        #[trigger] back[i],
    ) by {
        crate::laws::texts::what_the_classes_hold(back[i]);
    }
    let none = Seq::<char>::empty();
    trimming_keeps_the_core(none, key, none, CharClass::Wrapping);
    assert(none + key + none == key);
    trimming_keeps_the_core(front, key, back, CharClass::Wrapping);
}

/// Whether a name has none of the characters at its ends that are taken off
/// it.
pub open spec fn bare_name(key: Seq<char>) -> bool {
    key.len() > 0 ==> !"/<>\"' "@.contains(key[0]) && !"/<>\"' "@.contains(key.last())
}

/// No other field is: a name that is none of these does not tell the kind,
/// however much it looks like one, and whatever stands around it.
pub proof fn no_other_field_tells_the_kind(front: Seq<char>, key: Seq<char>, back: Seq<char>)
    requires
        forall|i: int| 0 <= i < front.len() ==> "/<>\"' "@.contains(#[trigger] front[i]),
        forall|i: int| 0 <= i < back.len() ==> "/<>\"' "@.contains(#[trigger] back[i]),
        bare_name(key),
        !tells_the_kind(key),
    ensures
        !identity_key(key),
        !identity_key(front + key + back),
{
    let none = Seq::<char>::empty();
    assert forall|i: int| 0 <= i < front.len() implies CharClass::Wrapping.has(
        #[trigger] front[i],
    ) by {
        crate::laws::texts::what_the_classes_hold(front[i]);
    }
    assert forall|i: int| 0 <= i < back.len() implies CharClass::Wrapping.has(
        #[trigger] back[i],
    ) by {
        crate::laws::texts::what_the_classes_hold(back[i]);
    }
    let whole = front + key + back;
    if key.len() > 0 {
        crate::laws::texts::what_the_classes_hold(key[0]);
        crate::laws::texts::what_the_classes_hold(key.last());
        trimming_keeps_the_core(none, key, none, CharClass::Wrapping);
        assert(none + key + none == key);
        trimming_keeps_the_core(front, key, back, CharClass::Wrapping);
    } else {
        assert forall|i: int| 0 <= i < whole.len() implies CharClass::Wrapping.has(
            #[trigger] whole[i],
        ) by {
            if i < front.len() {
                assert(whole[i] == front[i]);
            } else {
                assert(whole[i] == back[i - front.len()]);
            }
        }
        crate::laws::texts::nothing_is_left_of_a_single_class(key, CharClass::Wrapping);
        crate::laws::texts::nothing_is_left_of_a_single_class(whole, CharClass::Wrapping);
        the_names_are_small();
        assert(lowered(trimmed(key, CharClass::Wrapping)).len() == 0);
        assert(lowered(trimmed(whole, CharClass::Wrapping)).len() == 0);
    }
    if key.len() > 0 && identity_name(lowered(key)) {
        let name = lowered(key);
        assert forall|i: int| 0 <= i < key.len() implies (#[trigger] key[i] == name[i] || ('A'
            <= key[i] <= 'Z' && key[i] as int + 32 == name[i] as int)) by {
            lowering_changes_capitals_alone(key, i);
        }
        assert(called(key, name));
    }
}

// ---------------------------------------------------------------------------
// Their values
// ---------------------------------------------------------------------------

/// The bytes a text takes.
pub open spec fn bytes(s: Seq<char>) -> nat {
    vstd::utf8::encode_utf8(s).len()
}

/// An object with one field.
pub open spec fn lone(key: Seq<char>, v: JsonTree) -> JsonTree {
    JsonTree::Object(seq![(key, v)])
}

/// A number in a field that tells the kind stays, if it takes 12 bytes at
/// most; any other number gives way.
pub proof fn a_number_stays_only_where_it_tells_the_kind(key: Seq<char>, n: Seq<char>, depth: nat)
    requires
        depth <= 6,
        bare_name(key),
    ensures
        tells_the_kind(key) && bytes(n) <= 12 ==> shape(JsonTree::Number(n), depth, Some(key)) == n,
        !tells_the_kind(key) || bytes(n) > 12 ==> shape(JsonTree::Number(n), depth, Some(key))
            == "<*>"@,
        shape(JsonTree::Number(n), depth, None) == "<*>"@,
{
    bytes_are_those_of_utf8(n);
    if tells_the_kind(key) {
        the_fields_that_tell_the_kind(Seq::empty(), key, Seq::empty());
    } else {
        no_other_field_tells_the_kind(Seq::empty(), key, Seq::empty());
    }
}

/// Two payloads of one field that tells the kind have different templates
/// where the values differ, be they numbers or texts, of 12 bytes at most.
pub proof fn kinds_are_kept_apart(
    key: Seq<char>,
    a: Seq<char>,
    b: Seq<char>,
    m: Seq<char>,
    n: Seq<char>,
)
    requires
        tells_the_kind(key),
        bytes(a) <= 12,
        bytes(b) <= 12,
        a != b,
        structured(m),
        structured(n),
    ensures
        template_given(m, Some(lone(key, JsonTree::Number(a)))) != template_given(
            n,
            Some(lone(key, JsonTree::Number(b))),
        ),
        template_given(m, Some(lone(key, JsonTree::Text(a)))) != template_given(
            n,
            Some(lone(key, JsonTree::Text(b))),
        ),
{
    the_names_are_small();
    bytes_are_those_of_utf8(a);
    bytes_are_those_of_utf8(b);
    the_fields_that_tell_the_kind(Seq::empty(), key, Seq::empty());
    let head = seq!['{', '"'] + key + seq!['"', ':'];
    one_field_is_shown(key, JsonTree::Number(a));
    one_field_is_shown(key, JsonTree::Number(b));
    one_field_is_shown(key, JsonTree::Text(a));
    one_field_is_shown(key, JsonTree::Text(b));
    let x = shape(lone(key, JsonTree::Number(a)), 0, None);
    let y = shape(lone(key, JsonTree::Number(b)), 0, None);
    assert(x == head + a + seq!['}']);
    assert(y == head + b + seq!['}']);
    if x == y {
        assert(x.subrange(head.len() as int, x.len() - 1) == a);
        assert(y.subrange(head.len() as int, y.len() - 1) == b);
    }
    let q = seq!['"'];
    let s = shape(lone(key, JsonTree::Text(a)), 0, None);
    let t = shape(lone(key, JsonTree::Text(b)), 0, None);
    assert(s == head + (q + a + q) + seq!['}']);
    assert(t == head + (q + b + q) + seq!['}']);
    if s == t {
        assert(s.subrange(head.len() as int + 1, s.len() - 2) == a);
        assert(t.subrange(head.len() as int + 1, t.len() - 2) == b);
    }
}

/// How an object with one field is shown.
proof fn one_field_is_shown(key: Seq<char>, v: JsonTree)
    ensures
        shape(lone(key, v), 0, None) == seq!['{', '"'] + key + seq!['"', ':'] + shape(
            v,
            1,
            Some(key),
        ) + seq!['}'],
{
    let map = seq![(key, v)];
    let f = seq!['"'] + key + seq!['"'] + seq![':'] + shape(v, 1, Some(key));
    reveal_with_fuel(field_shapes, 2);
    assert(field_shapes(map, 0, 1) == Seq::<Seq<char>>::empty());
    assert(field_shapes(map, 1, 1) =~= seq![f]);
    assert(joined(seq![f], ","@) == f);
}

/// The fields of an object are shown one by one.
proof fn each_field_is_shown(map: Seq<(Seq<char>, JsonTree)>, n: nat, depth: nat)
    requires
        n <= map.len(),
    ensures
        field_shapes(map, n, depth).len() == n,
        forall|i: int|
            0 <= i < n ==> #[trigger] field_shapes(map, n, depth)[i] == seq!['"'] + map[i].0 + seq![
                '"',
            ] + seq![':'] + shape(map[i].1, depth, Some(map[i].0)),
    decreases n,
{
    if n > 0 {
        each_field_is_shown(map, (n - 1) as nat, depth);
    }
}

/// Two objects that differ in one field alone, and there in how it is shown,
/// are shown differently.
pub proof fn an_object_tells_each_field(
    map: Seq<(Seq<char>, JsonTree)>,
    i: int,
    v: JsonTree,
    w: JsonTree,
    depth: nat,
    key: Option<Seq<char>>,
)
    requires
        0 <= i < map.len(),
        depth <= 6,
        shape(v, depth + 1, Some(map[i].0)) != shape(w, depth + 1, Some(map[i].0)),
    ensures
        shape(JsonTree::Object(map.update(i, (map[i].0, v))), depth, key) != shape(
            JsonTree::Object(map.update(i, (map[i].0, w))),
            depth,
            key,
        ),
{
    let p = map.update(i, (map[i].0, v));
    let q = map.update(i, (map[i].0, w));
    let d = depth + 1;
    each_field_is_shown(p, p.len(), d);
    each_field_is_shown(q, q.len(), d);
    let fp = field_shapes(p, p.len(), d);
    let fq = field_shapes(q, q.len(), d);
    assert(fq =~= fp.update(i, fq[i]));
    assert(fp =~= fp.update(i, fp[i]));
    if joined(fp, ","@) == joined(fq, ","@) {
        a_joined_text_tells_each_part(fp, i, fp[i], fq[i], ","@);
        let head = seq!['"'] + map[i].0 + seq!['"'] + seq![':'];
        assert(fp[i] == head + shape(v, d, Some(map[i].0)));
        assert(fq[i] == head + shape(w, d, Some(map[i].0)));
        assert(fp[i].skip(head.len() as int) == shape(v, d, Some(map[i].0)));
        assert(fq[i].skip(head.len() as int) == shape(w, d, Some(map[i].0)));
    }
    let x = shape(JsonTree::Object(p), depth, key);
    let y = shape(JsonTree::Object(q), depth, key);
    assert(x == seq!['{'] + joined(fp, ","@) + seq!['}']);
    assert(y == seq!['{'] + joined(fq, ","@) + seq!['}']);
    if x == y {
        assert(x.subrange(1, x.len() - 1) == joined(fp, ","@));
        assert(y.subrange(1, y.len() - 1) == joined(fq, ","@));
    }
}

/// Two payloads that differ only in the value of a field that tells the kind
/// have different templates, whatever the other fields are, as far as a
/// template is not cut.
pub proof fn kinds_are_kept_apart_among_other_fields(
    map: Seq<(Seq<char>, JsonTree)>,
    i: int,
    a: Seq<char>,
    b: Seq<char>,
    m: Seq<char>,
)
    requires
        0 <= i < map.len(),
        tells_the_kind(map[i].0),
        bytes(a) <= 12,
        bytes(b) <= 12,
        a != b,
        structured(m),
        shape(
            JsonTree::Object(map.update(i, (map[i].0, JsonTree::Number(a)))),
            0,
            None,
        ).len() <= 600,
        shape(
            JsonTree::Object(map.update(i, (map[i].0, JsonTree::Number(b)))),
            0,
            None,
        ).len() <= 600,
    ensures
        template_given(m, Some(JsonTree::Object(map.update(i, (map[i].0, JsonTree::Number(a))))))
            != template_given(
            m,
            Some(JsonTree::Object(map.update(i, (map[i].0, JsonTree::Number(b))))),
        ),
{
    bytes_are_those_of_utf8(a);
    bytes_are_those_of_utf8(b);
    the_fields_that_tell_the_kind(Seq::empty(), map[i].0, Seq::empty());
    an_object_tells_each_field(map, i, JsonTree::Number(a), JsonTree::Number(b), 0, None);
}

/// Two payloads that differ only in a number elsewhere share a template.
pub proof fn other_numbers_share_a_template(
    map: Seq<(Seq<char>, JsonTree)>,
    i: int,
    a: Seq<char>,
    b: Seq<char>,
    m: Seq<char>,
)
    requires
        0 <= i < map.len(),
        bare_name(map[i].0),
        !tells_the_kind(map[i].0),
        structured(m),
    ensures
        template_given(m, Some(JsonTree::Object(map.update(i, (map[i].0, JsonTree::Number(a))))))
            == template_given(
            m,
            Some(JsonTree::Object(map.update(i, (map[i].0, JsonTree::Number(b))))),
        ),
{
    let p = map.update(i, (map[i].0, JsonTree::Number(a)));
    let q = map.update(i, (map[i].0, JsonTree::Number(b)));
    a_number_stays_only_where_it_tells_the_kind(map[i].0, a, 1);
    a_number_stays_only_where_it_tells_the_kind(map[i].0, b, 1);
    each_field_is_shown(p, p.len(), 1);
    each_field_is_shown(q, q.len(), 1);
    let fp = field_shapes(p, p.len(), 1);
    let fq = field_shapes(q, q.len(), 1);
    assert forall|k: int| 0 <= k < fp.len() implies fp[k] == fq[k] by {
        if k != i {
            assert(p[k] == map[k]);
            assert(q[k] == map[k]);
        }
    }
    assert(fp =~= fq);
}

// ---------------------------------------------------------------------------
// The shape of a payload
// ---------------------------------------------------------------------------

/// Truth values and `null` stay, whatever the field.
pub proof fn truth_values_stay(key: Option<Seq<char>>, depth: nat)
    requires
        depth <= 6,
    ensures
        shape(JsonTree::Bool(true), depth, key) == "true"@,
        shape(JsonTree::Bool(false), depth, key) == "false"@,
        shape(JsonTree::Null, depth, key) == "null"@,
{
}

/// What is nested more than six levels deep gives way.
pub proof fn what_is_nested_deeply_gives_way(v: JsonTree, key: Option<Seq<char>>, depth: nat)
    ensures
        depth > 6 ==> shape(v, depth, key) == "<*>"@,
        depth <= 6 && v is Object ==> shape(v, depth, key)[0] == '{',
        depth <= 6 && v is Array ==> shape(v, depth, key)[0] == '[',
{
}

/// Arrays of more than three items with the same first three are shown alike,
/// and unlike those of three.
pub proof fn three_items_stand_for_an_array(
    a: JsonTree,
    b: JsonTree,
    c: JsonTree,
    more: Seq<JsonTree>,
    depth: nat,
    key: Option<Seq<char>>,
)
    requires
        depth <= 6,
        more.len() > 0,
    ensures
        ({
            let x = shape(a, depth + 1, key);
            let y = shape(b, depth + 1, key);
            let z = shape(c, depth + 1, key);
            &&& shape(JsonTree::Array(Seq::empty()), depth, key) == seq!['[', ']']
            &&& shape(JsonTree::Array(seq![a]), depth, key) == seq!['['] + x + seq![']']
            &&& shape(JsonTree::Array(seq![a, b, c]), depth, key) == seq!['['] + x + seq![',']
                + y + seq![','] + z + seq![']']
            &&& shape(JsonTree::Array(seq![a, b, c] + more), depth, key) == seq!['['] + x + seq![
                ',',
            ] + y + seq![','] + z + seq![',', '\u{2026}', ']']
        }),
{
    reveal_strlit(",");
    let comma = ","@;
    assert(comma =~= seq![',']);
    let d = depth + 1;
    let x = shape(a, d, key);
    let y = shape(b, d, key);
    let z = shape(c, d, key);
    reveal_with_fuel(item_shapes, 4);
    reveal_with_fuel(joined, 5);
    let none = Seq::<JsonTree>::empty();
    assert(item_shapes(none, 0, d, key) =~= Seq::empty());
    assert(shape(JsonTree::Array(none), depth, key) =~= seq!['[', ']']);
    let one = seq![a];
    assert(item_shapes(one, 1, d, key) =~= seq![x]);
    assert(joined(seq![x], comma) == x);
    let three = seq![a, b, c];
    assert(item_shapes(three, 3, d, key) =~= seq![x, y, z]);
    three_joined(x, y, z, comma);
    assert(shape(JsonTree::Array(three), depth, key) =~= seq!['['] + x + seq![','] + y + seq![',']
        + z + seq![']']);
    let all = three + more;
    assert(all[0] == a && all[1] == b && all[2] == c);
    assert(item_shapes(all, 3, d, key) =~= seq![x, y, z]);
    let parts = seq![x, y, z].push(seq!['\u{2026}']);
    assert(parts.drop_last() =~= seq![x, y, z]);
    assert(joined(parts, comma) == joined(seq![x, y, z], comma) + comma + seq!['\u{2026}']);
    assert(shape(JsonTree::Array(all), depth, key) =~= seq!['['] + x + seq![','] + y + seq![','] + z
        + seq![',', '\u{2026}', ']']);
}

/// Three texts joined.
proof fn three_joined(x: Seq<char>, y: Seq<char>, z: Seq<char>, sep: Seq<char>)
    ensures
        joined(seq![x, y, z], sep) == x + sep + y + sep + z,
{
    let p = seq![x, y, z];
    assert(p.drop_last() =~= seq![x, y]);
    assert(seq![x, y].drop_last() =~= seq![x]);
    assert(joined(seq![x], sep) == x);
    assert(joined(seq![x, y], sep) == x + sep + y);
}

/// A text of one word gives way if it varies, and stays in quotes if it does
/// not, unless it is a short one in a field that tells the kind.
pub proof fn a_text_is_shown_in_quotes(key: Seq<char>, word: Seq<char>, depth: nat)
    requires
        depth <= 6,
        tells_the_kind(key) && bytes(word) <= 12,
    ensures
        shape(JsonTree::Text(word), depth, Some(key)) == seq!['"'] + word + seq!['"'],
{
    bytes_are_those_of_utf8(word);
    the_fields_that_tell_the_kind(Seq::empty(), key, Seq::empty());
}

/// A word of letters in a payload stays, in quotes.
pub proof fn a_word_of_letters_stays_in_quotes(
    key: Option<Seq<char>>,
    word: Seq<char>,
    depth: nat,
)
    requires
        depth <= 6,
        0 < word.len() < 16,
        crate::laws::values::letters(word),
    ensures
        shape(JsonTree::Text(word), depth, key) == seq!['"'] + word + seq!['"'],
{
    crate::laws::values::a_short_word_never_varies(word);
    one_word(word);
}

/// A text without white space is one word.
proof fn one_word(word: Seq<char>)
    requires
        word.len() > 0,
        crate::laws::values::letters(word),
    ensures
        words(word) == seq![word],
        trimmed(word, CharClass::White) == word,
{
    let none = Seq::<char>::empty();
    assert forall|i: int| 0 <= i < word.len() implies !CharClass::White.has(#[trigger] word[i]) by {
        assert(crate::laws::values::letter(word[i]));
    }
    assert(crate::laws::texts::solid(word));
    crate::laws::texts::words_stand_between_white_space(none, word, none);
    assert(none + word + none == word);
    assert(seq![word] + words(none) =~= seq![word]);
    assert(!CharClass::White.has(word[word.len() - 1]));
    trimming_keeps_the_core(none, word, none, CharClass::White);
}

// ---------------------------------------------------------------------------
// The length of a template
// ---------------------------------------------------------------------------

/// A template has 600 characters at most; a longer one is cut there and marked
/// with an ellipsis.
pub proof fn a_template_is_cut_at_600(s: Seq<char>, more: Seq<char>)
    requires
        s.len() == 600,
        more.len() > 0,
    ensures
        clipped(s, 600) == s,
        clipped(s + more, 600) == s.push('\u{2026}'),
{
    assert((s + more).take(600) == s);
}

/// The template of a message is no longer than that, and for a message whose
/// shape is no longer it is the shape itself.
pub proof fn a_short_shape_is_the_template(m: Seq<char>, v: JsonTree)
    requires
        structured(m),
    ensures
        shape(v, 0, None).len() <= 600 ==> template_given(m, Some(v)) == shape(v, 0, None),
        shape(v, 0, None).len() > 600 ==> template_given(m, Some(v)) == shape(v, 0, None).take(
            600,
        ).push('\u{2026}'),
{
}

/// A message is read as a payload only if it starts with a brace or a bracket,
/// white space aside; otherwise it is read word by word.
pub proof fn only_a_brace_or_a_bracket_starts_a_payload(
    space: Seq<char>,
    c: char,
    rest: Seq<char>,
)
    requires
        forall|i: int| 0 <= i < space.len() ==> CharClass::White.has(#[trigger] space[i]),
        !CharClass::White.has(c),
    ensures
        structured(space + seq![c] + rest) <==> c == '{' || c == '[',
        c != '{' && c != '[' ==> forall|parsed: Option<JsonTree>| #[trigger]
            template_given(space + seq![c] + rest, parsed) == clipped(
                words_masked(space + seq![c] + rest),
                600,
            ),
{
    let m = space + seq![c] + rest;
    let k = CharClass::White;
    assert forall|i: int| 0 <= i < space.len() implies #[trigger] k.has(m[i]) by {
        assert(m[i] == space[i]);
    }
    assert(m[space.len() as int] == c);
    crate::text::lead_len_is(m, k, space.len());
    let t = m.skip(space.len() as int);
    crate::text::trail_len_stops(t, k);
    assert(t[0] == c);
    if crate::text::trail_len(t, k) == t.len() {
        assert(k.has(t[0]));
    }
    assert(trimmed(m, k)[0] == c);
}

/// A message of words is its words, each masked, with one blank between them;
/// of more than 60 words the first 60 count.
pub proof fn sixty_words_stand_for_a_message(m: Seq<char>, i: int)
    requires
        0 <= i < words(m).len(),
    ensures
        words_masked(m) == joined(masked_words(words(m)), seq![' ']),
        words(m).len() <= 60 ==> masked_words(words(m)).len() == words(m).len(),
        words(m).len() > 60 ==> masked_words(words(m)).len() == 61 && masked_words(words(m))[60]
            == seq!['\u{2026}'],
        i < 60 ==> masked_words(words(m))[i] == masked(words(m)[i]),
{
    reveal_strlit(" ");
    assert(" "@ =~= seq![' ']);
}

// ---------------------------------------------------------------------------
// Fields within a token
// ---------------------------------------------------------------------------

/// A token is read field by field if it takes 20 bytes or more and has two
/// delimiters or more.
pub proof fn a_long_delimited_token_has_fields(t: Seq<char>)
    ensures
        payload(t) <==> bytes(t) >= 20 && t.filter(
            |c: char| CharClass::Delimiter.has(c),
        ).len() >= 2,
{
    bytes_are_those_of_utf8(t);
    crate::laws::texts::a_count_is_of_positions(t, CharClass::Delimiter);
}

/// Delimiters stay; what stands between two of them is shown under the name of
/// the field in front.
pub proof fn fields_are_shown_between_delimiters(
    field: Seq<char>,
    d: char,
    rest: Seq<char>,
    name: Seq<char>,
)
    requires
        field.len() > 0,
        forall|i: int|
            0 <= i < field.len() ==> !CharClass::Delimiter.has(#[trigger] field[i]),
        CharClass::Delimiter.has(d),
    ensures
        fields_masked(field + seq![d] + rest, name) == shown_field(field, name) + seq![d]
            + fields_masked(rest, field),
        fields_masked(seq![d] + rest, name) == seq![d] + fields_masked(rest, name),
        fields_masked(field, name) == shown_field(field, name),
        fields_masked(Seq::empty(), name).len() == 0,
{
    let k = CharClass::Field;
    let s = field + seq![d] + rest;
    assert forall|i: int| 0 <= i < field.len() implies #[trigger] k.has(s[i]) by {
        assert(s[i] == field[i]);
    }
    assert(s[field.len() as int] == d);
    crate::text::lead_len_is(s, k, field.len());
    assert(s.take(field.len() as int) == field);
    assert(s.skip(field.len() as int + 1) == rest);
    let u = seq![d] + rest;
    assert(u[0] == d);
    crate::text::lead_len_is(u, k, 0);
    assert(u.skip(1) == rest);
    assert(fields_masked(u, name) =~= seq![d] + fields_masked(rest, name));
    assert forall|i: int| 0 <= i < field.len() implies #[trigger] k.has(field[i]) by {
        assert(!CharClass::Delimiter.has(field[i]));
    }
    crate::text::lead_len_is(field, k, field.len());
    assert(field.take(field.len() as int) == field);
    crate::text::lead_len_is(Seq::empty(), k, 0);
}

/// A field that varies gives way, but for one of 12 bytes at most under a name
/// that tells the kind.
pub proof fn a_varying_field_gives_way(field: Seq<char>, name: Seq<char>)
    requires
        crate::cluster::tokenize::variable(field),
        bare_name(name),
    ensures
        tells_the_kind(name) && bytes(field) <= 12 ==> shown_field(field, name) == field,
        !tells_the_kind(name) || bytes(field) > 12 ==> shown_field(field, name) == "<*>"@,
{
    bytes_are_those_of_utf8(field);
    if tells_the_kind(name) {
        the_fields_that_tell_the_kind(Seq::empty(), name, Seq::empty());
    } else {
        no_other_field_tells_the_kind(Seq::empty(), name, Seq::empty());
    }
}

/// A pair of a name and a number keeps its name.
pub proof fn a_pair_keeps_its_name(name: Seq<char>, number: Seq<char>)
    requires
        0 < name.len(),
        crate::laws::values::letters(name),
        0 < number.len(),
        crate::laws::values::digits(number),
    ensures
        masked(name + seq!['='] + number) == name + seq!['='] + "<*>"@,
{
    let t = name + seq!['='] + number;
    let none = Seq::<char>::empty();
    a_pair_is_bare(name, number);
    a_pair_does_not_vary(name, number);
    a_pair_is_cut_at_its_sign(name, number);
    crate::laws::values::digits_vary(number, none);
    assert(number + none == number);
    how_a_token_is_masked(t);
    assert(masked(t) == none + name + seq!['='] + "<*>"@ + none);
    assert(none + name + seq!['='] + "<*>"@ + none =~= name + seq!['='] + "<*>"@);
}

/// A pair has no punctuation around it.
proof fn a_pair_is_bare(name: Seq<char>, number: Seq<char>)
    requires
        0 < name.len(),
        crate::laws::values::letters(name),
        0 < number.len(),
        crate::laws::values::digits(number),
    ensures
        ({
            let t = name + seq!['='] + number;
            &&& kernel(t) == t
            &&& opening(t) == Seq::<char>::empty()
            &&& closing(t) == Seq::<char>::empty()
        }),
{
    let t = name + seq!['='] + number;
    assert(crate::laws::values::letter(name[0]));
    assert(t[0] == name[0]);
    let last = t.len() - 1;
    assert(t[last] == number[number.len() - 1]);
    assert(crate::laws::values::digit(number[number.len() - 1]));
    crate::text::lead_len_is(t, CharClass::Opening, 0);
    assert(t.skip(0) == t);
    crate::text::trail_len_is(t, CharClass::Closing, 0);
    assert(t.take(t.len() as int) == t);
    assert(t.take(0) == Seq::<char>::empty());
    assert(t.skip(t.len() as int) == Seq::<char>::empty());
}

/// A pair is cut at its sign.
proof fn a_pair_is_cut_at_its_sign(name: Seq<char>, number: Seq<char>)
    requires
        crate::laws::values::letters(name),
        0 < number.len(),
        crate::laws::values::digits(number),
    ensures
        cut(name + seq!['='] + number, '=') == Some((name, number)),
        !name.contains('"'),
        trimmed(number, CharClass::Is('"')) == number,
{
    let none = Seq::<char>::empty();
    assert forall|i: int| 0 <= i < name.len() implies name[i] != '=' && name[i] != '"' by {
        assert(crate::laws::values::letter(name[i]));
    }
    crate::laws::texts::cutting_takes_the_first(name, '=', number);
    assert(crate::laws::values::digit(number[0]));
    assert(crate::laws::values::digit(number[number.len() - 1]));
    trimming_keeps_the_core(none, number, none, CharClass::Is('"'));
    assert(none + number + none == number);
}

/// A pair as a whole is not a value.
proof fn a_pair_does_not_vary(name: Seq<char>, number: Seq<char>)
    requires
        0 < name.len(),
        crate::laws::values::letters(name),
        0 < number.len(),
        crate::laws::values::digits(number),
    ensures
        !crate::cluster::tokenize::variable(name + seq!['='] + number),
{
    let t = name + seq!['='] + number;
    let n = name.len() as int;
    assert(t[n] == '=');
    assert forall|i: int| 0 <= i < t.len() implies (crate::laws::values::letter(#[trigger] t[i])
        || crate::laws::values::digit(t[i]) || t[i] == '=') by {
        if i < n {
            assert(crate::laws::values::letter(name[i]));
        } else if i > n {
            assert(crate::laws::values::digit(number[i - n - 1]));
        }
    }
    crate::laws::values::a_number_has_one_point_and_a_short_unit(t);
    if crate::cluster::tokenize::numeric(t) {
        let (i, j) = choose|i: int, j: int| crate::laws::values::measures(t, i, j);
        assert(crate::laws::values::letter(t[0]) || crate::laws::values::digit(t[0]) || t[0]
            == '=');
        assert(crate::laws::values::letter(name[0]));
        assert(t[0] == name[0]);
        assert(i == 0);
        assert(crate::laws::values::letter(t[n]) || crate::laws::values::digit(t[n]) || t[n] == '%'
            || t[n] == '.' || t[n] == ',');
    }
    crate::laws::values::a_uuid_has_five_groups(t);
    crate::laws::values::a_hexadecimal_number_is_marked_or_long(t);
    if crate::cluster::tokenize::hexadecimal(t) {
        if t.len() > 2 && t[0] == '0' {
            assert(crate::laws::values::letter(name[0]));
        } else {
            assert(crate::laws::values::hex_digit(t[n]));
        }
    }
    crate::laws::values::a_path_has_a_root_and_a_separator(t);
    crate::laws::values::a_long_identifier_mixes_letters_and_digits(t);
    assert forall|i: int| 0 <= i < t.len() implies t[i] != '-' && t[i] != ':' && t[i] != '@' && t[i]
        != '.' && t[i] != '/' && t[i] != '\\' by {
        assert(crate::laws::values::letter(t[i]) || crate::laws::values::digit(t[i]) || t[i]
            == '=');
    }
    assert(!t.contains('-') && !t.contains(':') && !t.contains('@') && !t.contains('.'));
    crate::laws::values::a_resource_id_has_a_short_prefix(t, Seq::empty());
    crate::laws::values::mail_goes_to_a_host(t, Seq::empty());
    crate::laws::texts::none_is_a_count_of_zero(t, CharClass::Is('-'));
    crate::laws::texts::none_is_a_count_of_zero(t, CharClass::Is(':'));
    assert forall|i: int| 0 <= i < t.len() implies !CharClass::Is('-').has(#[trigger] t[i]) by {
        assert(t[i] != '-');
    }
    assert forall|i: int| 0 <= i < t.len() implies !CharClass::Is(':').has(#[trigger] t[i]) by {
        assert(t[i] != ':');
    }
    if t == seq!['-'] {
        assert(t[0] == '-');
    }
    if crate::cluster::tokenize::ip(t) {
        crate::laws::texts::cutting_takes_the_first(t, ':', Seq::empty());
        let k = CharClass::Except('.');
        assert forall|i: int| 0 <= i < t.len() implies #[trigger] k.has(t[i]) by {
            assert(t[i] != '.');
        }
        crate::text::lead_len_is(t, k, t.len());
        assert(crate::text::pieces(t, '.') == seq![t]);
    }
    if crate::cluster::tokenize::url(t) {
        reveal_strlit("://");
        let i = choose|i: int| #[trigger] crate::text::stands_at(t, "://"@, i);
        assert(t.subrange(i, i + 3)[0] == ':');
        assert(t[i] == ':');
    }
    if crate::cluster::tokenize::arn(t) {
        reveal_strlit("arn:");
        assert(t.take(4)[3] == ':');
        assert(t[3] == ':');
    }
}

// ---------------------------------------------------------------------------
// Texts in a payload
// ---------------------------------------------------------------------------

/// Elsewhere than in a field that tells the kind, a text that varies gives
/// way; several words are masked word by word, in quotes; blanks stay.
pub proof fn a_text_is_masked_like_a_message(key: Seq<char>, t: Seq<char>, depth: nat)
    requires
        depth <= 6,
        bare_name(key),
        !tells_the_kind(key) || bytes(t) > 12,
    ensures
        words(t).len() > 1 && trimmed(t, CharClass::White).len() > 0 ==> shape(
            JsonTree::Text(t),
            depth,
            Some(key),
        ) == seq!['"'] + words_masked(t) + seq!['"'],
        words(t).len() <= 1 && trimmed(t, CharClass::White).len() > 0
            && crate::cluster::tokenize::variable(t) ==> shape(
            JsonTree::Text(t),
            depth,
            Some(key),
        ) == "<*>"@,
        trimmed(t, CharClass::White).len() == 0 ==> shape(JsonTree::Text(t), depth, Some(key))
            == seq!['"'] + t + seq!['"'],
{
    bytes_are_those_of_utf8(t);
    if !tells_the_kind(key) {
        no_other_field_tells_the_kind(Seq::empty(), key, Seq::empty());
    }
}

// ---------------------------------------------------------------------------
// Tokens
// ---------------------------------------------------------------------------

/// A token that is nothing but punctuation stays; a value gives way; of a pair
/// whose value varies the name stays; a long delimited token is masked field
/// by field; everything else stays.
pub proof fn how_a_token_is_masked(raw: Seq<char>)
    ensures
        ({
            let c = kernel(raw);
            let pair = cut(c, '=');
            let named = pair is Some && pair.unwrap().0.len() > 0 && pair.unwrap().1.len() > 0
                && !pair.unwrap().0.contains('"') && variable(
                trimmed(pair.unwrap().1, CharClass::Is('"')),
            );
            &&& c.len() == 0 ==> masked(raw) == raw
            &&& c.len() > 0 && variable(c) ==> masked(raw) == opening(raw) + "<*>"@ + closing(raw)
            &&& c.len() > 0 && !variable(c) && named ==> masked(raw) == opening(raw)
                + pair.unwrap().0 + seq!['='] + "<*>"@ + closing(raw)
            &&& c.len() > 0 && !variable(c) && !named && bytes(c) >= 20 && payload(c) ==> masked(
                raw,
            ) == opening(raw) + fields_masked(c, Seq::empty()) + closing(raw)
            &&& c.len() > 0 && !variable(c) && !named && !payload(c) ==> masked(raw) == raw
        }),
{
    let c = kernel(raw);
    bytes_are_those_of_utf8(c);
    match cut(c, '=') {
        Some(pair) => {
            let k = CharClass::Is('"');
            if crate::text::any_in(pair.0, k) {
                let i = choose|i: int| 0 <= i < pair.0.len() && #[trigger] k.has(pair.0[i]);
                assert(pair.0[i] == '"');
            }
            if pair.0.contains('"') {
                let i = choose|i: int| 0 <= i < pair.0.len() && pair.0[i] == '"';
                assert(k.has(pair.0[i]));
            }
        },
        None => {},
    }
}

} // verus!
