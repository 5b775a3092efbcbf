//! JSON values as plain data, with their compact and indented text forms.
//!
//! Numbers are kept as the text JSON writes for them: a number is shown or
//! masked here, never computed with. `serde_json` has no value that keeps a
//! number's text and every entry of an object as they are, so the two text
//! forms are put together here. Documents are read, and strings are quoted, by
//! `serde_json` itself.

use crate::text::{
    chars_of, copy_of, decimal, decimal_of, extend, extend_str, hex, join, joined, same_str,
    signed_decimal, signed_decimal_of, string_of, strings, texts,
};
use vstd::prelude::*;

verus! {

/// A parsed JSON value. Object entries keep the order of the document.
#[derive(Debug)]
pub enum Json {
    Null,
    Bool(bool),
    /// A number, as `serde_json` writes it.
    Number(String),
    Text(String),
    Array(Vec<Json>),
    Object(Vec<(String, Json)>),
}

/// The mathematical content of a `Json`.
pub enum JsonTree {
    Null,
    Bool(bool),
    Number(Seq<char>),
    Text(Seq<char>),
    Array(Seq<JsonTree>),
    Object(Seq<(Seq<char>, JsonTree)>),
}

impl View for Json {
    type V = JsonTree;

    open spec fn view(&self) -> JsonTree {
        tree_of(*self)
    }
}

/// The content of a value.
pub open spec fn tree_of(v: Json) -> JsonTree
    decreases v,
{
    match v {
        Json::Null => JsonTree::Null,
        Json::Bool(b) => JsonTree::Bool(b),
        Json::Number(n) => JsonTree::Number(n@),
        Json::Text(s) => JsonTree::Text(s@),
        Json::Array(items) => JsonTree::Array(
            Seq::new(
                items@.len(),
                |i: int|
                    if 0 <= i < items@.len() {
                        tree_of(items@[i])
                    } else {
                        JsonTree::Null
                    },
            ),
        ),
        Json::Object(map) => JsonTree::Object(
            Seq::new(
                map@.len(),
                |i: int|
                    if 0 <= i < map@.len() {
                        (map@[i].0@, tree_of(map@[i].1))
                    } else {
                        (Seq::empty(), JsonTree::Null)
                    },
            ),
        ),
    }
}

/// The content of an optional value.
pub open spec fn tree_opt(v: Option<Json>) -> Option<JsonTree> {
    match v {
        Some(j) => Some(j@),
        None => None,
    }
}

/// What `serde_json` reads a document as; `None` when it is not JSON.
pub uninterp spec fn parsed_json(text: Seq<char>) -> Option<JsonTree>;

/// `serde_json`'s own value type, opaque here.
#[verifier::external_type_specification]
#[verifier::external_body]
pub struct ExValue(serde_json::Value);

/// The same value, moved out of `serde_json`'s own type.
#[verifier::external_body]
fn json_of(v: serde_json::Value) -> (r: Json) {
    match v {
        serde_json::Value::Null => Json::Null,
        serde_json::Value::Bool(b) => Json::Bool(b),
        serde_json::Value::Number(n) => Json::Number(n.to_string()),
        serde_json::Value::String(s) => Json::Text(s),
        serde_json::Value::Array(a) => Json::Array(a.into_iter().map(json_of).collect()),
        serde_json::Value::Object(m) => Json::Object(
            m.into_iter().map(|e| (e.0, json_of(e.1))).collect(),
        ),
    }
}

/// `serde_json::from_str` into a `Value`: the document it reads, or `None`
/// where it reports an error. The reading is a function of the text.
#[verifier::external_body]
fn read_json(text: &str) -> (r: Option<Json>)
    ensures
        tree_opt(r) == parsed_json(text@),
{
    serde_json::from_str::<serde_json::Value>(text).ok().map(json_of)
}

/// Parse a JSON document.
pub fn parse(text: &str) -> (r: Option<Json>)
    ensures
        tree_opt(r) == parsed_json(text@),
{
    read_json(text)
}

// ---------------------------------------------------------------------------
// Compact text
// ---------------------------------------------------------------------------

/// One character inside a JSON string.
pub open spec fn escaped(c: char) -> Seq<char> {
    if c == '"' {
        seq!['\\', '"']
    } else if c == '\\' {
        seq!['\\', '\\']
    } else if c == '\u{8}' {
        seq!['\\', 'b']
    } else if c == '\u{c}' {
        seq!['\\', 'f']
    } else if c == '\n' {
        seq!['\\', 'n']
    } else if c == '\r' {
        seq!['\\', 'r']
    } else if c == '\t' {
        seq!['\\', 't']
    } else if c <= '\u{1f}' {
        seq!['\\', 'u'] + hex(c as nat, 4)
    } else {
        seq![c]
    }
}

/// The characters of a JSON string, between its quotes.
pub open spec fn escaped_all(s: Seq<char>) -> Seq<char>
    decreases s.len(),
{
    if s.len() == 0 {
        Seq::empty()
    } else {
        escaped_all(s.drop_last()) + escaped(s.last())
    }
}

/// A JSON string.
pub open spec fn quoted(s: Seq<char>) -> Seq<char> {
    seq!['"'] + escaped_all(s) + seq!['"']
}

/// `serde_json::to_string` of a string: the text in quotes, with `"`, `\`
/// and the characters below U+0020 escaped. Serializing a string to memory
/// cannot fail.
#[verifier::external_body]
fn quote(s: &str) -> (r: String)
    ensures
        r@ == quoted(s@),
{
    serde_json::to_string(s).unwrap_or_default()
}

/// A value without any white space between its tokens.
pub open spec fn compact(v: JsonTree) -> Seq<char>
    decreases v, 0nat,
{
    match v {
        JsonTree::Null => "null"@,
        JsonTree::Bool(b) => if b {
            "true"@
        } else {
            "false"@
        },
        JsonTree::Number(n) => n,
        JsonTree::Text(s) => quoted(s),
        JsonTree::Array(items) => seq!['['] + joined(compact_items(items), ","@) + seq![']'],
        JsonTree::Object(map) => seq!['{'] + joined(compact_fields(map), ","@) + seq!['}'],
    }
}

/// The elements of an array, each in compact form.
pub open spec fn compact_items(items: Seq<JsonTree>) -> Seq<Seq<char>>
    decreases items, items.len(),
{
    if items.len() == 0 {
        Seq::empty()
    } else {
        compact_items(items.drop_last()).push(compact(items.last()))
    }
}

/// The fields of an object, each as `"key":value`.
pub open spec fn compact_fields(map: Seq<(Seq<char>, JsonTree)>) -> Seq<Seq<char>>
    decreases map, map.len(),
{
    if map.len() == 0 {
        Seq::empty()
    } else {
        compact_fields(map.drop_last()).push(
            quoted(map.last().0) + seq![':'] + compact(map.last().1),
        )
    }
}

/// Write a value in compact form.
pub fn compact_text(v: &Json) -> (r: Vec<char>)
    ensures
        r@ == compact(v@),
    decreases *v,
{
    let mut out: Vec<char> = Vec::new();
    match v {
        Json::Null => {
            extend_str(&mut out, "null");
        },
        Json::Bool(b) => {
            extend_str(
                &mut out,
                if *b {
                    "true"
                } else {
                    "false"
                },
            );
        },
        Json::Number(n) => {
            extend_str(&mut out, n.as_str());
        },
        Json::Text(s) => {
            let q = quote(s.as_str());
            extend_str(&mut out, q.as_str());
        },
        Json::Array(items) => {
            let ghost trees = v@->Array_0;
            let mut parts: Vec<Vec<char>> = Vec::new();
            let mut i: usize = 0;
            while i < items.len()
                invariant
                    *v == Json::Array(*items),
                    trees == v@->Array_0,
                    i <= items@.len(),
                    texts(parts@) == compact_items(trees.take(i as int)),
                decreases items@.len() - i,
            {
                let part = compact_text(&items[i]);
                let ghost before = texts(parts@);
                let ghost text = part@;
                parts.push(part);
                proof {
                    assert(texts(parts@) == before.push(text));
                    assert(trees.take(i + 1).drop_last() == trees.take(i as int));
                    assert(trees.take(i + 1).last() == items@[i as int]@);
                }
                i += 1;
            }
            proof {
                assert(trees.take(i as int) == trees);
            }
            out.push('[');
            let body = join(&parts, ",");
            extend(&mut out, body.as_slice());
            out.push(']');
        },
        Json::Object(map) => {
            let ghost trees = v@->Object_0;
            let mut parts: Vec<Vec<char>> = Vec::new();
            let mut i: usize = 0;
            while i < map.len()
                invariant
                    *v == Json::Object(*map),
                    trees == v@->Object_0,
                    i <= map@.len(),
                    texts(parts@) == compact_fields(trees.take(i as int)),
                decreases map@.len() - i,
            {
                let q = quote(map[i].0.as_str());
                let mut part = chars_of(q.as_str());
                part.push(':');
                let value = compact_text(&map[i].1);
                extend(&mut part, value.as_slice());
                let ghost before = texts(parts@);
                let ghost text = part@;
                parts.push(part);
                proof {
                    assert(texts(parts@) == before.push(text));
                    assert(trees.take(i + 1).drop_last() == trees.take(i as int));
                    assert(trees.take(i + 1).last() == (map@[i as int].0@, map@[i as int].1@));
                    assert(text == quoted(map@[i as int].0@) + seq![':'] + compact(
                        map@[i as int].1@,
                    ));
                }
                i += 1;
            }
            proof {
                assert(trees.take(i as int) == trees);
            }
            out.push('{');
            let body = join(&parts, ",");
            extend(&mut out, body.as_slice());
            out.push('}');
        },
    }
    proof {
        assert(out@ == compact(v@));
    }
    out
}

/// The indented form of a value: two blanks for each level, and nothing but
/// brackets for what is empty.
pub open spec fn pretty(v: JsonTree, indent: Seq<char>) -> Seq<char>
    decreases v, 0nat,
{
    match v {
        JsonTree::Array(items) => if items.len() == 0 {
            "[]"@
        } else {
            seq!['['] + joined(pretty_items(items, deeper(indent)), ","@) + seq!['\n'] + indent
                + seq![']']
        },
        JsonTree::Object(map) => if map.len() == 0 {
            "{}"@
        } else {
            seq!['{'] + joined(pretty_fields(map, deeper(indent)), ","@) + seq!['\n'] + indent
                + seq!['}']
        },
        _ => compact(v),
    }
}

/// The indentation one level down.
pub open spec fn deeper(indent: Seq<char>) -> Seq<char> {
    indent + seq![' ', ' ']
}

/// The elements of an array, each on a line of its own.
pub open spec fn pretty_items(items: Seq<JsonTree>, indent: Seq<char>) -> Seq<Seq<char>>
    decreases items, items.len(),
{
    if items.len() == 0 {
        Seq::empty()
    } else {
        pretty_items(items.drop_last(), indent).push(
            seq!['\n'] + indent + pretty(items.last(), indent),
        )
    }
}

/// The fields of an object, each as `"key": value` on a line of its own.
pub open spec fn pretty_fields(map: Seq<(Seq<char>, JsonTree)>, indent: Seq<char>) -> Seq<
    Seq<char>,
>
    decreases map, map.len(),
{
    if map.len() == 0 {
        Seq::empty()
    } else {
        pretty_fields(map.drop_last(), indent).push(
            seq!['\n'] + indent + quoted(map.last().0) + seq![':', ' '] + pretty(
                map.last().1,
                indent,
            ),
        )
    }
}

/// Write a value in indented form.
pub fn pretty_text(v: &Json, indent: &[char]) -> (r: Vec<char>)
    ensures
        r@ == pretty(v@, indent@),
    decreases *v,
{
    let mut inner = copy_of(indent);
    inner.push(' ');
    inner.push(' ');
    let ghost below = inner@;
    proof {
        assert(below == deeper(indent@));
    }
    let mut out: Vec<char> = Vec::new();
    match v {
        Json::Array(items) => {
            let ghost trees = v@->Array_0;
            if items.len() == 0 {
                return chars_of("[]");
            }
            let mut parts: Vec<Vec<char>> = Vec::new();
            let mut i: usize = 0;
            while i < items.len()
                invariant
                    *v == Json::Array(*items),
                    trees == v@->Array_0,
                    below == inner@,
                    i <= items@.len(),
                    texts(parts@) == pretty_items(trees.take(i as int), below),
                decreases items@.len() - i,
            {
                let mut part: Vec<char> = Vec::new();
                part.push('\n');
                extend(&mut part, inner.as_slice());
                let value = pretty_text(&items[i], inner.as_slice());
                extend(&mut part, value.as_slice());
                let ghost before = texts(parts@);
                let ghost text = part@;
                parts.push(part);
                proof {
                    assert(texts(parts@) == before.push(text));
                    assert(trees.take(i + 1).drop_last() == trees.take(i as int));
                    assert(trees.take(i + 1).last() == items@[i as int]@);
                    assert(text == seq!['\n'] + below + pretty(items@[i as int]@, below));
                }
                i += 1;
            }
            proof {
                assert(trees.take(i as int) == trees);
            }
            out.push('[');
            let body = join(&parts, ",");
            extend(&mut out, body.as_slice());
            out.push('\n');
            extend(&mut out, indent);
            out.push(']');
        },
        Json::Object(map) => {
            let ghost trees = v@->Object_0;
            if map.len() == 0 {
                return chars_of("{}");
            }
            let mut parts: Vec<Vec<char>> = Vec::new();
            let mut i: usize = 0;
            while i < map.len()
                invariant
                    *v == Json::Object(*map),
                    trees == v@->Object_0,
                    below == inner@,
                    i <= map@.len(),
                    texts(parts@) == pretty_fields(trees.take(i as int), below),
                decreases map@.len() - i,
            {
                let mut part: Vec<char> = Vec::new();
                part.push('\n');
                extend(&mut part, inner.as_slice());
                let q = quote(map[i].0.as_str());
                extend_str(&mut part, q.as_str());
                part.push(':');
                part.push(' ');
                let value = pretty_text(&map[i].1, inner.as_slice());
                extend(&mut part, value.as_slice());
                let ghost before = texts(parts@);
                let ghost text = part@;
                parts.push(part);
                proof {
                    assert(texts(parts@) == before.push(text));
                    assert(trees.take(i + 1).drop_last() == trees.take(i as int));
                    assert(trees.take(i + 1).last() == (map@[i as int].0@, map@[i as int].1@));
                    assert(text == seq!['\n'] + below + quoted(map@[i as int].0@) + seq![':', ' ']
                        + pretty(map@[i as int].1@, below));
                }
                i += 1;
            }
            proof {
                assert(trees.take(i as int) == trees);
            }
            out.push('{');
            let body = join(&parts, ",");
            extend(&mut out, body.as_slice());
            out.push('\n');
            extend(&mut out, indent);
            out.push('}');
        },
        _ => {
            return compact_text(v);
        },
    }
    proof {
        assert(out@ == pretty(v@, indent@));
    }
    out
}

/// The same value once more.
pub fn duplicate(v: &Json) -> (r: Json)
    ensures
        r@ == v@,
    decreases *v,
{
    match v {
        Json::Null => Json::Null,
        Json::Bool(b) => Json::Bool(*b),
        Json::Number(n) => Json::Number(n.as_str().to_owned()),
        Json::Text(s) => Json::Text(s.as_str().to_owned()),
        Json::Array(items) => {
            let ghost trees = v@->Array_0;
            let mut out: Vec<Json> = Vec::new();
            let mut i: usize = 0;
            while i < items.len()
                invariant
                    *v == Json::Array(*items),
                    trees == v@->Array_0,
                    i <= items@.len(),
                    items_of(out@) == trees.take(i as int),
                decreases items@.len() - i,
            {
                let ghost out0 = out@;
                out.push(duplicate(&items[i]));
                proof {
                    assert(trees[i as int] == items@[i as int]@);
                    assert(items_of(out@) == items_of(out0).push(trees[i as int]));
                    assert(trees.take(i + 1) == trees.take(i as int).push(trees[i as int]));
                }
                i += 1;
            }
            proof {
                assert(trees.take(i as int) == trees);
            }
            array(out)
        },
        Json::Object(map) => {
            let ghost trees = v@->Object_0;
            let mut out: Vec<(String, Json)> = Vec::new();
            let mut i: usize = 0;
            while i < map.len()
                invariant
                    *v == Json::Object(*map),
                    trees == v@->Object_0,
                    i <= map@.len(),
                    fields_of(out@) == trees.take(i as int),
                decreases map@.len() - i,
            {
                put(&mut out, map[i].0.as_str(), duplicate(&map[i].1));
                proof {
                    assert(trees[i as int] == (map@[i as int].0@, map@[i as int].1@));
                    assert(trees.take(i + 1) == trees.take(i as int).push(trees[i as int]));
                }
                i += 1;
            }
            proof {
                assert(trees.take(i as int) == trees);
            }
            object(out)
        },
    }
}

// ---------------------------------------------------------------------------
// Building
// ---------------------------------------------------------------------------

/// The contents of object entries.
pub open spec fn fields_of(v: Seq<(String, Json)>) -> Seq<(Seq<char>, JsonTree)> {
    v.map_values(|e: (String, Json)| (e.0@, e.1@))
}

/// The contents of array elements.
pub open spec fn items_of(v: Seq<Json>) -> Seq<JsonTree> {
    v.map_values(|e: Json| e@)
}

/// An optional text: a string, or `null`.
pub open spec fn text_or_null(s: Option<Seq<char>>) -> JsonTree {
    match s {
        Some(t) => JsonTree::Text(t),
        None => JsonTree::Null,
    }
}

/// An optional number: its decimal text, or `null`.
pub open spec fn number_or_null(n: Option<i64>) -> JsonTree {
    match n {
        Some(v) => JsonTree::Number(signed_decimal(v as int)),
        None => JsonTree::Null,
    }
}

/// A string.
pub fn text(s: &str) -> (r: Json)
    ensures
        r@ == JsonTree::Text(s@),
{
    Json::Text(s.to_owned())
}

/// A string, or `null`.
pub fn text_opt(s: Option<&str>) -> (r: Json)
    ensures
        r@ == text_or_null(match s {
            Some(t) => Some(t@),
            None => None,
        }),
{
    match s {
        Some(t) => text(t),
        None => Json::Null,
    }
}

/// A whole number.
pub fn whole(n: i64) -> (r: Json)
    ensures
        r@ == JsonTree::Number(signed_decimal(n as int)),
{
    let digits = signed_decimal_of(n);
    Json::Number(string_of(digits.as_slice()))
}

/// A whole number, or `null`.
pub fn whole_opt(n: Option<i64>) -> (r: Json)
    ensures
        r@ == number_or_null(n),
{
    match n {
        Some(v) => whole(v),
        None => Json::Null,
    }
}

/// A count.
pub fn count(n: usize) -> (r: Json)
    ensures
        r@ == JsonTree::Number(decimal(n as nat)),
{
    let digits = decimal_of(n as u64);
    Json::Number(string_of(digits.as_slice()))
}

/// An array of strings.
pub open spec fn text_array(ts: Seq<Seq<char>>) -> JsonTree {
    JsonTree::Array(ts.map_values(|t: Seq<char>| JsonTree::Text(t)))
}

/// An array of strings.
pub fn text_list(v: &Vec<String>) -> (r: Json)
    ensures
        r@ == text_array(strings(v@)),
{
    let ghost want = strings(v@).map_values(|t: Seq<char>| JsonTree::Text(t));
    let mut out: Vec<Json> = Vec::new();
    let mut i: usize = 0;
    while i < v.len()
        invariant
            i <= v@.len(),
            want == strings(v@).map_values(|t: Seq<char>| JsonTree::Text(t)),
            items_of(out@) == want.take(i as int),
        decreases v@.len() - i,
    {
        let ghost out0 = out@;
        out.push(text(v[i].as_str()));
        proof {
            assert(strings(v@)[i as int] == v@[i as int]@);
            assert(items_of(out@) == items_of(out0).push(want[i as int]));
            assert(want.take(i + 1) == want.take(i as int).push(want[i as int]));
        }
        i += 1;
    }
    proof {
        assert(want.take(i as int) == want);
    }
    array(out)
}

/// An array.
pub fn array(items: Vec<Json>) -> (r: Json)
    ensures
        r@ == JsonTree::Array(items_of(items@)),
{
    let r = Json::Array(items);
    proof {
        assert(r@->Array_0 == items_of(items@));
    }
    r
}

/// An object.
pub fn object(fields: Vec<(String, Json)>) -> (r: Json)
    ensures
        r@ == JsonTree::Object(fields_of(fields@)),
{
    let r = Json::Object(fields);
    proof {
        assert(r@->Object_0 == fields_of(fields@));
    }
    r
}

/// Add an entry behind the others.
pub fn put(fields: &mut Vec<(String, Json)>, key: &str, value: Json)
    ensures
        fields_of(final(fields)@) == fields_of(old(fields)@).push((key@, value@)),
{
    let ghost before = fields@;
    let ghost tree = value@;
    fields.push((key.to_owned(), value));
    proof {
        assert(fields_of(fields@) == fields_of(before).push((key@, tree)));
    }
}

/// Where a key stands in entries; their number when it does not.
pub open spec fn key_index(m: Seq<(Seq<char>, JsonTree)>, key: Seq<char>) -> int
    decreases m.len(),
{
    if m.len() == 0 {
        0
    } else if m[0].0 == key {
        0
    } else {
        1 + key_index(m.skip(1), key)
    }
}

/// Entries with one set: the value replaced where its key stands, or a new
/// entry behind the others.
pub open spec fn with_field(
    m: Seq<(Seq<char>, JsonTree)>,
    key: Seq<char>,
    value: JsonTree,
) -> Seq<(Seq<char>, JsonTree)> {
    let i = key_index(m, key);
    if i < m.len() {
        m.update(i, (key, value))
    } else {
        m.push((key, value))
    }
}

/// The first entry with a key is where its index says.
pub proof fn key_index_is(m: Seq<(Seq<char>, JsonTree)>, key: Seq<char>, i: int)
    requires
        0 <= i <= m.len(),
        forall|j: int| 0 <= j < i ==> (#[trigger] m[j]).0 != key,
        i < m.len() ==> m[i].0 == key,
    ensures
        key_index(m, key) == i,
    decreases i,
{
    if i > 0 {
        assert forall|j: int| 0 <= j < i - 1 implies (#[trigger] m.skip(1)[j]).0 != key by {
            assert(m[j + 1].0 != key);
        }
        assert(m[0].0 != key);
        key_index_is(m.skip(1), key, i - 1);
    }
}

/// Set an entry.
pub fn set(fields: &mut Vec<(String, Json)>, key: &str, value: Json)
    ensures
        fields_of(final(fields)@) == with_field(fields_of(old(fields)@), key@, value@),
{
    let ghost before = fields@;
    let ghost tree = value@;
    let ghost m = fields_of(before);
    let n = fields.len();
    let mut i: usize = 0;
    while i < n && !same_str(fields[i].0.as_str(), key)
        invariant
            n == fields@.len(),
            i <= n,
            fields@ == before,
            m == fields_of(before),
            forall|j: int| 0 <= j < i ==> (#[trigger] m[j]).0 != key@,
        decreases n - i,
    {
        proof {
            assert(m[i as int].0 == fields@[i as int].0@);
        }
        i += 1;
    }
    proof {
        if i < n {
            assert(m[i as int].0 == before[i as int].0@);
        }
        key_index_is(m, key@, i as int);
    }
    if i < n {
        fields.set(i, (key.to_owned(), value));
        proof {
            assert(fields_of(fields@) == m.update(i as int, (key@, tree)));
        }
    } else {
        fields.push((key.to_owned(), value));
        proof {
            assert(fields_of(fields@) == m.push((key@, tree)));
        }
    }
}

} // verus!
