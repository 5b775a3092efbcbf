//! What JSON text reads as, and that what is written reads back.

pub mod unambiguous;

use crate::common::envelope::{Envelope, ErrorEnvelope};
use crate::common::flags::OutputFormat;
use crate::json::{
    compact, compact_fields, compact_items, deeper, escaped, escaped_all, pretty, pretty_fields,
    pretty_items, quoted, JsonTree,
};
use crate::output::{envelope_tree, failure_tree, rendered, shapes, Record};
use crate::text::{decimal, digit_char, hex, joined};
use vstd::prelude::*;

verus! {

// ---------------------------------------------------------------------------
// Strings
// ---------------------------------------------------------------------------

/// The number a hexadecimal digit stands for.
pub open spec fn nibble(c: char) -> Option<nat> {
    if '0' <= c <= '9' {
        Some((c as nat - '0' as nat) as nat)
    } else if 'a' <= c <= 'f' {
        Some((c as nat - 'a' as nat + 10) as nat)
    } else if 'A' <= c <= 'F' {
        Some((c as nat - 'A' as nat + 10) as nat)
    } else {
        None
    }
}

/// The number of a `\uXXXX` escape, for the digits at `i`; `None` where they
/// are no digits.
pub open spec fn unit_at(s: Seq<char>, i: int) -> Option<nat> {
    match (nibble(s[i]), nibble(s[i + 1]), nibble(s[i + 2]), nibble(s[i + 3])) {
        (Some(a), Some(b), Some(c), Some(d)) => Some(((a * 16 + b) * 16 + c) * 16 + d),
        _ => None,
    }
}

/// Whether the escape at `i` is the second half of a surrogate pair.
pub open spec fn low_half_at(s: Seq<char>, i: int) -> bool {
    &&& s.len() >= i + 6
    &&& s[i] == '\\'
    &&& s[i + 1] == 'u'
    &&& unit_at(s, i + 2) is Some
    &&& 0xdc00 <= unit_at(s, i + 2)->0 < 0xe000
}

/// The character of a surrogate pair.
pub open spec fn paired(high: nat, low: nat) -> char {
    (0x10000 + (high - 0xd800) * 0x400 + (low - 0xdc00)) as char
}

/// The character of a two-character escape.
pub open spec fn short_escape(c: char) -> Option<char> {
    if c == '"' || c == '\\' || c == '/' {
        Some(c)
    } else if c == 'b' {
        Some('\u{8}')
    } else if c == 'f' {
        Some('\u{c}')
    } else if c == 'n' {
        Some('\n')
    } else if c == 'r' {
        Some('\r')
    } else if c == 't' {
        Some('\t')
    } else {
        None
    }
}

/// A character in front of a text, if there is one.
pub open spec fn in_front(c: char, rest: Option<Seq<char>>) -> Option<Seq<char>> {
    match rest {
        Some(t) => Some(seq![c] + t),
        None => None,
    }
}

/// What the inside of a JSON string reads as; `None` where it is malformed.
pub open spec fn decoded(s: Seq<char>) -> Option<Seq<char>>
    decreases s.len(),
{
    if s.len() == 0 {
        Some(Seq::empty())
    } else if s[0] != '\\' {
        if s[0] == '"' || s[0] <= '\u{1f}' {
            None
        } else {
            in_front(s[0], decoded(s.skip(1)))
        }
    } else if s.len() >= 2 && short_escape(s[1]) is Some {
        in_front(short_escape(s[1])->0, decoded(s.skip(2)))
    } else if s.len() >= 6 && s[1] == 'u' && unit_at(s, 2) is Some {
        let n = unit_at(s, 2)->0;
        if n < 0xd800 || n >= 0xe000 {
            in_front(n as char, decoded(s.skip(6)))
        } else if n < 0xdc00 && low_half_at(s, 6) {
            in_front(paired(n, unit_at(s, 8)->0), decoded(s.skip(12)))
        } else {
            None
        }
    } else {
        None
    }
}

// ---------------------------------------------------------------------------
// Documents
// ---------------------------------------------------------------------------

/// Whether a text is white space of JSON alone.
pub open spec fn blank(s: Seq<char>) -> bool {
    forall|i: int|
        0 <= i < s.len() ==> {
            let c = #[trigger] s[i];
            c == ' ' || c == '\t' || c == '\n' || c == '\r'
        }
}

/// Whether a text is made of the characters of numbers.
pub open spec fn numeric(s: Seq<char>) -> bool {
    &&& s.len() > 0
    &&& forall|i: int|
        0 <= i < s.len() ==> {
            let c = #[trigger] s[i];
            '0' <= c <= '9' || c == '-' || c == '+' || c == '.' || c == 'e' || c == 'E'
        }
}

/// What stands between the first and the last character.
pub open spec fn between(s: Seq<char>) -> Seq<char> {
    s.subrange(1, s.len() - 1)
}

/// Whether a text stands in brackets of a kind.
pub open spec fn bracketed(s: Seq<char>, open: char, close: char) -> bool {
    s.len() >= 2 && s[0] == open && s.last() == close
}

/// Whether a text is a JSON string that reads as `t`.
pub open spec fn spells(s: Seq<char>, t: Seq<char>) -> bool {
    bracketed(s, '"', '"') && decoded(between(s)) == Some(t)
}

/// Whether a text is `core` with white space on either side.
pub open spec fn padded(s: Seq<char>, core: Seq<char>) -> bool {
    exists|a: Seq<char>, b: Seq<char>| #[trigger]
        blank(a) && #[trigger] blank(b) && s == a + core + b
}

/// Whether a text is a name and a value with a colon between them.
pub open spec fn coupled(s: Seq<char>, name: Seq<char>, value: Seq<char>) -> bool {
    s == name + seq![':'] + value
}

/// Whether a text is a JSON document that reads as a value: the value, with
/// white space on either side.
pub open spec fn reads_as(s: Seq<char>, v: JsonTree) -> bool
    decreases v, 1nat,
{
    exists|core: Seq<char>| #[trigger] padded(s, core) && states(core, v)
}

/// Whether a text is a value in JSON, without white space on either side.
pub open spec fn states(s: Seq<char>, v: JsonTree) -> bool
    decreases v, 0nat,
{
    match v {
        JsonTree::Null => s == "null"@,
        JsonTree::Bool(b) => s == if b {
            "true"@
        } else {
            "false"@
        },
        JsonTree::Number(n) => s == n && numeric(n),
        JsonTree::Text(t) => spells(s, t),
        JsonTree::Array(items) => {
            &&& bracketed(s, '[', ']')
            &&& items.len() == 0 ==> blank(between(s))
            &&& items.len() > 0 ==> exists|parts: Seq<Seq<char>>|
                {
                    &&& between(s) == #[trigger] joined(parts, ","@)
                    &&& parts.len() == items.len()
                    &&& forall|i: int|
                        0 <= i < items.len() ==> reads_as(#[trigger] parts[i], items[i])
                }
        },
        JsonTree::Object(map) => {
            &&& bracketed(s, '{', '}')
            &&& map.len() == 0 ==> blank(between(s))
            &&& map.len() > 0 ==> exists|parts: Seq<Seq<char>>|
                {
                    &&& between(s) == #[trigger] joined(parts, ","@)
                    &&& parts.len() == map.len()
                    &&& forall|i: int|
                        0 <= i < map.len() ==> enters(#[trigger] parts[i], map[i].0, map[i].1)
                }
        },
    }
}

/// Whether a text is an entry of an object: a key, a colon and a value.
pub open spec fn enters(s: Seq<char>, key: Seq<char>, v: JsonTree) -> bool
    decreases v, 2nat,
{
    exists|name: Seq<char>, value: Seq<char>| #[trigger]
        coupled(s, name, value) && names(name, key) && reads_as(value, v)
}

/// Whether a text is a key, with white space on either side.
pub open spec fn names(s: Seq<char>, key: Seq<char>) -> bool {
    exists|core: Seq<char>| #[trigger] padded(s, core) && spells(core, key)
}

// ---------------------------------------------------------------------------
// What is written reads back
// ---------------------------------------------------------------------------

/// The first character is escaped in front.
proof fn escaping_starts_in_front(t: Seq<char>)
    requires
        t.len() > 0,
    ensures
        escaped_all(t) == escaped(t[0]) + escaped_all(t.skip(1)),
    decreases t.len(),
{
    if t.len() == 1 {
        assert(t.drop_last() =~= Seq::empty());
        assert(t.skip(1) =~= Seq::empty());
        assert(escaped_all(t) =~= escaped(t[0]) + escaped_all(t.skip(1)));
    } else {
        escaping_starts_in_front(t.drop_last());
        assert(t.drop_last().skip(1) == t.skip(1).drop_last());
        assert(t.skip(1).last() == t.last());
        assert(escaped_all(t) =~= escaped(t[0]) + escaped_all(t.skip(1)));
    }
}

/// A hexadecimal digit reads as its number.
proof fn a_digit_reads_back(d: nat)
    requires
        d < 16,
    ensures
        nibble(digit_char(d)) == Some(d),
{
}

/// One escaped character reads as itself.
proof fn an_escape_reads_back(c: char, rest: Seq<char>)
    ensures
        decoded(escaped(c) + rest) == in_front(c, decoded(rest)),
{
    let e = escaped(c);
    let s = e + rest;
    if e.len() == 1 {
        assert(s.skip(1) == rest);
    } else if e.len() == 2 {
        assert(s.skip(2) == rest);
        assert(s[1] == e[1]);
    } else {
        let n = c as nat;
        reveal_with_fuel(hex, 5);
        let digits = hex(n, 4);
        assert(digits.len() == 4);
        assert(n / 16 / 16 == 0 && n / 16 / 16 / 16 == 0);
        assert(digits[0] == digit_char(0) && digits[1] == digit_char(0));
        assert(digits[2] == digit_char(n / 16 % 16) && digits[3] == digit_char(n % 16));
        a_digit_reads_back(0);
        a_digit_reads_back(n / 16 % 16);
        a_digit_reads_back(n % 16);
        assert(s[0] == '\\' && s[1] == 'u');
        assert(s[2] == digits[0] && s[3] == digits[1] && s[4] == digits[2] && s[5] == digits[3]);
        assert(short_escape('u') is None);
        assert(unit_at(s, 2) == Some(c as nat));
        assert(s.skip(6) == rest);
    }
}

/// Every text reads back from its JSON string.
pub proof fn quoting_reads_back(t: Seq<char>)
    ensures
        decoded(escaped_all(t)) == Some(t),
    decreases t.len(),
{
    if t.len() > 0 {
        quoting_reads_back(t.skip(1));
        escaping_starts_in_front(t);
        an_escape_reads_back(t[0], escaped_all(t.skip(1)));
        assert(seq![t[0]] + t.skip(1) == t);
    }
}

/// Whether the numbers in a value are made of the characters of numbers.
pub open spec fn numbered(v: JsonTree) -> bool
    decreases v,
{
    match v {
        JsonTree::Number(n) => numeric(n),
        JsonTree::Array(items) => forall|i: int|
            0 <= i < items.len() ==> numbered(#[trigger] items[i]),
        JsonTree::Object(map) => forall|i: int|
            0 <= i < map.len() ==> numbered((#[trigger] map[i]).1),
        _ => true,
    }
}

/// The elements of an array in compact form, one by one.
proof fn compact_items_are(items: Seq<JsonTree>)
    ensures
        compact_items(items).len() == items.len(),
        forall|i: int|
            0 <= i < items.len() ==> #[trigger] compact_items(items)[i] == compact(items[i]),
    decreases items.len(),
{
    if items.len() > 0 {
        let front = items.drop_last();
        compact_items_are(front);
        assert forall|i: int| 0 <= i < items.len() implies #[trigger] compact_items(items)[i]
            == compact(items[i]) by {
            if i < front.len() {
                assert(compact_items(items)[i] == compact_items(front)[i]);
                assert(front[i] == items[i]);
            }
        }
    }
}

/// The entries of an object in compact form, one by one.
proof fn compact_fields_are(map: Seq<(Seq<char>, JsonTree)>)
    ensures
        compact_fields(map).len() == map.len(),
        forall|i: int|
            0 <= i < map.len() ==> #[trigger] compact_fields(map)[i] == quoted(map[i].0) + seq![':']
                + compact(map[i].1),
    decreases map.len(),
{
    if map.len() > 0 {
        let front = map.drop_last();
        compact_fields_are(front);
        assert forall|i: int| 0 <= i < map.len() implies #[trigger] compact_fields(map)[i]
            == quoted(map[i].0) + seq![':'] + compact(map[i].1) by {
            if i < front.len() {
                assert(compact_fields(map)[i] == compact_fields(front)[i]);
                assert(front[i] == map[i]);
            }
        }
    }
}

/// A text in quotes reads as itself.
proof fn a_quoted_text_spells_itself(t: Seq<char>)
    ensures
        spells(quoted(t), t),
{
    quoting_reads_back(t);
    assert(between(quoted(t)) =~= escaped_all(t));
}

/// A text without white space around it reads as what it states.
proof fn a_statement_is_read(s: Seq<char>, v: JsonTree)
    requires
        states(s, v),
    ensures
        reads_as(s, v),
{
    let none = Seq::<char>::empty();
    assert(blank(none));
    assert(s =~= none + s + none);
    assert(padded(s, s));
}

/// The compact form of a value states it.
proof fn compact_text_states(v: JsonTree)
    requires
        numbered(v),
    ensures
        states(compact(v), v),
    decreases v,
{
    let s = compact(v);
    match v {
        JsonTree::Text(t) => {
            a_quoted_text_spells_itself(t);
        },
        JsonTree::Array(items) => {
            let parts = compact_items(items);
            compact_items_are(items);
            assert(between(s) =~= joined(parts, ","@));
            assert forall|i: int| 0 <= i < items.len() implies reads_as(
                #[trigger] parts[i],
                items[i],
            ) by {
                assert(numbered(items[i]));
                compact_text_states(items[i]);
                a_statement_is_read(compact(items[i]), items[i]);
            }
        },
        JsonTree::Object(map) => {
            let parts = compact_fields(map);
            compact_fields_are(map);
            assert(between(s) =~= joined(parts, ","@));
            assert forall|i: int| 0 <= i < map.len() implies enters(
                #[trigger] parts[i],
                map[i].0,
                map[i].1,
            ) by {
                assert(numbered(map[i].1));
                compact_text_states(map[i].1);
                a_statement_is_read(compact(map[i].1), map[i].1);
                a_quoted_text_spells_itself(map[i].0);
                let none = Seq::<char>::empty();
                assert(blank(none));
                let name = quoted(map[i].0);
                assert(name =~= none + name + none);
                assert(padded(name, name));
                assert(names(name, map[i].0));
                assert(coupled(parts[i], name, compact(map[i].1)));
            }
        },
        _ => {},
    }
}

/// The compact form of a value reads as that value.
pub proof fn compact_text_reads_back(v: JsonTree)
    requires
        numbered(v),
    ensures
        reads_as(compact(v), v),
{
    compact_text_states(v);
    a_statement_is_read(compact(v), v);
}

/// The elements of an array in indented form, one by one.
proof fn pretty_items_are(items: Seq<JsonTree>, indent: Seq<char>)
    ensures
        pretty_items(items, indent).len() == items.len(),
        forall|i: int|
            0 <= i < items.len() ==> #[trigger] pretty_items(items, indent)[i] == seq!['\n'] + indent
                + pretty(items[i], indent),
    decreases items.len(),
{
    if items.len() > 0 {
        let front = items.drop_last();
        pretty_items_are(front, indent);
        assert forall|i: int| 0 <= i < items.len() implies #[trigger] pretty_items(items, indent)[i]
            == seq!['\n'] + indent + pretty(items[i], indent) by {
            if i < front.len() {
                assert(pretty_items(items, indent)[i] == pretty_items(front, indent)[i]);
                assert(front[i] == items[i]);
            }
        }
    }
}

/// The entries of an object in indented form, one by one.
proof fn pretty_fields_are(map: Seq<(Seq<char>, JsonTree)>, indent: Seq<char>)
    ensures
        pretty_fields(map, indent).len() == map.len(),
        forall|i: int|
            0 <= i < map.len() ==> #[trigger] pretty_fields(map, indent)[i] == seq!['\n'] + indent
                + quoted(map[i].0) + seq![':', ' '] + pretty(map[i].1, indent),
    decreases map.len(),
{
    if map.len() > 0 {
        let front = map.drop_last();
        pretty_fields_are(front, indent);
        assert forall|i: int| 0 <= i < map.len() implies #[trigger] pretty_fields(map, indent)[i]
            == seq!['\n'] + indent + quoted(map[i].0) + seq![':', ' '] + pretty(
            map[i].1,
            indent,
        ) by {
            if i < front.len() {
                assert(pretty_fields(map, indent)[i] == pretty_fields(front, indent)[i]);
                assert(front[i] == map[i]);
            }
        }
    }
}

/// Joined texts with something behind the last one.
proof fn the_last_is_joined_last(parts: Seq<Seq<char>>, sep: Seq<char>, tail: Seq<char>)
    requires
        parts.len() > 0,
    ensures
        joined(parts, sep) + tail == joined(
            parts.update(parts.len() - 1, parts.last() + tail),
            sep,
        ),
{
    let after = parts.update(parts.len() - 1, parts.last() + tail);
    assert(after.drop_last() =~= parts.drop_last());
    assert(after.last() == parts.last() + tail);
    assert(joined(parts, sep) + tail =~= joined(after, sep));
}

/// White space added on the outside stays outside.
proof fn padding_adds_up(a: Seq<char>, s: Seq<char>, b: Seq<char>, core: Seq<char>)
    requires
        blank(a),
        blank(b),
        padded(s, core),
    ensures
        padded(a + s + b, core),
{
    let (x, y) = choose|x: Seq<char>, y: Seq<char>| #[trigger]
        blank(x) && #[trigger] blank(y) && s == x + core + y;
    assert(blank(a + x)) by {
        assert forall|i: int| 0 <= i < (a + x).len() implies {
            let c = #[trigger] (a + x)[i];
            c == ' ' || c == '\t' || c == '\n' || c == '\r'
        } by {
            if i < a.len() {
                assert((a + x)[i] == a[i]);
            } else {
                assert((a + x)[i] == x[i - a.len()]);
            }
        }
    }
    assert(blank(y + b)) by {
        assert forall|i: int| 0 <= i < (y + b).len() implies {
            let c = #[trigger] (y + b)[i];
            c == ' ' || c == '\t' || c == '\n' || c == '\r'
        } by {
            if i < y.len() {
                assert((y + b)[i] == y[i]);
            } else {
                assert((y + b)[i] == b[i - y.len()]);
            }
        }
    }
    assert(a + s + b =~= (a + x) + core + (y + b));
}

/// A document with white space added on the outside reads the same.
proof fn white_space_does_not_matter(a: Seq<char>, s: Seq<char>, b: Seq<char>, v: JsonTree)
    requires
        blank(a),
        blank(b),
        reads_as(s, v),
    ensures
        reads_as(a + s + b, v),
{
    let core = choose|core: Seq<char>| #[trigger] padded(s, core) && states(core, v);
    padding_adds_up(a, s, b, core);
}

/// Indentation is white space, one level down too.
proof fn indentation_is_blank(indent: Seq<char>)
    requires
        blank(indent),
    ensures
        blank(deeper(indent)),
        blank(seq!['\n'] + indent),
        blank(seq!['\n'] + deeper(indent)),
{
    let d = deeper(indent);
    assert forall|i: int| 0 <= i < d.len() implies {
        let c = #[trigger] d[i];
        c == ' ' || c == '\t' || c == '\n' || c == '\r'
    } by {
        if i < indent.len() {
            assert(d[i] == indent[i]);
        }
    }
    a_line_of_blanks(indent);
    a_line_of_blanks(d);
}

/// A break in front of blanks.
proof fn a_line_of_blanks(s: Seq<char>)
    requires
        blank(s),
    ensures
        blank(seq!['\n'] + s),
{
    let t = seq!['\n'] + s;
    assert forall|i: int| 0 <= i < t.len() implies {
        let c = #[trigger] t[i];
        c == ' ' || c == '\t' || c == '\n' || c == '\r'
    } by {
        if i > 0 {
            assert(t[i] == s[i - 1]);
        }
    }
}

/// The indented form of a value states it.
proof fn pretty_text_states(v: JsonTree, indent: Seq<char>)
    requires
        numbered(v),
        blank(indent),
    ensures
        states(pretty(v, indent), v),
    decreases v,
{
    let s = pretty(v, indent);
    let inner = deeper(indent);
    let none = Seq::<char>::empty();
    let close = seq!['\n'] + indent;
    indentation_is_blank(indent);
    match v {
        JsonTree::Array(items) => {
            if items.len() == 0 {
                reveal_strlit("[]");
                assert(blank(between(s)));
            } else {
                let lines = pretty_items(items, inner);
                pretty_items_are(items, inner);
                let parts = lines.update(lines.len() - 1, lines.last() + close);
                the_last_is_joined_last(lines, ","@, close);
                assert(between(s) =~= joined(lines, ","@) + close);
                assert forall|i: int| 0 <= i < items.len() implies reads_as(
                    #[trigger] parts[i],
                    items[i],
                ) by {
                    assert(numbered(items[i]));
                    pretty_text_states(items[i], inner);
                    a_statement_is_read(pretty(items[i], inner), items[i]);
                    let tail = if i == items.len() - 1 {
                        close
                    } else {
                        none
                    };
                    white_space_does_not_matter(
                        seq!['\n'] + inner,
                        pretty(items[i], inner),
                        tail,
                        items[i],
                    );
                    assert(parts[i] =~= seq!['\n'] + inner + pretty(items[i], inner) + tail);
                }
            }
        },
        JsonTree::Object(map) => {
            if map.len() == 0 {
                reveal_strlit("{}");
                assert(blank(between(s)));
            } else {
                let lines = pretty_fields(map, inner);
                pretty_fields_are(map, inner);
                let parts = lines.update(lines.len() - 1, lines.last() + close);
                the_last_is_joined_last(lines, ","@, close);
                assert(between(s) =~= joined(lines, ","@) + close);
                assert forall|i: int| 0 <= i < map.len() implies enters(
                    #[trigger] parts[i],
                    map[i].0,
                    map[i].1,
                ) by {
                    assert(numbered(map[i].1));
                    pretty_text_states(map[i].1, inner);
                    a_statement_is_read(pretty(map[i].1, inner), map[i].1);
                    a_quoted_text_spells_itself(map[i].0);
                    let tail = if i == map.len() - 1 {
                        close
                    } else {
                        none
                    };
                    let key = quoted(map[i].0);
                    let name = seq!['\n'] + inner + key;
                    let space = seq![' '];
                    let value = space + pretty(map[i].1, inner) + tail;
                    assert(blank(none));
                    assert(blank(space));
                    white_space_does_not_matter(space, pretty(map[i].1, inner), tail, map[i].1);
                    assert(name =~= (seq!['\n'] + inner) + key + none);
                    assert(padded(name, key));
                    assert(names(name, map[i].0));
                    assert(parts[i] =~= name + seq![':'] + value);
                    assert(coupled(parts[i], name, value));
                }
            }
        },
        _ => {
            compact_text_states(v);
        },
    }
}

/// The indented form of a value reads as that value.
pub proof fn pretty_text_reads_back(v: JsonTree, indent: Seq<char>)
    requires
        numbered(v),
        blank(indent),
    ensures
        reads_as(pretty(v, indent), v),
{
    pretty_text_states(v, indent);
    a_statement_is_read(pretty(v, indent), v);
}

/// A number in decimal is made of digits.
proof fn a_decimal_is_numeric(n: nat)
    ensures
        numeric(decimal(n)),
    decreases n,
{
    let last = digit_char(n % 10);
    assert('0' <= last <= '9');
    if n >= 10 {
        a_decimal_is_numeric(n / 10);
        let front = decimal(n / 10);
        assert(decimal(n) =~= front.push(last));
        assert forall|i: int| 0 <= i < decimal(n).len() implies {
            let c = #[trigger] decimal(n)[i];
            '0' <= c <= '9' || c == '-' || c == '+' || c == '.' || c == 'e' || c == 'E'
        } by {
            if i < front.len() {
                assert(decimal(n)[i] == front[i]);
            }
        }
    }
}

/// Whether the numbers in an envelope are made of the characters of numbers.
pub open spec fn numbered_envelope<T: Record>(env: Envelope<T>) -> bool {
    &&& numbered(env.params@)
    &&& forall|i: int| 0 <= i < env.data@.len() ==> numbered((#[trigger] env.data@[i]).shape())
}

/// What a command prints as JSON can be parsed: it reads as the whole
/// envelope.
pub proof fn an_envelope_reads_back<T: Record>(env: Envelope<T>)
    requires
        numbered_envelope(env),
    ensures
        reads_as(rendered(env, OutputFormat::Json), envelope_tree(env)),
{
    let rows = shapes(env.data@);
    let fields = envelope_tree(env)->Object_0;
    a_decimal_is_numeric(env.count as nat);
    assert(numbered(JsonTree::Array(rows))) by {
        assert forall|i: int| 0 <= i < rows.len() implies numbered(#[trigger] rows[i]) by {
            assert(numbered(env.data@[i].shape()));
        }
    }
    assert(numbered(fields[0].1));
    assert(numbered(fields[1].1));
    assert(numbered(fields[2].1));
    assert(numbered(fields[3].1));
    assert(numbered(fields[4].1));
    assert(numbered(fields[5].1));
    assert(numbered(fields[6].1));
    assert forall|i: int| 0 <= i < fields.len() implies numbered((#[trigger] fields[i]).1) by {
        assert(i == 0 || i == 1 || i == 2 || i == 3 || i == 4 || i == 5 || i == 6);
    }
    assert(blank(Seq::<char>::empty()));
    pretty_text_reads_back(envelope_tree(env), Seq::empty());
}

/// What a command prints line by line can be parsed line by line: each line
/// reads as one row.
pub proof fn each_line_reads_as_a_row<T: Record>(env: Envelope<T>)
    requires
        numbered_envelope(env),
    ensures
        ({
            let lines = compact_items(shapes(env.data@));
            &&& rendered(env, OutputFormat::Ndjson) == joined(lines, "\n"@)
            &&& lines.len() == env.data@.len()
            &&& forall|i: int|
                0 <= i < lines.len() ==> reads_as(#[trigger] lines[i], env.data@[i].shape())
        }),
{
    let rows = shapes(env.data@);
    let lines = compact_items(rows);
    compact_items_are(rows);
    assert forall|i: int| 0 <= i < lines.len() implies reads_as(
        #[trigger] lines[i],
        env.data@[i].shape(),
    ) by {
        assert(numbered(env.data@[i].shape()));
        compact_text_reads_back(rows[i]);
    }
}

/// What a failed command prints can be parsed in either machine format.
pub proof fn a_failure_reads_back(env: ErrorEnvelope)
    ensures
        reads_as(pretty(failure_tree(env), Seq::empty()), failure_tree(env)),
        reads_as(compact(failure_tree(env)), failure_tree(env)),
{
    let v = failure_tree(env);
    let fields = v->Object_0;
    assert(numbered(fields[0].1));
    assert(numbered(fields[1].1));
    assert(numbered(fields[2].1));
    assert(numbered(fields[3].1));
    assert(numbered(fields[4].1));
    assert forall|i: int| 0 <= i < fields.len() implies numbered((#[trigger] fields[i]).1) by {
        assert(i == 0 || i == 1 || i == 2 || i == 3 || i == 4);
    }
    assert(blank(Seq::<char>::empty()));
    pretty_text_reads_back(v, Seq::empty());
    compact_text_reads_back(v);
}

} // verus!
