//! Escaping a document for the page does not change what it reads as.

use crate::json::{compact, escaped_all, JsonTree};
use crate::output::Record;
use crate::reading::{
    between, blank, bracketed, compact_text_reads_back, coupled, decoded, enters, in_front,
    low_half_at, names, nibble, numbered, padded, paired, quoting_reads_back, reads_as,
    short_escape, spells, states, unit_at,
};
use crate::reading::unambiguous::a_text_reads_one_way;
use crate::report::model::Findings;
use crate::report::render::{
    an_embedded_payload_stays_inside, breaks_out, payload, script_char, scripted,
};
use crate::text::joined;
use vstd::prelude::*;

verus! {

/// Escaping goes character by character.
proof fn scripting_joins(a: Seq<char>, b: Seq<char>)
    ensures
        scripted(a + b) == scripted(a) + scripted(b),
    decreases b.len(),
{
    if b.len() == 0 {
        assert(a + b == a);
        assert(scripted(a) + scripted(b) == scripted(a));
    } else {
        scripting_joins(a, b.drop_last());
        assert((a + b).drop_last() == a + b.drop_last());
        assert((a + b).last() == b.last());
        assert(scripted(a + b) == scripted(a) + scripted(b));
    }
}

/// Characters that cannot break out are kept.
proof fn scripting_keeps(a: Seq<char>)
    requires
        forall|i: int| 0 <= i < a.len() ==> !breaks_out(#[trigger] a[i]),
    ensures
        scripted(a) == a,
    decreases a.len(),
{
    if a.len() > 0 {
        let front = a.drop_last();
        assert forall|i: int| 0 <= i < front.len() implies !breaks_out(#[trigger] front[i]) by {
            assert(front[i] == a[i]);
        }
        scripting_keeps(front);
        assert(!breaks_out(a[a.len() - 1]));
        assert(scripted(a) == a);
    }
}

/// One escape of the payload reads as the character it stands for.
proof fn a_script_escape_reads_back(c: char, rest: Seq<char>)
    requires
        breaks_out(c),
    ensures
        decoded(script_char(c) + rest) == in_front(c, decoded(rest)),
{
    let s = script_char(c) + rest;
    assert(s.skip(6) == rest);
    assert(short_escape('u') is None);
    assert(s[0] == '\\' && s[1] == 'u');
    assert(unit_at(s, 2) == Some(c as nat)) by {
        assert(s[2] == script_char(c)[2]);
        assert(s[3] == script_char(c)[3]);
        assert(s[4] == script_char(c)[4]);
        assert(s[5] == script_char(c)[5]);
        assert(0x3c as char == '<');
        assert(0x3e as char == '>');
        assert(0x26 as char == '&');
        assert(0x2028 as char == '\u{2028}');
        assert(0x2029 as char == '\u{2029}');
    }
}

/// A `\uXXXX` escape holds no character that is escaped again.
proof fn an_escape_is_kept(s: Seq<char>, i: int)
    requires
        0 <= i,
        i + 6 <= s.len(),
        s[i] == '\\',
        s[i + 1] == 'u',
        unit_at(s, i + 2) is Some,
    ensures
        scripted(s.subrange(i, i + 6)) == s.subrange(i, i + 6),
{
    let head = s.subrange(i, i + 6);
    assert forall|k: int| 0 <= k < head.len() implies !breaks_out(#[trigger] head[k]) by {
        assert(head[k] == s[i + k]);
        if k >= 2 {
            assert(nibble(s[i + 2]) is Some && nibble(s[i + 3]) is Some && nibble(s[i + 4]) is Some
                && nibble(s[i + 5]) is Some);
            assert(k == 2 || k == 3 || k == 4 || k == 5);
        }
    }
    scripting_keeps(head);
}

/// A surrogate pair is kept, and what stands behind it is escaped by itself.
proof fn a_pair_is_kept(s: Seq<char>)
    requires
        s.len() >= 12,
        s[0] == '\\',
        s[1] == 'u',
        unit_at(s, 2) is Some,
        0xd800 <= unit_at(s, 2)->0 < 0xdc00,
        low_half_at(s, 6),
    ensures
        decoded(scripted(s)) == in_front(
            paired(unit_at(s, 2)->0, unit_at(s, 8)->0),
            decoded(scripted(s.skip(12))),
        ),
{
    let one = s.subrange(0, 6);
    let two = s.subrange(6, 12);
    let rest = s.skip(12);
    assert(s == one + two + rest);
    scripting_joins(one + two, rest);
    scripting_joins(one, two);
    an_escape_is_kept(s, 0);
    an_escape_is_kept(s, 6);
    let all = one + two + scripted(rest);
    assert(scripted(s) == all);
    assert(all.skip(12) =~= scripted(rest));
    assert(all[0] == s[0] && all[1] == s[1] && all[2] == s[2] && all[3] == s[3] && all[4] == s[4]
        && all[5] == s[5]);
    assert(all[6] == s[6] && all[7] == s[7] && all[8] == s[8] && all[9] == s[9] && all[10] == s[10]
        && all[11] == s[11]);
    assert(unit_at(all, 2) == unit_at(s, 2));
    assert(unit_at(all, 8) == unit_at(s, 8));
    assert(low_half_at(all, 6));
    assert(short_escape('u') is None);
}

/// A `\uXXXX` escape is kept, and what stands behind it is escaped by itself.
proof fn a_unit_is_kept(s: Seq<char>)
    requires
        s.len() >= 6,
        s[0] == '\\',
        s[1] == 'u',
        unit_at(s, 2) is Some,
        !(0xd800 <= unit_at(s, 2)->0 < 0xe000),
    ensures
        decoded(scripted(s)) == in_front(
            unit_at(s, 2)->0 as char,
            decoded(scripted(s.skip(6))),
        ),
{
    let head = s.subrange(0, 6);
    let rest = s.skip(6);
    assert(s == head + rest);
    scripting_joins(head, rest);
    an_escape_is_kept(s, 0);
    let all = head + scripted(rest);
    assert(scripted(s) == all);
    assert(all.skip(6) =~= scripted(rest));
    assert(all[0] == s[0] && all[1] == s[1] && all[2] == s[2] && all[3] == s[3] && all[4] == s[4]
        && all[5] == s[5]);
    assert(unit_at(all, 2) == unit_at(s, 2));
    assert(short_escape('u') is None);
}

/// A two-character escape is kept, and what stands behind it is escaped by
/// itself.
proof fn a_short_escape_is_kept(s: Seq<char>)
    requires
        s.len() >= 2,
        s[0] == '\\',
        short_escape(s[1]) is Some,
    ensures
        decoded(scripted(s)) == in_front(short_escape(s[1])->0, decoded(scripted(s.skip(2)))),
{
    let head = s.take(2);
    let rest = s.skip(2);
    assert(s == head + rest);
    scripting_joins(head, rest);
    scripting_keeps(head);
    assert((head + scripted(rest)).skip(2) == scripted(rest));
}

/// A plain character reads as itself, and what stands behind it is escaped by
/// itself.
proof fn a_plain_character_reads_back(s: Seq<char>)
    requires
        s.len() > 0,
        s[0] != '\\',
        s[0] != '"',
        s[0] > '\u{1f}',
    ensures
        decoded(scripted(s)) == in_front(s[0], decoded(scripted(s.skip(1)))),
{
    let one = seq![s[0]];
    let rest = s.skip(1);
    assert(s == one + rest);
    scripting_joins(one, rest);
    assert(scripted(one) == script_char(s[0])) by {
        assert(one.drop_last() =~= Seq::empty());
        assert(scripted(one) == scripted(one.drop_last()) + script_char(one.last()));
        assert(Seq::<char>::empty() + script_char(s[0]) =~= script_char(s[0]));
    }
    if breaks_out(s[0]) {
        a_script_escape_reads_back(s[0], scripted(rest));
    } else {
        assert((one + scripted(rest)).skip(1) == scripted(rest));
    }
}

/// Escaping is lossless: the inside of a JSON string reads the same after it
/// as before.
pub proof fn escaping_for_script_is_lossless(s: Seq<char>)
    requires
        decoded(s) is Some,
    ensures
        decoded(scripted(s)) == decoded(s),
    decreases s.len(),
{
    if s.len() > 0 {
        if s[0] != '\\' {
            escaping_for_script_is_lossless(s.skip(1));
            a_plain_character_reads_back(s);
        } else if short_escape(s[1]) is Some {
            escaping_for_script_is_lossless(s.skip(2));
            a_short_escape_is_kept(s);
        } else if !(0xd800 <= unit_at(s, 2)->0 < 0xe000) {
            escaping_for_script_is_lossless(s.skip(6));
            a_unit_is_kept(s);
        } else {
            escaping_for_script_is_lossless(s.skip(12));
            a_pair_is_kept(s);
        }
    }
}

/// Every text reads back from the page: written as a JSON string, escaped for
/// the element and read again, it is what it was.
pub proof fn every_text_reads_back_from_the_page(t: Seq<char>)
    ensures
        decoded(scripted(escaped_all(t))) == Some(t),
{
    quoting_reads_back(t);
    escaping_for_script_is_lossless(escaped_all(t));
}

/// Escaping leaves text alone that holds nothing to escape.
pub proof fn escaping_keeps_harmless_text(s: Seq<char>)
    requires
        forall|i: int| 0 <= i < s.len() ==> !breaks_out(#[trigger] s[i]),
    ensures
        scripted(s) == s,
{
    scripting_keeps(s);
}

/// Escaping twice is escaping once.
pub proof fn escaping_for_script_is_idempotent(s: Seq<char>)
    ensures
        scripted(scripted(s)) == scripted(s),
{
    an_embedded_payload_stays_inside(s);
    scripting_keeps(scripted(s));
}

/// White space is kept.
proof fn blank_is_kept(s: Seq<char>)
    requires
        blank(s),
    ensures
        scripted(s) == s,
{
    scripting_keeps(s);
}

/// Escaping goes by the texts that were joined.
proof fn scripting_joined(parts: Seq<Seq<char>>)
    ensures
        scripted(joined(parts, ","@)) == joined(
            parts.map_values(|p: Seq<char>| scripted(p)),
            ","@,
        ),
    decreases parts.len(),
{
    let f = |p: Seq<char>| scripted(p);
    let after = parts.map_values(f);
    if parts.len() > 1 {
        let front = parts.drop_last();
        scripting_joined(front);
        assert(after.drop_last() =~= front.map_values(f));
        assert(after.last() == scripted(parts.last()));
        let head = joined(front, ","@);
        scripting_joins(head + ","@, parts.last());
        scripting_joins(head, ","@);
        reveal_strlit(",");
        scripting_keeps(","@);
    } else if parts.len() == 1 {
        assert(after[0] == scripted(parts[0]));
    }
}

/// Brackets are kept, and what they hold is escaped by itself.
proof fn scripting_bracketed(s: Seq<char>, open: char, close: char)
    requires
        bracketed(s, open, close),
        !breaks_out(open),
        !breaks_out(close),
    ensures
        bracketed(scripted(s), open, close),
        between(scripted(s)) == scripted(between(s)),
{
    let first = seq![open];
    let last = seq![close];
    let inner = between(s);
    assert(s =~= first + inner + last);
    scripting_joins(first + inner, last);
    scripting_joins(first, inner);
    scripting_keeps(first);
    scripting_keeps(last);
    assert(between(scripted(s)) =~= scripted(inner));
}

/// A JSON string reads the same after escaping.
proof fn escaping_keeps_a_string(s: Seq<char>, t: Seq<char>)
    requires
        spells(s, t),
    ensures
        spells(scripted(s), t),
{
    scripting_bracketed(s, '"', '"');
    escaping_for_script_is_lossless(between(s));
}

/// White space on either side stays there.
proof fn scripting_padded(s: Seq<char>, core: Seq<char>)
    requires
        padded(s, core),
    ensures
        padded(scripted(s), scripted(core)),
{
    let (a, b) = choose|a: Seq<char>, b: Seq<char>| #[trigger]
        blank(a) && #[trigger] blank(b) && s == a + core + b;
    scripting_joins(a + core, b);
    scripting_joins(a, core);
    blank_is_kept(a);
    blank_is_kept(b);
}

/// A key reads the same after escaping.
proof fn escaping_keeps_a_key(s: Seq<char>, key: Seq<char>)
    requires
        names(s, key),
    ensures
        names(scripted(s), key),
{
    let core = choose|core: Seq<char>| #[trigger] padded(s, core) && spells(core, key);
    scripting_padded(s, core);
    escaping_keeps_a_string(core, key);
}

/// Escaping a whole document for the page is lossless: it reads as the same
/// value after it as before.
pub proof fn an_escaped_document_reads_the_same(s: Seq<char>, v: JsonTree)
    requires
        reads_as(s, v),
    ensures
        reads_as(scripted(s), v),
    decreases v, 1nat,
{
    let core = choose|core: Seq<char>| #[trigger] padded(s, core) && states(core, v);
    scripting_padded(s, core);
    an_escaped_value_reads_the_same(core, v);
}

/// An escaped document reads as no other value than the document does.
pub proof fn an_escaped_document_reads_as_nothing_else(s: Seq<char>, v: JsonTree, w: JsonTree)
    requires
        reads_as(s, v),
        reads_as(scripted(s), w),
    ensures
        v == w,
{
    an_escaped_document_reads_the_same(s, v);
    a_text_reads_one_way(scripted(s), v, w);
}

/// An entry of an object reads the same after escaping.
proof fn an_escaped_entry_reads_the_same(s: Seq<char>, key: Seq<char>, v: JsonTree)
    requires
        enters(s, key, v),
    ensures
        enters(scripted(s), key, v),
    decreases v, 2nat,
{
    let (name, value) = choose|name: Seq<char>, value: Seq<char>| #[trigger]
        coupled(s, name, value) && names(name, key) && reads_as(value, v);
    let colon = seq![':'];
    scripting_joins(name + colon, value);
    scripting_joins(name, colon);
    scripting_keeps(colon);
    escaping_keeps_a_key(name, key);
    an_escaped_document_reads_the_same(value, v);
    assert(coupled(scripted(s), scripted(name), scripted(value)));
}

/// A value reads the same after escaping.
proof fn an_escaped_value_reads_the_same(s: Seq<char>, v: JsonTree)
    requires
        states(s, v),
    ensures
        states(scripted(s), v),
    decreases v, 0nat,
{
    let f = |p: Seq<char>| scripted(p);
    match v {
        JsonTree::Null => {
            reveal_strlit("null");
            scripting_keeps(s);
        },
        JsonTree::Bool(b) => {
            reveal_strlit("true");
            reveal_strlit("false");
            scripting_keeps(s);
        },
        JsonTree::Number(n) => {
            scripting_keeps(s);
        },
        JsonTree::Text(t) => {
            escaping_keeps_a_string(s, t);
        },
        JsonTree::Array(items) => {
            scripting_bracketed(s, '[', ']');
            if items.len() == 0 {
                blank_is_kept(between(s));
            } else {
                let parts = choose|parts: Seq<Seq<char>>|
                    {
                        &&& between(s) == #[trigger] joined(parts, ","@)
                        &&& parts.len() == items.len()
                        &&& forall|i: int|
                            0 <= i < items.len() ==> reads_as(#[trigger] parts[i], items[i])
                    };
                scripting_joined(parts);
                let after = parts.map_values(f);
                assert forall|i: int| 0 <= i < items.len() implies reads_as(
                    #[trigger] after[i],
                    items[i],
                ) by {
                    assert(reads_as(parts[i], items[i]));
                    an_escaped_document_reads_the_same(parts[i], items[i]);
                }
                assert(between(scripted(s)) == joined(after, ","@));
            }
        },
        JsonTree::Object(map) => {
            scripting_bracketed(s, '{', '}');
            if map.len() == 0 {
                blank_is_kept(between(s));
            } else {
                let parts = choose|parts: Seq<Seq<char>>|
                    {
                        &&& between(s) == #[trigger] joined(parts, ","@)
                        &&& parts.len() == map.len()
                        &&& forall|i: int|
                            0 <= i < map.len() ==> enters(#[trigger] parts[i], map[i].0, map[i].1)
                    };
                scripting_joined(parts);
                let after = parts.map_values(f);
                assert forall|i: int| 0 <= i < map.len() implies enters(
                    #[trigger] after[i],
                    map[i].0,
                    map[i].1,
                ) by {
                    assert(enters(parts[i], map[i].0, map[i].1));
                    an_escaped_entry_reads_the_same(parts[i], map[i].0, map[i].1);
                }
                assert(between(scripted(s)) == joined(after, ","@));
            }
        },
    }
}

/// The page carries the findings whole: what it embeds reads as the document
/// that was rendered.
pub proof fn the_page_carries_the_findings(findings: Findings)
    requires
        numbered(findings.shape()),
    ensures
        reads_as(payload(findings), findings.shape()),
{
    compact_text_reads_back(findings.shape());
    an_escaped_document_reads_the_same(compact(findings.shape()), findings.shape());
}

} // verus!
