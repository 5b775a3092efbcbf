//! A text reads as at most one value.
//!
//! Outside strings, commas and colons separate only at the level of brackets
//! at which they stand, so the parts of a value can be told from its text.

use crate::json::JsonTree;
use crate::reading::{
    between, blank, bracketed, coupled, decoded, enters, names, nibble, padded, reads_as, short_escape,
    spells, states, unit_at,
};
use crate::text::joined;
use vstd::prelude::*;

verus! {

// ---------------------------------------------------------------------------
// Levels
// ---------------------------------------------------------------------------

/// Where a character of a text stands.
pub enum Place {
    /// Outside strings.
    Outside,
    /// Inside a string.
    Inside,
    /// Inside a string, behind a backslash.
    Escaped,
}

/// How many brackets are open, and where the next character stands.
pub struct Level {
    pub depth: int,
    pub place: Place,
}

/// Outside strings, with some brackets open.
pub open spec fn outside(depth: int) -> Level {
    Level { depth, place: Place::Outside }
}

/// Inside a string, with some brackets open.
pub open spec fn within(depth: int) -> Level {
    Level { depth, place: Place::Inside }
}

/// What one character changes.
pub open spec fn step(at: Level, c: char) -> Level {
    match at.place {
        Place::Escaped => within(at.depth),
        Place::Inside => if c == '\\' {
            Level { depth: at.depth, place: Place::Escaped }
        } else if c == '"' {
            outside(at.depth)
        } else {
            at
        },
        Place::Outside => if c == '"' {
            within(at.depth)
        } else if c == '[' || c == '{' {
            outside(at.depth + 1)
        } else if c == ']' || c == '}' {
            outside(at.depth - 1)
        } else {
            at
        },
    }
}

/// What a text changes.
pub open spec fn ends(s: Seq<char>, at: Level) -> Level
    decreases s.len(),
{
    if s.len() == 0 {
        at
    } else {
        ends(s.skip(1), step(at, s[0]))
    }
}

/// A text goes on where the one before it ends.
proof fn ends_of_both(a: Seq<char>, b: Seq<char>, at: Level)
    ensures
        ends(a + b, at) == ends(b, ends(a, at)),
    decreases a.len(),
{
    if a.len() == 0 {
        assert(a + b =~= b);
    } else {
        ends_of_both(a.skip(1), b, step(at, a[0]));
        assert((a + b).skip(1) =~= a.skip(1) + b);
        assert((a + b)[0] == a[0]);
    }
}

/// Brackets that were open before a text stay open in it.
proof fn levels_shift(s: Seq<char>, at: Level, k: int)
    ensures
        ends(s, Level { depth: at.depth + k, place: at.place }) == (Level {
            depth: ends(s, at).depth + k,
            place: ends(s, at).place,
        }),
    decreases s.len(),
{
    if s.len() > 0 {
        levels_shift(s.skip(1), step(at, s[0]), k);
    }
}

/// The level before the character at `i`.
pub open spec fn level_at(s: Seq<char>, i: int) -> Level {
    ends(s.take(i), outside(0))
}

/// Whether a text closes what it opens, and nothing else.
pub open spec fn balanced(s: Seq<char>) -> bool {
    &&& ends(s, outside(0)) == outside(0)
    &&& forall|i: int| 0 <= i <= s.len() ==> (#[trigger] level_at(s, i)).depth >= 0
}

/// Whether a character does not occur outside strings and brackets.
pub open spec fn lacks(s: Seq<char>, c: char) -> bool {
    forall|i: int| 0 <= i < s.len() && #[trigger] level_at(s, i) == outside(0) ==> s[i] != c
}

/// The levels in the first of two texts.
proof fn level_in_the_first(a: Seq<char>, b: Seq<char>, i: int)
    requires
        0 <= i <= a.len(),
    ensures
        level_at(a + b, i) == level_at(a, i),
{
    assert((a + b).take(i) =~= a.take(i));
}

/// The levels in the second of two texts.
proof fn level_in_the_second(a: Seq<char>, b: Seq<char>, i: int)
    requires
        ends(a, outside(0)) == outside(0),
        0 <= i <= b.len(),
    ensures
        level_at(a + b, a.len() + i) == level_at(b, i),
{
    assert((a + b).take(a.len() + i) =~= a + b.take(i));
    ends_of_both(a, b.take(i), outside(0));
}

/// Balanced texts put together are balanced.
proof fn both_are_balanced(a: Seq<char>, b: Seq<char>)
    requires
        balanced(a),
        balanced(b),
    ensures
        balanced(a + b),
{
    ends_of_both(a, b, outside(0));
    assert forall|i: int| 0 <= i <= (a + b).len() implies (#[trigger] level_at(a + b, i)).depth
        >= 0 by {
        if i <= a.len() {
            level_in_the_first(a, b, i);
            assert(level_at(a, i).depth >= 0);
        } else {
            level_in_the_second(a, b, i - a.len());
            assert(level_at(b, i - a.len()).depth >= 0);
        }
    }
}

/// What neither of two texts holds at its level, both together do not.
proof fn both_lack(a: Seq<char>, b: Seq<char>, c: char)
    requires
        balanced(a),
        lacks(a, c),
        lacks(b, c),
    ensures
        lacks(a + b, c),
{
    assert forall|i: int| 0 <= i < (a + b).len() && #[trigger] level_at(a + b, i) == outside(0) implies (
    a + b)[i] != c by {
        if i < a.len() {
            level_in_the_first(a, b, i);
            assert(level_at(a, i) == outside(0));
        } else {
            level_in_the_second(a, b, i - a.len());
            assert(level_at(b, i - a.len()) == outside(0));
        }
    }
}

/// Whether a character neither opens nor closes anything.
pub open spec fn neutral(c: char) -> bool {
    c != '"' && c != '[' && c != '{' && c != ']' && c != '}'
}

/// Neutral characters change no level.
proof fn neutral_text_stays(s: Seq<char>, at: Level)
    requires
        forall|i: int| 0 <= i < s.len() ==> neutral(#[trigger] s[i]),
        at.place == Place::Outside,
    ensures
        ends(s, at) == at,
    decreases s.len(),
{
    if s.len() > 0 {
        assert(neutral(s[0]));
        assert forall|i: int| 0 <= i < s.skip(1).len() implies neutral(#[trigger] s.skip(1)[i]) by {
            assert(neutral(s[i + 1]));
        }
        neutral_text_stays(s.skip(1), at);
    }
}

/// Text of neutral characters is balanced.
proof fn neutral_text_is_balanced(s: Seq<char>)
    requires
        forall|i: int| 0 <= i < s.len() ==> neutral(#[trigger] s[i]),
    ensures
        balanced(s),
{
    neutral_text_stays(s, outside(0));
    assert forall|i: int| 0 <= i <= s.len() implies (#[trigger] level_at(s, i)).depth >= 0 by {
        assert forall|k: int| 0 <= k < s.take(i).len() implies neutral(#[trigger] s.take(i)[k]) by {
            assert(neutral(s[k]));
        }
        neutral_text_stays(s.take(i), outside(0));
    }
}

/// Text in brackets is balanced where what they hold is, and holds no
/// separator at its own level.
proof fn brackets_are_balanced(s: Seq<char>, open: char, close: char)
    requires
        bracketed(s, open, close),
        open == '[' || open == '{',
        close == ']' || close == '}',
        balanced(between(s)),
    ensures
        balanced(s),
        lacks(s, ','),
        lacks(s, ':'),
{
    let inner = between(s);
    let n = s.len() as int;
    let first = seq![open];
    assert(ends(first, outside(0)) == outside(1)) by {
        reveal_with_fuel(ends, 2);
        assert(first.skip(1) =~= Seq::empty());
    }
    assert forall|i: int| 1 <= i < n implies level_at(s, i) == (Level {
        depth: #[trigger] level_at(inner, i - 1).depth + 1,
        place: level_at(inner, i - 1).place,
    }) by {
        assert(s.take(i) =~= first + inner.take(i - 1));
        ends_of_both(first, inner.take(i - 1), outside(0));
        levels_shift(inner.take(i - 1), outside(0), 1);
    }
    assert(inner.take(n - 2) =~= inner);
    assert(level_at(inner, n - 2) == outside(0));
    assert(level_at(s, n - 1) == outside(1)) by {
        assert(level_at(inner, (n - 1) - 1).depth + 1 == 1);
    }
    assert(s =~= s.take(n - 1) + seq![close]);
    ends_of_both(s.take(n - 1), seq![close], outside(0));
    assert(ends(seq![close], outside(1)) == outside(0)) by {
        reveal_with_fuel(ends, 2);
        assert(seq![close].skip(1) =~= Seq::empty());
    }
    assert(s.take(0) =~= Seq::empty());
    assert(s.take(n) =~= s);
    assert forall|i: int| 0 <= i <= n implies (#[trigger] level_at(s, i)).depth >= 0 by {
        if 1 <= i < n {
            assert(level_at(inner, i - 1).depth >= 0);
        }
    }
    assert forall|i: int| 0 <= i < n && #[trigger] level_at(s, i) == outside(0) implies s[i] != ','
        && s[i] != ':' by {
        if 1 <= i < n {
            assert(level_at(inner, i - 1).depth >= 0);
        }
    }
}

/// Characters of a string that are no quotes or backslashes stay inside it.
proof fn plain_text_stays_inside(s: Seq<char>, depth: int)
    requires
        forall|i: int| 0 <= i < s.len() ==> #[trigger] s[i] != '"' && s[i] != '\\',
    ensures
        ends(s, within(depth)) == within(depth),
    decreases s.len(),
{
    if s.len() > 0 {
        assert forall|i: int| 0 <= i < s.skip(1).len() implies #[trigger] s.skip(1)[i] != '"'
            && s.skip(1)[i] != '\\' by {
            assert(s.skip(1)[i] == s[i + 1]);
        }
        assert(s[0] != '"');
        plain_text_stays_inside(s.skip(1), depth);
    }
}

/// One unit of a string: a character, or an escape.
spec fn unit_len(s: Seq<char>) -> int {
    if s[0] != '\\' {
        1
    } else if s.len() >= 2 && short_escape(s[1]) is Some {
        2
    } else {
        6
    }
}

/// What stands behind one unit of a readable string ends inside it, if it is
/// read on its own.
proof fn a_unit_stays_inside(s: Seq<char>, i: int, depth: int)
    requires
        s.len() > 0,
        s[0] != '\\' ==> s[0] != '"',
        s[0] == '\\' ==> s.len() >= 2 && (short_escape(s[1]) is Some || (s.len() >= 6 && s[1] == 'u'
            && unit_at(s, 2) is Some)),
        0 <= i <= unit_len(s),
    ensures
        ends(s.take(i), within(depth)).depth == depth,
        ends(s.take(i), within(depth)).place != Place::Outside,
        i == unit_len(s) ==> ends(s.take(i), within(depth)) == within(depth),
{
    let t = s.take(i);
    reveal_with_fuel(ends, 3);
    if i == 0 {
    } else if s[0] != '\\' {
        assert(t.skip(1) =~= Seq::empty());
        assert(t[0] == s[0]);
    } else if i == 1 {
        assert(t.skip(1) =~= Seq::empty());
    } else {
        let tail = t.skip(2);
        assert(t.skip(1).skip(1) =~= tail);
        assert(ends(t, within(depth)) == ends(tail, within(depth)));
        assert forall|k: int| 0 <= k < tail.len() implies #[trigger] tail[k] != '"' && tail[k]
            != '\\' by {
            assert(tail[k] == s[k + 2]);
            assert(nibble(s[2]) is Some && nibble(s[3]) is Some && nibble(s[4]) is Some && nibble(
                s[5],
            ) is Some);
            assert(k == 0 || k == 1 || k == 2 || k == 3);
        }
        plain_text_stays_inside(tail, depth);
    }
}

/// The inside of a readable string does not leave it.
proof fn a_string_stays_inside(s: Seq<char>, i: int, depth: int)
    requires
        decoded(s) is Some,
        0 <= i <= s.len(),
    ensures
        ends(s.take(i), within(depth)).depth == depth,
        ends(s.take(i), within(depth)).place != Place::Outside,
        i == s.len() ==> ends(s.take(i), within(depth)) == within(depth),
    decreases s.len(),
{
    if s.len() > 0 {
        let n = unit_len(s);
        if i <= n {
            a_unit_stays_inside(s, i, depth);
        } else {
            a_unit_stays_inside(s, n, depth);
            let rest = s.skip(n);
            assert(s.take(i) =~= s.take(n) + rest.take(i - n));
            ends_of_both(s.take(n), rest.take(i - n), within(depth));
            if decoded(rest) is Some {
                a_string_stays_inside(rest, i - n, depth);
            } else {
                // The first half of a surrogate pair: the second follows.
                assert(n == 6);
                let more = s.skip(12);
                let j = i - 6;
                if j <= 6 {
                    the_second_half(s);
                    a_unit_stays_inside(rest, j, depth);
                } else {
                    the_second_half(s);
                    a_unit_stays_inside(rest, 6, depth);
                    assert(rest.skip(6) =~= more);
                    assert(rest.take(j) =~= rest.take(6) + more.take(j - 6));
                    ends_of_both(rest.take(6), more.take(j - 6), within(depth));
                    a_string_stays_inside(more, j - 6, depth);
                }
            }
        }
    }
}

/// The second half of a surrogate pair is an escape.
proof fn the_second_half(s: Seq<char>)
    requires
        decoded(s) is Some,
        s.len() > 0,
        unit_len(s) == 6,
        decoded(s.skip(6)) is None,
    ensures
        s.len() >= 12,
        s.skip(6)[0] == '\\',
        s.skip(6)[1] == 'u',
        unit_at(s.skip(6), 2) is Some,
        short_escape('u') is None,
        unit_len(s.skip(6)) == 6,
        decoded(s.skip(12)) is Some,
{
    let rest = s.skip(6);
    assert(rest[0] == s[6] && rest[1] == s[7] && rest[2] == s[8] && rest[3] == s[9] && rest[4]
        == s[10] && rest[5] == s[11]);
    assert(unit_at(rest, 2) == unit_at(s, 8));
}

/// A string is balanced, and holds no separator at its own level.
proof fn a_string_is_balanced(s: Seq<char>, t: Seq<char>)
    requires
        spells(s, t),
    ensures
        balanced(s),
        lacks(s, ','),
        lacks(s, ':'),
{
    let body = between(s);
    let n = s.len() as int;
    let quote = seq!['"'];
    assert(ends(quote, outside(0)) == within(0)) by {
        reveal_with_fuel(ends, 2);
        assert(quote.skip(1) =~= Seq::empty());
    }
    assert forall|i: int| 1 <= i < n implies (#[trigger] level_at(s, i)).depth == 0 && level_at(
        s,
        i,
    ).place != Place::Outside by {
        assert(s.take(i) =~= quote + body.take(i - 1));
        ends_of_both(quote, body.take(i - 1), outside(0));
        a_string_stays_inside(body, i - 1, 0);
    }
    assert(level_at(s, n - 1) == within(0)) by {
        assert(s.take(n - 1) =~= quote + body.take(n - 2));
        ends_of_both(quote, body.take(n - 2), outside(0));
        a_string_stays_inside(body, n - 2, 0);
    }
    assert(s =~= s.take(n - 1) + quote);
    ends_of_both(s.take(n - 1), quote, outside(0));
    assert(ends(quote, within(0)) == outside(0)) by {
        reveal_with_fuel(ends, 2);
        assert(quote.skip(1) =~= Seq::empty());
    }
    assert(s.take(0) =~= Seq::empty());
    assert(s.take(n) =~= s);
    assert forall|i: int| 0 <= i <= n implies (#[trigger] level_at(s, i)).depth >= 0 by {
        if 1 <= i < n {
            assert(level_at(s, i).depth == 0);
        }
    }
    assert forall|i: int| 0 <= i < n && #[trigger] level_at(s, i) == outside(0) implies s[i] != ','
        && s[i] != ':' by {
        if 1 <= i < n {
            assert(level_at(s, i).place != Place::Outside);
        }
    }
}

// ---------------------------------------------------------------------------
// Values
// ---------------------------------------------------------------------------

/// Whether a character is white space of JSON.
pub open spec fn is_blank(c: char) -> bool {
    c == ' ' || c == '\t' || c == '\n' || c == '\r'
}

/// Whether a text starts and ends with something other than white space.
pub open spec fn firm(s: Seq<char>) -> bool {
    s.len() > 0 && !is_blank(s[0]) && !is_blank(s.last())
}

/// White space is balanced, and holds no separator.
proof fn white_space_is_balanced(s: Seq<char>)
    requires
        blank(s),
    ensures
        balanced(s),
        lacks(s, ','),
        lacks(s, ':'),
{
    neutral_text_is_balanced(s);
}

/// Text with white space on either side is as balanced as it is without.
proof fn padding_is_balanced(s: Seq<char>, core: Seq<char>)
    requires
        padded(s, core),
        balanced(core),
        lacks(core, ','),
        lacks(core, ':'),
    ensures
        balanced(s),
        lacks(s, ','),
        lacks(s, ':'),
{
    let (a, b) = choose|a: Seq<char>, b: Seq<char>| #[trigger]
        blank(a) && #[trigger] blank(b) && s == a + core + b;
    white_space_is_balanced(a);
    white_space_is_balanced(b);
    both_are_balanced(a, core);
    both_lack(a, core, ',');
    both_lack(a, core, ':');
    both_are_balanced(a + core, b);
    both_lack(a + core, b, ',');
    both_lack(a + core, b, ':');
}

/// Balanced texts joined by commas are balanced.
proof fn joined_is_balanced(parts: Seq<Seq<char>>)
    requires
        forall|i: int| 0 <= i < parts.len() ==> balanced(#[trigger] parts[i]),
    ensures
        balanced(joined(parts, ","@)),
    decreases parts.len(),
{
    reveal_strlit(",");
    if parts.len() == 0 {
        neutral_text_is_balanced(joined(parts, ","@));
    } else if parts.len() == 1 {
        assert(balanced(parts[0]));
    } else {
        let front = parts.drop_last();
        assert forall|i: int| 0 <= i < front.len() implies balanced(#[trigger] front[i]) by {
            assert(front[i] == parts[i]);
        }
        joined_is_balanced(front);
        neutral_text_is_balanced(","@);
        both_are_balanced(joined(front, ","@), ","@);
        assert(balanced(parts[parts.len() - 1]));
        both_are_balanced(joined(front, ","@) + ","@, parts.last());
    }
}

/// A value is firm and balanced, and holds no separator at its own level.
proof fn a_value_is_balanced(s: Seq<char>, v: JsonTree)
    requires
        states(s, v),
    ensures
        firm(s),
        balanced(s),
        lacks(s, ','),
        lacks(s, ':'),
    decreases v, 0nat,
{
    match v {
        JsonTree::Null => {
            reveal_strlit("null");
            neutral_text_is_balanced(s);
        },
        JsonTree::Bool(b) => {
            reveal_strlit("true");
            reveal_strlit("false");
            neutral_text_is_balanced(s);
        },
        JsonTree::Number(n) => {
            neutral_text_is_balanced(s);
        },
        JsonTree::Text(t) => {
            a_string_is_balanced(s, t);
        },
        JsonTree::Array(items) => {
            if items.len() == 0 {
                white_space_is_balanced(between(s));
            } else {
                let parts = choose|parts: Seq<Seq<char>>|
                    {
                        &&& between(s) == #[trigger] joined(parts, ","@)
                        &&& parts.len() == items.len()
                        &&& forall|i: int|
                            0 <= i < items.len() ==> reads_as(#[trigger] parts[i], items[i])
                    };
                assert forall|i: int| 0 <= i < parts.len() implies balanced(
                    #[trigger] parts[i],
                ) by {
                    a_document_is_balanced(parts[i], items[i]);
                }
                joined_is_balanced(parts);
            }
            brackets_are_balanced(s, '[', ']');
        },
        JsonTree::Object(map) => {
            if map.len() == 0 {
                white_space_is_balanced(between(s));
            } else {
                let parts = choose|parts: Seq<Seq<char>>|
                    {
                        &&& between(s) == #[trigger] joined(parts, ","@)
                        &&& parts.len() == map.len()
                        &&& forall|i: int|
                            0 <= i < map.len() ==> enters(#[trigger] parts[i], map[i].0, map[i].1)
                    };
                assert forall|i: int| 0 <= i < parts.len() implies balanced(
                    #[trigger] parts[i],
                ) by {
                    an_entry_is_balanced(parts[i], map[i].0, map[i].1);
                }
                joined_is_balanced(parts);
            }
            brackets_are_balanced(s, '{', '}');
        },
    }
}

/// A document is balanced, and holds no separator at its own level.
proof fn a_document_is_balanced(s: Seq<char>, v: JsonTree)
    requires
        reads_as(s, v),
    ensures
        balanced(s),
        lacks(s, ','),
        lacks(s, ':'),
        !blank(s),
    decreases v, 1nat,
{
    let core = choose|core: Seq<char>| #[trigger] padded(s, core) && states(core, v);
    a_value_is_balanced(core, v);
    padding_is_balanced(s, core);
    let (a, b) = choose|a: Seq<char>, b: Seq<char>| #[trigger]
        blank(a) && #[trigger] blank(b) && s == a + core + b;
    assert(s[a.len() as int] == core[0]);
}

/// A key is balanced, and holds no separator at its own level.
proof fn a_key_is_balanced(s: Seq<char>, key: Seq<char>)
    requires
        names(s, key),
    ensures
        balanced(s),
        lacks(s, ','),
        lacks(s, ':'),
{
    let core = choose|core: Seq<char>| #[trigger] padded(s, core) && spells(core, key);
    a_string_is_balanced(core, key);
    padding_is_balanced(s, core);
}

/// An entry of an object is balanced, and holds no comma at its own level.
proof fn an_entry_is_balanced(s: Seq<char>, key: Seq<char>, v: JsonTree)
    requires
        enters(s, key, v),
    ensures
        balanced(s),
        lacks(s, ','),
        !blank(s),
    decreases v, 2nat,
{
    let (name, value) = choose|name: Seq<char>, value: Seq<char>| #[trigger]
        coupled(s, name, value) && names(name, key) && reads_as(value, v);
    let colon = seq![':'];
    a_key_is_balanced(name, key);
    a_document_is_balanced(value, v);
    neutral_text_is_balanced(colon);
    both_are_balanced(name, colon);
    both_lack(name, colon, ',');
    both_are_balanced(name + colon, value);
    both_lack(name + colon, value, ',');
    assert(s[name.len() as int] == ':');
}

// ---------------------------------------------------------------------------
// Telling the parts
// ---------------------------------------------------------------------------

/// Texts that hold no comma at their own level can be told from how they are
/// joined by commas.
proof fn commas_tell(p: Seq<Seq<char>>, q: Seq<Seq<char>>)
    requires
        p.len() > 0,
        q.len() > 0,
        forall|i: int| 0 <= i < p.len() ==> balanced(#[trigger] p[i]) && lacks(p[i], ','),
        forall|i: int| 0 <= i < q.len() ==> balanced(#[trigger] q[i]) && lacks(q[i], ','),
        joined(p, ","@) == joined(q, ","@),
    ensures
        p == q,
    decreases p.len(),
{
    reveal_strlit(",");
    let s = joined(p, ","@);
    let x = p.last();
    let y = q.last();
    assert(p[p.len() - 1] == x && q[q.len() - 1] == y);
    if p.len() > 1 && (q.len() == 1 || x.len() < y.len()) {
        the_last_comma(p);
        no_comma_in_the_last(q, s.len() - x.len() - 1);
    }
    if q.len() > 1 && (p.len() == 1 || y.len() < x.len()) {
        the_last_comma(q);
        no_comma_in_the_last(p, s.len() - y.len() - 1);
    }
    if p.len() == 1 {
        assert(q.len() == 1);
        assert(p =~= q);
    } else {
        assert(q.len() > 1);
        assert(x.len() == y.len());
        let a = p.drop_last();
        let b = q.drop_last();
        let n = s.len() - x.len() - 1;
        assert(joined(a, ","@) =~= s.take(n));
        assert(joined(b, ","@) =~= s.take(n));
        assert(x =~= s.skip(n + 1));
        assert(y =~= s.skip(n + 1));
        assert forall|i: int| 0 <= i < a.len() implies balanced(#[trigger] a[i]) && lacks(
            a[i],
            ',',
        ) by {
            assert(a[i] == p[i]);
        }
        assert forall|i: int| 0 <= i < b.len() implies balanced(#[trigger] b[i]) && lacks(
            b[i],
            ',',
        ) by {
            assert(b[i] == q[i]);
        }
        commas_tell(a, b);
        assert(p =~= a.push(x));
        assert(q =~= b.push(y));
    }
}

/// The comma before the last of joined texts stands outside all of them.
proof fn the_last_comma(p: Seq<Seq<char>>)
    requires
        p.len() > 1,
        forall|i: int| 0 <= i < p.len() ==> balanced(#[trigger] p[i]),
    ensures
        ({
            let s = joined(p, ","@);
            let k = s.len() - p.last().len() - 1;
            &&& 0 <= k < s.len()
            &&& s[k] == ','
            &&& level_at(s, k) == outside(0)
        }),
{
    reveal_strlit(",");
    let comma = ","@;
    let front = p.drop_last();
    assert forall|i: int| 0 <= i < front.len() implies balanced(#[trigger] front[i]) by {
        assert(front[i] == p[i]);
    }
    joined_is_balanced(front);
    let head = joined(front, comma);
    let k = head.len() as int;
    assert(joined(p, comma) =~= head + (comma + p.last()));
    level_in_the_first(head, comma + p.last(), k);
    assert(head.take(k) =~= head);
}

/// No comma stands in the last of joined texts at its own level.
proof fn no_comma_in_the_last(q: Seq<Seq<char>>, k: int)
    requires
        q.len() > 0,
        forall|i: int| 0 <= i < q.len() ==> balanced(#[trigger] q[i]) && lacks(q[i], ','),
        0 <= k < joined(q, ","@).len(),
        joined(q, ","@).len() - q.last().len() <= k,
        level_at(joined(q, ","@), k) == outside(0),
    ensures
        joined(q, ","@)[k] != ',',
{
    reveal_strlit(",");
    let comma = ","@;
    let y = q.last();
    assert(balanced(q[q.len() - 1]) && lacks(q[q.len() - 1], ','));
    if q.len() > 1 {
        let rest = q.drop_last();
        assert forall|i: int| 0 <= i < rest.len() implies balanced(#[trigger] rest[i]) by {
            assert(rest[i] == q[i]);
        }
        joined_is_balanced(rest);
        neutral_text_is_balanced(comma);
        let head = joined(rest, comma) + comma;
        both_are_balanced(joined(rest, comma), comma);
        level_in_the_second(head, y, k - head.len());
        assert(level_at(y, k - head.len()) == outside(0));
    }
}

/// A name that holds no colon at its own level can be told from how it is
/// coupled with a value.
proof fn the_colon_tells(
    s: Seq<char>,
    name: Seq<char>,
    value: Seq<char>,
    other: Seq<char>,
    more: Seq<char>,
)
    requires
        coupled(s, name, value),
        coupled(s, other, more),
        balanced(name),
        balanced(other),
        lacks(name, ':'),
        lacks(other, ':'),
    ensures
        name == other,
        value == more,
{
    a_name_is_no_shorter(s, name, value, other, more);
    a_name_is_no_shorter(s, other, more, name, value);
    let n = name.len() as int;
    assert(name =~= s.take(n));
    assert(other =~= s.take(n));
    assert(value =~= s.skip(n + 1));
    assert(more =~= s.skip(n + 1));
}

/// The colon behind one name does not stand in another.
proof fn a_name_is_no_shorter(
    s: Seq<char>,
    name: Seq<char>,
    value: Seq<char>,
    other: Seq<char>,
    more: Seq<char>,
)
    requires
        coupled(s, name, value),
        coupled(s, other, more),
        balanced(name),
        lacks(other, ':'),
    ensures
        name.len() >= other.len(),
{
    let n = name.len() as int;
    if n < other.len() {
        assert(s =~= name + (seq![':'] + value));
        assert(s =~= other + (seq![':'] + more));
        level_in_the_first(name, seq![':'] + value, n);
        level_in_the_first(other, seq![':'] + more, n);
        assert(name.take(n) =~= name);
        assert(level_at(other, n) == outside(0));
        assert(s[n] == ':');
        assert(other[n] == s[n]);
    }
}

/// A firm text can be told from how it is padded.
proof fn white_space_tells(s: Seq<char>, one: Seq<char>, two: Seq<char>)
    requires
        padded(s, one),
        padded(s, two),
        firm(one),
        firm(two),
    ensures
        one == two,
{
    let (a, b) = choose|a: Seq<char>, b: Seq<char>| #[trigger]
        blank(a) && #[trigger] blank(b) && s == a + one + b;
    let (c, d) = choose|c: Seq<char>, d: Seq<char>| #[trigger]
        blank(c) && #[trigger] blank(d) && s == c + two + d;
    assert(s[a.len() as int] == one[0]);
    assert(s[c.len() as int] == two[0]);
    if a.len() < c.len() {
        assert(s[a.len() as int] == c[a.len() as int]);
    }
    if c.len() < a.len() {
        assert(s[c.len() as int] == a[c.len() as int]);
    }
    let m = s.len() - b.len() - 1;
    let n = s.len() - d.len() - 1;
    assert(s[m] == one.last());
    assert(s[n] == two.last());
    if b.len() < d.len() {
        assert(s[m] == d[m - n - 1]);
    }
    if d.len() < b.len() {
        assert(s[n] == b[n - m - 1]);
    }
    assert(one =~= s.subrange(a.len() as int, s.len() - b.len()));
    assert(two =~= s.subrange(a.len() as int, s.len() - b.len()));
}

/// A key can be told from its text.
proof fn a_key_reads_one_way(s: Seq<char>, key: Seq<char>, other: Seq<char>)
    requires
        names(s, key),
        names(s, other),
    ensures
        key == other,
{
    let one = choose|core: Seq<char>| #[trigger] padded(s, core) && spells(core, key);
    let two = choose|core: Seq<char>| #[trigger] padded(s, core) && spells(core, other);
    white_space_tells(s, one, two);
}

/// Texts that are not blank do not join to white space.
proof fn joined_is_not_blank(parts: Seq<Seq<char>>)
    requires
        parts.len() > 0,
        !blank(parts.last()),
    ensures
        !blank(joined(parts, ","@)),
{
    let s = joined(parts, ","@);
    let x = parts.last();
    let i = choose|i: int| 0 <= i < x.len() && !is_blank(#[trigger] x[i]);
    assert(s[s.len() - x.len() + i] == x[i]);
}

/// A text reads as at most one value.
pub proof fn a_text_reads_one_way(s: Seq<char>, v: JsonTree, w: JsonTree)
    requires
        reads_as(s, v),
        reads_as(s, w),
    ensures
        v == w,
    decreases v, 1nat,
{
    let one = choose|core: Seq<char>| #[trigger] padded(s, core) && states(core, v);
    let two = choose|core: Seq<char>| #[trigger] padded(s, core) && states(core, w);
    a_value_is_balanced(one, v);
    a_value_is_balanced(two, w);
    white_space_tells(s, one, two);
    a_value_reads_one_way(one, v, w);
}

/// An entry of an object can be told from its text.
proof fn an_entry_reads_one_way(
    s: Seq<char>,
    key: Seq<char>,
    v: JsonTree,
    other: Seq<char>,
    w: JsonTree,
)
    requires
        enters(s, key, v),
        enters(s, other, w),
    ensures
        key == other,
        v == w,
    decreases v, 2nat,
{
    let (n1, v1) = choose|name: Seq<char>, value: Seq<char>| #[trigger]
        coupled(s, name, value) && names(name, key) && reads_as(value, v);
    let (n2, v2) = choose|name: Seq<char>, value: Seq<char>| #[trigger]
        coupled(s, name, value) && names(name, other) && reads_as(value, w);
    a_key_is_balanced(n1, key);
    a_key_is_balanced(n2, other);
    the_colon_tells(s, n1, v1, n2, v2);
    a_key_reads_one_way(n1, key, other);
    a_text_reads_one_way(v1, v, w);
}

/// The first character tells the kind of a value.
spec fn kind_of(c: char) -> int {
    if c == '"' {
        0
    } else if c == '[' {
        1
    } else if c == '{' {
        2
    } else if c == 'n' {
        3
    } else if c == 't' {
        4
    } else if c == 'f' {
        5
    } else {
        6
    }
}

/// The kind of a value.
spec fn kind(v: JsonTree) -> int {
    match v {
        JsonTree::Text(_) => 0,
        JsonTree::Array(_) => 1,
        JsonTree::Object(_) => 2,
        JsonTree::Null => 3,
        JsonTree::Bool(b) => if b {
            4
        } else {
            5
        },
        JsonTree::Number(_) => 6,
    }
}

/// The first character of a value is of its kind.
proof fn the_first_character_tells(s: Seq<char>, v: JsonTree)
    requires
        states(s, v),
    ensures
        s.len() > 0,
        kind_of(s[0]) == kind(v),
{
    reveal_strlit("null");
    reveal_strlit("true");
    reveal_strlit("false");
}

/// A value can be told from its text.
proof fn a_value_reads_one_way(s: Seq<char>, v: JsonTree, w: JsonTree)
    requires
        states(s, v),
        states(s, w),
    ensures
        v == w,
    decreases v, 0nat,
{
    the_first_character_tells(s, v);
    the_first_character_tells(s, w);
    if let JsonTree::Array(items) = v {
        let others = w->Array_0;
        let p = parts_of_array(s, items);
        let q = parts_of_array(s, others);
        if items.len() > 0 && others.len() > 0 {
            commas_tell(p, q);
            assert forall|i: int| 0 <= i < items.len() implies items[i] == others[i] by {
                assert(reads_as(p[i], items[i]));
                assert(reads_as(q[i], others[i]));
                a_text_reads_one_way(p[i], items[i], others[i]);
            }
        }
        assert(items =~= others);
    }
    if let JsonTree::Object(map) = v {
        let others = w->Object_0;
        let p = parts_of_object(s, map);
        let q = parts_of_object(s, others);
        if map.len() > 0 && others.len() > 0 {
            commas_tell(p, q);
            assert forall|i: int| 0 <= i < map.len() implies map[i] == others[i] by {
                assert(enters(p[i], map[i].0, map[i].1));
                assert(enters(q[i], others[i].0, others[i].1));
                an_entry_reads_one_way(p[i], map[i].0, map[i].1, others[i].0, others[i].1);
            }
        }
        assert(map =~= others);
    }
}

/// The texts of the elements of an array.
proof fn parts_of_array(s: Seq<char>, items: Seq<JsonTree>) -> (parts: Seq<Seq<char>>)
    requires
        states(s, JsonTree::Array(items)),
    ensures
        items.len() == 0 <==> blank(between(s)),
        items.len() > 0 ==> {
            &&& between(s) == joined(parts, ","@)
            &&& parts.len() == items.len()
            &&& forall|i: int| 0 <= i < items.len() ==> reads_as(#[trigger] parts[i], items[i])
            &&& forall|i: int|
                0 <= i < items.len() ==> balanced(#[trigger] parts[i]) && lacks(parts[i], ',')
        },
{
    let parts = choose|parts: Seq<Seq<char>>|
        {
            &&& between(s) == #[trigger] joined(parts, ","@)
            &&& parts.len() == items.len()
            &&& forall|i: int| 0 <= i < items.len() ==> reads_as(#[trigger] parts[i], items[i])
        };
    if items.len() > 0 {
        assert forall|i: int| 0 <= i < items.len() implies balanced(#[trigger] parts[i]) && lacks(
            parts[i],
            ',',
        ) && !blank(parts[i]) by {
            assert(reads_as(parts[i], items[i]));
            a_document_is_balanced(parts[i], items[i]);
        }
        assert(!blank(parts[parts.len() - 1]));
        joined_is_not_blank(parts);
    }
    parts
}

/// The texts of the entries of an object.
proof fn parts_of_object(s: Seq<char>, map: Seq<(Seq<char>, JsonTree)>) -> (parts: Seq<Seq<char>>)
    requires
        states(s, JsonTree::Object(map)),
    ensures
        map.len() == 0 <==> blank(between(s)),
        map.len() > 0 ==> {
            &&& between(s) == joined(parts, ","@)
            &&& parts.len() == map.len()
            &&& forall|i: int|
                0 <= i < map.len() ==> enters(#[trigger] parts[i], map[i].0, map[i].1)
            &&& forall|i: int|
                0 <= i < map.len() ==> balanced(#[trigger] parts[i]) && lacks(parts[i], ',')
        },
{
    let parts = choose|parts: Seq<Seq<char>>|
        {
            &&& between(s) == #[trigger] joined(parts, ","@)
            &&& parts.len() == map.len()
            &&& forall|i: int|
                0 <= i < map.len() ==> enters(#[trigger] parts[i], map[i].0, map[i].1)
        };
    if map.len() > 0 {
        assert forall|i: int| 0 <= i < map.len() implies balanced(#[trigger] parts[i]) && lacks(
            parts[i],
            ',',
        ) && !blank(parts[i]) by {
            assert(enters(parts[i], map[i].0, map[i].1));
            an_entry_is_balanced(parts[i], map[i].0, map[i].1);
        }
        assert(!blank(parts[parts.len() - 1]));
        joined_is_not_blank(parts);
    }
    parts
}

} // verus!
