//! Texts: what the operations on characters do, position by position.

use crate::text::{
    count_in, cut, cut_last, decimal, decimal_value, digit_char, joined, lead_len, lead_len_is,
    lead_len_stops, lowered, pieces, signed_decimal, text_less, trail_len_is, trimmed, trimmed_end,
    trimmed_start, utf8_len, words, CharClass,
};
use vstd::prelude::*;

verus! {

// ---------------------------------------------------------------------------
// Order
// ---------------------------------------------------------------------------

/// The first character that differs decides the order of two texts.
pub proof fn the_first_difference_decides(a: Seq<char>, b: Seq<char>, n: int)
    requires
        0 <= n < a.len(),
        n < b.len(),
        forall|i: int| 0 <= i < n ==> a[i] == b[i],
        a[n] != b[n],
    ensures
        text_less(a, b) <==> (a[n] as int) < (b[n] as int),
    decreases n,
{
    if n > 0 {
        assert(a[0] == b[0]);
        the_first_difference_decides(a.skip(1), b.skip(1), n - 1);
    }
}

/// A text comes before every longer one that starts with it.
pub proof fn a_beginning_comes_first(a: Seq<char>, more: Seq<char>)
    requires
        more.len() > 0,
    ensures
        text_less(a, a + more),
        !text_less(a + more, a),
    decreases a.len(),
{
    if a.len() > 0 {
        a_beginning_comes_first(a.skip(1), more);
        assert((a + more).skip(1) == a.skip(1) + more);
    }
}

// ---------------------------------------------------------------------------
// Ends
// ---------------------------------------------------------------------------

/// Trimming takes off all that belongs to a class at both ends, and nothing
/// in between.
pub proof fn trimming_keeps_the_core(
    front: Seq<char>,
    core: Seq<char>,
    back: Seq<char>,
    k: CharClass,
)
    requires
        forall|i: int| 0 <= i < front.len() ==> k.has(#[trigger] front[i]),
        forall|i: int| 0 <= i < back.len() ==> k.has(#[trigger] back[i]),
        core.len() > 0,
        !k.has(core[0]),
        !k.has(core.last()),
    ensures
        trimmed(front + core + back, k) == core,
        trimmed_start(front + core + back, k) == core + back,
        trimmed_end(front + core + back, k) == front + core,
{
    let s = front + core + back;
    assert forall|i: int| 0 <= i < front.len() implies #[trigger] k.has(s[i]) by {
        assert(s[i] == front[i]);
    }
    assert(s[front.len() as int] == core[0]);
    lead_len_is(s, k, front.len());
    let t = s.skip(front.len() as int);
    assert(t == core + back);
    assert forall|i: int| t.len() - back.len() <= i < t.len() implies #[trigger] k.has(t[i]) by {
        assert(t[i] == back[i - core.len()]);
    }
    assert(t[t.len() - back.len() - 1] == core.last());
    trail_len_is(t, k, back.len());
    assert(t.take(t.len() - back.len()) == core);
    assert forall|i: int| s.len() - back.len() <= i < s.len() implies #[trigger] k.has(s[i]) by {
        assert(s[i] == back[i - core.len() - front.len()]);
    }
    assert(s[s.len() - back.len() - 1] == core.last());
    trail_len_is(s, k, back.len());
    assert(s.take(s.len() - back.len()) == front + core);
}

/// A text of one class alone is trimmed away.
pub proof fn nothing_is_left_of_a_single_class(s: Seq<char>, k: CharClass)
    requires
        forall|i: int| 0 <= i < s.len() ==> k.has(#[trigger] s[i]),
    ensures
        trimmed(s, k).len() == 0,
        trimmed_start(s, k).len() == 0,
        trimmed_end(s, k).len() == 0,
{
    lead_len_is(s, k, s.len());
    trail_len_is(s, k, s.len());
    assert(s.skip(s.len() as int) == Seq::<char>::empty());
    lead_len_is(Seq::empty(), k, 0);
    trail_len_is(Seq::empty(), k, 0);
}

// ---------------------------------------------------------------------------
// Parts
// ---------------------------------------------------------------------------

/// A text is cut at the first of its separators.
pub proof fn cutting_takes_the_first(a: Seq<char>, c: char, b: Seq<char>)
    requires
        !a.contains(c),
    ensures
        cut(a + seq![c] + b, c) == Some((a, b)),
        cut(a, c) is None,
{
    let s = a + seq![c] + b;
    let k = CharClass::Except(c);
    assert forall|i: int| 0 <= i < a.len() implies #[trigger] k.has(s[i]) by {
        assert(s[i] == a[i]);
        assert(a.contains(a[i]));
    }
    assert(s[a.len() as int] == c);
    lead_len_is(s, k, a.len());
    assert(s.take(a.len() as int) == a);
    assert(s.skip(a.len() as int + 1) == b);
    assert forall|i: int| 0 <= i < a.len() implies #[trigger] k.has(a[i]) by {
        assert(a.contains(a[i]));
    }
    lead_len_is(a, k, a.len());
}

/// A text is cut from behind at the last of its separators.
pub proof fn cutting_takes_the_last(a: Seq<char>, c: char, b: Seq<char>)
    requires
        !b.contains(c),
    ensures
        cut_last(a + seq![c] + b, c) == Some((a, b)),
        cut_last(b, c) is None,
{
    let s = a + seq![c] + b;
    let k = CharClass::Except(c);
    assert forall|i: int| s.len() - b.len() <= i < s.len() implies #[trigger] k.has(s[i]) by {
        assert(s[i] == b[i - a.len() - 1]);
        assert(b.contains(b[i - a.len() - 1]));
    }
    assert(s[s.len() - b.len() - 1] == c);
    trail_len_is(s, k, b.len());
    assert(s.take(s.len() - b.len() - 1) == a);
    assert(s.skip(s.len() - b.len()) == b);
    assert forall|i: int| 0 <= i < b.len() implies #[trigger] k.has(b[i]) by {
        assert(b.contains(b[i]));
    }
    trail_len_is(b, k, b.len());
}

/// The parts of a text, put together again, are the text.
pub proof fn the_parts_make_the_whole(s: Seq<char>, c: char)
    ensures
        joined(pieces(s, c), seq![c]) == s,
        pieces(s, c).len() > 0,
    decreases s.len(),
{
    let k = CharClass::Except(c);
    lead_len_stops(s, k);
    let n = lead_len(s, k) as int;
    if n < s.len() {
        let rest = s.skip(n + 1);
        the_parts_make_the_whole(rest, c);
        let ps = pieces(s, c);
        let qs = pieces(rest, c);
        assert(ps == seq![s.take(n)] + qs);
        joining_from_the_front(ps, seq![c]);
        assert(ps.skip(1) == qs);
        assert(s == s.take(n) + seq![c] + rest);
    } else {
        assert(pieces(s, c) == seq![s]);
    }
}

/// A joined text starts with its first part.
pub proof fn joining_from_the_front(parts: Seq<Seq<char>>, sep: Seq<char>)
    requires
        parts.len() > 1,
    ensures
        joined(parts, sep) == parts[0] + sep + joined(parts.skip(1), sep),
    decreases parts.len(),
{
    if parts.len() == 2 {
        assert(parts.drop_last() == seq![parts[0]]);
        assert(parts.skip(1) == seq![parts[1]]);
        assert(joined(parts.drop_last(), sep) == parts[0]);
        assert(joined(parts.skip(1), sep) == parts[1]);
    } else {
        joining_from_the_front(parts.drop_last(), sep);
        assert(parts.drop_last().skip(1) == parts.skip(1).drop_last());
        assert(parts.skip(1).last() == parts.last());
        assert(joined(parts, sep) == parts[0] + sep + (joined(parts.skip(1).drop_last(), sep) + sep
            + parts.last()));
    }
}

/// Two joined texts that differ in one part alone are different.
pub proof fn a_joined_text_tells_each_part(
    parts: Seq<Seq<char>>,
    i: int,
    x: Seq<char>,
    y: Seq<char>,
    sep: Seq<char>,
)
    requires
        0 <= i < parts.len(),
        joined(parts.update(i, x), sep) == joined(parts.update(i, y), sep),
    ensures
        x == y,
    decreases parts.len(),
{
    let p = parts.update(i, x);
    let q = parts.update(i, y);
    if parts.len() > 1 {
        let n = parts.len() - 1;
        if i == n {
            assert(p.drop_last() == q.drop_last());
            let head = joined(p.drop_last(), sep) + sep;
            assert(joined(p, sep) == head + x);
            assert(joined(q, sep) == head + y);
            assert((head + x).skip(head.len() as int) == x);
            assert((head + y).skip(head.len() as int) == y);
        } else {
            assert(p.drop_last() == parts.drop_last().update(i, x));
            assert(q.drop_last() == parts.drop_last().update(i, y));
            let a = joined(p.drop_last(), sep);
            let b = joined(q.drop_last(), sep);
            let tail = sep + parts.last();
            assert(joined(p, sep) == a + tail);
            assert(joined(q, sep) == b + tail);
            assert(a.len() == b.len());
            assert((a + tail).take(a.len() as int) == a);
            assert((b + tail).take(b.len() as int) == b);
            a_joined_text_tells_each_part(parts.drop_last(), i, x, y, sep);
        }
    }
}

/// Whether a text has a character and no white space.
pub open spec fn solid(w: Seq<char>) -> bool {
    w.len() > 0 && forall|i: int| 0 <= i < w.len() ==> !CharClass::White.has(#[trigger] w[i])
}

/// The words of a text are what stands between its white space.
pub proof fn words_stand_between_white_space(
    space: Seq<char>,
    w: Seq<char>,
    rest: Seq<char>,
)
    requires
        forall|i: int| 0 <= i < space.len() ==> CharClass::White.has(#[trigger] space[i]),
        solid(w),
        rest.len() > 0 ==> CharClass::White.has(rest[0]),
    ensures
        words(space + w + rest) == seq![w] + words(rest),
        words(space).len() == 0,
{
    let s = space + w + rest;
    let k = CharClass::White;
    assert forall|i: int| 0 <= i < space.len() implies #[trigger] k.has(s[i]) by {
        assert(s[i] == space[i]);
    }
    assert(s[space.len() as int] == w[0]);
    lead_len_is(s, k, space.len());
    let t = s.skip(space.len() as int);
    assert(t == w + rest);
    assert forall|i: int| 0 <= i < w.len() implies #[trigger] CharClass::Word.has(t[i]) by {
        assert(t[i] == w[i]);
    }
    if rest.len() > 0 {
        assert(t[w.len() as int] == rest[0]);
    }
    lead_len_is(t, CharClass::Word, w.len());
    assert(t.take(w.len() as int) == w);
    assert(t.skip(w.len() as int) == rest);
    lead_len_is(space, k, space.len());
    assert(space.skip(space.len() as int) == Seq::<char>::empty());
    lead_len_is(Seq::empty(), CharClass::Word, 0);
}

// ---------------------------------------------------------------------------
// Characters
// ---------------------------------------------------------------------------

/// Counting goes by position.
pub proof fn a_count_is_of_positions(s: Seq<char>, k: CharClass)
    ensures
        count_in(s, k) == s.filter(|c: char| k.has(c)).len(),
    decreases s.len(),
{
    reveal(Seq::filter);
    if s.len() > 0 {
        a_count_is_of_positions(s.drop_last(), k);
    }
}

/// Two texts put together have the counts of both.
pub proof fn counts_add_up(a: Seq<char>, b: Seq<char>, k: CharClass)
    ensures
        count_in(a + b, k) == count_in(a, k) + count_in(b, k),
    decreases b.len(),
{
    if b.len() == 0 {
        assert(a + b == a);
    } else {
        counts_add_up(a, b.drop_last(), k);
        assert((a + b).drop_last() == a + b.drop_last());
    }
}

/// A text has no character of a class exactly when the count is zero.
pub proof fn none_is_a_count_of_zero(s: Seq<char>, k: CharClass)
    ensures
        count_in(s, k) == 0 <==> forall|i: int| 0 <= i < s.len() ==> !k.has(#[trigger] s[i]),
        count_in(s, k) <= s.len(),
        (forall|i: int| 0 <= i < s.len() ==> k.has(#[trigger] s[i])) ==> count_in(s, k) == s.len(),
    decreases s.len(),
{
    if s.len() > 0 {
        none_is_a_count_of_zero(s.drop_last(), k);
        let d = s.drop_last();
        if count_in(s, k) == 0 {
            assert forall|i: int| 0 <= i < s.len() implies !k.has(#[trigger] s[i]) by {
                if i < d.len() {
                    assert(d[i] == s[i]);
                }
            }
        }
        if forall|i: int| 0 <= i < s.len() ==> !k.has(#[trigger] s[i]) {
            assert forall|i: int| 0 <= i < d.len() implies !k.has(#[trigger] d[i]) by {
                assert(d[i] == s[i]);
            }
            assert(!k.has(s[s.len() - 1]));
        }
        if forall|i: int| 0 <= i < s.len() ==> k.has(#[trigger] s[i]) {
            assert forall|i: int| 0 <= i < d.len() implies k.has(#[trigger] d[i]) by {
                assert(d[i] == s[i]);
            }
            assert(k.has(s[s.len() - 1]));
        }
    }
}

/// Lowering changes `A` to `Z` alone, each to its small letter.
pub proof fn lowering_changes_capitals_alone(s: Seq<char>, i: int)
    requires
        0 <= i < s.len(),
    ensures
        lowered(s).len() == s.len(),
        'A' <= s[i] <= 'Z' ==> lowered(s)[i] as int == s[i] as int + 32,
        !('A' <= s[i] <= 'Z') ==> lowered(s)[i] == s[i],
{
}

/// A short class of characters is what it lists.
pub proof fn what_the_classes_hold(c: char)
    ensures
        CharClass::Digit.has(c) <==> '0' <= c <= '9',
        CharClass::Alpha.has(c) <==> 'a' <= c <= 'z' || 'A' <= c <= 'Z',
        CharClass::Lower.has(c) <==> 'a' <= c <= 'z',
        CharClass::Hex.has(c) <==> '0' <= c <= '9' || 'a' <= c <= 'f' || 'A' <= c <= 'F',
        CharClass::Opening.has(c) <==> "([{<\"'"@.contains(c),
        CharClass::Closing.has(c) <==> ")]}>\"',;!?"@.contains(c),
        CharClass::Wrapping.has(c) <==> "/<>\"' "@.contains(c),
        CharClass::Delimiter.has(c) <==> "{}[],:=\"<>'"@.contains(c),
        CharClass::Field.has(c) <==> !CharClass::Delimiter.has(c),
        CharClass::Word.has(c) <==> !CharClass::White.has(c),
        CharClass::Control.has(c) <==> (c as int) < 0x20 || 0x7f <= (c as int) < 0xa0,
        CharClass::White.has(c) <==> {
            let n = c as int;
            ||| 9 <= n <= 13 || n == 32 || n == 0x85 || n == 0xa0 || n == 0x1680
            ||| 0x2000 <= n <= 0x200a || n == 0x2028 || n == 0x2029 || n == 0x202f || n == 0x205f
                || n == 0x3000
        },
        CharClass::Dotted.has(c) <==> '0' <= c <= '9' || c == '.',
        CharClass::Glob.has(c) <==> c == '*' || c == '?' || c == '[',
        CharClass::Literal.has(c) <==> c != '*' && c != '?' && c != '[',
        CharClass::Is('x').has(c) <==> c == 'x',
        CharClass::Except('x').has(c) <==> c != 'x',
{
    reveal_strlit("([{<\"'");
    reveal_strlit(")]}>\"',;!?");
    reveal_strlit("/<>\"' ");
    reveal_strlit("{}[],:=\"<>'");
    let o = "([{<\"'"@;
    assert(o[0] == '(' && o[1] == '[' && o[2] == '{' && o[3] == '<' && o[4] == '"' && o[5] == '\'');
    let l = ")]}>\"',;!?"@;
    assert(l[0] == ')' && l[1] == ']' && l[2] == '}' && l[3] == '>' && l[4] == '"' && l[5] == '\''
        && l[6] == ',' && l[7] == ';' && l[8] == '!' && l[9] == '?');
    let w = "/<>\"' "@;
    assert(w[0] == '/' && w[1] == '<' && w[2] == '>' && w[3] == '"' && w[4] == '\'' && w[5] == ' ');
    let d = "{}[],:=\"<>'"@;
    assert(d[0] == '{' && d[1] == '}' && d[2] == '[' && d[3] == ']' && d[4] == ',' && d[5] == ':'
        && d[6] == '=' && d[7] == '"' && d[8] == '<' && d[9] == '>' && d[10] == '\'');
}

/// A text of ASCII alone takes a byte for each character; in general the bytes
/// are those of UTF-8.
pub proof fn bytes_are_those_of_utf8(s: Seq<char>)
    ensures
        utf8_len(s) == vstd::utf8::encode_utf8(s).len(),
        utf8_len(s) >= s.len(),
        (forall|i: int| 0 <= i < s.len() ==> (#[trigger] s[i] as int) < 0x80) ==> utf8_len(s)
            == s.len(),
    decreases s.len(),
{
    crate::text::utf8_len_is_encoded_length(s);
    if s.len() > 0 {
        bytes_are_those_of_utf8(s.skip(1));
        if forall|i: int| 0 <= i < s.len() ==> (#[trigger] s[i] as int) < 0x80 {
            assert forall|i: int| 0 <= i < s.skip(1).len() implies (
            #[trigger] s.skip(1)[i] as int) < 0x80 by {
                assert(s.skip(1)[i] == s[i + 1]);
            }
            assert((s[0] as int) < 0x80);
        }
    }
}

// ---------------------------------------------------------------------------
// Numbers
// ---------------------------------------------------------------------------

/// The digits of a number tell the number, and there is no needless zero in
/// front.
pub proof fn digits_tell_the_number(n: nat)
    ensures
        decimal_value(decimal(n)) == n,
        decimal(n).len() > 0,
        forall|i: int| 0 <= i < decimal(n).len() ==> '0' <= #[trigger] decimal(n)[i] <= '9',
        n > 0 ==> decimal(n)[0] != '0',
    decreases n,
{
    if n < 10 {
        reveal_with_fuel(decimal_value, 2);
        assert(decimal(n).drop_last() == Seq::<char>::empty());
    } else {
        digits_tell_the_number(n / 10);
        let d = decimal(n / 10);
        let last = digit_char(n % 10);
        assert(decimal(n) == d.push(last));
        assert(decimal(n).drop_last() == d);
        assert(last as nat == '0' as nat + n % 10);
        assert forall|i: int| 0 <= i < decimal(n).len() implies '0' <= #[trigger] decimal(n)[i]
            <= '9' by {
            if i < d.len() {
                assert(decimal(n)[i] == d[i]);
            }
        }
        assert(decimal(n)[0] == d[0]);
    }
}

/// The value of digits grows tenfold with each digit that follows.
pub proof fn each_digit_counts_ten_times_the_next(s: Seq<char>, d: char)
    requires
        '0' <= d <= '9',
    ensures
        decimal_value(s.push(d)) == 10 * decimal_value(s) + (d as int - '0' as int),
        decimal_value(Seq::empty()) == 0,
{
    assert(s.push(d).drop_last() == s);
}

/// A negative number is written with a sign in front.
pub proof fn a_sign_stands_in_front(n: int)
    ensures
        n >= 0 ==> signed_decimal(n) == decimal(n as nat),
        n < 0 ==> signed_decimal(n) == seq!['-'] + decimal((-n) as nat),
{
}

} // verus!
