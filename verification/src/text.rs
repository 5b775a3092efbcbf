//! Character-level text: classes of characters, and the scans built on them.
//!
//! Text is modelled as a sequence of characters. Scans work on slices of
//! characters rather than on byte offsets, so no operation can split a
//! multi-byte character.

use vstd::prelude::*;
use vstd::slice::slice_subrange;

verus! {

/// A set of characters.
#[derive(Clone, Copy)]
pub enum CharClass {
    /// Unicode `White_Space`.
    White,
    /// Everything but `White`.
    Word,
    /// The control characters of categories C0 and C1.
    Control,
    /// `0` to `9`.
    Digit,
    /// ASCII hexadecimal digits, either case.
    Hex,
    /// `a` to `z`.
    Lower,
    /// ASCII letters.
    Alpha,
    /// Digits, `.` and `,`.
    Number,
    /// Digits and `.`.
    Dotted,
    /// ASCII letters and `%`.
    Unit,
    /// Digits and the punctuation of an ISO-8601 instant.
    Stamp,
    /// ASCII letters and digits, `-` and `_`.
    Opaque,
    /// Opening punctuation peeled from the front of a token.
    Opening,
    /// Closing punctuation peeled from the end of a token.
    Closing,
    /// Punctuation and spaces around a field name.
    Wrapping,
    /// Characters that delimit fields inside a structured payload.
    Delimiter,
    /// Everything but `Delimiter`.
    Field,
    /// The metacharacters that make a pattern a glob.
    Glob,
    /// Everything but `Glob`.
    Literal,
    /// Exactly one character.
    Is(char),
    /// Every character but one.
    Except(char),
}

/// Unicode `White_Space`.
pub open spec fn is_white(c: char) -> bool {
    ||| '\u{9}' <= c <= '\u{d}'
    ||| c == ' '
    ||| c == '\u{85}'
    ||| c == '\u{a0}'
    ||| c == '\u{1680}'
    ||| '\u{2000}' <= c <= '\u{200a}'
    ||| c == '\u{2028}'
    ||| c == '\u{2029}'
    ||| c == '\u{202f}'
    ||| c == '\u{205f}'
    ||| c == '\u{3000}'
}

/// Unicode category `Cc`.
pub open spec fn is_control(c: char) -> bool {
    c <= '\u{1f}' || '\u{7f}' <= c <= '\u{9f}'
}

/// `0` to `9`.
pub open spec fn is_digit(c: char) -> bool {
    '0' <= c <= '9'
}

/// ASCII letters.
pub open spec fn is_alpha(c: char) -> bool {
    'a' <= c <= 'z' || 'A' <= c <= 'Z'
}

impl CharClass {
    /// Whether `c` belongs to the class.
    pub open spec fn has(self, c: char) -> bool {
        match self {
            CharClass::White => is_white(c),
            CharClass::Word => !is_white(c),
            CharClass::Control => is_control(c),
            CharClass::Digit => is_digit(c),
            CharClass::Hex => is_digit(c) || 'a' <= c <= 'f' || 'A' <= c <= 'F',
            CharClass::Lower => 'a' <= c <= 'z',
            CharClass::Alpha => is_alpha(c),
            CharClass::Number => is_digit(c) || c == '.' || c == ',',
            CharClass::Dotted => is_digit(c) || c == '.',
            CharClass::Unit => is_alpha(c) || c == '%',
            CharClass::Stamp => is_digit(c) || c == '-' || c == ':' || c == 'T' || c == 'Z' || c
                == '.' || c == '+',
            CharClass::Opaque => is_digit(c) || is_alpha(c) || c == '-' || c == '_',
            CharClass::Opening => c == '(' || c == '[' || c == '{' || c == '<' || c == '"' || c
                == '\'',
            CharClass::Closing => c == ')' || c == ']' || c == '}' || c == '>' || c == '"' || c
                == '\'' || c == ',' || c == ';' || c == '!' || c == '?',
            CharClass::Wrapping => c == '/' || c == '<' || c == '>' || c == '"' || c == '\'' || c
                == ' ',
            CharClass::Delimiter => is_delimiter(c),
            CharClass::Field => !is_delimiter(c),
            CharClass::Glob => c == '*' || c == '?' || c == '[',
            CharClass::Literal => !(c == '*' || c == '?' || c == '['),
            CharClass::Is(x) => c == x,
            CharClass::Except(x) => c != x,
        }
    }

    /// Decide membership.
    pub fn test(self, c: char) -> (r: bool)
        ensures
            r == self.has(c),
    {
        match self {
            CharClass::White => white(c),
            CharClass::Word => !white(c),
            CharClass::Control => c <= '\u{1f}' || ('\u{7f}' <= c && c <= '\u{9f}'),
            CharClass::Digit => '0' <= c && c <= '9',
            CharClass::Hex => ('0' <= c && c <= '9') || ('a' <= c && c <= 'f') || ('A' <= c && c
                <= 'F'),
            CharClass::Lower => 'a' <= c && c <= 'z',
            CharClass::Alpha => alpha(c),
            CharClass::Number => ('0' <= c && c <= '9') || c == '.' || c == ',',
            CharClass::Dotted => ('0' <= c && c <= '9') || c == '.',
            CharClass::Unit => alpha(c) || c == '%',
            CharClass::Stamp => ('0' <= c && c <= '9') || c == '-' || c == ':' || c == 'T' || c
                == 'Z' || c == '.' || c == '+',
            CharClass::Opaque => ('0' <= c && c <= '9') || alpha(c) || c == '-' || c == '_',
            CharClass::Opening => c == '(' || c == '[' || c == '{' || c == '<' || c == '"' || c
                == '\'',
            CharClass::Closing => c == ')' || c == ']' || c == '}' || c == '>' || c == '"' || c
                == '\'' || c == ',' || c == ';' || c == '!' || c == '?',
            CharClass::Wrapping => c == '/' || c == '<' || c == '>' || c == '"' || c == '\'' || c
                == ' ',
            CharClass::Delimiter => delimiter(c),
            CharClass::Field => !delimiter(c),
            CharClass::Glob => c == '*' || c == '?' || c == '[',
            CharClass::Literal => !(c == '*' || c == '?' || c == '['),
            CharClass::Is(x) => c == x,
            CharClass::Except(x) => c != x,
        }
    }
}

/// Braces, brackets, angle brackets, quotes, `,`, `:` and `=`.
pub open spec fn is_delimiter(c: char) -> bool {
    ||| c == '{'
    ||| c == '}'
    ||| c == '['
    ||| c == ']'
    ||| c == ','
    ||| c == ':'
    ||| c == '='
    ||| c == '"'
    ||| c == '<'
    ||| c == '>'
    ||| c == '\''
}

fn white(c: char) -> (r: bool)
    ensures
        r == is_white(c),
{
    ('\u{9}' <= c && c <= '\u{d}') || c == ' ' || c == '\u{85}' || c == '\u{a0}' || c == '\u{1680}'
        || ('\u{2000}' <= c && c <= '\u{200a}') || c == '\u{2028}' || c == '\u{2029}' || c
        == '\u{202f}' || c == '\u{205f}' || c == '\u{3000}'
}

fn alpha(c: char) -> (r: bool)
    ensures
        r == is_alpha(c),
{
    ('a' <= c && c <= 'z') || ('A' <= c && c <= 'Z')
}

fn delimiter(c: char) -> (r: bool)
    ensures
        r == is_delimiter(c),
{
    c == '{' || c == '}' || c == '[' || c == ']' || c == ',' || c == ':' || c == '=' || c == '"' || c
        == '<' || c == '>' || c == '\''
}

// ---------------------------------------------------------------------------
// Conversions
// ---------------------------------------------------------------------------

/// `String::push` appends one character to the end of the string.
pub assume_specification[ String::push ](s: &mut String, c: char)
    ensures
        final(s)@ == old(s)@.push(c),
;

/// The characters of a string.
pub fn chars_of(s: &str) -> (v: Vec<char>)
    ensures
        v@ == s@,
{
    let mut v: Vec<char> = Vec::new();
    for c in it: s.chars()
        invariant
            it.seq() == s@,
            v@ == s@.take(it.index() as int),
    {
        v.push(c);
    }
    v
}

/// The string made of the given characters.
pub fn string_of(s: &[char]) -> (r: String)
    ensures
        r@ == s@,
{
    let mut r: String = String::new();
    let mut i: usize = 0;
    while i < s.len()
        invariant
            i <= s@.len(),
            r@ == s@.take(i as int),
        decreases s@.len() - i,
    {
        r.push(s[i]);
        proof {
            assert(s@.take(i + 1) == s@.take(i as int).push(s@[i as int]));
        }
        i += 1;
    }
    proof {
        assert(s@.take(i as int) == s@);
    }
    r
}

/// An owned copy of a slice of characters.
pub fn copy_of(s: &[char]) -> (r: Vec<char>)
    ensures
        r@ == s@,
{
    vstd::slice::slice_to_vec(s)
}

/// Append a slice of characters.
pub fn extend(out: &mut Vec<char>, s: &[char])
    ensures
        final(out)@ == old(out)@ + s@,
{
    let mut i: usize = 0;
    while i < s.len()
        invariant
            i <= s@.len(),
            out@ == old(out)@ + s@.take(i as int),
        decreases s@.len() - i,
    {
        out.push(s[i]);
        proof {
            assert(s@.take(i + 1) == s@.take(i as int).push(s@[i as int]));
        }
        i += 1;
    }
    proof {
        assert(s@.take(i as int) == s@);
    }
}

/// Append the characters of a string.
pub fn extend_str(out: &mut Vec<char>, s: &str)
    ensures
        final(out)@ == old(out)@ + s@,
{
    let t = chars_of(s);
    extend(out, t.as_slice());
}

// ---------------------------------------------------------------------------
// Runs
// ---------------------------------------------------------------------------

/// The length of the longest prefix made of `k` alone.
pub open spec fn lead_len(s: Seq<char>, k: CharClass) -> nat
    decreases s.len(),
{
    if s.len() > 0 && k.has(s[0]) {
        1 + lead_len(s.skip(1), k)
    } else {
        0
    }
}

/// The length of the longest suffix made of `k` alone.
pub open spec fn trail_len(s: Seq<char>, k: CharClass) -> nat
    decreases s.len(),
{
    if s.len() > 0 && k.has(s.last()) {
        1 + trail_len(s.drop_last(), k)
    } else {
        0
    }
}

/// The leading run holds only members of the class and stops at the first
/// character that is not one.
pub proof fn lead_len_stops(s: Seq<char>, k: CharClass)
    ensures
        lead_len(s, k) <= s.len(),
        forall|i: int| 0 <= i < lead_len(s, k) ==> #[trigger] k.has(s[i]),
        lead_len(s, k) < s.len() ==> !k.has(s[lead_len(s, k) as int]),
    decreases s.len(),
{
    if s.len() > 0 && k.has(s[0]) {
        let t = s.skip(1);
        lead_len_stops(t, k);
        assert forall|i: int| 0 <= i < lead_len(s, k) implies #[trigger] k.has(s[i]) by {
            if i > 0 {
                assert(k.has(t[i - 1]));
            }
        }
        if lead_len(s, k) < s.len() {
            assert(t[lead_len(t, k) as int] == s[lead_len(s, k) as int]);
        }
    }
}

/// The trailing run holds only members of the class and stops at the last
/// character that is not one.
pub proof fn trail_len_stops(s: Seq<char>, k: CharClass)
    ensures
        trail_len(s, k) <= s.len(),
        forall|i: int| s.len() - trail_len(s, k) <= i < s.len() ==> #[trigger] k.has(s[i]),
        trail_len(s, k) < s.len() ==> !k.has(s[s.len() - trail_len(s, k) - 1]),
    decreases s.len(),
{
    if s.len() > 0 && k.has(s.last()) {
        let t = s.drop_last();
        trail_len_stops(t, k);
        assert forall|i: int| s.len() - trail_len(s, k) <= i < s.len() implies #[trigger] k.has(
            s[i],
        ) by {
            if i < s.len() - 1 {
                assert(k.has(t[i]));
            }
        }
        if trail_len(s, k) < s.len() {
            assert(t[t.len() - trail_len(t, k) - 1] == s[s.len() - trail_len(s, k) - 1]);
        }
    }
}

/// A prefix of members followed by a non-member (or the end) is the leading
/// run.
pub proof fn lead_len_is(s: Seq<char>, k: CharClass, n: nat)
    requires
        n <= s.len(),
        forall|i: int| 0 <= i < n ==> #[trigger] k.has(s[i]),
        n < s.len() ==> !k.has(s[n as int]),
    ensures
        lead_len(s, k) == n,
{
    lead_len_stops(s, k);
    if lead_len(s, k) < n {
        assert(k.has(s[lead_len(s, k) as int]));
    }
}

/// A suffix of members preceded by a non-member (or the start) is the
/// trailing run.
pub proof fn trail_len_is(s: Seq<char>, k: CharClass, n: nat)
    requires
        n <= s.len(),
        forall|i: int| s.len() - n <= i < s.len() ==> #[trigger] k.has(s[i]),
        n < s.len() ==> !k.has(s[s.len() - n - 1]),
    ensures
        trail_len(s, k) == n,
{
    trail_len_stops(s, k);
    if trail_len(s, k) < n {
        assert(k.has(s[s.len() - trail_len(s, k) - 1]));
    }
}

/// Measure the leading run.
pub fn lead(s: &[char], k: CharClass) -> (n: usize)
    ensures
        n == lead_len(s@, k),
        n <= s@.len(),
{
    let mut i: usize = 0;
    while i < s.len() && k.test(s[i])
        invariant
            i <= s@.len(),
            forall|j: int| 0 <= j < i ==> #[trigger] k.has(s@[j]),
        decreases s@.len() - i,
    {
        i += 1;
    }
    proof {
        lead_len_is(s@, k, i as nat);
    }
    i
}

/// Measure the trailing run.
pub fn trail(s: &[char], k: CharClass) -> (n: usize)
    ensures
        n == trail_len(s@, k),
        n <= s@.len(),
{
    let len = s.len();
    let mut i: usize = 0;
    while i < len && k.test(s[len - 1 - i])
        invariant
            len == s@.len(),
            i <= len,
            forall|j: int| len - i <= j < len ==> #[trigger] k.has(s@[j]),
        decreases len - i,
    {
        i += 1;
    }
    proof {
        trail_len_is(s@, k, i as nat);
    }
    i
}

/// Everything after the leading run.
pub open spec fn trimmed_start(s: Seq<char>, k: CharClass) -> Seq<char> {
    s.skip(lead_len(s, k) as int)
}

/// Everything before the trailing run.
pub open spec fn trimmed_end(s: Seq<char>, k: CharClass) -> Seq<char> {
    s.take(s.len() - trail_len(s, k))
}

/// The text with both runs removed.
pub open spec fn trimmed(s: Seq<char>, k: CharClass) -> Seq<char> {
    trimmed_end(trimmed_start(s, k), k)
}

/// Remove the leading run.
pub fn trim_start(s: &[char], k: CharClass) -> (r: &[char])
    ensures
        r@ == trimmed_start(s@, k),
{
    let n = lead(s, k);
    slice_subrange(s, n, s.len())
}

/// Remove the trailing run.
pub fn trim_end(s: &[char], k: CharClass) -> (r: &[char])
    ensures
        r@ == trimmed_end(s@, k),
{
    let n = trail(s, k);
    slice_subrange(s, 0, s.len() - n)
}

/// Remove both runs.
pub fn trim(s: &[char], k: CharClass) -> (r: &[char])
    ensures
        r@ == trimmed(s@, k),
{
    trim_end(trim_start(s, k), k)
}

// ---------------------------------------------------------------------------
// Quantities
// ---------------------------------------------------------------------------

/// Whether every character belongs to the class.
pub open spec fn all_in(s: Seq<char>, k: CharClass) -> bool {
    forall|i: int| 0 <= i < s.len() ==> #[trigger] k.has(s[i])
}

/// Whether some character belongs to the class.
pub open spec fn any_in(s: Seq<char>, k: CharClass) -> bool {
    exists|i: int| 0 <= i < s.len() && #[trigger] k.has(s[i])
}

/// How many characters belong to the class.
pub open spec fn count_in(s: Seq<char>, k: CharClass) -> nat
    decreases s.len(),
{
    if s.len() == 0 {
        0
    } else {
        count_in(s.drop_last(), k) + if k.has(s.last()) {
            1nat
        } else {
            0
        }
    }
}

/// Decide whether every character belongs to the class.
pub fn all(s: &[char], k: CharClass) -> (r: bool)
    ensures
        r == all_in(s@, k),
{
    let n = lead(s, k);
    proof {
        lead_len_stops(s@, k);
    }
    n == s.len()
}

/// Decide whether some character belongs to the class.
pub fn any(s: &[char], k: CharClass) -> (r: bool)
    ensures
        r == any_in(s@, k),
{
    let mut i: usize = 0;
    while i < s.len()
        invariant
            i <= s@.len(),
            forall|j: int| 0 <= j < i ==> !#[trigger] k.has(s@[j]),
        decreases s@.len() - i,
    {
        if k.test(s[i]) {
            return true;
        }
        i += 1;
    }
    false
}

/// Count the members of the class.
pub fn count(s: &[char], k: CharClass) -> (n: usize)
    ensures
        n == count_in(s@, k),
        n <= s@.len(),
{
    let mut n: usize = 0;
    let mut i: usize = 0;
    while i < s.len()
        invariant
            i <= s@.len(),
            n <= i,
            n == count_in(s@.take(i as int), k),
        decreases s@.len() - i,
    {
        proof {
            assert(s@.take(i + 1).drop_last() == s@.take(i as int));
        }
        if k.test(s[i]) {
            n += 1;
        }
        i += 1;
    }
    proof {
        assert(s@.take(i as int) == s@);
    }
    n
}

/// The number of bytes a character takes in UTF-8.
pub open spec fn utf8_width(c: char) -> nat {
    if c <= '\u{7f}' {
        1
    } else if c <= '\u{7ff}' {
        2
    } else if c <= '\u{ffff}' {
        3
    } else {
        4
    }
}

/// The number of bytes a text takes in UTF-8.
pub open spec fn utf8_len(s: Seq<char>) -> nat
    decreases s.len(),
{
    if s.len() == 0 {
        0
    } else {
        utf8_width(s[0]) + utf8_len(s.skip(1))
    }
}

/// `utf8_len` is the length of the UTF-8 encoding.
pub proof fn utf8_len_is_encoded_length(s: Seq<char>)
    ensures
        utf8_len(s) == vstd::utf8::encode_utf8(s).len(),
    decreases s.len(),
{
    if s.len() > 0 {
        utf8_len_is_encoded_length(s.skip(1));
        assert(s.skip(1) == s.drop_first());
        utf8_width_is_encoded_width(s[0]);
    }
}

proof fn utf8_width_is_encoded_width(c: char)
    ensures
        vstd::utf8::encode_scalar(c as u32).len() == utf8_width(c),
{
}

/// Whether the text takes more than `limit` bytes in UTF-8.
pub fn longer_than(s: &[char], limit: usize) -> (r: bool)
    ensures
        r == (utf8_len(s@) > limit),
{
    let mut total: usize = 0;
    let mut i: usize = 0;
    proof {
        assert(s@.skip(0) == s@);
    }
    while i < s.len()
        invariant
            i <= s@.len(),
            total <= limit,
            utf8_len(s@) == total + utf8_len(s@.skip(i as int)),
        decreases s@.len() - i,
    {
        let c = s[i];
        proof {
            assert(s@.skip(i as int)[0] == c);
            assert(s@.skip(i as int).skip(1) == s@.skip(i + 1));
        }
        let width: usize = if c <= '\u{7f}' {
            1
        } else if c <= '\u{7ff}' {
            2
        } else if c <= '\u{ffff}' {
            3
        } else {
            4
        };
        if width > limit - total {
            return true;
        }
        total += width;
        i += 1;
    }
    false
}

/// `A` to `Z` become `a` to `z`; every other character stays.
pub open spec fn ascii_lower(c: char) -> char {
    if 'A' <= c <= 'Z' {
        ((c as u32) + 32) as char
    } else {
        c
    }
}

/// Text with its ASCII letters in lower case.
pub open spec fn lowered(s: Seq<char>) -> Seq<char> {
    s.map_values(|c: char| ascii_lower(c))
}

/// Put one letter in lower case.
fn lower_char(c: char) -> (r: char)
    ensures
        r == ascii_lower(c),
{
    if 'A' <= c && c <= 'Z' {
        (c as u8 + 32) as char
    } else {
        c
    }
}

/// Put ASCII letters in lower case.
pub fn lower(s: &[char]) -> (r: Vec<char>)
    ensures
        r@ == lowered(s@),
{
    let mut out: Vec<char> = Vec::new();
    let mut i: usize = 0;
    while i < s.len()
        invariant
            i <= s@.len(),
            out@ == lowered(s@).take(i as int),
        decreases s@.len() - i,
    {
        out.push(lower_char(s[i]));
        proof {
            let all = lowered(s@);
            assert(all.take(i + 1) == all.take(i as int).push(all[i as int]));
        }
        i += 1;
    }
    proof {
        assert(lowered(s@).take(i as int) == lowered(s@));
    }
    out
}

// ---------------------------------------------------------------------------
// Comparison and search
// ---------------------------------------------------------------------------

/// Decide whether two texts are the same.
pub fn same(a: &[char], b: &[char]) -> (r: bool)
    ensures
        r == (a@ == b@),
{
    if a.len() != b.len() {
        return false;
    }
    let mut i: usize = 0;
    while i < a.len()
        invariant
            i <= a@.len(),
            a@.len() == b@.len(),
            forall|j: int| 0 <= j < i ==> a@[j] == b@[j],
        decreases a@.len() - i,
    {
        if a[i] != b[i] {
            return false;
        }
        i += 1;
    }
    proof {
        assert(a@ == b@);
    }
    true
}

/// Decide whether a text is the given string.
pub fn is_str(a: &[char], b: &str) -> (r: bool)
    ensures
        r == (a@ == b@),
{
    let t = chars_of(b);
    same(a, t.as_slice())
}

/// Decide whether two strings hold the same text.
pub fn same_str(a: &str, b: &str) -> (r: bool)
    ensures
        r == (a@ == b@),
{
    let t = chars_of(a);
    is_str(t.as_slice(), b)
}

/// Whether `s` begins with `t`.
pub open spec fn begins(s: Seq<char>, t: Seq<char>) -> bool {
    t.len() <= s.len() && s.take(t.len() as int) == t
}

/// Whether `t` stands in `s` at position `i`.
pub open spec fn stands_at(s: Seq<char>, t: Seq<char>, i: int) -> bool {
    0 <= i && i + t.len() <= s.len() && s.subrange(i, i + t.len()) == t
}

/// Whether `t` occurs anywhere in `s`.
pub open spec fn occurs(s: Seq<char>, t: Seq<char>) -> bool {
    exists|i: int| #[trigger] stands_at(s, t, i)
}

/// Decide whether `s` begins with `t`.
pub fn starts_with(s: &[char], t: &[char]) -> (r: bool)
    ensures
        r == begins(s@, t@),
{
    if t.len() > s.len() {
        return false;
    }
    same(slice_subrange(s, 0, t.len()), t)
}

/// Decide whether `s` begins with the given string.
pub fn starts_with_str(s: &[char], t: &str) -> (r: bool)
    ensures
        r == begins(s@, t@),
{
    let t = chars_of(t);
    starts_with(s, t.as_slice())
}

/// Decide whether the given string occurs in `s`.
pub fn contains_str(s: &[char], t: &str) -> (r: bool)
    ensures
        r == occurs(s@, t@),
{
    let u = chars_of(t);
    let len = s.len();
    if u.len() > len {
        return false;
    }
    let last = len - u.len();
    let mut i: usize = 0;
    while i < last
        invariant
            u@ == t@,
            len == s@.len(),
            last + u@.len() == len,
            i <= last,
            forall|j: int| 0 <= j < i ==> !#[trigger] stands_at(s@, t@, j),
        decreases last - i,
    {
        if same(slice_subrange(s, i, i + u.len()), u.as_slice()) {
            proof {
                assert(stands_at(s@, t@, i as int));
            }
            return true;
        }
        i += 1;
    }
    let found = same(slice_subrange(s, last, len), u.as_slice());
    proof {
        assert(found == stands_at(s@, t@, last as int));
    }
    found
}

/// Strict lexicographic order by code point, which is also the order of the
/// UTF-8 encodings.
pub open spec fn text_less(a: Seq<char>, b: Seq<char>) -> bool
    decreases a.len(),
{
    if b.len() == 0 {
        false
    } else if a.len() == 0 {
        true
    } else if a[0] == b[0] {
        text_less(a.skip(1), b.skip(1))
    } else {
        a[0] < b[0]
    }
}

/// The lexicographic order is a strict total order.
pub proof fn text_less_is_total(a: Seq<char>, b: Seq<char>)
    ensures
        !text_less(a, a),
        text_less(a, b) ==> !text_less(b, a),
        text_less(a, b) || text_less(b, a) || a == b,
    decreases a.len(),
{
    if a.len() > 0 {
        text_less_is_total(a.skip(1), a.skip(1));
    }
    if a.len() > 0 && b.len() > 0 && a[0] == b[0] {
        text_less_is_total(a.skip(1), b.skip(1));
        if a.skip(1) == b.skip(1) {
            assert forall|i: int| 0 <= i < a.len() implies a[i] == b[i] by {
                if i > 0 {
                    assert(a.skip(1)[i - 1] == b.skip(1)[i - 1]);
                }
            }
            assert(a.len() == b.len()) by {
                assert(a.skip(1).len() == b.skip(1).len());
            }
            assert(a == b);
        }
    } else if a.len() == 0 && b.len() == 0 {
        assert(a == b);
    }
}

/// The lexicographic order is transitive.
pub proof fn text_less_is_transitive(a: Seq<char>, b: Seq<char>, c: Seq<char>)
    requires
        text_less(a, b),
        text_less(b, c),
    ensures
        text_less(a, c),
    decreases a.len(),
{
    if a.len() > 0 && a[0] == b[0] && b[0] == c[0] {
        text_less_is_transitive(a.skip(1), b.skip(1), c.skip(1));
    }
}

/// Decide the lexicographic order.
pub fn less(a: &[char], b: &[char]) -> (r: bool)
    ensures
        r == text_less(a@, b@),
{
    let mut i: usize = 0;
    proof {
        assert(a@.skip(0) == a@);
        assert(b@.skip(0) == b@);
    }
    while i < a.len() && i < b.len()
        invariant
            i <= a@.len(),
            i <= b@.len(),
            text_less(a@, b@) == text_less(a@.skip(i as int), b@.skip(i as int)),
        decreases a@.len() - i,
    {
        proof {
            assert(a@.skip(i as int)[0] == a@[i as int]);
            assert(b@.skip(i as int)[0] == b@[i as int]);
            assert(a@.skip(i as int).skip(1) == a@.skip(i + 1));
            assert(b@.skip(i as int).skip(1) == b@.skip(i + 1));
        }
        if a[i] != b[i] {
            return a[i] < b[i];
        }
        i += 1;
    }
    i < b.len()
}

/// Decide the lexicographic order of two strings.
pub fn less_str(a: &str, b: &str) -> (r: bool)
    ensures
        r == text_less(a@, b@),
{
    let a = chars_of(a);
    let b = chars_of(b);
    less(a.as_slice(), b.as_slice())
}

// ---------------------------------------------------------------------------
// Splitting
// ---------------------------------------------------------------------------

/// The text before and after the first `c`.
pub open spec fn cut(s: Seq<char>, c: char) -> Option<(Seq<char>, Seq<char>)> {
    let n = lead_len(s, CharClass::Except(c));
    if n < s.len() {
        Some((s.take(n as int), s.skip(n as int + 1)))
    } else {
        None
    }
}

/// The text before and after the last `c`.
pub open spec fn cut_last(s: Seq<char>, c: char) -> Option<(Seq<char>, Seq<char>)> {
    let n = trail_len(s, CharClass::Except(c));
    if n < s.len() {
        Some((s.take(s.len() - n - 1), s.skip(s.len() - n)))
    } else {
        None
    }
}

/// A pair of slices seen as a pair of texts.
pub open spec fn cut_view(r: Option<(&[char], &[char])>) -> Option<(Seq<char>, Seq<char>)> {
    match r {
        Some(p) => Some((p.0@, p.1@)),
        None => None,
    }
}

/// Split at the first `c`.
pub fn split_once(s: &[char], c: char) -> (r: Option<(&[char], &[char])>)
    ensures
        cut_view(r) == cut(s@, c),
{
    let n = lead(s, CharClass::Except(c));
    if n < s.len() {
        Some((slice_subrange(s, 0, n), slice_subrange(s, n + 1, s.len())))
    } else {
        None
    }
}

/// Split at the last `c`.
pub fn rsplit_once(s: &[char], c: char) -> (r: Option<(&[char], &[char])>)
    ensures
        cut_view(r) == cut_last(s@, c),
{
    let n = trail(s, CharClass::Except(c));
    let len = s.len();
    if n < len {
        Some((slice_subrange(s, 0, len - n - 1), slice_subrange(s, len - n, len)))
    } else {
        None
    }
}

/// The pieces of a text between occurrences of `c`; always at least one.
pub open spec fn pieces(s: Seq<char>, c: char) -> Seq<Seq<char>>
    decreases s.len(),
{
    let n = lead_len(s, CharClass::Except(c)) as int;
    if 0 <= n < s.len() {
        seq![s.take(n)] + pieces(s.skip(n + 1), c)
    } else {
        seq![s]
    }
}

/// The maximal runs of non-white characters.
pub open spec fn words(s: Seq<char>) -> Seq<Seq<char>>
    decreases s.len(),
{
    let t = trimmed_start(s, CharClass::White);
    let n = lead_len(t, CharClass::Word);
    if 0 < n <= t.len() <= s.len() {
        seq![t.take(n as int)] + words(t.skip(n as int))
    } else {
        Seq::empty()
    }
}

/// A vector of texts seen as a sequence of texts.
pub open spec fn texts(v: Seq<Vec<char>>) -> Seq<Seq<char>> {
    Seq::new(v.len(), |i: int| v[i]@)
}

/// A vector of strings seen as a sequence of texts.
pub open spec fn strings(v: Seq<String>) -> Seq<Seq<char>> {
    Seq::new(v.len(), |i: int| v[i]@)
}

/// Split at every `c`.
pub fn split(s: &[char], c: char) -> (r: Vec<Vec<char>>)
    ensures
        texts(r@) == pieces(s@, c),
{
    let mut out: Vec<Vec<char>> = Vec::new();
    let mut rest = s;
    loop
        invariant
            texts(out@) + pieces(rest@, c) == pieces(s@, c),
        decreases rest@.len(),
    {
        let n = lead(rest, CharClass::Except(c));
        let ghost before = texts(out@);
        if n == rest.len() {
            out.push(copy_of(rest));
            proof {
                assert(texts(out@) == before + seq![rest@]);
            }
            return out;
        }
        let piece = copy_of(slice_subrange(rest, 0, n));
        let ghost head = piece@;
        out.push(piece);
        proof {
            assert(texts(out@) == before + seq![head]);
            assert(before + (seq![head] + pieces(rest@.skip(n + 1), c)) == (before + seq![head])
                + pieces(rest@.skip(n + 1), c));
        }
        rest = slice_subrange(rest, n + 1, rest.len());
    }
}

/// Split into words.
pub fn split_words(s: &[char]) -> (r: Vec<Vec<char>>)
    ensures
        texts(r@) == words(s@),
{
    let mut out: Vec<Vec<char>> = Vec::new();
    let mut rest = s;
    loop
        invariant
            texts(out@) + words(rest@) == words(s@),
        decreases rest@.len(),
    {
        let ghost whole = rest@;
        let t = trim_start(rest, CharClass::White);
        let n = lead(t, CharClass::Word);
        proof {
            lead_len_stops(whole, CharClass::White);
            lead_len_stops(t@, CharClass::Word);
        }
        if n == 0 {
            proof {
                assert(texts(out@) + words(whole) == texts(out@));
            }
            return out;
        }
        let ghost before = texts(out@);
        let piece = copy_of(slice_subrange(t, 0, n));
        let ghost head = piece@;
        out.push(piece);
        proof {
            assert(texts(out@) == before + seq![head]);
            assert(before + (seq![head] + words(t@.skip(n as int))) == (before + seq![head])
                + words(t@.skip(n as int)));
        }
        rest = slice_subrange(t, n, t.len());
    }
}

/// Texts joined with a separator between neighbours.
pub open spec fn joined(parts: Seq<Seq<char>>, sep: Seq<char>) -> Seq<char>
    decreases parts.len(),
{
    if parts.len() == 0 {
        Seq::empty()
    } else if parts.len() == 1 {
        parts[0]
    } else {
        joined(parts.drop_last(), sep) + sep + parts.last()
    }
}

/// Join texts with a separator.
pub fn join(parts: &Vec<Vec<char>>, sep: &str) -> (r: Vec<char>)
    ensures
        r@ == joined(texts(parts@), sep@),
{
    let mut out: Vec<char> = Vec::new();
    let mut i: usize = 0;
    while i < parts.len()
        invariant
            i <= parts@.len(),
            out@ == joined(texts(parts@).take(i as int), sep@),
        decreases parts@.len() - i,
    {
        let ghost prefix = texts(parts@).take(i as int);
        let ghost next = texts(parts@).take(i + 1);
        proof {
            assert(next.drop_last() == prefix);
            assert(next.last() == parts@[i as int]@);
        }
        if i > 0 {
            extend_str(&mut out, sep);
        }
        extend(&mut out, parts[i].as_slice());
        proof {
            assert(out@ == joined(next, sep@));
        }
        i += 1;
    }
    proof {
        assert(texts(parts@).take(i as int) == texts(parts@));
    }
    out
}

// ---------------------------------------------------------------------------
// Numbers
// ---------------------------------------------------------------------------

/// The character of one digit, decimal or hexadecimal.
pub open spec fn digit_char(d: nat) -> char {
    if d < 10 {
        (('0' as u32) + d) as char
    } else {
        (('a' as u32) + d - 10) as char
    }
}

/// The decimal digits of a number, without leading zeros.
pub open spec fn decimal(n: nat) -> Seq<char>
    decreases n,
{
    if n < 10 {
        seq![digit_char(n)]
    } else {
        decimal(n / 10).push(digit_char(n % 10))
    }
}

/// The decimal digits of an integer, with a leading `-` when negative.
pub open spec fn signed_decimal(n: int) -> Seq<char> {
    if n < 0 {
        seq!['-'] + decimal((-n) as nat)
    } else {
        decimal(n as nat)
    }
}

/// The lowest `width` hexadecimal digits of a number.
pub open spec fn hex(n: nat, width: nat) -> Seq<char>
    decreases width,
{
    if width == 0 {
        Seq::empty()
    } else {
        hex(n / 16, (width - 1) as nat).push(digit_char(n % 16))
    }
}

/// The character of one digit.
pub fn digit(d: u8) -> (c: char)
    requires
        d < 16,
    ensures
        c == digit_char(d as nat),
{
    if d < 10 {
        (48 + d) as char
    } else {
        (97 + (d - 10)) as char
    }
}

/// Write a number in decimal.
pub fn decimal_of(n: u64) -> (r: Vec<char>)
    ensures
        r@ == decimal(n as nat),
    decreases n,
{
    if n < 10 {
        let mut r: Vec<char> = Vec::new();
        r.push(digit(n as u8));
        r
    } else {
        let mut r = decimal_of(n / 10);
        r.push(digit((n % 10) as u8));
        r
    }
}

/// Write an integer in decimal.
pub fn signed_decimal_of(n: i64) -> (r: Vec<char>)
    ensures
        r@ == signed_decimal(n as int),
{
    if n >= 0 {
        decimal_of(n as u64)
    } else {
        let m: u64 = (0i128 - n as i128) as u64;
        let digits = decimal_of(m);
        let mut r: Vec<char> = Vec::new();
        r.push('-');
        extend(&mut r, digits.as_slice());
        r
    }
}

/// Write the lowest `width` hexadecimal digits of a number.
pub fn hex_of(n: u64, width: usize) -> (r: Vec<char>)
    ensures
        r@ == hex(n as nat, width as nat),
    decreases width,
{
    if width == 0 {
        Vec::new()
    } else {
        let mut r = hex_of(n / 16, width - 1);
        r.push(digit((n % 16) as u8));
        r
    }
}

/// The value written by a run of decimal digits.
pub open spec fn decimal_value(s: Seq<char>) -> nat
    decreases s.len(),
{
    if s.len() == 0 {
        0
    } else {
        decimal_value(s.drop_last()) * 10 + (s.last() as nat - '0' as nat) as nat
    }
}

/// Leading digits tell no more than the whole number.
proof fn decimal_value_grows(s: Seq<char>, n: int)
    requires
        0 <= n <= s.len(),
    ensures
        decimal_value(s.take(n)) <= decimal_value(s),
    decreases s.len() - n,
{
    if n < s.len() {
        decimal_value_grows(s, n + 1);
        assert(s.take(n + 1).drop_last() == s.take(n));
    } else {
        assert(s.take(n) == s);
    }
}

/// Read a number written in decimal digits; `None` when it needs more than
/// 64 bits.
pub fn read_decimal(s: &[char]) -> (r: Option<u64>)
    requires
        all_in(s@, CharClass::Digit),
    ensures
        r is Some <==> decimal_value(s@) <= u64::MAX,
        r is Some ==> r->0 == decimal_value(s@),
{
    let mut total: u64 = 0;
    let mut i: usize = 0;
    while i < s.len()
        invariant
            i <= s@.len(),
            all_in(s@, CharClass::Digit),
            total == decimal_value(s@.take(i as int)),
        decreases s@.len() - i,
    {
        let c = s[i];
        proof {
            assert(s@.take(i + 1).drop_last() == s@.take(i as int));
            assert(s@.take(i + 1).last() == c);
            assert(CharClass::Digit.has(c));
            decimal_value_grows(s@, i + 1);
        }
        let d = c as u64 - 48;
        if total > (u64::MAX - d) / 10 {
            return None;
        }
        total = total * 10 + d;
        i += 1;
    }
    proof {
        assert(s@.take(i as int) == s@);
    }
    Some(total)
}

/// Pieces do not hold the character they were cut at.
pub proof fn pieces_lack_the_separator(s: Seq<char>, c: char, k: int)
    requires
        0 <= k < pieces(s, c).len(),
    ensures
        !pieces(s, c)[k].contains(c),
    decreases s.len(),
{
    let n = lead_len(s, CharClass::Except(c)) as int;
    lead_len_stops(s, CharClass::Except(c));
    if n < s.len() {
        let rest = pieces(s.skip(n + 1), c);
        assert(pieces(s, c) == seq![s.take(n)] + rest);
        if k == 0 {
            assert forall|i: int| 0 <= i < n implies #[trigger] s.take(n)[i] != c by {
                assert(CharClass::Except(c).has(s[i]));
            }
        } else {
            pieces_lack_the_separator(s.skip(n + 1), c, k - 1);
        }
    } else {
        assert forall|i: int| 0 <= i < s.len() implies #[trigger] s[i] != c by {
            assert(CharClass::Except(c).has(s[i]));
        }
    }
}

/// Trimming adds no character.
pub proof fn trimming_adds_nothing(s: Seq<char>, k: CharClass, c: char)
    requires
        !s.contains(c),
    ensures
        !trimmed(s, k).contains(c),
{
    lead_len_stops(s, k);
    let t = trimmed_start(s, k);
    trail_len_stops(t, k);
    let r = trimmed(s, k);
    assert forall|i: int| 0 <= i < r.len() implies #[trigger] r[i] != c by {
        assert(r[i] == s[i + lead_len(s, k)]);
    }
}

/// Cutting adds no character.
pub proof fn cutting_adds_nothing(s: Seq<char>, at: char, c: char)
    requires
        !s.contains(c),
        cut(s, at) is Some,
    ensures
        !(cut(s, at)->0).0.contains(c),
{
    let r = (cut(s, at)->0).0;
    assert forall|i: int| 0 <= i < r.len() implies #[trigger] r[i] != c by {
        assert(r[i] == s[i]);
    }
}

/// Whether texts can be told from how they are joined: none is empty, and
/// none holds the separator.
pub open spec fn separable(parts: Seq<Seq<char>>, c: char) -> bool {
    forall|i: int|
        0 <= i < parts.len() ==> (#[trigger] parts[i]).len() > 0 && !parts[i].contains(c)
}

/// Texts joined at a separator that none of them holds can be told from the
/// result.
pub proof fn joining_loses_nothing(p: Seq<Seq<char>>, q: Seq<Seq<char>>, c: char)
    requires
        separable(p, c),
        separable(q, c),
        joined(p, seq![c]) == joined(q, seq![c]),
    ensures
        p == q,
    decreases p.len(),
{
    let sep = seq![c];
    let s = joined(p, sep);
    if p.len() == 0 || q.len() == 0 {
        if p.len() > 0 {
            joined_is_not_empty(p, c);
        }
        if q.len() > 0 {
            joined_is_not_empty(q, c);
        }
        assert(p =~= q);
    } else {
        let x = p.last();
        let y = q.last();
        assert(p[p.len() - 1] == x && q[q.len() - 1] == y);
        ends_behind_a_separator(p, c);
        ends_behind_a_separator(q, c);
        if x.len() < y.len() {
            assert(p.len() > 1);
            assert(s[s.len() - x.len() - 1] == c);
            assert(y[y.len() - x.len() - 1] == c);
            assert(y.contains(c));
        }
        if y.len() < x.len() {
            assert(q.len() > 1);
            assert(s[s.len() - y.len() - 1] == c);
            assert(x[x.len() - y.len() - 1] == c);
            assert(x.contains(c));
        }
        assert(x =~= y) by {
            assert(s.skip(s.len() - x.len()) == x);
            assert(s.skip(s.len() - y.len()) == y);
        }
        if p.len() == 1 {
            assert(q.len() == 1);
            assert(p =~= q);
        } else {
            let a = p.drop_last();
            let b = q.drop_last();
            assert(separable(a, c)) by {
                assert forall|i: int| 0 <= i < a.len() implies (#[trigger] a[i]).len() > 0
                    && !a[i].contains(c) by {
                    assert(p[i] == a[i]);
                }
            }
            assert(separable(b, c)) by {
                assert forall|i: int| 0 <= i < b.len() implies (#[trigger] b[i]).len() > 0
                    && !b[i].contains(c) by {
                    assert(q[i] == b[i]);
                }
            }
            assert(joined(a, sep) == s.take(s.len() - x.len() - 1));
            assert(q.len() > 1);
            assert(joined(b, sep) == s.take(s.len() - y.len() - 1));
            joining_loses_nothing(a, b, c);
            assert(p == a.push(x));
            assert(q == b.push(y));
        }
    }
}

/// Texts that are not empty do not join to nothing.
proof fn joined_is_not_empty(p: Seq<Seq<char>>, c: char)
    requires
        separable(p, c),
        p.len() > 0,
    ensures
        joined(p, seq![c]).len() > 0,
{
    assert(p[p.len() - 1].len() > 0);
}

/// What was joined ends in the last text, and a separator stands before it
/// unless it is the only one.
proof fn ends_behind_a_separator(p: Seq<Seq<char>>, c: char)
    requires
        separable(p, c),
        p.len() > 0,
    ensures
        ({
            let s = joined(p, seq![c]);
            let x = p.last();
            &&& s.len() >= x.len()
            &&& s.skip(s.len() - x.len()) == x
            &&& p.len() == 1 <==> s.len() == x.len()
            &&& p.len() > 1 ==> s[s.len() - x.len() - 1] == c
        }),
{
    let s = joined(p, seq![c]);
    assert(s.skip(s.len() - p.last().len()) =~= p.last());
}

/// Joined texts, the first of them in front.
proof fn joining_starts_in_front(parts: Seq<Seq<char>>, sep: Seq<char>)
    requires
        parts.len() > 1,
    ensures
        joined(parts, sep) == parts[0] + sep + joined(parts.skip(1), sep),
    decreases parts.len(),
{
    let front = parts.drop_last();
    let rest = parts.skip(1);
    assert(rest.last() == parts.last());
    if parts.len() == 2 {
        assert(front =~= seq![parts[0]]);
        assert(joined(front, sep) == parts[0]);
    } else {
        joining_starts_in_front(front, sep);
        assert(front.skip(1) =~= rest.drop_last());
        assert(joined(parts, sep) =~= parts[0] + sep + joined(rest, sep));
    }
}

/// What leads up to a character that does not occur in it.
proof fn the_separator_ends_the_lead(p: Seq<char>, c: char, rest: Seq<char>)
    requires
        !p.contains(c),
    ensures
        lead_len(p + seq![c] + rest, CharClass::Except(c)) == p.len(),
{
    let s = p + seq![c] + rest;
    let k = CharClass::Except(c);
    lead_len_stops(s, k);
    let n = lead_len(s, k) as int;
    if n < p.len() {
        assert(s[n] == p[n]);
        assert(p.contains(p[n]));
    }
    if n > p.len() {
        assert(k.has(s[p.len() as int]));
    }
}

/// Texts joined at a character that none of them holds are the pieces of the
/// result.
pub proof fn joined_texts_are_its_pieces(parts: Seq<Seq<char>>, c: char)
    requires
        parts.len() > 0,
        forall|i: int| 0 <= i < parts.len() ==> !(#[trigger] parts[i]).contains(c),
    ensures
        pieces(joined(parts, seq![c]), c) == parts,
    decreases parts.len(),
{
    let s = joined(parts, seq![c]);
    if parts.len() == 1 {
        let k = CharClass::Except(c);
        lead_len_stops(s, k);
        let n = lead_len(s, k) as int;
        assert(!parts[0].contains(c));
        if n < s.len() {
            assert(s.contains(s[n]));
        }
        assert(pieces(s, c) =~= parts);
    } else {
        let rest = parts.skip(1);
        assert forall|i: int| 0 <= i < rest.len() implies !(#[trigger] rest[i]).contains(c) by {
            assert(rest[i] == parts[i + 1]);
        }
        joined_texts_are_its_pieces(rest, c);
        joining_starts_in_front(parts, seq![c]);
        assert(!parts[0].contains(c));
        the_separator_ends_the_lead(parts[0], c, joined(rest, seq![c]));
        let n = parts[0].len() as int;
        assert(s.take(n) =~= parts[0]);
        assert(s.skip(n + 1) =~= joined(rest, seq![c]));
        assert(seq![parts[0]] + rest =~= parts);
    }
}

} // verus!
