//! Shell-style patterns.

use crate::text::{
    any, any_in, chars_of, lead, lead_len, lead_len_stops, longer_than, utf8_len, CharClass,
};
use vstd::prelude::*;

verus! {

/// The longest pattern that is compiled, in bytes. `globset` panics where a
/// matcher takes more than 10 MiB, which a pattern of this length stays far
/// below.
pub const MAX_PATTERN: usize = 16_384;

/// The deepest that alternations may stand inside one another. Each is up to
/// three levels of the regular expression behind the matcher, the rest of a
/// pattern is up to five, and `globset` panics beyond 250.
pub const MAX_NESTING: usize = 80;

/// Where a character of a pattern stands.
#[derive(Debug, Clone, Copy, PartialEq, Eq, Structural)]
pub enum Spot {
    Plain,
    /// Behind a backslash.
    Escaped,
    /// At the start of a class, where a sign of negation may stand.
    Opened,
    /// At the first member of a class, which may be a closing bracket.
    First,
    /// In a class, where only a closing bracket is special.
    Class,
}

/// How far a pattern was read: where the next character stands, how many
/// alternations are open, and how many were at most.
pub struct Nest {
    pub spot: Spot,
    pub open: nat,
    pub deepest: nat,
}

/// Where the next character stands.
pub open spec fn next_spot(spot: Spot, c: char) -> Spot {
    match spot {
        Spot::Plain => if c == '\\' {
            Spot::Escaped
        } else if c == '[' {
            Spot::Opened
        } else {
            Spot::Plain
        },
        Spot::Escaped => Spot::Plain,
        Spot::Opened => if c == '!' || c == '^' {
            Spot::First
        } else {
            Spot::Class
        },
        Spot::First => Spot::Class,
        Spot::Class => if c == ']' {
            Spot::Plain
        } else {
            Spot::Class
        },
    }
}

/// How alternations stand inside one another in a pattern. A brace counts
/// where it is neither escaped nor in a class.
pub open spec fn nest(s: Seq<char>) -> Nest
    decreases s.len(),
{
    if s.len() == 0 {
        Nest { spot: Spot::Plain, open: 0, deepest: 0 }
    } else {
        let past = nest(s.drop_last());
        let c = s.last();
        let open = if past.spot == Spot::Plain && c == '{' {
            past.open + 1
        } else if past.spot == Spot::Plain && c == '}' && past.open > 0 {
            (past.open - 1) as nat
        } else {
            past.open
        };
        Nest {
            spot: next_spot(past.spot, c),
            open,
            deepest: if open > past.deepest {
                open
            } else {
                past.deepest
            },
        }
    }
}

/// Whether a pattern is small enough to be compiled.
pub open spec fn bounded(pattern: Seq<char>) -> bool {
    utf8_len(pattern) <= MAX_PATTERN && nest(pattern).deepest <= MAX_NESTING
}

/// Find `next_spot`.
fn spot_behind(spot: Spot, c: char) -> (r: Spot)
    ensures
        r == next_spot(spot, c),
{
    match spot {
        Spot::Plain => if c == '\\' {
            Spot::Escaped
        } else if c == '[' {
            Spot::Opened
        } else {
            Spot::Plain
        },
        Spot::Escaped => Spot::Plain,
        Spot::Opened => if c == '!' || c == '^' {
            Spot::First
        } else {
            Spot::Class
        },
        Spot::First => Spot::Class,
        Spot::Class => if c == ']' {
            Spot::Plain
        } else {
            Spot::Class
        },
    }
}

/// Find how deep the alternations of a pattern stand.
fn nesting(s: &[char]) -> (r: usize)
    ensures
        r == nest(s@).deepest,
{
    let mut spot = Spot::Plain;
    let mut open: usize = 0;
    let mut deepest: usize = 0;
    let mut i: usize = 0;
    while i < s.len()
        invariant
            i <= s@.len(),
            open <= i,
            deepest <= i,
            nest(s@.take(i as int)) == (Nest { spot, open: open as nat, deepest: deepest as nat }),
        decreases s@.len() - i,
    {
        let c = s[i];
        proof {
            assert(s@.take(i + 1).drop_last() == s@.take(i as int));
            assert(s@.take(i + 1).last() == c);
        }
        if spot == Spot::Plain && c == '{' {
            open += 1;
        } else if spot == Spot::Plain && c == '}' && open > 0 {
            open -= 1;
        }
        if open > deepest {
            deepest = open;
        }
        spot = spot_behind(spot, c);
        i += 1;
    }
    proof {
        assert(s@.take(i as int) == s@);
    }
    deepest
}

/// Decide `bounded`.
pub fn is_bounded(pattern: &str) -> (r: bool)
    ensures
        r == bounded(pattern@),
{
    let cs = chars_of(pattern);
    !longer_than(cs.as_slice(), MAX_PATTERN) && nesting(cs.as_slice()) <= MAX_NESTING
}

/// Why `globset` refuses a pattern; `None` where it does not. This and the next
/// speak of platforms whose paths are separated by `/` alone, where a
/// backslash escapes.
pub uninterp spec fn glob_fault(pattern: Seq<char>) -> Option<Seq<char>>;

/// Whether `globset` matches a name against a pattern.
pub uninterp spec fn glob_match(pattern: Seq<char>, name: Seq<char>) -> bool;

/// The content of an optional text.
pub open spec fn opt_text(s: Option<String>) -> Option<Seq<char>> {
    match s {
        Some(t) => Some(t@),
        None => None,
    }
}

/// `globset::Glob::new`: the message of the error it returns for a malformed
/// pattern, or `None` for a pattern it accepts.
#[verifier::external_body]
fn glob_error(pattern: &str) -> (r: Option<String>)
    requires
        bounded(pattern@),
    ensures
        opt_text(r) == glob_fault(pattern@),
{
    globset::Glob::new(pattern).err().map(|e| e.to_string())
}

/// `globset::GlobMatcher::is_match`, for the matcher compiled from an accepted
/// pattern; `false` for a pattern that is not accepted.
#[verifier::external_body]
pub(crate) fn glob_matches(pattern: &str, name: &str) -> (r: bool)
    requires
        bounded(pattern@),
    ensures
        r == glob_match(pattern@, name@),
{
    globset::Glob::new(pattern).is_ok_and(|g| g.compile_matcher().is_match(name))
}

/// What a pattern beyond the bounds is told.
pub open spec fn too_large() -> Seq<char> {
    "the pattern is too long or nests too deeply"@
}

/// Why a pattern is refused: it is beyond the bounds, or malformed.
pub open spec fn refusal(pattern: Seq<char>) -> Option<Seq<char>> {
    if bounded(pattern) {
        glob_fault(pattern)
    } else {
        Some(too_large())
    }
}

/// Find `refusal`.
pub fn check_glob(pattern: &str) -> (r: Option<String>)
    ensures
        opt_text(r) == refusal(pattern@),
        r is None ==> bounded(pattern@),
{
    if is_bounded(pattern) {
        glob_error(pattern)
    } else {
        Some("the pattern is too long or nests too deeply".to_owned())
    }
}

/// Whether a text holds a metacharacter.
pub open spec fn globbed(s: Seq<char>) -> bool {
    any_in(s, CharClass::Glob)
}

/// Decide `globbed`.
pub fn is_glob(s: &str) -> (r: bool)
    ensures
        r == globbed(s@),
{
    let cs = chars_of(s);
    any(cs.as_slice(), CharClass::Glob)
}

/// The text in front of the first metacharacter.
pub open spec fn literal_prefix(s: Seq<char>) -> Seq<char> {
    s.take(lead_len(s, CharClass::Literal) as int)
}

/// Find `literal_prefix`.
pub fn prefix_of(s: &str) -> (r: String)
    ensures
        r@ == literal_prefix(s@),
{
    let cs = chars_of(s);
    let n = lead(cs.as_slice(), CharClass::Literal);
    proof {
        lead_len_stops(s@, CharClass::Literal);
    }
    crate::text::string_of(vstd::slice::slice_subrange(cs.as_slice(), 0, n))
}

/// A pattern without metacharacters is its own literal prefix.
pub proof fn a_literal_is_its_own_prefix(s: Seq<char>)
    requires
        !globbed(s),
    ensures
        literal_prefix(s) == s,
{
    lead_len_stops(s, CharClass::Literal);
    let n = lead_len(s, CharClass::Literal) as int;
    if n < s.len() {
        assert(CharClass::Glob.has(s[n]));
    }
}

} // verus!
