//! What progress reporting shows.
//!
//! The primary consumer of this tool parses JSON from **stdout**, so every
//! byte of progress goes to stderr.

use crate::text::{copy_of, decimal, decimal_of, extend, string_of};
use vstd::prelude::*;
use vstd::slice::slice_subrange;

verus! {

/// When progress is drawn.
#[derive(Debug, Clone, Copy, PartialEq, Eq, Structural)]
pub enum ProgressMode {
    /// Draw only when stderr is an interactive terminal.
    Auto,
    /// Draw even when stderr is redirected.
    Always,
    /// Never draw.
    Never,
}

impl Default for ProgressMode {
    fn default() -> (r: ProgressMode)
        ensures
            r == ProgressMode::Auto,
    {
        ProgressMode::Auto
    }
}

/// Digits in groups of three, counted from the end, with commas between.
pub open spec fn grouped(s: Seq<char>) -> Seq<char>
    decreases s.len(),
{
    if s.len() <= 3 {
        s
    } else {
        grouped(s.take(s.len() - 3)) + seq![','] + s.skip(s.len() - 3)
    }
}

/// Group digits.
fn group(s: &[char]) -> (r: Vec<char>)
    ensures
        r@ == grouped(s@),
    decreases s@.len(),
{
    if s.len() <= 3 {
        return copy_of(s);
    }
    let n = s.len() - 3;
    let mut out = group(slice_subrange(s, 0, n));
    out.push(',');
    extend(&mut out, slice_subrange(s, n, s.len()));
    out
}

/// Format a count with thousands separators: 12400 -> "12,400".
pub fn thousands(n: usize) -> (r: String)
    ensures
        r@ == grouped(decimal(n as nat)),
{
    let digits = decimal_of(n as u64);
    let out = group(digits.as_slice());
    string_of(out.as_slice())
}

/// Grouping only adds commas: without them the digits are the same.
pub proof fn grouping_keeps_the_digits(s: Seq<char>)
    requires
        forall|i: int| 0 <= i < s.len() ==> s[i] != ',',
    ensures
        grouped(s).filter(|c: char| c != ',') == s,
    decreases s.len(),
{
    let keep = |c: char| c != ',';
    if s.len() <= 3 {
        kept_whole(s);
    } else {
        let head = s.take(s.len() - 3);
        let tail = s.skip(s.len() - 3);
        grouping_keeps_the_digits(head);
        kept_whole(tail);
        Seq::filter_distributes_over_add(grouped(head) + seq![','], tail, keep);
        Seq::filter_distributes_over_add(grouped(head), seq![','], keep);
        assert(seq![','].filter(keep) == Seq::<char>::empty()) by {
            reveal_with_fuel(Seq::filter, 2);
            let comma = seq![','];
            assert(comma.last() == ',');
            assert(comma.drop_last().len() == 0);
        }
        assert(head + tail == s);
    }
}

/// Text without a comma loses nothing when commas are dropped.
proof fn kept_whole(s: Seq<char>)
    requires
        forall|i: int| 0 <= i < s.len() ==> s[i] != ',',
    ensures
        s.filter(|c: char| c != ',') == s,
    decreases s.len(),
{
    reveal(Seq::filter);
    if s.len() > 0 {
        kept_whole(s.drop_last());
        assert(s == s.drop_last().push(s.last()));
    }
}

} // verus!
