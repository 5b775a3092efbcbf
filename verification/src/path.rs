//! Unix paths as text.

use crate::text::{chars_of, cut_last, extend, rsplit_once, string_of};
use vstd::prelude::*;

verus! {

/// A path and a component below it. An absolute component replaces the path.
pub open spec fn path_joined(base: Seq<char>, part: Seq<char>) -> Seq<char> {
    if base.len() == 0 || absolute(part) {
        part
    } else if base.last() == '/' {
        base + part
    } else {
        base + seq!['/'] + part
    }
}

/// Whether a path starts at the root.
pub open spec fn absolute(path: Seq<char>) -> bool {
    path.len() > 0 && path[0] == '/'
}

/// Decide `absolute`.
pub fn is_absolute(path: &str) -> (r: bool)
    ensures
        r == absolute(path@),
{
    let cs = chars_of(path);
    cs.len() > 0 && cs[0] == '/'
}

/// Join a path and a component.
pub fn join_path(base: &str, part: &str) -> (r: String)
    ensures
        r@ == path_joined(base@, part@),
{
    let mut out = chars_of(base);
    let p = chars_of(part);
    let n = out.len();
    if n == 0 || (p.len() > 0 && p[0] == '/') {
        return string_of(p.as_slice());
    }
    if out[n - 1] != '/' {
        out.push('/');
    }
    extend(&mut out, p.as_slice());
    string_of(out.as_slice())
}

/// The part of a file name behind its last period. A name that has no period,
/// or none but its first character, has no extension.
pub open spec fn extension_of(name: Seq<char>) -> Option<Seq<char>> {
    match cut_last(name, '.') {
        Some((stem, ext)) => if stem.len() > 0 {
            Some(ext)
        } else {
            None
        },
        None => None,
    }
}

/// Find `extension_of`.
pub fn extension(name: &[char]) -> (r: Option<&[char]>)
    ensures
        r is Some <==> extension_of(name@) is Some,
        r is Some ==> r->0@ == extension_of(name@)->0,
{
    match rsplit_once(name, '.') {
        Some((stem, ext)) => {
            if stem.len() > 0 {
                Some(ext)
            } else {
                None
            }
        },
        None => None,
    }
}

} // verus!
