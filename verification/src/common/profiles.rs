//! Discovery and glob-matching of AWS profiles from `~/.aws/config`.
//!
//! Fanning one query across several accounts is the common case here: a
//! service spans dev/test/stg/uat/prod, and "is this everywhere or just
//! prod?" is usually the first question. `--profiles '*-power'`
//! answers it in one call.
//!
//! Only the header lines matter for discovery, so this is a small function
//! over text.

use crate::common::errors::{Error, Fault};
use crate::glob::{bounded, check_glob, glob_match, glob_matches, refusal};
use crate::order::{
    appending_permutes, exchanging_permutes, filtering_permutes, names_are_ordered, ordered,
    permuted, permuted_is_same, sort, sorting_commutes, sorting_keeps_elements, sorting_orders,
    sorting_permutes, Ordered,
};
use crate::text::{
    begins, chars_of, copy_of, cut, cutting_adds_nothing, is_str, join, joined,
    joined_texts_are_its_pieces, joining_loses_nothing, pieces, pieces_lack_the_separator, same, separable, split, split_once,
    starts_with_str, string_of, strings, text_less, text_less_is_total, texts, trim, trimmed,
    trimming_adds_nothing, CharClass,
};
use vstd::prelude::*;
use vstd::slice::slice_subrange;
use vstd::string::StringExecFns;

verus! {

// ---------------------------------------------------------------------------
// Lines
// ---------------------------------------------------------------------------

/// A line without its comment and the white space around it.
pub open spec fn cleaned(line: Seq<char>) -> Seq<char> {
    let t = trimmed(line, CharClass::White);
    match cut(t, '#') {
        Some((head, _)) => trimmed(head, CharClass::White),
        None => t,
    }
}

/// The name of the section a line opens.
pub open spec fn header(line: Seq<char>) -> Option<Seq<char>> {
    if line.len() >= 2 && line[0] == '[' && line.last() == ']' {
        Some(trimmed(line.subrange(1, line.len() - 1), CharClass::White))
    } else {
        None
    }
}

/// The lines of a file, cleaned.
pub open spec fn config_lines(config: Seq<char>) -> Seq<Seq<char>> {
    pieces(config, '\n').map_values(|l: Seq<char>| cleaned(l))
}

/// Clean one line.
fn clean(line: &[char]) -> (r: &[char])
    ensures
        r@ == cleaned(line@),
{
    let t = trim(line, CharClass::White);
    match split_once(t, '#') {
        Some((head, _)) => trim(head, CharClass::White),
        None => t,
    }
}

/// Find the section a line opens.
fn section_header(line: &[char]) -> (r: Option<&[char]>)
    ensures
        r is Some <==> header(line@) is Some,
        r is Some ==> r->0@ == header(line@)->0,
{
    let n = line.len();
    if n >= 2 && line[0] == '[' && line[n - 1] == ']' {
        Some(trim(slice_subrange(line, 1, n - 1), CharClass::White))
    } else {
        None
    }
}

/// Read a file's lines, cleaned.
fn read_lines(config: &str) -> (r: Vec<Vec<char>>)
    ensures
        texts(r@) == config_lines(config@),
{
    let cs = chars_of(config);
    let raw = split(cs.as_slice(), '\n');
    let ghost want = config_lines(config@);
    let mut out: Vec<Vec<char>> = Vec::new();
    let mut i: usize = 0;
    proof {
        assert(texts(raw@).len() == raw@.len());
    }
    while i < raw.len()
        invariant
            i <= raw@.len(),
            texts(raw@) == pieces(config@, '\n'),
            want == config_lines(config@),
            want.len() == raw@.len(),
            texts(out@) == want.take(i as int),
        decreases raw@.len() - i,
    {
        let ghost out0 = out@;
        out.push(copy_of(clean(raw[i].as_slice())));
        proof {
            assert(texts(raw@)[i as int] == raw@[i as int]@);
            assert(texts(out@) == texts(out0).push(want[i as int]));
            assert(want.take(i + 1) == want.take(i as int).push(want[i as int]));
        }
        i += 1;
    }
    proof {
        assert(want.take(i as int) == want);
    }
    out
}

// ---------------------------------------------------------------------------
// Names
// ---------------------------------------------------------------------------

/// The profile a section configures. Sections of other types, such as
/// `[sso-session x]` and `[services x]`, are not profiles.
pub open spec fn profile_of(section: Seq<char>) -> Option<Seq<char>> {
    if section == "default"@ {
        Some("default"@)
    } else if begins(section, "profile "@) {
        let name = trimmed(section.skip(8), CharClass::White);
        if name.len() > 0 {
            Some(name)
        } else {
            None
        }
    } else {
        None
    }
}

/// The profile a line opens the section of.
pub open spec fn opened_profile(line: Seq<char>) -> Option<Seq<char>> {
    match header(line) {
        Some(section) => profile_of(section),
        None => None,
    }
}

/// The profiles whose sections lines open, in order.
pub open spec fn profile_names(ls: Seq<Seq<char>>) -> Seq<Seq<char>>
    decreases ls.len(),
{
    if ls.len() == 0 {
        Seq::empty()
    } else {
        match opened_profile(ls.last()) {
            Some(name) => profile_names(ls.drop_last()).push(name),
            None => profile_names(ls.drop_last()),
        }
    }
}

/// Find `profile_of`.
fn profile_in(section: &[char]) -> (r: Option<String>)
    ensures
        r is Some <==> profile_of(section@) is Some,
        r is Some ==> r->0@ == profile_of(section@)->0,
{
    if is_str(section, "default") {
        return Some("default".to_owned());
    }
    if starts_with_str(section, "profile ") {
        proof {
            reveal_strlit("profile ");
        }
        let name = trim(slice_subrange(section, 8, section.len()), CharClass::White);
        if name.len() > 0 {
            return Some(string_of(name));
        }
    }
    None
}

/// Extract profile names from the text of an AWS config file.
///
/// `[default]` yields `default`; `[profile foo]` yields `foo`. Other section
/// types are skipped, so a glob can never select something unusable as
/// `--profile`.
pub fn parse_profile_names(config: &str) -> (r: Vec<String>)
    ensures
        strings(r@) == profile_names(config_lines(config@)),
{
    let ls = read_lines(config);
    let ghost all = config_lines(config@);
    let mut names: Vec<String> = Vec::new();
    let mut i: usize = 0;
    proof {
        assert(texts(ls@).len() == ls@.len());
    }
    while i < ls.len()
        invariant
            i <= ls@.len(),
            texts(ls@) == all,
            strings(names@) == profile_names(all.take(i as int)),
        decreases ls@.len() - i,
    {
        let ghost names0 = names@;
        let line = ls[i].as_slice();
        proof {
            assert(all[i as int] == line@);
            assert(all.take(i + 1).drop_last() == all.take(i as int));
            assert(all.take(i + 1).last() == line@);
        }
        if let Some(section) = section_header(line) {
            if let Some(name) = profile_in(section) {
                let ghost text = name@;
                names.push(name);
                proof {
                    assert(strings(names@) == strings(names0).push(text));
                }
            }
        }
        i += 1;
    }
    proof {
        assert(all.take(i as int) == all);
    }
    names
}

// ---------------------------------------------------------------------------
// Selection
// ---------------------------------------------------------------------------

/// The names a pattern matches, in order.
pub open spec fn matching(pattern: Seq<char>, names: Seq<Seq<char>>) -> Seq<Seq<char>>
    decreases names.len(),
{
    if names.len() == 0 {
        Seq::empty()
    } else if glob_match(pattern, names.last()) {
        matching(pattern, names.drop_last()).push(names.last())
    } else {
        matching(pattern, names.drop_last())
    }
}

/// The profiles a pattern selects, given why it is refused, if it is, and
/// the names it matches.
pub open spec fn selection(
    pattern: Seq<char>,
    fault: Option<Seq<char>>,
    matched: Seq<Seq<char>>,
) -> Result<Seq<Seq<char>>, Fault> {
    if fault is Some {
        Err(Fault::NoProfileMatch { pattern: pattern + " ("@ + fault->0 + ")"@ })
    } else if matched.len() == 0 {
        Err(Fault::NoProfileMatch { pattern })
    } else {
        Ok(matched)
    }
}

/// The texts of string slices.
pub open spec fn strs(v: Seq<&str>) -> Seq<Seq<char>> {
    v.map_values(|s: &str| s@)
}

/// The content of a selection.
pub open spec fn selected(r: Result<Vec<&str>, Error>) -> Result<Seq<Seq<char>>, Fault> {
    match r {
        Ok(v) => Ok(strs(v@)),
        Err(e) => Err(e@),
    }
}

/// Select profiles, given what the pattern matches.
///
/// A pattern with no glob metacharacters must still match an existing
/// profile: a typo like `beta-powr` fails loudly here rather than
/// producing a confusing credential error several seconds later.
pub fn select<'a>(pattern: &str, fault: Option<String>, matched: Vec<&'a str>) -> (r: Result<
    Vec<&'a str>,
    Error,
>)
    ensures
        selected(r) == selection(pattern@, crate::glob::opt_text(fault), strs(matched@)),
{
    if let Some(e) = fault {
        return Err(
            Error::NoProfileMatch {
                pattern: pattern.to_owned().concat(" (").concat(e.as_str()).concat(")"),
            },
        );
    }
    proof {
        assert(strs(matched@).len() == matched@.len());
    }
    if matched.len() == 0 {
        return Err(Error::NoProfileMatch { pattern: pattern.to_owned() });
    }
    Ok(matched)
}

/// Select the profiles matching `pattern`.
pub fn resolve<'a>(pattern: &str, available: &'a [String]) -> (r: Result<Vec<&'a str>, Error>)
    ensures
        selected(r) == selection(
            pattern@,
            refusal(pattern@),
            matching(pattern@, strings(available@)),
        ),
{
    let fault = check_glob(pattern);
    let mut matched: Vec<&'a str> = Vec::new();
    let ghost all = strings(available@);
    if fault.is_none() {
        let mut i: usize = 0;
        while i < available.len()
            invariant
                bounded(pattern@),
                i <= available@.len(),
                all == strings(available@),
                strs(matched@) == matching(pattern@, all.take(i as int)),
            decreases available@.len() - i,
        {
            let ghost matched0 = matched@;
            let name = available[i].as_str();
            proof {
                assert(all[i as int] == name@);
                assert(all.take(i + 1).drop_last() == all.take(i as int));
                assert(all.take(i + 1).last() == name@);
            }
            if glob_matches(pattern, name) {
                matched.push(name);
                proof {
                    assert(strs(matched@) == strs(matched0).push(name@));
                }
            }
            i += 1;
        }
        proof {
            assert(all.take(i as int) == all);
        }
    }
    select(pattern, fault, matched)
}

// ---------------------------------------------------------------------------
// Sections
// ---------------------------------------------------------------------------

/// The section that configures a profile.
pub open spec fn section_of(profile: Seq<char>) -> Seq<char> {
    if profile == "default"@ {
        "default"@
    } else {
        "profile "@ + profile
    }
}

/// Whether the line behind `ls` is in the wanted section.
pub open spec fn inside(ls: Seq<Seq<char>>, wanted: Seq<char>) -> bool
    decreases ls.len(),
{
    if ls.len() == 0 {
        false
    } else {
        match header(ls.last()) {
            Some(section) => section == wanted,
            None => inside(ls.drop_last(), wanted),
        }
    }
}

/// The lines of the wanted section, without headers and empty lines.
pub open spec fn section_body(ls: Seq<Seq<char>>, wanted: Seq<char>) -> Seq<Seq<char>>
    decreases ls.len(),
{
    if ls.len() == 0 {
        Seq::empty()
    } else if header(ls.last()) is None && inside(ls.drop_last(), wanted) && ls.last().len() > 0 {
        section_body(ls.drop_last(), wanted).push(ls.last())
    } else {
        section_body(ls.drop_last(), wanted)
    }
}

/// The name of a profile's section.
fn section_name(profile: &str) -> (r: Vec<char>)
    ensures
        r@ == section_of(profile@),
{
    let p = chars_of(profile);
    if is_str(p.as_slice(), "default") {
        return p;
    }
    let mut out = chars_of("profile ");
    crate::text::extend(&mut out, p.as_slice());
    out
}

/// Read the lines of a profile's section.
fn read_section(config: &str, profile: &str) -> (r: Vec<Vec<char>>)
    ensures
        texts(r@) == section_body(config_lines(config@), section_of(profile@)),
{
    let ls = read_lines(config);
    let wanted = section_name(profile);
    let ghost all = config_lines(config@);
    let mut body: Vec<Vec<char>> = Vec::new();
    let mut within = false;
    let mut i: usize = 0;
    proof {
        assert(texts(ls@).len() == ls@.len());
    }
    while i < ls.len()
        invariant
            i <= ls@.len(),
            texts(ls@) == all,
            within == inside(all.take(i as int), wanted@),
            texts(body@) == section_body(all.take(i as int), wanted@),
        decreases ls@.len() - i,
    {
        let ghost body0 = body@;
        let line = ls[i].as_slice();
        proof {
            assert(all[i as int] == line@);
            assert(all.take(i + 1).drop_last() == all.take(i as int));
            assert(all.take(i + 1).last() == line@);
        }
        match section_header(line) {
            Some(section) => {
                within = same(section, wanted.as_slice());
            },
            None => {
                if within && line.len() > 0 {
                    body.push(copy_of(line));
                    proof {
                        assert(texts(body@) == texts(body0).push(line@));
                    }
                }
            },
        }
        i += 1;
    }
    proof {
        assert(all.take(i as int) == all);
    }
    body
}

/// Whether a line is a setting of SSO.
pub open spec fn sso_setting(line: Seq<char>) -> bool {
    match cut(line, '=') {
        Some((key, _)) => {
            let k = trimmed(key, CharClass::White);
            k == "sso_session"@ || k == "sso_start_url"@
        },
        None => false,
    }
}

/// Whether a profile's own section holds a setting of SSO.
pub open spec fn uses_sso(config: Seq<char>, profile: Seq<char>) -> bool {
    let body = section_body(config_lines(config), section_of(profile));
    exists|i: int| 0 <= i < body.len() && #[trigger] sso_setting(body[i])
}

/// Whether `profile` authenticates via AWS SSO.
///
/// Decides which recovery command an auth failure suggests. Keys are read
/// from the profile's own section only; `sso_session` in a neighbouring
/// profile says nothing about this one.
pub fn is_sso(config: &str, profile: &str) -> (r: bool)
    ensures
        r == uses_sso(config@, profile@),
{
    let body = read_section(config, profile);
    let ghost lines = section_body(config_lines(config@), section_of(profile@));
    let mut i: usize = 0;
    proof {
        assert(texts(body@).len() == body@.len());
    }
    while i < body.len()
        invariant
            i <= body@.len(),
            texts(body@) == lines,
            lines.len() == body@.len(),
            lines == section_body(config_lines(config@), section_of(profile@)),
            forall|j: int| 0 <= j < i ==> !#[trigger] sso_setting(lines[j]),
        decreases body@.len() - i,
    {
        let line = body[i].as_slice();
        proof {
            assert(lines[i as int] == line@);
        }
        if let Some((key, _)) = split_once(line, '=') {
            let k = trim(key, CharClass::White);
            if is_str(k, "sso_session") || is_str(k, "sso_start_url") {
                proof {
                    assert(sso_setting(lines[i as int]));
                }
                return true;
            }
        }
        i += 1;
    }
    false
}

/// The text that stands for a profile's section: its lines, sorted.
pub open spec fn section_digest(body: Seq<Seq<char>>) -> Seq<char> {
    joined(ordered(body), "\n"@)
}

/// The text that stands for what a file configures of a profile.
pub open spec fn fingerprint(config: Seq<char>, profile: Seq<char>) -> Seq<char> {
    section_digest(section_body(config_lines(config), section_of(profile)))
}

/// The body of one profile's section, normalised.
///
/// Used to key the credential cache. Everything that decides *which*
/// principal a profile resolves to lives here (`sso_session`,
/// `sso_account_id`, `sso_role_name`, `role_arn`, `source_profile`), so
/// hashing the whole section catches any change to them without this code
/// needing to know which keys matter. Lines are sorted so merely reordering
/// the file does not invalidate the entry.
pub fn section_text(config: &str, profile: &str) -> (r: String)
    ensures
        r@ == fingerprint(config@, profile@),
{
    let body = read_section(config, profile);
    let ghost lines = texts(body@);
    proof {
        let f = |v: Vec<char>| v@;
        sorting_commutes(body@, f);
        assert(body@.map_values(f) == lines);
        assert(ordered(body@).map_values(f) == texts(ordered(body@)));
    }
    let sorted = sort(body);
    let out = join(&sorted, "\n");
    string_of(out.as_slice())
}

// ---------------------------------------------------------------------------
// Laws
// ---------------------------------------------------------------------------

/// Reordering the lines of a section does not change its text.
pub proof fn section_text_ignores_line_order(a: Seq<Seq<char>>, b: Seq<Seq<char>>)
    requires
        permuted(a, b),
    ensures
        section_digest(a) == section_digest(b),
{
    let x = ordered(a);
    let y = ordered(b);
    sorting_permutes(a);
    sorting_permutes(b);
    sorting_orders(a);
    sorting_orders(b);
    let leq = |p: Seq<char>, q: Seq<char>| !text_less(q, p);
    assert(vstd::relations::total_ordering(leq)) by {
        assert forall|p: Seq<char>| #[trigger] leq(p, p) by {
            text_less_is_total(p, p);
        }
        assert forall|p: Seq<char>, q: Seq<char>| #[trigger]
            leq(p, q) && #[trigger] leq(q, p) implies p == q by {
            text_less_is_total(p, q);
        }
        assert forall|p: Seq<char>, q: Seq<char>, t: Seq<char>| #[trigger]
            leq(p, q) && #[trigger] leq(q, t) implies leq(p, t) by {
            names_are_ordered(t, q, p);
        }
        assert forall|p: Seq<char>, q: Seq<char>| #[trigger] leq(p, q) || #[trigger] leq(q, p) by {
            text_less_is_total(p, q);
        }
    }
    assert forall|i: int, j: int| 0 <= i < j < x.len() implies #[trigger] leq(x[i], x[j]) by {
        assert(!x[j].before(x[i]));
    }
    assert forall|i: int, j: int| 0 <= i < j < y.len() implies #[trigger] leq(y[i], y[j]) by {
        assert(!y[j].before(y[i]));
    }
    vstd::seq_lib::lemma_sorted_unique(x, y, leq);
}

/// Whether a line behind `ls` is in the wanted section, where the line before
/// them was or was not.
spec fn inside_from(ls: Seq<Seq<char>>, wanted: Seq<char>, within: bool) -> bool
    decreases ls.len(),
{
    if ls.len() == 0 {
        within
    } else {
        match header(ls.last()) {
            Some(section) => section == wanted,
            None => inside_from(ls.drop_last(), wanted, within),
        }
    }
}

/// The lines of the wanted section among `ls`, where the line before them was
/// or was not in it.
spec fn body_from(ls: Seq<Seq<char>>, wanted: Seq<char>, within: bool) -> Seq<Seq<char>>
    decreases ls.len(),
{
    if ls.len() == 0 {
        Seq::empty()
    } else if header(ls.last()) is None && inside_from(ls.drop_last(), wanted, within)
        && ls.last().len() > 0 {
        body_from(ls.drop_last(), wanted, within).push(ls.last())
    } else {
        body_from(ls.drop_last(), wanted, within)
    }
}

/// A section is read from a file in parts.
proof fn section_is_read_in_parts(a: Seq<Seq<char>>, b: Seq<Seq<char>>, wanted: Seq<char>)
    ensures
        section_body(a + b, wanted) == section_body(a, wanted) + body_from(
            b,
            wanted,
            inside(a, wanted),
        ),
        inside(a + b, wanted) == inside_from(b, wanted, inside(a, wanted)),
    decreases b.len(),
{
    if b.len() == 0 {
        assert(a + b =~= a);
        assert(section_body(a, wanted) + Seq::<Seq<char>>::empty() =~= section_body(a, wanted));
    } else {
        let front = b.drop_last();
        section_is_read_in_parts(a, front, wanted);
        assert((a + b).drop_last() =~= a + front);
        assert((a + b).last() == b.last());
        let past = section_body(a, wanted);
        let more = body_from(front, wanted, inside(a, wanted));
        assert(past + more.push(b.last()) =~= (past + more).push(b.last()));
    }
}

/// Whether lines hold no header.
pub open spec fn headless(ls: Seq<Seq<char>>) -> bool {
    forall|i: int| 0 <= i < ls.len() ==> header(#[trigger] ls[i]) is None
}

/// Whether lines are whole sections: the first of them is a header, if there
/// is one.
pub open spec fn whole_sections(ls: Seq<Seq<char>>) -> bool {
    ls.len() > 0 ==> header(ls[0]) is Some
}

/// Whether no header among the lines opens the section of a profile.
pub open spec fn not_of(ls: Seq<Seq<char>>, profile: Seq<char>) -> bool {
    forall|i: int| 0 <= i < ls.len() ==> header(#[trigger] ls[i]) != Some(section_of(profile))
}

/// Lines without a header belong to the section before them.
proof fn headless_lines_stay(ls: Seq<Seq<char>>, wanted: Seq<char>, within: bool)
    requires
        headless(ls),
    ensures
        inside_from(ls, wanted, within) == within,
        body_from(ls, wanted, within) == if within {
            ls.filter(|l: Seq<char>| l.len() > 0)
        } else {
            Seq::empty()
        },
    decreases ls.len(),
{
    reveal(Seq::filter);
    if ls.len() > 0 {
        let front = ls.drop_last();
        assert forall|i: int| 0 <= i < front.len() implies header(#[trigger] front[i]) is None by {
            assert(front[i] == ls[i]);
        }
        assert(header(ls[ls.len() - 1]) is None);
        headless_lines_stay(front, wanted, within);
    } else {
        assert(ls.filter(|l: Seq<char>| l.len() > 0) =~= Seq::<Seq<char>>::empty());
    }
}

/// Whole sections are read alike whatever stands before them.
proof fn whole_sections_stand_alone(ls: Seq<Seq<char>>, wanted: Seq<char>, p: bool, q: bool)
    requires
        whole_sections(ls),
    ensures
        body_from(ls, wanted, p) == body_from(ls, wanted, q),
        ls.len() > 0 ==> inside_from(ls, wanted, p) == inside_from(ls, wanted, q),
    decreases ls.len(),
{
    if ls.len() > 0 {
        let front = ls.drop_last();
        if front.len() > 0 {
            assert(front[0] == ls[0]);
        } else {
            assert(ls.last() == ls[0]);
        }
        whole_sections_stand_alone(front, wanted, p, q);
    }
}

/// Lines that do not open a profile's section add nothing to it.
proof fn other_sections_add_nothing(ls: Seq<Seq<char>>, profile: Seq<char>)
    requires
        not_of(ls, profile),
    ensures
        !inside_from(ls, section_of(profile), false),
        body_from(ls, section_of(profile), false) == Seq::<Seq<char>>::empty(),
    decreases ls.len(),
{
    if ls.len() > 0 {
        let front = ls.drop_last();
        assert forall|i: int| 0 <= i < front.len() implies header(#[trigger] front[i]) != Some(
            section_of(profile),
        ) by {
            assert(front[i] == ls[i]);
        }
        assert(header(ls[ls.len() - 1]) != Some(section_of(profile)));
        other_sections_add_nothing(front, profile);
    }
}

/// Reordering lines of a file between two headers does not change what stands
/// for a profile.
pub proof fn reordering_lines_keeps_the_fingerprint(
    a: Seq<char>,
    b: Seq<char>,
    profile: Seq<char>,
    above: Seq<Seq<char>>,
    own: Seq<Seq<char>>,
    again: Seq<Seq<char>>,
    below: Seq<Seq<char>>,
)
    requires
        config_lines(a) == above + own + below,
        config_lines(b) == above + again + below,
        permuted(own, again),
        headless(own),
    ensures
        fingerprint(a, profile) == fingerprint(b, profile),
{
    broadcast use vstd::seq_lib::group_to_multiset_ensures;

    let w = section_of(profile);
    let within = inside(above, w);
    let kept = |l: Seq<char>| l.len() > 0;
    permuted_is_same(own, again);
    assert forall|i: int| 0 <= i < again.len() implies header(#[trigger] again[i]) is None by {
        assert(again.contains(again[i]));
        assert(own.contains(again[i]));
        let k = own.index_of(again[i]);
        assert(header(own[k]) is None);
    }
    headless_lines_stay(own, w, within);
    headless_lines_stay(again, w, within);
    filtering_permutes(own, again, kept);
    section_is_read_in_parts(above, own, w);
    section_is_read_in_parts(above, again, w);
    section_is_read_in_parts(above + own, below, w);
    section_is_read_in_parts(above + again, below, w);
    let x = section_body(config_lines(a), w);
    let y = section_body(config_lines(b), w);
    let first = section_body(above, w);
    let mine = body_from(own, w, within);
    let other = body_from(again, w, within);
    let rest = body_from(below, w, within);
    assert(permuted(mine, other));
    appending_permutes(first, mine, first, other);
    appending_permutes(first + mine, rest, first + other, rest);
    section_text_ignores_line_order(x, y);
}

/// Changing other sections of a file does not change what stands for a
/// profile.
pub proof fn other_sections_do_not_matter(
    a: Seq<char>,
    b: Seq<char>,
    profile: Seq<char>,
    above: Seq<Seq<char>>,
    others: Seq<Seq<char>>,
    changed: Seq<Seq<char>>,
    below: Seq<Seq<char>>,
)
    requires
        config_lines(a) == above + others + below,
        config_lines(b) == above + changed + below,
        whole_sections(others),
        whole_sections(changed),
        whole_sections(below),
        not_of(others, profile),
        not_of(changed, profile),
    ensures
        fingerprint(a, profile) == fingerprint(b, profile),
{
    let w = section_of(profile);
    let within = inside(above, w);
    other_sections_add_nothing(others, profile);
    other_sections_add_nothing(changed, profile);
    whole_sections_stand_alone(others, w, within, false);
    whole_sections_stand_alone(changed, w, within, false);
    section_is_read_in_parts(above, others, w);
    section_is_read_in_parts(above, changed, w);
    section_is_read_in_parts(above + others, below, w);
    section_is_read_in_parts(above + changed, below, w);
    whole_sections_stand_alone(below, w, inside(above + others, w), inside(above + changed, w));
}

/// Exchanging neighbouring sections of a file does not change what stands for
/// a profile.
pub proof fn exchanging_sections_keeps_the_fingerprint(
    a: Seq<char>,
    b: Seq<char>,
    profile: Seq<char>,
    above: Seq<Seq<char>>,
    one: Seq<Seq<char>>,
    two: Seq<Seq<char>>,
    below: Seq<Seq<char>>,
)
    requires
        config_lines(a) == above + one + two + below,
        config_lines(b) == above + two + one + below,
        whole_sections(one),
        whole_sections(two),
        whole_sections(below),
    ensures
        fingerprint(a, profile) == fingerprint(b, profile),
{
    broadcast use vstd::seq_lib::group_to_multiset_ensures;

    let w = section_of(profile);
    section_is_read_in_parts(above, one, w);
    section_is_read_in_parts(above, two, w);
    section_is_read_in_parts(above + one, two, w);
    section_is_read_in_parts(above + two, one, w);
    section_is_read_in_parts(above + one + two, below, w);
    section_is_read_in_parts(above + two + one, below, w);
    let first = section_body(above, w);
    let x = body_from(one, w, false);
    let y = body_from(two, w, false);
    let rest = body_from(below, w, false);
    whole_sections_stand_alone(one, w, inside(above, w), false);
    whole_sections_stand_alone(one, w, inside(above + two, w), false);
    whole_sections_stand_alone(two, w, inside(above, w), false);
    whole_sections_stand_alone(two, w, inside(above + one, w), false);
    whole_sections_stand_alone(below, w, inside(above + one + two, w), false);
    whole_sections_stand_alone(below, w, inside(above + two + one, w), false);
    exchanging_permutes(x, y);
    assert(first + x + y =~= first + (x + y));
    assert(first + y + x =~= first + (y + x));
    appending_permutes(first, x + y, first, y + x);
    appending_permutes(first + x + y, rest, first + y + x, rest);
    section_text_ignores_line_order(
        section_body(config_lines(a), w),
        section_body(config_lines(b), w),
    );
}

/// A profile without a section of its own is stood for by nothing.
pub proof fn an_absent_profile_has_no_fingerprint(config: Seq<char>, profile: Seq<char>)
    requires
        not_of(config_lines(config), profile),
    ensures
        fingerprint(config, profile) == Seq::<char>::empty(),
{
    let ls = config_lines(config);
    let none = Seq::<Seq<char>>::empty();
    section_is_read_in_parts(none, ls, section_of(profile));
    assert(none + ls =~= ls);
    other_sections_add_nothing(ls, profile);
    assert(section_body(ls, section_of(profile)) =~= none);
}

/// The lines of a section are not empty, and hold no line break.
proof fn section_lines_are_lines(config: Seq<char>, wanted: Seq<char>, n: int)
    requires
        0 <= n <= config_lines(config).len(),
    ensures
        separable(section_body(config_lines(config).take(n), wanted), '\n'),
    decreases n,
{
    let ls = config_lines(config);
    if n > 0 {
        section_lines_are_lines(config, wanted, n - 1);
        assert(ls.take(n).drop_last() =~= ls.take(n - 1));
        let raw = pieces(config, '\n')[n - 1];
        pieces_lack_the_separator(config, '\n', n - 1);
        assert(ls.take(n).last() == cleaned(raw));
        let t = trimmed(raw, CharClass::White);
        trimming_adds_nothing(raw, CharClass::White, '\n');
        if cut(t, '#') is Some {
            cutting_adds_nothing(t, '#', '\n');
            trimming_adds_nothing((cut(t, '#')->0).0, CharClass::White, '\n');
        }
    }
}

/// What stands for a profile tells its section: two files agree on it exactly
/// when their sections hold the same lines. So a change to any line of the
/// section changes it.
pub proof fn the_fingerprint_tells_the_section(a: Seq<char>, b: Seq<char>, profile: Seq<char>)
    ensures
        fingerprint(a, profile) == fingerprint(b, profile) <==> permuted(
            section_body(config_lines(a), section_of(profile)),
            section_body(config_lines(b), section_of(profile)),
        ),
{
    let w = section_of(profile);
    let x = section_body(config_lines(a), w);
    let y = section_body(config_lines(b), w);
    if permuted(x, y) {
        section_text_ignores_line_order(x, y);
    }
    if fingerprint(a, profile) == fingerprint(b, profile) {
        section_lines_are_lines(a, w, config_lines(a).len() as int);
        section_lines_are_lines(b, w, config_lines(b).len() as int);
        assert(config_lines(a).take(config_lines(a).len() as int) =~= config_lines(a));
        assert(config_lines(b).take(config_lines(b).len() as int) =~= config_lines(b));
        sorting_keeps_lines(x);
        sorting_keeps_lines(y);
        reveal_strlit("\n");
        assert("\n"@ =~= seq!['\n']);
        joining_loses_nothing(ordered(x), ordered(y), '\n');
        sorting_permutes(x);
        sorting_permutes(y);
    }
}

/// Sorting keeps lines separable.
proof fn sorting_keeps_lines(ls: Seq<Seq<char>>)
    requires
        separable(ls, '\n'),
    ensures
        separable(ordered(ls), '\n'),
{
    let r = ordered(ls);
    sorting_keeps_elements(ls);
    assert forall|i: int| 0 <= i < r.len() implies (#[trigger] r[i]).len() > 0 && !r[i].contains(
        '\n',
    ) by {
        assert(r.contains(r[i]));
        let k = ls.index_of(r[i]);
        assert(ls[k] == r[i]);
    }
}

/// Whether a line of a text is a setting of SSO.
pub open spec fn has_sso_line(text: Seq<char>) -> bool {
    exists|i: int|
        0 <= i < pieces(text, '\n').len() && #[trigger] sso_setting(pieces(text, '\n')[i])
}

/// A profile uses SSO exactly when a line of what stands for it is a setting
/// of SSO: its own section alone counts.
pub proof fn sso_is_told_by_the_fingerprint(config: Seq<char>, profile: Seq<char>)
    ensures
        uses_sso(config, profile) <==> has_sso_line(fingerprint(config, profile)),
{
    let w = section_of(profile);
    let body = section_body(config_lines(config), w);
    let lines = ordered(body);
    let text = fingerprint(config, profile);
    section_lines_are_lines(config, w, config_lines(config).len() as int);
    assert(config_lines(config).take(config_lines(config).len() as int) =~= config_lines(config));
    sorting_keeps_lines(body);
    sorting_keeps_elements(body);
    sorting_permutes(body);
    reveal_strlit("\n");
    assert("\n"@ =~= seq!['\n']);
    if body.len() == 0 {
        assert(text =~= Seq::empty());
        assert(pieces(text, '\n') =~= seq![text]);
        assert(cut(text, '=') is None);
        assert(!sso_setting(text));
    } else {
        joined_texts_are_its_pieces(lines, '\n');
        if uses_sso(config, profile) {
            let i = choose|i: int| 0 <= i < body.len() && #[trigger] sso_setting(body[i]);
            assert(body.contains(body[i]));
            assert(lines.contains(body[i]));
            let k = lines.index_of(body[i]);
            assert(sso_setting(pieces(text, '\n')[k]));
        }
        if has_sso_line(text) {
            let k = choose|k: int|
                0 <= k < pieces(text, '\n').len() && #[trigger] sso_setting(
                    pieces(text, '\n')[k],
                );
            assert(lines.contains(lines[k]));
            assert(body.contains(lines[k]));
            let i = body.index_of(lines[k]);
            assert(sso_setting(body[i]));
        }
    }
}

/// What a pattern selects is configured and matches it.
pub proof fn selected_profiles_are_configured(pattern: Seq<char>, names: Seq<Seq<char>>, k: int)
    requires
        0 <= k < matching(pattern, names).len(),
    ensures
        names.contains(matching(pattern, names)[k]),
        glob_match(pattern, matching(pattern, names)[k]),
    decreases names.len(),
{
    if names.len() > 0 {
        let front = names.drop_last();
        if k < matching(pattern, front).len() {
            selected_profiles_are_configured(pattern, front, k);
            let i = front.index_of(matching(pattern, front)[k]);
            assert(names[i] == matching(pattern, front)[k]);
        } else {
            assert(names[names.len() - 1] == names.last());
        }
    }
}

/// A section of another type is never taken for a profile.
pub proof fn other_sections_are_not_profiles(section: Seq<char>)
    requires
        section != "default"@,
        !begins(section, "profile "@),
    ensures
        profile_of(section) is None,
{
}

} // verus!
