//! Turning a findings document into one self-contained HTML file.

use crate::json::{compact, compact_text};
use crate::output::Record;
use crate::report::model::Findings;
use crate::text::{begins, chars_of, extend, extend_str, starts_with, string_of, texts};
use vstd::prelude::*;
use vstd::slice::slice_subrange;

verus! {

// ---------------------------------------------------------------------------
// Escaping
// ---------------------------------------------------------------------------

/// A character of JSON inside a `<script>` element.
pub open spec fn script_char(c: char) -> Seq<char> {
    if c == '<' {
        seq!['\\', 'u', '0', '0', '3', 'c']
    } else if c == '>' {
        seq!['\\', 'u', '0', '0', '3', 'e']
    } else if c == '&' {
        seq!['\\', 'u', '0', '0', '2', '6']
    } else if c == '\u{2028}' {
        seq!['\\', 'u', '2', '0', '2', '8']
    } else if c == '\u{2029}' {
        seq!['\\', 'u', '2', '0', '2', '9']
    } else {
        seq![c]
    }
}

/// JSON inside a `<script>` element.
pub open spec fn scripted(s: Seq<char>) -> Seq<char>
    decreases s.len(),
{
    if s.len() == 0 {
        Seq::empty()
    } else {
        scripted(s.drop_last()) + script_char(s.last())
    }
}

/// Escape a JSON payload for embedding inside a `<script>` element.
///
/// This is the security boundary of the whole report. The document carries
/// raw log lines, and log content is written by whatever produced the logs: a
/// message containing `</script>` would otherwise close the element and
/// everything after it would be parsed as HTML, which is script injection
/// into a file people open in a browser and pass around.
///
/// `<`, `>` and `&` never appear as JSON structural characters, only inside
/// strings, so replacing them with their `\uXXXX` escapes is both safe and
/// lossless. U+2028 and U+2029 are valid in JSON strings but terminate a line
/// in JavaScript, so they go too.
pub fn escape_for_script(json: &str) -> (r: String)
    ensures
        r@ == scripted(json@),
{
    let cs = chars_of(json);
    let out = script_chars(cs.as_slice());
    string_of(out.as_slice())
}

/// Escape the characters of a JSON payload.
fn script_chars(s: &[char]) -> (r: Vec<char>)
    ensures
        r@ == scripted(s@),
{
    let mut out: Vec<char> = Vec::new();
    let mut i: usize = 0;
    while i < s.len()
        invariant
            i <= s@.len(),
            out@ == scripted(s@.take(i as int)),
        decreases s@.len() - i,
    {
        let c = s[i];
        let ghost out0 = out@;
        proof {
            reveal_strlit("\\u003c");
            reveal_strlit("\\u003e");
            reveal_strlit("\\u0026");
            reveal_strlit("\\u2028");
            reveal_strlit("\\u2029");
            assert(s@.take(i + 1).drop_last() == s@.take(i as int));
            assert(s@.take(i + 1).last() == c);
        }
        if c == '<' {
            extend_str(&mut out, "\\u003c");
        } else if c == '>' {
            extend_str(&mut out, "\\u003e");
        } else if c == '&' {
            extend_str(&mut out, "\\u0026");
        } else if c == '\u{2028}' {
            extend_str(&mut out, "\\u2028");
        } else if c == '\u{2029}' {
            extend_str(&mut out, "\\u2029");
        } else {
            out.push(c);
        }
        proof {
            assert(out@ =~= out0 + script_char(c));
        }
        i += 1;
    }
    proof {
        assert(s@.take(i as int) == s@);
    }
    out
}

/// A character of text in HTML.
pub open spec fn html_char(c: char) -> Seq<char> {
    if c == '&' {
        "&amp;"@
    } else if c == '<' {
        "&lt;"@
    } else if c == '>' {
        "&gt;"@
    } else if c == '"' {
        "&quot;"@
    } else if c == '\'' {
        "&#39;"@
    } else {
        seq![c]
    }
}

/// Text in HTML.
pub open spec fn html_text(s: Seq<char>) -> Seq<char>
    decreases s.len(),
{
    if s.len() == 0 {
        Seq::empty()
    } else {
        html_text(s.drop_last()) + html_char(s.last())
    }
}

/// Escape text for an HTML context.
///
/// Named for the text-node case it is used in (`<title>`), but quotes are
/// escaped too, so that it stays safe when it is reused in an attribute.
pub fn escape_html_text(s: &str) -> (r: String)
    ensures
        r@ == html_text(s@),
{
    let cs = chars_of(s);
    let mut out: Vec<char> = Vec::new();
    let mut i: usize = 0;
    while i < cs.len()
        invariant
            i <= cs@.len(),
            cs@ == s@,
            out@ == html_text(cs@.take(i as int)),
        decreases cs@.len() - i,
    {
        let c = cs[i];
        let ghost out0 = out@;
        proof {
            assert(cs@.take(i + 1).drop_last() == cs@.take(i as int));
            assert(cs@.take(i + 1).last() == c);
        }
        if c == '&' {
            extend_str(&mut out, "&amp;");
        } else if c == '<' {
            extend_str(&mut out, "&lt;");
        } else if c == '>' {
            extend_str(&mut out, "&gt;");
        } else if c == '"' {
            extend_str(&mut out, "&quot;");
        } else if c == '\'' {
            extend_str(&mut out, "&#39;");
        } else {
            out.push(c);
        }
        proof {
            assert(out@ =~= out0 + html_char(c));
        }
        i += 1;
    }
    proof {
        assert(cs@.take(i as int) == cs@);
    }
    string_of(out.as_slice())
}

// ---------------------------------------------------------------------------
// Substitution
// ---------------------------------------------------------------------------

/// The first pattern that stands at the front of a text; the number of
/// patterns when none does.
pub open spec fn matching(rest: Seq<char>, patterns: Seq<Seq<char>>) -> int
    decreases patterns.len(),
{
    if patterns.len() == 0 {
        0
    } else if begins(rest, patterns[0]) {
        0
    } else {
        1 + matching(rest, patterns.skip(1))
    }
}

/// A template with each pattern replaced by its value. What a value holds is
/// never looked at.
pub open spec fn substituted(
    rest: Seq<char>,
    patterns: Seq<Seq<char>>,
    values: Seq<Seq<char>>,
) -> Seq<char>
    decreases rest.len(),
{
    let k = matching(rest, patterns);
    if rest.len() == 0 {
        Seq::empty()
    } else if 0 <= k < patterns.len() && 0 < patterns[k].len() <= rest.len() {
        values[k] + substituted(rest.skip(patterns[k].len() as int), patterns, values)
    } else {
        seq![rest[0]] + substituted(rest.skip(1), patterns, values)
    }
}

/// The match is the first one.
proof fn matching_is(rest: Seq<char>, patterns: Seq<Seq<char>>, k: int)
    requires
        0 <= k <= patterns.len(),
        forall|j: int| 0 <= j < k ==> !begins(rest, #[trigger] patterns[j]),
        k < patterns.len() ==> begins(rest, patterns[k]),
    ensures
        matching(rest, patterns) == k,
    decreases k,
{
    if k > 0 {
        assert(!begins(rest, patterns[0]));
        assert forall|j: int| 0 <= j < k - 1 implies !begins(
            rest,
            #[trigger] patterns.skip(1)[j],
        ) by {
            assert(patterns.skip(1)[j] == patterns[j + 1]);
        }
        matching_is(rest, patterns.skip(1), k - 1);
    }
}

/// Find `matching`.
fn find_match(rest: &[char], patterns: &Vec<Vec<char>>) -> (r: usize)
    ensures
        r == matching(rest@, texts(patterns@)),
        r <= patterns@.len(),
        r < patterns@.len() ==> begins(rest@, texts(patterns@)[r as int]),
{
    let ghost all = texts(patterns@);
    let mut k: usize = 0;
    while k < patterns.len()
        invariant
            k <= patterns@.len(),
            all == texts(patterns@),
            forall|j: int| 0 <= j < k ==> !begins(rest@, #[trigger] all[j]),
        decreases patterns@.len() - k,
    {
        proof {
            assert(all[k as int] == patterns@[k as int]@);
        }
        if starts_with(rest, patterns[k].as_slice()) {
            proof {
                matching_is(rest@, all, k as int);
            }
            return k;
        }
        k += 1;
    }
    proof {
        matching_is(rest@, all, k as int);
    }
    k
}

/// The first texts of pairs.
pub open spec fn firsts(subs: Seq<(&str, &str)>) -> Seq<Seq<char>> {
    subs.map_values(|p: (&str, &str)| p.0@)
}

/// The second texts of pairs.
pub open spec fn seconds(subs: Seq<(&str, &str)>) -> Seq<Seq<char>> {
    subs.map_values(|p: (&str, &str)| p.1@)
}

/// Fill every placeholder in one pass.
///
/// Chained replacements re-scan text that earlier ones inserted, so a value
/// containing a later placeholder gets it substituted: a report titled
/// `__DATA__` would have the entire JSON payload injected into its `<title>`.
/// Walking the template once removes that class of bug.
pub fn substitute(template: &str, subs: &[(&str, &str)]) -> (r: String)
    requires
        forall|k: int| 0 <= k < subs@.len() ==> (#[trigger] subs@[k]).0@.len() > 0,
    ensures
        r@ == substituted(template@, firsts(subs@), seconds(subs@)),
{
    let ghost pats = firsts(subs@);
    let ghost vals = seconds(subs@);
    let mut patterns: Vec<Vec<char>> = Vec::new();
    let mut values: Vec<Vec<char>> = Vec::new();
    let mut n: usize = 0;
    while n < subs.len()
        invariant
            n <= subs@.len(),
            pats == firsts(subs@),
            vals == seconds(subs@),
            texts(patterns@) == pats.take(n as int),
            texts(values@) == vals.take(n as int),
            patterns@.len() == n,
            values@.len() == n,
        decreases subs@.len() - n,
    {
        let ghost patterns0 = patterns@;
        let ghost values0 = values@;
        patterns.push(chars_of(subs[n].0));
        values.push(chars_of(subs[n].1));
        proof {
            assert(texts(patterns@) == texts(patterns0).push(pats[n as int]));
            assert(texts(values@) == texts(values0).push(vals[n as int]));
            assert(pats.take(n + 1) == pats.take(n as int).push(pats[n as int]));
            assert(vals.take(n + 1) == vals.take(n as int).push(vals[n as int]));
        }
        n += 1;
    }
    proof {
        assert(pats.take(n as int) == pats);
        assert(vals.take(n as int) == vals);
        assert forall|k: int| 0 <= k < pats.len() implies (#[trigger] pats[k]).len() > 0 by {
            assert(pats[k] == subs@[k].0@);
        }
    }
    let cs = chars_of(template);
    let ghost whole = substituted(template@, pats, vals);
    let mut out: Vec<char> = Vec::new();
    let mut p: usize = 0;
    proof {
        assert(cs@.skip(0) == cs@);
        assert(out@ + whole =~= whole);
    }
    while p < cs.len()
        invariant
            p <= cs@.len(),
            pats == texts(patterns@),
            vals == texts(values@),
            values@.len() == patterns@.len(),
            forall|k: int| 0 <= k < pats.len() ==> (#[trigger] pats[k]).len() > 0,
            out@ + substituted(cs@.skip(p as int), pats, vals) == whole,
        decreases cs@.len() - p,
    {
        let rest = slice_subrange(cs.as_slice(), p, cs.len());
        let ghost from = cs@.skip(p as int);
        let ghost out0 = out@;
        proof {
            assert(rest@ == from);
        }
        let k = find_match(rest, &patterns);
        if k < patterns.len() {
            let width = patterns[k].len();
            proof {
                assert(pats[k as int] == patterns@[k as int]@);
                assert(vals[k as int] == values@[k as int]@);
                assert(width > 0);
                assert(from.skip(width as int) == cs@.skip(p + width));
            }
            extend(&mut out, values[k].as_slice());
            p += width;
            proof {
                assert(out@ + substituted(cs@.skip(p as int), pats, vals) =~= out0 + (
                vals[k as int] + substituted(cs@.skip(p as int), pats, vals)));
            }
        } else {
            let c = cs[p];
            out.push(c);
            p += 1;
            proof {
                assert(from.skip(1) == cs@.skip(p as int));
                assert(from[0] == c);
                assert(out@ + substituted(cs@.skip(p as int), pats, vals) =~= out0 + (seq![c]
                    + substituted(cs@.skip(p as int), pats, vals)));
            }
        }
    }
    proof {
        assert(cs@.skip(p as int) =~= Seq::empty());
        assert(out@ + Seq::<char>::empty() =~= out@);
    }
    string_of(out.as_slice())
}

// ---------------------------------------------------------------------------
// The page
// ---------------------------------------------------------------------------

/// What every report is built from: the page with its placeholders, and the
/// chart library inlined into it.
pub struct Page<'a> {
    pub shell: &'a str,
    pub css: &'a str,
    pub js: &'a str,
}

/// The placeholders of a page.
pub open spec fn placeholders() -> Seq<Seq<char>> {
    seq!["__UPLOT_CSS__"@, "__UPLOT_JS__"@, "__TITLE__"@, "__DATA__"@]
}

/// The document as it stands in the page.
pub open spec fn payload(findings: Findings) -> Seq<char> {
    scripted(compact(findings.shape()))
}

/// The page of a report.
pub open spec fn page_of(findings: Findings, page: Page) -> Seq<char> {
    substituted(
        page.shell@,
        placeholders(),
        seq![page.css@, page.js@, html_text(findings.title@), payload(findings)],
    )
}

/// Render a findings document into a complete HTML page.
pub fn render(findings: &Findings, page: &Page) -> (r: String)
    ensures
        r@ == page_of(*findings, *page),
{
    let tree = findings.record();
    let json = compact_text(&tree);
    let data = script_chars(json.as_slice());
    let data = string_of(data.as_slice());
    let title = escape_html_text(findings.title.as_str());
    let subs = [
        ("__UPLOT_CSS__", page.css),
        ("__UPLOT_JS__", page.js),
        ("__TITLE__", title.as_str()),
        ("__DATA__", data.as_str()),
    ];
    proof {
        reveal_strlit("__UPLOT_CSS__");
        reveal_strlit("__UPLOT_JS__");
        reveal_strlit("__TITLE__");
        reveal_strlit("__DATA__");
        assert(firsts(subs@) =~= placeholders());
        assert(seconds(subs@) =~= seq![
            page.css@,
            page.js@,
            html_text(findings.title@),
            payload(*findings),
        ]);
    }
    substitute(page.shell, subs.as_slice())
}

// ---------------------------------------------------------------------------
// Laws
// ---------------------------------------------------------------------------

/// Whether a character could end the element, open an entity, or break a line
/// of script.
pub open spec fn breaks_out(c: char) -> bool {
    c == '<' || c == '>' || c == '&' || c == '\u{2028}' || c == '\u{2029}'
}

/// Nothing in an embedded payload can break out of its element: whatever the
/// log lines hold, no `</script>` and no entity can stand in it.
pub proof fn an_embedded_payload_stays_inside(s: Seq<char>)
    ensures
        forall|i: int| 0 <= i < scripted(s).len() ==> !breaks_out(#[trigger] scripted(s)[i]),
    decreases s.len(),
{
    if s.len() > 0 {
        let front = scripted(s.drop_last());
        let last = script_char(s.last());
        an_embedded_payload_stays_inside(s.drop_last());
        assert forall|i: int| 0 <= i < scripted(s).len() implies !breaks_out(
            #[trigger] scripted(s)[i],
        ) by {
            if i < front.len() {
                assert(scripted(s)[i] == front[i]);
            } else {
                assert(scripted(s)[i] == last[i - front.len()]);
            }
        }
    }
}

/// Nothing in escaped text can open or close markup, or leave an attribute.
pub proof fn escaped_text_is_no_markup(s: Seq<char>)
    ensures
        forall|i: int|
            0 <= i < html_text(s).len() ==> {
                let c = #[trigger] html_text(s)[i];
                c != '<' && c != '>' && c != '"' && c != '\''
            },
    decreases s.len(),
{
    if s.len() > 0 {
        let front = html_text(s.drop_last());
        let last = html_char(s.last());
        escaped_text_is_no_markup(s.drop_last());
        reveal_strlit("&amp;");
        reveal_strlit("&lt;");
        reveal_strlit("&gt;");
        reveal_strlit("&quot;");
        reveal_strlit("&#39;");
        assert forall|i: int| 0 <= i < html_text(s).len() implies {
            let c = #[trigger] html_text(s)[i];
            c != '<' && c != '>' && c != '"' && c != '\''
        } by {
            if i < front.len() {
                assert(html_text(s)[i] == front[i]);
            } else {
                assert(html_text(s)[i] == last[i - front.len()]);
            }
        }
    }
}

/// A template without a placeholder is kept.
pub proof fn a_template_without_placeholders_is_kept(
    template: Seq<char>,
    patterns: Seq<Seq<char>>,
    values: Seq<Seq<char>>,
)
    requires
        forall|i: int|
            0 <= i < template.len() ==> matching(#[trigger] template.skip(i), patterns)
                == patterns.len(),
    ensures
        substituted(template, patterns, values) == template,
    decreases template.len(),
{
    if template.len() > 0 {
        let rest = template.skip(1);
        assert(template.skip(0) == template);
        assert(matching(template.skip(0), patterns) == patterns.len());
        assert forall|i: int| 0 <= i < rest.len() implies matching(
            #[trigger] rest.skip(i),
            patterns,
        ) == patterns.len() by {
            assert(rest.skip(i) == template.skip(i + 1));
        }
        a_template_without_placeholders_is_kept(rest, patterns, values);
        assert(seq![template[0]] + rest == template);
    }
}

/// A placeholder is filled once: its value stands in its place verbatim,
/// placeholders inside it included, and the template goes on behind it.
pub proof fn a_placeholder_is_filled_once(
    before: Seq<char>,
    after: Seq<char>,
    k: int,
    patterns: Seq<Seq<char>>,
    values: Seq<Seq<char>>,
)
    requires
        0 <= k < patterns.len(),
        patterns[k].len() > 0,
        matching(patterns[k] + after, patterns) == k,
        forall|i: int|
            0 <= i < before.len() ==> matching(
                #[trigger] before.skip(i) + patterns[k] + after,
                patterns,
            ) == patterns.len(),
    ensures
        substituted(before + patterns[k] + after, patterns, values) == before + values[k]
            + substituted(after, patterns, values),
    decreases before.len(),
{
    let p = patterns[k];
    let tail = substituted(after, patterns, values);
    let template = before + p + after;
    if before.len() == 0 {
        assert(template == p + after);
        assert(template.skip(p.len() as int) == after);
        assert(before + values[k] + tail == values[k] + tail);
    } else {
        let rest = before.skip(1);
        assert(before.skip(0) == before);
        assert(matching(before.skip(0) + p + after, patterns) == patterns.len());
        assert forall|i: int| 0 <= i < rest.len() implies matching(
            #[trigger] rest.skip(i) + p + after,
            patterns,
        ) == patterns.len() by {
            assert(rest.skip(i) == before.skip(i + 1));
            assert(matching(before.skip(i + 1) + p + after, patterns) == patterns.len());
        }
        a_placeholder_is_filled_once(rest, after, k, patterns, values);
        assert(template.skip(1) == rest + p + after);
        assert(template[0] == before[0]);
        assert(seq![before[0]] + (rest + values[k] + tail) == before + values[k] + tail);
    }
}

} // verus!
