//! Turning a log line into a template by masking its variable parts.
//!
//! `Connection to 10.0.1.5:5432 failed after 1234ms (attempt 3)`
//! becomes
//! `Connection to <*> failed after <*> (attempt <*>)`
//!
//! # The tension this code lives in
//!
//! Mask too eagerly and distinct failures collapse into one cluster, hiding
//! the difference that matters. Mask too little and a single failure shatters
//! into thousands of clusters, which is just the raw log with extra steps.
//!
//! The rules below are therefore deliberately *specific*: each recognises a
//! shape that is unambiguously an identifier, a quantity or an address.
//!
//! Punctuation is preserved around a masked token, because structure is what
//! makes a template readable: `(attempt <*>)` says more than `<*> <*> <*>`.

use crate::json::{parse, parsed_json, tree_opt, Json, JsonTree};
use crate::text::{
    all, all_in, any, any_in, begins, chars_of, contains_str, copy_of, count, count_in, cut, extend,
    extend_str, is_str, join, joined, lead, lead_len, lead_len_stops, longer_than, lower, lowered,
    occurs, pieces, split, split_once, split_words, starts_with_str, string_of, texts, trail,
    trail_len_stops, trim, trim_end, trimmed, trimmed_end, trimmed_start, utf8_len, words,
    CharClass,
};
use vstd::prelude::*;
use vstd::slice::slice_subrange;

verus! {

/// The placeholder standing in for a masked value.
pub const MASK: &'static str = "<*>";

/// Beyond this many tokens a line is truncated. Log lines carrying a whole
/// serialised payload would otherwise produce enormous templates that are
/// slow to compare and useless to read.
pub const MAX_TOKENS: usize = 60;

/// Maximum rendered template length. Structured payloads can be enormous;
/// beyond this the tail adds nothing a reader or a grouping key needs.
pub const MAX_TEMPLATE_CHARS: usize = 600;

/// Nested payloads beyond this depth collapse, bounding both work and output.
pub const MAX_DEPTH: usize = 6;

/// Only the first few array elements shape the template; the rest repeat it.
pub const MAX_ARRAY_ELEMS: usize = 3;

/// Values longer than this many bytes are not enum-like, whatever the key is
/// called.
pub const MAX_IDENTITY_VALUE: usize = 12;

/// A token shorter than this many bytes is not taken for a payload.
pub const MIN_PAYLOAD: usize = 20;

// ---------------------------------------------------------------------------
// What counts as a value
// ---------------------------------------------------------------------------

/// A lone `-`, the "no value" marker in W3C, IIS, ALB and Common Log Format.
pub open spec fn null_placeholder(t: Seq<char>) -> bool {
    t == seq!['-']
}

/// The text after one leading sign, if there is one.
pub open spec fn unsigned(t: Seq<char>) -> Seq<char> {
    if t.len() > 0 && (t[0] == '-' || t[0] == '+') {
        t.skip(1)
    } else {
        t
    }
}

/// A number with at most one decimal point and an optional short unit:
/// `1234`, `-5`, `1.5`, `1,234`, `99%`, `1234ms`, `4.2s`, `12KB`.
pub open spec fn numeric(t: Seq<char>) -> bool {
    let body = unsigned(t);
    let n = lead_len(body, CharClass::Number) as int;
    let num = body.take(n);
    let unit = body.skip(n);
    &&& any_in(num, CharClass::Digit)
    &&& count_in(num, CharClass::Is('.')) <= 1
    &&& unit.len() <= 4
    &&& all_in(unit, CharClass::Unit)
}

/// Five hyphen-separated hexadecimal groups of 8, 4, 4, 4 and 12 digits.
pub open spec fn uuid(t: Seq<char>) -> bool {
    let p = pieces(t, '-');
    &&& p.len() == 5
    &&& p[0].len() == 8 && p[1].len() == 4 && p[2].len() == 4 && p[3].len() == 4 && p[4].len() == 12
    &&& forall|i: int| 0 <= i < 5 ==> #[trigger] all_in(p[i], CharClass::Hex)
}

/// ISO-8601-ish instants and bare clock times: `2026-09-04T10:00:00Z`,
/// `2026-09-04`, `10:04:12.331`.
pub open spec fn timestamp(t: Seq<char>) -> bool {
    &&& count_in(t, CharClass::Digit) >= 6
    &&& all_in(t, CharClass::Stamp)
    &&& count_in(t, CharClass::Is('-')) >= 2 || count_in(t, CharClass::Is(':')) >= 2
}

/// A token without its `:port`, if it has one.
pub open spec fn host_part(t: Seq<char>) -> Seq<char> {
    match cut(t, ':') {
        Some((h, p)) => if p.len() > 0 && all_in(p, CharClass::Digit) {
            h
        } else {
            t
        },
        None => t,
    }
}

/// One to three digits.
pub open spec fn octet(o: Seq<char>) -> bool {
    1 <= o.len() <= 3 && all_in(o, CharClass::Digit)
}

/// `10.0.1.5` and `10.0.1.5:5432`.
pub open spec fn ip(t: Seq<char>) -> bool {
    let octets = pieces(host_part(t), '.');
    octets.len() == 4 && forall|i: int| 0 <= i < 4 ==> #[trigger] octet(octets[i])
}

/// `0x1f4a`, or a bare hexadecimal run long enough not to be a word.
pub open spec fn hexadecimal(t: Seq<char>) -> bool {
    if begins(t, "0x"@) || begins(t, "0X"@) {
        t.len() > 2 && all_in(t.skip(2), CharClass::Hex)
    } else {
        t.len() >= 16 && all_in(t, CharClass::Hex)
    }
}

/// An absolute Unix path or a Windows drive path.
pub open spec fn path(t: Seq<char>) -> bool {
    ||| t.len() > 2 && t[0] == '/' && count_in(t, CharClass::Is('/')) >= 2
    ||| t.len() > 3 && CharClass::Alpha.has(t[0]) && t[1] == ':' && any_in(t, CharClass::Is('\\'))
}

/// Anything with a scheme separator, longer than a bare separator would be.
pub open spec fn url(t: Seq<char>) -> bool {
    occurs(t, "://"@) && utf8_len(t) > 8
}

/// An Amazon resource name.
pub open spec fn arn(t: Seq<char>) -> bool {
    begins(t, "arn:"@) && count_in(t, CharClass::Is(':')) >= 4
}

/// `user@host.domain`.
pub open spec fn email(t: Seq<char>) -> bool {
    match cut(t, '@') {
        Some((user, host)) => user.len() > 0 && any_in(host, CharClass::Is('.')) && host[0] != '.',
        None => false,
    }
}

/// AWS-style resource identifiers: `i-0abc123def456`, `vol-0123abcd`. A short
/// lowercase prefix, a hyphen, then hexadecimal digits.
pub open spec fn resource_id(t: Seq<char>) -> bool {
    match cut(t, '-') {
        Some((prefix, rest)) => 1 <= prefix.len() <= 8 && all_in(prefix, CharClass::Lower)
            && rest.len() >= 8 && all_in(rest, CharClass::Hex),
        None => false,
    }
}

/// A long token mixing letters and digits: request ids, trace ids, tokens.
pub open spec fn long_opaque_id(t: Seq<char>) -> bool {
    &&& t.len() >= 16
    &&& any_in(t, CharClass::Digit)
    &&& any_in(t, CharClass::Alpha)
    &&& all_in(t, CharClass::Opaque)
}

/// Whether a token is a value rather than part of the message's wording.
pub open spec fn variable(t: Seq<char>) -> bool {
    ||| null_placeholder(t)
    ||| numeric(t)
    ||| uuid(t)
    ||| timestamp(t)
    ||| ip(t)
    ||| hexadecimal(t)
    ||| path(t)
    ||| url(t)
    ||| arn(t)
    ||| email(t)
    ||| resource_id(t)
    ||| long_opaque_id(t)
}

/// Decide `null_placeholder`.
pub fn is_null_placeholder(t: &[char]) -> (r: bool)
    ensures
        r == null_placeholder(t@),
{
    let r = t.len() == 1 && t[0] == '-';
    proof {
        if r {
            assert(t@ == seq!['-']);
        }
    }
    r
}

/// Decide `numeric`.
pub fn is_numeric(t: &[char]) -> (r: bool)
    ensures
        r == numeric(t@),
{
    let signed = t.len() > 0 && (t[0] == '-' || t[0] == '+');
    let body = if signed {
        slice_subrange(t, 1, t.len())
    } else {
        t
    };
    let n = lead(body, CharClass::Number);
    let num = slice_subrange(body, 0, n);
    let unit = slice_subrange(body, n, body.len());
    any(num, CharClass::Digit) && count(num, CharClass::Is('.')) <= 1 && unit.len() <= 4 && all(
        unit,
        CharClass::Unit,
    )
}

/// Decide `uuid`.
pub fn is_uuid(t: &[char]) -> (r: bool)
    ensures
        r == uuid(t@),
{
    let p = split(t, '-');
    let ghost spec_p = pieces(t@, '-');
    proof {
        assert(texts(p@) == spec_p);
        assert(p@.len() == spec_p.len());
        assert forall|i: int| 0 <= i < p@.len() implies #[trigger] p@[i]@ == spec_p[i] by {
            assert(texts(p@)[i] == p@[i]@);
        }
    }
    if p.len() != 5 {
        return false;
    }
    if !(p[0].len() == 8 && p[1].len() == 4 && p[2].len() == 4 && p[3].len() == 4 && p[4].len()
        == 12) {
        return false;
    }
    let mut i: usize = 0;
    while i < 5
        invariant
            i <= 5,
            p@.len() == 5,
            spec_p == pieces(t@, '-'),
            spec_p.len() == 5,
            forall|j: int| 0 <= j < 5 ==> #[trigger] p@[j]@ == spec_p[j],
            forall|j: int| 0 <= j < i ==> #[trigger] all_in(spec_p[j], CharClass::Hex),
        decreases 5 - i,
    {
        let hex = all(p[i].as_slice(), CharClass::Hex);
        proof {
            assert(p@[i as int]@ == spec_p[i as int]);
        }
        if !hex {
            proof {
                assert(!all_in(spec_p[i as int], CharClass::Hex));
            }
            return false;
        }
        i += 1;
    }
    true
}

/// Decide `timestamp`.
pub fn is_timestamp(t: &[char]) -> (r: bool)
    ensures
        r == timestamp(t@),
{
    count(t, CharClass::Digit) >= 6 && all(t, CharClass::Stamp) && (count(t, CharClass::Is('-'))
        >= 2 || count(t, CharClass::Is(':')) >= 2)
}

/// Decide `ip`.
pub fn is_ip(t: &[char]) -> (r: bool)
    ensures
        r == ip(t@),
{
    let host = match split_once(t, ':') {
        Some((h, p)) => if p.len() > 0 && all(p, CharClass::Digit) {
            h
        } else {
            t
        },
        None => t,
    };
    let octets = split(host, '.');
    let ghost spec_octets = pieces(host_part(t@), '.');
    proof {
        assert(host@ == host_part(t@));
        assert(texts(octets@) == spec_octets);
        assert(octets@.len() == spec_octets.len());
        assert forall|i: int| 0 <= i < octets@.len() implies #[trigger] octets@[i]@
            == spec_octets[i] by {
            assert(texts(octets@)[i] == octets@[i]@);
        }
    }
    if octets.len() != 4 {
        return false;
    }
    let mut i: usize = 0;
    while i < 4
        invariant
            i <= 4,
            octets@.len() == 4,
            spec_octets == pieces(host_part(t@), '.'),
            spec_octets.len() == 4,
            forall|j: int| 0 <= j < 4 ==> #[trigger] octets@[j]@ == spec_octets[j],
            forall|j: int| 0 <= j < i ==> #[trigger] octet(spec_octets[j]),
        decreases 4 - i,
    {
        let o = octets[i].as_slice();
        let good = 1 <= o.len() && o.len() <= 3 && all(o, CharClass::Digit);
        proof {
            assert(octets@[i as int]@ == spec_octets[i as int]);
            assert(good == octet(spec_octets[i as int]));
        }
        if !good {
            return false;
        }
        i += 1;
    }
    true
}

/// Decide `hexadecimal`.
pub fn is_hex(t: &[char]) -> (r: bool)
    ensures
        r == hexadecimal(t@),
{
    proof {
        reveal_strlit("0x");
        reveal_strlit("0X");
    }
    if starts_with_str(t, "0x") || starts_with_str(t, "0X") {
        let rest = slice_subrange(t, 2, t.len());
        t.len() > 2 && all(rest, CharClass::Hex)
    } else {
        t.len() >= 16 && all(t, CharClass::Hex)
    }
}

/// Decide `path`.
pub fn is_path(t: &[char]) -> (r: bool)
    ensures
        r == path(t@),
{
    (t.len() > 2 && t[0] == '/' && count(t, CharClass::Is('/')) >= 2) || (t.len() > 3
        && CharClass::Alpha.test(t[0]) && t[1] == ':' && any(t, CharClass::Is('\\')))
}

/// Decide `url`.
pub fn is_url(t: &[char]) -> (r: bool)
    ensures
        r == url(t@),
{
    contains_str(t, "://") && longer_than(t, 8)
}

/// Decide `arn`.
pub fn is_arn(t: &[char]) -> (r: bool)
    ensures
        r == arn(t@),
{
    starts_with_str(t, "arn:") && count(t, CharClass::Is(':')) >= 4
}

/// Decide `email`.
pub fn is_email(t: &[char]) -> (r: bool)
    ensures
        r == email(t@),
{
    match split_once(t, '@') {
        Some((user, host)) => user.len() > 0 && any(host, CharClass::Is('.')) && host[0] != '.',
        None => false,
    }
}

/// Decide `resource_id`.
pub fn is_resource_id(t: &[char]) -> (r: bool)
    ensures
        r == resource_id(t@),
{
    match split_once(t, '-') {
        Some((prefix, rest)) => 1 <= prefix.len() && prefix.len() <= 8 && all(
            prefix,
            CharClass::Lower,
        ) && rest.len() >= 8 && all(rest, CharClass::Hex),
        None => false,
    }
}

/// Decide `long_opaque_id`.
pub fn is_long_opaque_id(t: &[char]) -> (r: bool)
    ensures
        r == long_opaque_id(t@),
{
    t.len() >= 16 && any(t, CharClass::Digit) && any(t, CharClass::Alpha) && all(
        t,
        CharClass::Opaque,
    )
}

/// Decide `variable`.
pub fn is_variable(t: &[char]) -> (r: bool)
    ensures
        r == variable(t@),
{
    is_null_placeholder(t) || is_numeric(t) || is_uuid(t) || is_timestamp(t) || is_ip(t) || is_hex(
        t,
    ) || is_path(t) || is_url(t) || is_arn(t) || is_email(t) || is_resource_id(t)
        || is_long_opaque_id(t)
}

// ---------------------------------------------------------------------------
// Tokens
// ---------------------------------------------------------------------------

/// How many characters of opening punctuation precede a token's core.
pub open spec fn kernel_start(raw: Seq<char>) -> int {
    lead_len(raw, CharClass::Opening) as int
}

/// A token without its opening and closing punctuation, trailing periods
/// still in place.
pub open spec fn bare(raw: Seq<char>) -> Seq<char> {
    trimmed_end(raw.skip(kernel_start(raw)), CharClass::Closing)
}

/// Whether a trailing period is sentence punctuation. It is not when only
/// digits and periods precede it, or `10.0.1.5` would lose its shape.
pub open spec fn full_stop(t: Seq<char>) -> bool {
    &&& t.len() > 0 && t.last() == '.'
    &&& !all_in(trimmed_end(t, CharClass::Is('.')), CharClass::Dotted)
}

/// The part of a token that may be a value.
pub open spec fn kernel(raw: Seq<char>) -> Seq<char> {
    if full_stop(bare(raw)) {
        bare(raw).drop_last()
    } else {
        bare(raw)
    }
}

/// The punctuation in front of a token's core.
pub open spec fn opening(raw: Seq<char>) -> Seq<char> {
    raw.take(kernel_start(raw))
}

/// The punctuation behind a token's core.
pub open spec fn closing(raw: Seq<char>) -> Seq<char> {
    raw.skip(kernel_start(raw) + kernel(raw).len())
}

/// Peel leading and trailing punctuation off a token.
///
/// `(attempt` keeps its bracket; `3)` masks to `<*>)`. Characters that carry
/// meaning *inside* a value (`.`, `:`, `/`, `-`, `_`) are never peeled from
/// the front.
pub fn split_punctuation(raw: &[char]) -> (r: (&[char], &[char], &[char]))
    ensures
        r.0@ == opening(raw@),
        r.1@ == kernel(raw@),
        r.2@ == closing(raw@),
        r.0@ + r.1@ + r.2@ == raw@,
{
    let start = lead(raw, CharClass::Opening);
    proof {
        lead_len_stops(raw@, CharClass::Opening);
    }
    let rest = slice_subrange(raw, start, raw.len());
    let stripped = trim_end(rest, CharClass::Closing);
    proof {
        trail_len_stops(rest@, CharClass::Closing);
        assert(stripped@ == bare(raw@));
    }
    let undotted = trim_end(stripped, CharClass::Is('.'));
    let n = stripped.len();
    let peel = n > 0 && stripped[n - 1] == '.' && !all(undotted, CharClass::Dotted);
    let end = if peel {
        n - 1
    } else {
        n
    };
    let inner = slice_subrange(stripped, 0, end);
    proof {
        assert(peel == full_stop(bare(raw@)));
        assert(inner@ == kernel(raw@));
    }
    let before = slice_subrange(raw, 0, start);
    let after = slice_subrange(raw, start + end, raw.len());
    proof {
        assert(before@ + inner@ + after@ == raw@);
    }
    (before, inner, after)
}

/// Field names whose value *is* the identity of the record, and so must
/// survive masking even when it is a bare number: an HTTP status of 200 and
/// one of 500 must never share a cluster.
pub open spec fn identity_name(k: Seq<char>) -> bool {
    ||| k == "eventid"@
    ||| k == "event_id"@
    ||| k == "level"@
    ||| k == "severity"@
    ||| k == "code"@
    ||| k == "status"@
    ||| k == "statuscode"@
    ||| k == "status_code"@
    ||| k == "errorcode"@
    ||| k == "error_code"@
    ||| k == "type"@
    ||| k == "kind"@
    ||| k == "result"@
    ||| k == "state"@
    ||| k == "priority"@
    ||| k == "opcode"@
    ||| k == "task"@
}

/// Matching is exact and case-insensitive, never a substring, because
/// `EventRecordID` and `RequestId` are unique per record and *must* mask.
pub open spec fn identity_key(key: Seq<char>) -> bool {
    identity_name(lowered(trimmed(key, CharClass::Wrapping)))
}

/// Decide `identity_key`.
pub fn is_identity_key(key: &[char]) -> (r: bool)
    ensures
        r == identity_key(key@),
{
    let k = lower(trim(key, CharClass::Wrapping));
    let k = k.as_slice();
    is_str(k, "eventid") || is_str(k, "event_id") || is_str(k, "level") || is_str(k, "severity")
        || is_str(k, "code") || is_str(k, "status") || is_str(k, "statuscode") || is_str(
        k,
        "status_code",
    ) || is_str(k, "errorcode") || is_str(k, "error_code") || is_str(k, "type") || is_str(k, "kind")
        || is_str(k, "result") || is_str(k, "state") || is_str(k, "priority") || is_str(k, "opcode")
        || is_str(k, "task")
}

/// One field of a payload, masked unless the name before it makes its value
/// the identity of the record.
pub open spec fn shown_field(field: Seq<char>, name: Seq<char>) -> Seq<char> {
    if identity_key(name) && utf8_len(field) <= MAX_IDENTITY_VALUE {
        field
    } else if variable(field) {
        MASK@
    } else {
        field
    }
}

/// A payload with its fields masked and its delimiters kept. `name` is the
/// last field before it, so `<EventID>5145</EventID>` can keep its value
/// while `<EventRecordID>1234567</EventRecordID>` masks its own.
pub open spec fn fields_masked(s: Seq<char>, name: Seq<char>) -> Seq<char>
    decreases s.len(),
{
    let n = lead_len(s, CharClass::Field) as int;
    let field = s.take(n);
    let shown = if n == 0 {
        Seq::empty()
    } else {
        shown_field(field, name)
    };
    if 0 <= n < s.len() {
        shown + seq![s[n]] + fields_masked(
            s.skip(n + 1),
            if n == 0 {
                name
            } else {
                field
            },
        )
    } else {
        shown
    }
}

/// A token long enough, and dense enough with delimiters, to be a payload
/// that did not parse.
pub open spec fn payload(t: Seq<char>) -> bool {
    utf8_len(t) >= MIN_PAYLOAD && count_in(t, CharClass::Delimiter) >= 2
}

/// Mask one field.
fn push_field(out: &mut Vec<char>, field: &[char], name: &[char])
    ensures
        final(out)@ == old(out)@ + (if field@.len() == 0 {
            Seq::empty()
        } else {
            shown_field(field@, name@)
        }),
{
    if field.len() == 0 {
        proof {
            assert(out@ + Seq::empty() == out@);
        }
        return ;
    }
    if is_identity_key(name) && !longer_than(field, MAX_IDENTITY_VALUE) {
        extend(out, field);
    } else if is_variable(field) {
        extend_str(out, MASK);
    } else {
        extend(out, field);
    }
}

/// Split an unparsed payload on its structural punctuation and mask the
/// variable pieces, keeping the delimiters so the shape stays recognisable.
///
/// `None` when the token is too short or too plain to be a payload, which
/// leaves ordinary words untouched.
pub fn structural_template(t: &[char]) -> (r: Option<Vec<char>>)
    ensures
        r is Some <==> payload(t@),
        r is Some ==> r->0@ == fields_masked(t@, Seq::empty()),
{
    if !longer_than(t, MIN_PAYLOAD - 1) || count(t, CharClass::Delimiter) < 2 {
        return None;
    }
    let mut out: Vec<char> = Vec::new();
    let empty = slice_subrange(t, 0, 0);
    let mut name = empty;
    let mut rest = t;
    let ghost whole = fields_masked(t@, Seq::empty());
    proof {
        assert(empty@ == Seq::<char>::empty());
        assert(out@ + fields_masked(rest@, name@) == whole);
    }
    loop
        invariant
            payload(t@),
            whole == fields_masked(t@, Seq::empty()),
            out@ + fields_masked(rest@, name@) == whole,
        decreases rest@.len(),
    {
        let ghost before = out@;
        let n = lead(rest, CharClass::Field);
        proof {
            lead_len_stops(rest@, CharClass::Field);
        }
        let field = slice_subrange(rest, 0, n);
        push_field(&mut out, field, name);
        if n == rest.len() {
            return Some(out);
        }
        out.push(rest[n]);
        let ghost tail = rest@.skip(n + 1);
        let ghost shown = if n == 0 {
            Seq::empty()
        } else {
            shown_field(field@, name@)
        };
        proof {
            assert(out@ == before + shown + seq![rest@[n as int]]);
        }
        let ghost delimiter = seq![rest@[n as int]];
        if n > 0 {
            name = field;
        }
        rest = slice_subrange(rest, n + 1, rest.len());
        proof {
            assert(rest@ == tail);
            assert(out@ + fields_masked(tail, name@) == before + (shown + delimiter + fields_masked(
                tail,
                name@,
            )));
        }
    }
}

/// The key and value of a `key=value` token whose value can be masked while
/// its key is kept.
pub open spec fn logfmt_key(t: Seq<char>) -> Option<Seq<char>> {
    match cut(t, '=') {
        Some((key, value)) => if key.len() > 0 && value.len() > 0 && !any_in(
            key,
            CharClass::Is('"'),
        ) && variable(trimmed(value, CharClass::Is('"'))) {
            Some(key)
        } else {
            None
        },
        None => None,
    }
}

/// One token with its value masked.
pub open spec fn masked(raw: Seq<char>) -> Seq<char> {
    let c = kernel(raw);
    if c.len() == 0 {
        raw
    } else if variable(c) {
        opening(raw) + MASK@ + closing(raw)
    } else if logfmt_key(c) is Some {
        opening(raw) + logfmt_key(c)->0 + seq!['='] + MASK@ + closing(raw)
    } else if payload(c) {
        opening(raw) + fields_masked(c, Seq::empty()) + closing(raw)
    } else {
        raw
    }
}

/// Mask one whitespace-delimited token, preserving surrounding punctuation.
pub fn mask_token(raw: &[char]) -> (r: Vec<char>)
    ensures
        r@ == masked(raw@),
{
    let (lead, inner, trail) = split_punctuation(raw);
    if inner.len() == 0 {
        return copy_of(raw);
    }
    let mut out = copy_of(lead);
    if is_variable(inner) {
        extend_str(&mut out, MASK);
        extend(&mut out, trail);
        return out;
    }
    // logfmt: `duration=1234ms` must mask the value while keeping the key,
    // or every distinct duration becomes its own cluster.
    if let Some((key, value)) = split_once(inner, '=') {
        if key.len() > 0 && value.len() > 0 && !any(key, CharClass::Is('"')) && is_variable(
            trim(value, CharClass::Is('"')),
        ) {
            extend(&mut out, key);
            out.push('=');
            extend_str(&mut out, MASK);
            extend(&mut out, trail);
            proof {
                assert(out@ == opening(raw@) + key@ + seq!['='] + MASK@ + closing(raw@));
            }
            return out;
        }
    }
    // A long token dense with structural punctuation is a payload that did
    // not parse: truncated JSON, most often, since log pipelines clip long
    // lines.
    if let Some(t) = structural_template(inner) {
        extend(&mut out, t.as_slice());
        extend(&mut out, trail);
        return out;
    }
    copy_of(raw)
}

/// The template of an unstructured line: its words, masked, with a marker
/// where words beyond the limit were left out.
pub open spec fn words_masked(message: Seq<char>) -> Seq<char> {
    let w = words(message);
    joined(masked_words(w), " "@)
}

/// Each word masked, up to the limit.
pub open spec fn masked_words(w: Seq<Seq<char>>) -> Seq<Seq<char>> {
    if w.len() > MAX_TOKENS {
        Seq::new(MAX_TOKENS as nat, |i: int| masked(w[i])).push(seq!['\u{2026}'])
    } else {
        Seq::new(w.len(), |i: int| masked(w[i]))
    }
}

/// The whitespace-splitting path, for unstructured lines.
///
/// Newlines inside one event (a stack trace, say) are flattened: the first
/// line identifies the error, and the frames below it are detail the exemplar
/// preserves.
pub fn words_template(message: &[char]) -> (r: Vec<char>)
    ensures
        r@ == words_masked(message@),
{
    let w = split_words(message);
    let ghost ws = words(message@);
    let mut out: Vec<Vec<char>> = Vec::new();
    let limit = if w.len() < MAX_TOKENS {
        w.len()
    } else {
        MAX_TOKENS
    };
    proof {
        assert(texts(w@) == ws);
        assert(w@.len() == ws.len());
    }
    let mut i: usize = 0;
    while i < limit
        invariant
            i <= limit <= w@.len(),
            texts(w@) == ws,
            texts(out@) == Seq::new(i as nat, |j: int| masked(ws[j])),
        decreases limit - i,
    {
        let ghost before = texts(out@);
        let m = mask_token(w[i].as_slice());
        let ghost text = m@;
        out.push(m);
        proof {
            assert(texts(w@)[i as int] == w@[i as int]@);
            assert(texts(out@) == before.push(text));
            assert(texts(out@) == Seq::new((i + 1) as nat, |j: int| masked(ws[j])));
        }
        i += 1;
    }
    if w.len() > MAX_TOKENS {
        let mut mark: Vec<char> = Vec::new();
        mark.push('\u{2026}');
        let ghost before = texts(out@);
        let ghost text = mark@;
        out.push(mark);
        proof {
            assert(text == seq!['\u{2026}']);
            assert(texts(out@) == before.push(text));
        }
    }
    proof {
        assert(texts(out@) == masked_words(ws));
    }
    join(&out, " ")
}

// ---------------------------------------------------------------------------
// Structured payloads
// ---------------------------------------------------------------------------

/// Text in quotes, as it stands.
pub open spec fn in_quotes(s: Seq<char>) -> Seq<char> {
    seq!['"'] + s + seq!['"']
}

/// A JSON string value: masked if it is a value, kept if it is a label. One
/// that holds several words is an embedded message, masked word by word.
pub open spec fn string_shape(s: Seq<char>) -> Seq<char> {
    if trimmed(s, CharClass::White).len() == 0 {
        in_quotes(s)
    } else if words(s).len() > 1 {
        in_quotes(words_masked(s))
    } else if variable(s) {
        MASK@
    } else {
        in_quotes(s)
    }
}

/// Whether the key above a value makes the value the identity of the record.
pub open spec fn identified(key: Option<Seq<char>>) -> bool {
    key is Some && identity_key(key->0)
}

/// The shape of a payload: keys kept, values masked selectively. Masking
/// every value would merge an INFO reboot with a CRITICAL permissions error.
pub open spec fn shape(v: JsonTree, depth: nat, key: Option<Seq<char>>) -> Seq<char>
    decreases v, 0nat,
{
    if depth > MAX_DEPTH {
        MASK@
    } else {
        match v {
            JsonTree::Number(n) => if identified(key) && utf8_len(n) <= MAX_IDENTITY_VALUE {
                n
            } else {
                MASK@
            },
            JsonTree::Bool(b) => if b {
                "true"@
            } else {
                "false"@
            },
            JsonTree::Null => "null"@,
            JsonTree::Text(s) => if identified(key) && utf8_len(s) <= MAX_IDENTITY_VALUE {
                in_quotes(s)
            } else {
                string_shape(s)
            },
            JsonTree::Array(items) => seq!['['] + joined(
                if items.len() > MAX_ARRAY_ELEMS {
                    item_shapes(items, MAX_ARRAY_ELEMS as nat, depth + 1, key).push(
                        seq!['\u{2026}'],
                    )
                } else {
                    item_shapes(items, items.len(), depth + 1, key)
                },
                ","@,
            ) + seq![']'],
            JsonTree::Object(map) => seq!['{'] + joined(
                field_shapes(map, map.len(), depth + 1),
                ","@,
            ) + seq!['}'],
        }
    }
}

/// The shapes of the first `n` elements of an array.
pub open spec fn item_shapes(
    items: Seq<JsonTree>,
    n: nat,
    depth: nat,
    key: Option<Seq<char>>,
) -> Seq<Seq<char>>
    decreases items, n,
{
    if n == 0 || n > items.len() {
        Seq::empty()
    } else {
        item_shapes(items, (n - 1) as nat, depth, key).push(shape(items[n - 1], depth, key))
    }
}

/// The shapes of the first `n` fields of an object, each behind its key.
pub open spec fn field_shapes(
    map: Seq<(Seq<char>, JsonTree)>,
    n: nat,
    depth: nat,
) -> Seq<Seq<char>>
    decreases map, n,
{
    if n == 0 || n > map.len() {
        Seq::empty()
    } else {
        field_shapes(map, (n - 1) as nat, depth).push(
            in_quotes(map[n - 1].0) + seq![':'] + shape(
                map[n - 1].1,
                depth,
                Some(map[n - 1].0),
            ),
        )
    }
}

/// Put text in quotes.
fn quote(s: &[char]) -> (r: Vec<char>)
    ensures
        r@ == in_quotes(s@),
{
    let mut out: Vec<char> = Vec::new();
    out.push('"');
    extend(&mut out, s);
    out.push('"');
    proof {
        assert(out@ == in_quotes(s@));
    }
    out
}

/// A JSON string value: mask it if it is a value, keep it if it is a label.
pub fn render_string(s: &[char]) -> (r: Vec<char>)
    ensures
        r@ == string_shape(s@),
{
    if trim(s, CharClass::White).len() == 0 {
        return quote(s);
    }
    let w = split_words(s);
    proof {
        assert(texts(w@).len() == words(s@).len());
    }
    if w.len() > 1 {
        let t = words_template(s);
        return quote(t.as_slice());
    }
    if is_variable(s) {
        chars_of(MASK)
    } else {
        quote(s)
    }
}

/// The content of an optional key.
pub open spec fn key_text(key: Option<&str>) -> Option<Seq<char>> {
    match key {
        Some(k) => Some(k@),
        None => None,
    }
}

/// Build a template from a payload's *structure*.
pub fn render(v: &Json, depth: usize, key: Option<&str>) -> (r: Vec<char>)
    requires
        depth <= MAX_DEPTH + 1,
    ensures
        r@ == shape(v@, depth as nat, key_text(key)),
    decreases *v,
{
    if depth > MAX_DEPTH {
        return chars_of(MASK);
    }
    // `"code": 500` and `"code": 200` are different outcomes, not one shape
    // with a varying number, so an identity key keeps its value.

    let identity = match key {
        Some(k) => {
            let cs = chars_of(k);
            is_identity_key(cs.as_slice())
        },
        None => false,
    };
    let ghost k = key_text(key);
    match v {
        Json::Null => chars_of("null"),
        Json::Bool(b) => {
            if *b {
                chars_of("true")
            } else {
                chars_of("false")
            }
        },
        Json::Number(n) => {
            let cs = chars_of(n.as_str());
            if identity && !longer_than(cs.as_slice(), MAX_IDENTITY_VALUE) {
                cs
            } else {
                chars_of(MASK)
            }
        },
        Json::Text(s) => {
            let cs = chars_of(s.as_str());
            if identity && !longer_than(cs.as_slice(), MAX_IDENTITY_VALUE) {
                quote(cs.as_slice())
            } else {
                render_string(cs.as_slice())
            }
        },
        Json::Array(items) => {
            let ghost trees = v@->Array_0;
            let mut parts: Vec<Vec<char>> = Vec::new();
            let limit = if items.len() < MAX_ARRAY_ELEMS {
                items.len()
            } else {
                MAX_ARRAY_ELEMS
            };
            let mut i: usize = 0;
            while i < limit
                invariant
                    *v == Json::Array(*items),
                    trees == v@->Array_0,
                    depth <= MAX_DEPTH,
                    k == key_text(key),
                    i <= limit <= items@.len(),
                    texts(parts@) == item_shapes(trees, i as nat, (depth + 1) as nat, k),
                decreases limit - i,
            {
                let part = render(&items[i], depth + 1, key);
                let ghost before = texts(parts@);
                let ghost text = part@;
                parts.push(part);
                proof {
                    assert(texts(parts@) == before.push(text));
                    assert(trees[i as int] == items@[i as int]@);
                }
                i += 1;
            }
            if items.len() > MAX_ARRAY_ELEMS {
                let mut mark: Vec<char> = Vec::new();
                mark.push('\u{2026}');
                let ghost before = texts(parts@);
                let ghost text = mark@;
                parts.push(mark);
                proof {
                    assert(text == seq!['\u{2026}']);
                    assert(texts(parts@) == before.push(text));
                }
            }
            let mut out: Vec<char> = Vec::new();
            out.push('[');
            let body = join(&parts, ",");
            extend(&mut out, body.as_slice());
            out.push(']');
            proof {
                assert(out@ == seq!['['] + body@ + seq![']']);
            }
            out
        },
        Json::Object(map) => {
            let ghost trees = v@->Object_0;
            let mut parts: Vec<Vec<char>> = Vec::new();
            let mut i: usize = 0;
            while i < map.len()
                invariant
                    *v == Json::Object(*map),
                    trees == v@->Object_0,
                    depth <= MAX_DEPTH,
                    i <= map@.len(),
                    texts(parts@) == field_shapes(trees, i as nat, (depth + 1) as nat),
                decreases map@.len() - i,
            {
                let name = chars_of(map[i].0.as_str());
                let mut part = quote(name.as_slice());
                part.push(':');
                let value = render(&map[i].1, depth + 1, Some(map[i].0.as_str()));
                extend(&mut part, value.as_slice());
                let ghost before = texts(parts@);
                let ghost text = part@;
                parts.push(part);
                proof {
                    assert(texts(parts@) == before.push(text));
                    assert(trees[i as int] == (map@[i as int].0@, map@[i as int].1@));
                    assert(text == in_quotes(trees[i as int].0) + seq![':'] + value@);
                }
                i += 1;
            }
            let mut out: Vec<char> = Vec::new();
            out.push('{');
            let body = join(&parts, ",");
            extend(&mut out, body.as_slice());
            out.push('}');
            proof {
                assert(out@ == seq!['{'] + body@ + seq!['}']);
            }
            out
        },
    }
}

// ---------------------------------------------------------------------------
// Templates
// ---------------------------------------------------------------------------

/// Text cut to `max` characters, with a marker where it was cut.
pub open spec fn clipped(s: Seq<char>, max: nat) -> Seq<char> {
    if s.len() <= max {
        s
    } else {
        s.take(max as int).push('\u{2026}')
    }
}

/// Cut text to `max` characters.
pub fn truncate_chars(s: &[char], max: usize) -> (r: Vec<char>)
    ensures
        r@ == clipped(s@, max as nat),
{
    if s.len() <= max {
        return copy_of(s);
    }
    let mut out = copy_of(slice_subrange(s, 0, max));
    out.push('\u{2026}');
    out
}

/// Whether a message may be a JSON document, by its first character.
pub open spec fn structured(message: Seq<char>) -> bool {
    let t = trimmed(message, CharClass::White);
    t.len() > 0 && (t[0] == '{' || t[0] == '[')
}

/// The template of a message, given what its text reads as in JSON.
pub open spec fn template_given(message: Seq<char>, parsed: Option<JsonTree>) -> Seq<char> {
    let t = if structured(message) && parsed is Some {
        shape(parsed->0, 0, None)
    } else {
        words_masked(message)
    };
    clipped(t, MAX_TEMPLATE_CHARS as nat)
}

/// The template of a message.
pub open spec fn template_of(message: Seq<char>) -> Seq<char> {
    template_given(message, parsed_json(trimmed(message, CharClass::White)))
}

/// Reduce a log message to its template, given what it reads as in JSON.
///
/// Structured messages are handled first. A JSON line carries no whitespace,
/// so word-splitting alone would treat the whole object as one unmaskable
/// token and give every distinct payload its own cluster.
pub fn template_with(message: &str, parsed: Option<Json>) -> (r: String)
    ensures
        r@ == template_given(message@, tree_opt(parsed)),
        r@.len() <= MAX_TEMPLATE_CHARS + 1,
{
    let m = chars_of(message);
    let t = trim(m.as_slice(), CharClass::White);
    let full = if t.len() > 0 && (t[0] == '{' || t[0] == '[') {
        match parsed {
            Some(v) => render(&v, 0, None),
            None => words_template(m.as_slice()),
        }
    } else {
        words_template(m.as_slice())
    };
    let cutoff = truncate_chars(full.as_slice(), MAX_TEMPLATE_CHARS);
    string_of(cutoff.as_slice())
}

/// Reduce a log message to its template.
pub fn template(message: &str) -> (r: String)
    ensures
        r@ == template_of(message@),
        r@.len() <= MAX_TEMPLATE_CHARS + 1,
{
    let m = chars_of(message);
    let t = trim(m.as_slice(), CharClass::White);
    let parsed = if t.len() > 0 && (t[0] == '{' || t[0] == '[') {
        let text = string_of(t);
        parse(text.as_str())
    } else {
        None
    };
    template_with(message, parsed)
}

// ---------------------------------------------------------------------------
// Laws
// ---------------------------------------------------------------------------

/// The empty text is no value.
pub proof fn a_value_is_not_empty(t: Seq<char>)
    requires
        variable(t),
    ensures
        t.len() > 0,
{
    if t.len() == 0 {
        assert(pieces(t, '-').len() == 1);
        assert(pieces(host_part(t), '.').len() == 1);
    }
}

/// The same failure with different values is one cluster: two unstructured
/// lines whose words agree up to the values between equal punctuation have
/// the same template.
pub proof fn differing_values_share_a_template(a: Seq<char>, b: Seq<char>)
    requires
        words(a).len() == words(b).len(),
        forall|i: int|
            0 <= i < words(a).len() ==> {
                ||| #[trigger] words(a)[i] == words(b)[i]
                ||| {
                    &&& variable(kernel(words(a)[i]))
                    &&& variable(kernel(words(b)[i]))
                    &&& opening(words(a)[i]) == opening(words(b)[i])
                    &&& closing(words(a)[i]) == closing(words(b)[i])
                }
            },
    ensures
        words_masked(a) == words_masked(b),
{
    let wa = words(a);
    let wb = words(b);
    assert forall|i: int| 0 <= i < wa.len() implies masked(wa[i]) == masked(wb[i]) by {
        if wa[i] != wb[i] {
            a_value_is_not_empty(kernel(wa[i]));
            a_value_is_not_empty(kernel(wb[i]));
        }
    }
    assert(masked_words(wa) == masked_words(wb));
}

/// A value under an identity key survives masking as it stands, provided it
/// is short enough to be enum-like.
pub proof fn identity_values_survive(key: Seq<char>, value: Seq<char>, depth: nat)
    requires
        identity_key(key),
        utf8_len(value) <= MAX_IDENTITY_VALUE,
        depth <= MAX_DEPTH,
    ensures
        shape(JsonTree::Number(value), depth, Some(key)) == value,
        shape(JsonTree::Text(value), depth, Some(key)) == in_quotes(value),
        shown_field(value, key) == value,
{
}

/// No white space but single-line blanks.
pub open spec fn one_line(s: Seq<char>) -> bool {
    forall|i: int| 0 <= i < s.len() ==> #[trigger] s[i] == ' ' || !CharClass::White.has(s[i])
}

/// Words hold no white space.
proof fn words_are_solid(s: Seq<char>, i: int)
    requires
        0 <= i < words(s).len(),
    ensures
        all_in(words(s)[i], CharClass::Word),
    decreases s.len(),
{
    let t = trimmed_start(s, CharClass::White);
    lead_len_stops(s, CharClass::White);
    lead_len_stops(t, CharClass::Word);
    let n = lead_len(t, CharClass::Word) as int;
    if n > 0 && i > 0 {
        words_are_solid(t.skip(n), i - 1);
        assert(words(s)[i] == words(t.skip(n))[i - 1]);
    }
}

/// The mask holds no white space.
proof fn mask_is_solid()
    ensures
        all_in(MASK@, CharClass::Word),
{
    reveal_strlit("<*>");
}

/// Masking the fields of a payload brings in no white space.
proof fn masked_fields_are_solid(s: Seq<char>, name: Seq<char>)
    requires
        all_in(s, CharClass::Word),
    ensures
        all_in(fields_masked(s, name), CharClass::Word),
    decreases s.len(),
{
    let n = lead_len(s, CharClass::Field) as int;
    lead_len_stops(s, CharClass::Field);
    mask_is_solid();
    if n < s.len() {
        masked_fields_are_solid(
            s.skip(n + 1),
            if n == 0 {
                name
            } else {
                s.take(n)
            },
        );
    }
}

/// Masking a word brings in no white space.
proof fn masked_words_are_solid(raw: Seq<char>)
    requires
        all_in(raw, CharClass::Word),
    ensures
        all_in(masked(raw), CharClass::Word),
{
    let c = kernel(raw);
    lead_len_stops(raw, CharClass::Opening);
    trail_len_stops(raw.skip(kernel_start(raw)), CharClass::Closing);
    assert(forall|i: int| 0 <= i < c.len() ==> #[trigger] c[i] == raw[i + kernel_start(raw)]);
    assert(all_in(c, CharClass::Word));
    mask_is_solid();
    masked_fields_are_solid(c, Seq::empty());
    if logfmt_key(c) is Some {
        lead_len_stops(c, CharClass::Except('='));
    }
}

/// Joining solid texts with blanks gives one line.
proof fn blanks_join_to_one_line(parts: Seq<Seq<char>>)
    requires
        forall|i: int| 0 <= i < parts.len() ==> all_in(#[trigger] parts[i], CharClass::Word),
    ensures
        one_line(joined(parts, " "@)),
    decreases parts.len(),
{
    reveal_strlit(" ");
    if parts.len() > 0 {
        let last = parts[parts.len() - 1];
        assert(all_in(last, CharClass::Word));
        assert forall|i: int| 0 <= i < last.len() implies !CharClass::White.has(
            #[trigger] last[i],
        ) by {
            assert(CharClass::Word.has(last[i]));
        }
        if parts.len() > 1 {
            blanks_join_to_one_line(parts.drop_last());
            let head = joined(parts.drop_last(), " "@) + " "@;
            assert(one_line(head));
            assert(joined(parts, " "@) == head + last);
        }
    }
}

/// The template of an unstructured message is one line: line breaks and
/// other white space inside the message are flattened to single blanks.
pub proof fn unstructured_template_is_one_line(message: Seq<char>)
    requires
        !structured(message),
    ensures
        one_line(template_of(message)),
{
    let w = words(message);
    let parts = masked_words(w);
    assert forall|i: int| 0 <= i < parts.len() implies all_in(
        #[trigger] parts[i],
        CharClass::Word,
    ) by {
        if i < MAX_TOKENS && i < w.len() {
            words_are_solid(message, i);
            masked_words_are_solid(w[i]);
        }
    }
    blanks_join_to_one_line(parts);
}

} // verus!
