//! Values: which tokens of a message vary from one occurrence to the next.

use crate::cluster::tokenize::{
    arn, closing, email, hexadecimal, host_part, ip, kernel, long_opaque_id, masked, numeric, octet,
    opening, path, resource_id, timestamp, unsigned, url, uuid, variable,
};
use crate::laws::texts::{
    counts_add_up, cutting_takes_the_first, none_is_a_count_of_zero, the_parts_make_the_whole,
};
use crate::text::{
    all_in, any_in, begins, count_in, joined, joined_texts_are_its_pieces, lead_len, lead_len_is,
    lead_len_stops, pieces, stands_at, trail_len_is, trimmed_end, CharClass,
};
use vstd::prelude::*;

verus! {

// ---------------------------------------------------------------------------
// Characters
// ---------------------------------------------------------------------------

/// A decimal digit.
pub open spec fn digit(c: char) -> bool {
    '0' <= c <= '9'
}

/// A letter of ASCII.
pub open spec fn letter(c: char) -> bool {
    'a' <= c <= 'z' || 'A' <= c <= 'Z'
}

/// A hexadecimal digit.
pub open spec fn hex_digit(c: char) -> bool {
    '0' <= c <= '9' || 'a' <= c <= 'f' || 'A' <= c <= 'F'
}

/// Whether a text is of digits alone.
pub open spec fn digits(s: Seq<char>) -> bool {
    forall|i: int| 0 <= i < s.len() ==> digit(#[trigger] s[i])
}

/// Whether a text is of letters alone.
pub open spec fn letters(s: Seq<char>) -> bool {
    forall|i: int| 0 <= i < s.len() ==> letter(#[trigger] s[i])
}

/// Whether a text is of hexadecimal digits alone.
pub open spec fn hex_digits(s: Seq<char>) -> bool {
    forall|i: int| 0 <= i < s.len() ==> hex_digit(#[trigger] s[i])
}

// ---------------------------------------------------------------------------
// Numbers
// ---------------------------------------------------------------------------

/// Whether a token is a number up to place `j`, from place `i` on, and a unit
/// behind it.
pub open spec fn measures(t: Seq<char>, i: int, j: int) -> bool {
    &&& 0 <= i <= 1
    &&& i <= j <= t.len()
    &&& i == 1 ==> t[0] == '-' || t[0] == '+'
    &&& forall|k: int| i <= k < j ==> (digit(#[trigger] t[k]) || t[k] == '.' || t[k] == ',')
    &&& exists|k: int| i <= k < j && digit(#[trigger] t[k])
    &&& forall|k: int, l: int| i <= k < l < j ==> !(#[trigger] t[k] == '.' && #[trigger] t[l] == '.')
    &&& t.len() - j <= 4
    &&& forall|k: int| j <= k < t.len() ==> (letter(#[trigger] t[k]) || t[k] == '%')
}

/// One point at most is counted where no two places have one.
proof fn one_at_most(s: Seq<char>, c: char)
    ensures
        count_in(s, CharClass::Is(c)) <= 1 <==> forall|k: int, l: int|
            0 <= k < l < s.len() ==> !(#[trigger] s[k] == c && #[trigger] s[l] == c),
    decreases s.len(),
{
    let k0 = CharClass::Is(c);
    if s.len() > 0 {
        let d = s.drop_last();
        let n = s.len() - 1;
        one_at_most(d, c);
        none_is_a_count_of_zero(d, k0);
        if count_in(s, k0) <= 1 {
            assert forall|k: int, l: int| 0 <= k < l < s.len() implies !(#[trigger] s[k] == c
                && #[trigger] s[l] == c) by {
                assert(d[k] == s[k]);
                if l < n {
                    assert(d[l] == s[l]);
                } else if s[l] == c {
                    assert(count_in(d, k0) == 0);
                    assert(!k0.has(d[k]));
                }
            }
        }
        if forall|k: int, l: int|
            0 <= k < l < s.len() ==> !(#[trigger] s[k] == c && #[trigger] s[l] == c) {
            assert forall|k: int, l: int| 0 <= k < l < d.len() implies !(#[trigger] d[k] == c
                && #[trigger] d[l] == c) by {
                assert(d[k] == s[k] && d[l] == s[l]);
            }
            if s[n] == c {
                assert forall|k: int| 0 <= k < d.len() implies !k0.has(#[trigger] d[k]) by {
                    assert(d[k] == s[k]);
                }
            }
        }
    }
}

/// A number is a sign, if there is one, digits with one point at most and any
/// commas, and a unit of four letters or percent signs at most.
pub proof fn a_number_has_one_point_and_a_short_unit(t: Seq<char>)
    ensures
        numeric(t) <==> exists|i: int, j: int| measures(t, i, j),
{
    let body = unsigned(t);
    let i0: int = if t.len() > 0 && (t[0] == '-' || t[0] == '+') {
        1
    } else {
        0
    };
    assert(body == t.skip(i0));
    let n = lead_len(body, CharClass::Number) as int;
    lead_len_stops(body, CharClass::Number);
    let num = body.take(n);
    let unit = body.skip(n);
    one_at_most(num, '.');
    if numeric(t) {
        let j0 = i0 + n;
        assert forall|k: int| i0 <= k < j0 implies (digit(#[trigger] t[k]) || t[k] == '.' || t[k]
            == ',') by {
            assert(body[k - i0] == t[k]);
            assert(CharClass::Number.has(body[k - i0]));
        }
        let m = choose|m: int| 0 <= m < num.len() && #[trigger] CharClass::Digit.has(num[m]);
        assert(t[i0 + m] == num[m]);
        assert(digit(t[i0 + m]));
        assert forall|k: int, l: int| i0 <= k < l < j0 implies !(#[trigger] t[k] == '.'
            && #[trigger] t[l] == '.') by {
            assert(num[k - i0] == t[k]);
            assert(num[l - i0] == t[l]);
        }
        assert forall|k: int| j0 <= k < t.len() implies (letter(#[trigger] t[k]) || t[k]
            == '%') by {
            assert(unit[k - j0] == t[k]);
            assert(CharClass::Unit.has(unit[k - j0]));
        }
        assert(measures(t, i0, j0));
    }
    if exists|i: int, j: int| measures(t, i, j) {
        let (i, j) = choose|i: int, j: int| measures(t, i, j);
        let k0 = choose|k: int| i <= k < j && digit(#[trigger] t[k]);
        if i != i0 {
            assert(i == 0 && i0 == 1);
            assert(digit(t[0]) || t[0] == '.' || t[0] == ',');
        }
        assert forall|k: int| 0 <= k < j - i implies #[trigger] CharClass::Number.has(
            body[k],
        ) by {
            assert(body[k] == t[k + i]);
        }
        if j < t.len() {
            assert(body[j - i] == t[j]);
            assert(letter(t[j]) || t[j] == '%');
        }
        lead_len_is(body, CharClass::Number, (j - i) as nat);
        assert(n == j - i);
        assert(num[k0 - i] == t[k0]);
        assert(CharClass::Digit.has(num[k0 - i]));
        assert forall|k: int, l: int| 0 <= k < l < num.len() implies !(#[trigger] num[k] == '.'
            && #[trigger] num[l] == '.') by {
            assert(num[k] == t[k + i]);
            assert(num[l] == t[l + i]);
        }
        assert forall|k: int| 0 <= k < unit.len() implies #[trigger] CharClass::Unit.has(
            unit[k],
        ) by {
            assert(unit[k] == t[k + j]);
            assert(letter(t[k + j]) || t[k + j] == '%');
        }
    }
}

// ---------------------------------------------------------------------------
// Identifiers
// ---------------------------------------------------------------------------

/// Whether hexadecimal digits stand between two places.
pub open spec fn hex_between(t: Seq<char>, i: int, j: int) -> bool {
    forall|k: int| i <= k < j ==> hex_digit(#[trigger] t[k])
}

/// A UUID has hexadecimal digits in groups of 8, 4, 4, 4 and 12.
pub proof fn a_uuid_has_five_groups(t: Seq<char>)
    ensures
        uuid(t) <==> {
            &&& t.len() == 36
            &&& t[8] == '-' && t[13] == '-' && t[18] == '-' && t[23] == '-'
            &&& hex_between(t, 0, 8)
            &&& hex_between(t, 9, 13)
            &&& hex_between(t, 14, 18)
            &&& hex_between(t, 19, 23)
            &&& hex_between(t, 24, 36)
        },
{
    let dash = seq!['-'];
    if uuid(t) {
        let p = pieces(t, '-');
        the_parts_make_the_whole(t, '-');
        five_joined(p, dash);
        assert(t == p[0] + dash + p[1] + dash + p[2] + dash + p[3] + dash + p[4]);
        assert(all_in(p[0], CharClass::Hex) && all_in(p[1], CharClass::Hex) && all_in(
            p[2],
            CharClass::Hex,
        ) && all_in(p[3], CharClass::Hex) && all_in(p[4], CharClass::Hex));
        assert forall|k: int| 0 <= k < 8 implies hex_digit(#[trigger] t[k]) by {
            assert(CharClass::Hex.has(p[0][k]));
        }
        assert forall|k: int| 9 <= k < 13 implies hex_digit(#[trigger] t[k]) by {
            assert(CharClass::Hex.has(p[1][k - 9]));
        }
        assert forall|k: int| 14 <= k < 18 implies hex_digit(#[trigger] t[k]) by {
            assert(CharClass::Hex.has(p[2][k - 14]));
        }
        assert forall|k: int| 19 <= k < 23 implies hex_digit(#[trigger] t[k]) by {
            assert(CharClass::Hex.has(p[3][k - 19]));
        }
        assert forall|k: int| 24 <= k < 36 implies hex_digit(#[trigger] t[k]) by {
            assert(CharClass::Hex.has(p[4][k - 24]));
        }
    }
    if t.len() == 36 && t[8] == '-' && t[13] == '-' && t[18] == '-' && t[23] == '-' && hex_between(
        t,
        0,
        8,
    ) && hex_between(t, 9, 13) && hex_between(t, 14, 18) && hex_between(t, 19, 23) && hex_between(
        t,
        24,
        36,
    ) {
        let p = seq![
            t.subrange(0, 8),
            t.subrange(9, 13),
            t.subrange(14, 18),
            t.subrange(19, 23),
            t.subrange(24, 36),
        ];
        five_joined(p, dash);
        assert(joined(p, dash) =~= t);
        assert forall|i: int| 0 <= i < 5 implies all_in(#[trigger] p[i], CharClass::Hex) && !p[i].contains(
            '-',
        ) by {
            let s = p[i];
            assert forall|k: int| 0 <= k < s.len() implies #[trigger] CharClass::Hex.has(s[k]) by {
                let at = if i == 0 {
                    k
                } else if i == 1 {
                    k + 9
                } else if i == 2 {
                    k + 14
                } else if i == 3 {
                    k + 19
                } else {
                    k + 24
                };
                assert(s[k] == t[at]);
                assert(hex_digit(t[at]));
            }
            if s.contains('-') {
                let k = choose|k: int| 0 <= k < s.len() && s[k] == '-';
                assert(CharClass::Hex.has(s[k]));
            }
        }
        joined_texts_are_its_pieces(p, '-');
        assert(pieces(t, '-') == p);
    }
}

/// Five texts joined.
proof fn five_joined(p: Seq<Seq<char>>, sep: Seq<char>)
    requires
        p.len() == 5,
    ensures
        joined(p, sep) == p[0] + sep + p[1] + sep + p[2] + sep + p[3] + sep + p[4],
{
    let a = p.drop_last();
    let b = a.drop_last();
    let c = b.drop_last();
    let d = c.drop_last();
    assert(joined(d, sep) == p[0]);
    assert(joined(c, sep) == p[0] + sep + p[1]);
    assert(joined(b, sep) == p[0] + sep + p[1] + sep + p[2]);
    assert(joined(a, sep) == p[0] + sep + p[1] + sep + p[2] + sep + p[3]);
}

/// A resource identifier is one to eight small letters, a dash, and eight or
/// more hexadecimal digits.
pub proof fn a_resource_id_has_a_short_prefix(prefix: Seq<char>, rest: Seq<char>)
    requires
        !prefix.contains('-'),
    ensures
        resource_id(prefix + seq!['-'] + rest) <==> {
            &&& 1 <= prefix.len() <= 8
            &&& forall|i: int| 0 <= i < prefix.len() ==> 'a' <= #[trigger] prefix[i] <= 'z'
            &&& rest.len() >= 8
            &&& hex_digits(rest)
        },
        !resource_id(prefix),
{
    cutting_takes_the_first(prefix, '-', rest);
    if all_in(prefix, CharClass::Lower) {
        assert forall|i: int| 0 <= i < prefix.len() implies 'a' <= #[trigger] prefix[i] <= 'z' by {
            assert(CharClass::Lower.has(prefix[i]));
        }
    }
    if all_in(rest, CharClass::Hex) {
        assert forall|i: int| 0 <= i < rest.len() implies hex_digit(#[trigger] rest[i]) by {
            assert(CharClass::Hex.has(rest[i]));
        }
    }
}

/// A hexadecimal number is `0x` and a digit or more, or 16 digits or more.
pub proof fn a_hexadecimal_number_is_marked_or_long(t: Seq<char>)
    ensures
        hexadecimal(t) <==> {
            ||| t.len() > 2 && t[0] == '0' && (t[1] == 'x' || t[1] == 'X') && hex_digits(t.skip(2))
            ||| t.len() >= 16 && hex_digits(t)
        },
{
    reveal_strlit("0x");
    reveal_strlit("0X");
    let marked = t.len() >= 2 && t[0] == '0' && (t[1] == 'x' || t[1] == 'X');
    if marked {
        if t[1] == 'x' {
            assert(t.take(2) =~= "0x"@);
        } else {
            assert(t.take(2) =~= "0X"@);
        }
        assert(!hex_digit(t[1]));
    } else {
        if begins(t, "0x"@) {
            assert(t.take(2)[0] == '0' && t.take(2)[1] == 'x');
        }
        if begins(t, "0X"@) {
            assert(t.take(2)[0] == '0' && t.take(2)[1] == 'X');
        }
    }
    if all_in(t, CharClass::Hex) {
        assert forall|i: int| 0 <= i < t.len() implies hex_digit(#[trigger] t[i]) by {
            assert(CharClass::Hex.has(t[i]));
        }
    }
    let r = t.skip(2);
    if marked && all_in(r, CharClass::Hex) {
        assert forall|i: int| 0 <= i < r.len() implies hex_digit(#[trigger] r[i]) by {
            assert(CharClass::Hex.has(r[i]));
        }
    }
}

/// A long identifier is 16 or more letters, digits, dashes and underscores,
/// with a letter and a digit among them.
pub proof fn a_long_identifier_mixes_letters_and_digits(t: Seq<char>)
    ensures
        long_opaque_id(t) <==> {
            &&& t.len() >= 16
            &&& exists|i: int| 0 <= i < t.len() && digit(#[trigger] t[i])
            &&& exists|i: int| 0 <= i < t.len() && letter(#[trigger] t[i])
            &&& forall|i: int|
                0 <= i < t.len() ==> (digit(#[trigger] t[i]) || letter(t[i]) || t[i] == '-' || t[i]
                    == '_')
        },
{
    if long_opaque_id(t) {
        let i = choose|i: int| 0 <= i < t.len() && #[trigger] CharClass::Digit.has(t[i]);
        assert(digit(t[i]));
        let j = choose|j: int| 0 <= j < t.len() && #[trigger] CharClass::Alpha.has(t[j]);
        assert(letter(t[j]));
        assert forall|i: int| 0 <= i < t.len() implies (digit(#[trigger] t[i]) || letter(t[i])
            || t[i] == '-' || t[i] == '_') by {
            assert(CharClass::Opaque.has(t[i]));
        }
    }
    if exists|i: int| 0 <= i < t.len() && digit(#[trigger] t[i]) {
        let i = choose|i: int| 0 <= i < t.len() && digit(#[trigger] t[i]);
        assert(CharClass::Digit.has(t[i]));
    }
    if exists|i: int| 0 <= i < t.len() && letter(#[trigger] t[i]) {
        let i = choose|i: int| 0 <= i < t.len() && letter(#[trigger] t[i]);
        assert(CharClass::Alpha.has(t[i]));
    }
}

// ---------------------------------------------------------------------------
// Addresses
// ---------------------------------------------------------------------------

/// Whether a text is one part of an address: one to three digits.
pub open spec fn quad(o: Seq<char>) -> bool {
    1 <= o.len() <= 3 && digits(o)
}

/// Four texts joined.
proof fn four_joined(p: Seq<Seq<char>>, sep: Seq<char>)
    requires
        p.len() == 4,
    ensures
        joined(p, sep) == p[0] + sep + p[1] + sep + p[2] + sep + p[3],
{
    let a = p.drop_last();
    let b = a.drop_last();
    let c = b.drop_last();
    assert(joined(c, sep) == p[0]);
    assert(joined(b, sep) == p[0] + sep + p[1]);
    assert(joined(a, sep) == p[0] + sep + p[1] + sep + p[2]);
}

/// An address is four parts of one to three digits each, with points between
/// them, and a port behind a colon if there is one.
pub proof fn an_address_has_four_parts(
    a: Seq<char>,
    b: Seq<char>,
    c: Seq<char>,
    d: Seq<char>,
    port: Seq<char>,
)
    requires
        quad(a),
        quad(b),
        quad(c),
        quad(d),
        port.len() > 0,
        digits(port),
    ensures
        ip(a + seq!['.'] + b + seq!['.'] + c + seq!['.'] + d),
        ip(a + seq!['.'] + b + seq!['.'] + c + seq!['.'] + d + seq![':'] + port),
{
    let dot = seq!['.'];
    let p = seq![a, b, c, d];
    let host = a + dot + b + dot + c + dot + d;
    four_joined(p, dot);
    assert forall|i: int| 0 <= i < 4 implies !(#[trigger] p[i]).contains('.') && octet(p[i]) by {
        let o = p[i];
        assert(quad(o));
        assert forall|k: int| 0 <= k < o.len() implies #[trigger] CharClass::Digit.has(o[k]) by {
            assert(digit(o[k]));
        }
        if o.contains('.') {
            let k = choose|k: int| 0 <= k < o.len() && o[k] == '.';
            assert(digit(o[k]));
        }
    }
    joined_texts_are_its_pieces(p, '.');
    assert(pieces(host, '.') == p);
    assert(!host.contains(':')) by {
        if host.contains(':') {
            let k = choose|k: int| 0 <= k < host.len() && host[k] == ':';
            assert(digit(host[k]) || host[k] == '.') by {
                let la = a.len() as int;
                let lb = la + 1 + b.len();
                let lc = lb + 1 + c.len();
                if k < la {
                    assert(host[k] == a[k]);
                } else if k == la {
                } else if k < lb {
                    assert(host[k] == b[k - la - 1]);
                } else if k == lb {
                } else if k < lc {
                    assert(host[k] == c[k - lb - 1]);
                } else if k == lc {
                } else {
                    assert(host[k] == d[k - lc - 1]);
                }
            }
        }
    }
    cutting_takes_the_first(host, ':', port);
    assert forall|k: int| 0 <= k < port.len() implies #[trigger] CharClass::Digit.has(port[k]) by {
        assert(digit(port[k]));
    }
    assert(host_part(host) == host);
    assert(host_part(host + seq![':'] + port) == host);
}

/// What is taken for an address has four parts of one to three digits.
pub proof fn only_four_parts_are_an_address(t: Seq<char>)
    requires
        ip(t),
    ensures
        exists|p: Seq<Seq<char>>|
            (#[trigger] joined(p, seq!['.']) == t || exists|port: Seq<char>|
                port.len() > 0 && digits(port) && t == #[trigger] (joined(p, seq!['.']) + seq![':']
                    + port)) && p.len() == 4 && forall|i: int| 0 <= i < 4 ==> quad(#[trigger] p[i]),
{
    let host = host_part(t);
    let p = pieces(host, '.');
    the_parts_make_the_whole(host, '.');
    if host != t {
        let n = lead_len(t, CharClass::Except(':')) as int;
        lead_len_stops(t, CharClass::Except(':'));
        let port = t.skip(n + 1);
        assert(t =~= t.take(n) + seq![':'] + port);
        assert forall|k: int| 0 <= k < port.len() implies digit(#[trigger] port[k]) by {
            assert(CharClass::Digit.has(port[k]));
        }
        assert(t == joined(p, seq!['.']) + seq![':'] + port);
    }
    assert forall|i: int| 0 <= i < 4 implies quad(#[trigger] p[i]) by {
        assert(octet(p[i]));
        let o = p[i];
        assert forall|k: int| 0 <= k < o.len() implies digit(#[trigger] o[k]) by {
            assert(CharClass::Digit.has(o[k]));
        }
    }
    assert(joined(p, seq!['.']) == host);
}

/// An address of mail has something in front of its first `@`, and a point
/// behind it that does not come at once.
pub proof fn mail_goes_to_a_host(user: Seq<char>, host: Seq<char>)
    requires
        !user.contains('@'),
    ensures
        email(user + seq!['@'] + host) <==> user.len() > 0 && host.contains('.') && host[0] != '.',
        !email(user),
{
    cutting_takes_the_first(user, '@', host);
    if host.contains('.') {
        let i = choose|i: int| 0 <= i < host.len() && host[i] == '.';
        assert(CharClass::Is('.').has(host[i]));
    }
    if any_in(host, CharClass::Is('.')) {
        let i = choose|i: int| 0 <= i < host.len() && #[trigger] CharClass::Is('.').has(host[i]);
        assert(host[i] == '.');
    }
}

/// A URL has `://` somewhere and takes more than eight bytes.
pub proof fn a_url_has_a_scheme(scheme: Seq<char>, rest: Seq<char>)
    requires
        scheme.len() + rest.len() > 5,
    ensures
        url(scheme + "://"@ + rest),
        forall|t: Seq<char>| #[trigger]
            url(t) ==> vstd::utf8::encode_utf8(t).len() > 8 && exists|i: int|
                0 <= i && i + 3 <= t.len() && #[trigger] t[i] == ':' && t[i + 1] == '/' && t[i + 2]
                    == '/',
{
    reveal_strlit("://");
    let t = scheme + "://"@ + rest;
    assert(t.subrange(scheme.len() as int, scheme.len() as int + 3) =~= "://"@);
    assert(stands_at(t, "://"@, scheme.len() as int));
    crate::laws::texts::bytes_are_those_of_utf8(t);
    assert forall|t: Seq<char>| #[trigger] url(t) implies vstd::utf8::encode_utf8(t).len() > 8
        && exists|i: int|
        0 <= i && i + 3 <= t.len() && #[trigger] t[i] == ':' && t[i + 1] == '/' && t[i + 2]
            == '/' by {
        crate::laws::texts::bytes_are_those_of_utf8(t);
        let i = choose|i: int| #[trigger] stands_at(t, "://"@, i);
        let s = t.subrange(i, i + 3);
        assert(s[0] == t[i] && s[1] == t[i + 1] && s[2] == t[i + 2]);
        assert(t[i] == ':');
    }
}

/// An ARN starts with `arn:` and has four colons or more.
pub proof fn an_arn_has_four_colons(rest: Seq<char>)
    ensures
        arn("arn:"@ + rest) <==> rest.filter(|c: char| CharClass::Is(':').has(c)).len() >= 3,
        forall|t: Seq<char>| #[trigger]
            arn(t) ==> t.len() >= 4 && t[0] == 'a' && t[1] == 'r' && t[2] == 'n' && t[3] == ':',
{
    reveal_strlit("arn:");
    let k = CharClass::Is(':');
    let head = "arn:"@;
    let t = head + rest;
    assert(t.take(4) =~= head);
    crate::laws::texts::a_count_is_of_positions(rest, k);
    counts_add_up(head, rest, k);
    assert(count_in(head, k) == 1) by {
        let three = head.take(3);
        assert(head.drop_last() == three);
        none_is_a_count_of_zero(three, k);
        assert(count_in(three, k) == 0);
    }
    assert forall|t: Seq<char>| #[trigger] arn(t) implies t.len() >= 4 && t[0] == 'a' && t[1] == 'r'
        && t[2] == 'n' && t[3] == ':' by {
        let s = t.take(4);
        assert(s[0] == t[0] && s[1] == t[1] && s[2] == t[2] && s[3] == t[3]);
    }
}

/// A path has a slash in front and another one behind it, or a drive in front
/// and a backslash behind it.
pub proof fn a_path_has_a_root_and_a_separator(t: Seq<char>)
    ensures
        path(t) <==> {
            ||| t.len() > 2 && t[0] == '/' && exists|i: int| 0 < i < t.len() && t[i] == '/'
            ||| t.len() > 3 && letter(t[0]) && t[1] == ':' && t.contains('\\')
        },
{
    let k = CharClass::Is('/');
    if t.len() > 2 && t[0] == '/' {
        let head = t.take(1);
        let rest = t.skip(1);
        assert(t == head + rest);
        counts_add_up(head, rest, k);
        assert(head.drop_last() == Seq::<char>::empty());
        reveal_with_fuel(count_in, 2);
        assert(count_in(head, k) == 1);
        none_is_a_count_of_zero(rest, k);
        if exists|i: int| 0 < i < t.len() && t[i] == '/' {
            let i = choose|i: int| 0 < i < t.len() && t[i] == '/';
            assert(rest[i - 1] == '/');
            assert(k.has(rest[i - 1]));
        }
        if count_in(rest, k) > 0 {
            let i = choose|i: int| 0 <= i < rest.len() && k.has(#[trigger] rest[i]);
            assert(t[i + 1] == '/');
        }
    }
    let b = CharClass::Is('\\');
    if t.contains('\\') {
        let i = choose|i: int| 0 <= i < t.len() && t[i] == '\\';
        assert(b.has(t[i]));
    }
    if any_in(t, b) {
        let i = choose|i: int| 0 <= i < t.len() && #[trigger] b.has(t[i]);
        assert(t[i] == '\\');
    }
}

/// A time stamp has six digits or more, two dashes or two colons or more, and
/// nothing but digits and `-:TZ.+`.
pub proof fn a_time_stamp_is_digits_and_separators(t: Seq<char>)
    ensures
        timestamp(t) <==> {
            &&& t.filter(|c: char| CharClass::Digit.has(c)).len() >= 6
            &&& t.filter(|c: char| CharClass::Is('-').has(c)).len() >= 2 || t.filter(
                |c: char| CharClass::Is(':').has(c),
            ).len() >= 2
            &&& forall|i: int|
                0 <= i < t.len() ==> (digit(#[trigger] t[i]) || t[i] == '-' || t[i] == ':' || t[i]
                    == 'T' || t[i] == 'Z' || t[i] == '.' || t[i] == '+')
        },
{
    crate::laws::texts::a_count_is_of_positions(t, CharClass::Digit);
    crate::laws::texts::a_count_is_of_positions(t, CharClass::Is('-'));
    crate::laws::texts::a_count_is_of_positions(t, CharClass::Is(':'));
    if all_in(t, CharClass::Stamp) {
        assert forall|i: int| 0 <= i < t.len() implies (digit(#[trigger] t[i]) || t[i] == '-' || t[i]
            == ':' || t[i] == 'T' || t[i] == 'Z' || t[i] == '.' || t[i] == '+') by {
            assert(CharClass::Stamp.has(t[i]));
        }
    }
}

// ---------------------------------------------------------------------------
// What varies and what does not
// ---------------------------------------------------------------------------

/// Each kind of value varies, and a lone dash does; nothing else does.
pub proof fn every_kind_of_value_varies(t: Seq<char>)
    ensures
        variable(t) <==> {
            ||| t.len() == 1 && t[0] == '-'
            ||| numeric(t)
            ||| uuid(t)
            ||| timestamp(t)
            ||| ip(t)
            ||| hexadecimal(t)
            ||| path(t)
            ||| url(t)
            ||| arn(t)
            ||| email(t)
            ||| resource_id(t)
            ||| long_opaque_id(t)
        },
{
    if t.len() == 1 && t[0] == '-' {
        assert(t =~= seq!['-']);
    }
}

/// A short token without any punctuation varies only as a number or as a
/// hexadecimal number.
pub proof fn a_short_plain_token_varies_only_as_a_number(t: Seq<char>)
    requires
        t.len() < 16,
        forall|i: int|
            0 <= i < t.len() ==> (digit(#[trigger] t[i]) || letter(t[i]) || t[i] == '%' || t[i]
                == '_'),
    ensures
        variable(t) <==> numeric(t) || (t.len() > 2 && t[0] == '0' && (t[1] == 'x' || t[1] == 'X')
            && hex_digits(t.skip(2))),
{
    let n = t.len() as int;
    a_hexadecimal_number_is_marked_or_long(t);
    a_uuid_has_five_groups(t);
    a_path_has_a_root_and_a_separator(t);
    none_is_a_count_of_zero(t, CharClass::Is('-'));
    none_is_a_count_of_zero(t, CharClass::Is(':'));
    assert forall|i: int| 0 <= i < n implies !CharClass::Is('-').has(#[trigger] t[i]) by {
        assert(digit(t[i]) || letter(t[i]) || t[i] == '%' || t[i] == '_');
    }
    assert forall|i: int| 0 <= i < n implies !CharClass::Is(':').has(#[trigger] t[i]) by {
        assert(digit(t[i]) || letter(t[i]) || t[i] == '%' || t[i] == '_');
    }
    assert(!t.contains('-') && !t.contains(':') && !t.contains('@') && !t.contains('.')
        && !t.contains('/')) by {
        assert forall|i: int| 0 <= i < n implies t[i] != '-' && t[i] != ':' && t[i] != '@' && t[i]
            != '.' && t[i] != '/' by {
            assert(digit(t[i]) || letter(t[i]) || t[i] == '%' || t[i] == '_');
        }
    }
    if t == seq!['-'] {
        assert(t[0] == '-');
        assert(t.contains('-'));
    }
    a_resource_id_has_a_short_prefix(t, Seq::empty());
    mail_goes_to_a_host(t, Seq::empty());
    if ip(t) {
        cutting_takes_the_first(t, ':', Seq::empty());
        cutting_takes_the_first(t, '.', Seq::empty());
        let k = CharClass::Except('.');
        assert forall|i: int| 0 <= i < n implies #[trigger] k.has(t[i]) by {
            assert(t.contains(t[i]));
        }
        lead_len_is(t, k, t.len());
        assert(pieces(t, '.') == seq![t]);
    }
    if url(t) {
        reveal_strlit("://");
        let i = choose|i: int| #[trigger] stands_at(t, "://"@, i);
        assert(t.subrange(i, i + 3)[0] == ':');
        assert(t[i] == ':');
        assert(t.contains(t[i]));
    }
    if arn(t) {
        reveal_strlit("arn:");
        assert(t.take(4)[3] == ':');
        assert(t.contains(t[3]));
    }
    if n > 0 {
        assert(digit(t[0]) || letter(t[0]) || t[0] == '%' || t[0] == '_');
        if n > 3 {
            assert(digit(t[1]) || letter(t[1]) || t[1] == '%' || t[1] == '_');
        }
    }
}

/// A short word of letters never varies: it is the text of the message.
pub proof fn a_short_word_never_varies(t: Seq<char>)
    requires
        t.len() < 16,
        letters(t),
    ensures
        !variable(t),
{
    assert forall|i: int| 0 <= i < t.len() implies (digit(#[trigger] t[i]) || letter(t[i]) || t[i]
        == '%' || t[i] == '_') by {
        assert(letter(t[i]));
    }
    a_short_plain_token_varies_only_as_a_number(t);
    a_number_has_one_point_and_a_short_unit(t);
    if numeric(t) {
        let (i, j) = choose|i: int, j: int| measures(t, i, j);
        let k = choose|k: int| i <= k < j && digit(#[trigger] t[k]);
        assert(letter(t[k]));
    }
    if t.len() > 2 {
        assert(letter(t[0]));
    }
}

/// Digits vary, with a sign or a short unit or without.
pub proof fn digits_vary(number: Seq<char>, unit: Seq<char>)
    requires
        number.len() > 0,
        digits(number),
        unit.len() <= 4,
        letters(unit),
    ensures
        variable(number + unit),
        variable(seq!['-'] + number + unit),
{
    let t = number + unit;
    a_number_has_one_point_and_a_short_unit(t);
    assert(measures(t, 0, number.len() as int)) by {
        assert forall|k: int| 0 <= k < number.len() implies (digit(#[trigger] t[k])) by {
            assert(digit(number[k]));
        }
        assert(digit(t[0]));
        assert forall|k: int| number.len() <= k < t.len() implies letter(#[trigger] t[k]) by {
            assert(letter(unit[k - number.len()]));
        }
    }
    let s = seq!['-'] + number + unit;
    a_number_has_one_point_and_a_short_unit(s);
    assert(measures(s, 1, number.len() as int + 1)) by {
        assert forall|k: int| 1 <= k < number.len() + 1 implies (digit(#[trigger] s[k])) by {
            assert(digit(number[k - 1]));
        }
        assert(digit(s[1]));
        assert forall|k: int| number.len() + 1 <= k < s.len() implies letter(#[trigger] s[k]) by {
            assert(letter(unit[k - number.len() - 1]));
        }
    }
}

/// Digits with five letters or more behind them are a word, not a value.
pub proof fn digits_before_a_long_word_do_not_vary(number: Seq<char>, word: Seq<char>)
    requires
        number.len() > 0,
        digits(number),
        word.len() >= 5,
        letters(word),
        number.len() + word.len() < 16,
        word[0] != 'x' && word[0] != 'X',
    ensures
        !variable(number + word),
{
    let t = number + word;
    let n = number.len() as int;
    assert forall|i: int| 0 <= i < t.len() implies (digit(#[trigger] t[i]) || letter(t[i]) || t[i]
        == '%' || t[i] == '_') by {
        if i < n {
            assert(digit(number[i]));
        } else {
            assert(letter(word[i - n]));
        }
    }
    a_short_plain_token_varies_only_as_a_number(t);
    a_number_has_one_point_and_a_short_unit(t);
    if numeric(t) {
        let (i, j) = choose|i: int, j: int| measures(t, i, j);
        assert(t[n] == word[0]);
        assert(letter(t[n]));
        assert(j <= n);
    }
    if t[1] == 'x' || t[1] == 'X' {
        if n > 1 {
            assert(digit(number[1]));
        } else {
            assert(t[1] == word[0]);
        }
    }
}

// ---------------------------------------------------------------------------
// Punctuation around a value
// ---------------------------------------------------------------------------

/// The punctuation around a value stays; the value gives way.
pub proof fn punctuation_around_a_value_stays(
    front: Seq<char>,
    value: Seq<char>,
    back: Seq<char>,
)
    requires
        forall|i: int| 0 <= i < front.len() ==> "([{<\"'"@.contains(#[trigger] front[i]),
        forall|i: int| 0 <= i < back.len() ==> ")]}>\"',;!?"@.contains(#[trigger] back[i]),
        variable(value),
        value.len() > 0,
        !"([{<\"'"@.contains(value[0]),
        !")]}>\"',;!?"@.contains(value.last()),
        value.last() != '.',
    ensures
        masked(front + value + back) == front + "<*>"@ + back,
{
    let raw = front + value + back;
    the_value_is_found(front, value, back);
    assert(kernel(raw) == value);
    assert(opening(raw) == front);
    assert(closing(raw) == back);
}

/// The value is found within its punctuation.
proof fn the_value_is_found(front: Seq<char>, value: Seq<char>, back: Seq<char>)
    requires
        forall|i: int| 0 <= i < front.len() ==> "([{<\"'"@.contains(#[trigger] front[i]),
        forall|i: int| 0 <= i < back.len() ==> ")]}>\"',;!?"@.contains(#[trigger] back[i]),
        value.len() > 0,
        !"([{<\"'"@.contains(value[0]),
        !")]}>\"',;!?"@.contains(value.last()),
        value.last() != '.',
    ensures
        kernel(front + value + back) == value,
        opening(front + value + back) == front,
        closing(front + value + back) == back,
{
    let raw = front + value + back;
    assert forall|i: int| 0 <= i < front.len() implies #[trigger] CharClass::Opening.has(
        raw[i],
    ) by {
        assert(raw[i] == front[i]);
        crate::laws::texts::what_the_classes_hold(front[i]);
    }
    assert(raw[front.len() as int] == value[0]);
    crate::laws::texts::what_the_classes_hold(value[0]);
    lead_len_is(raw, CharClass::Opening, front.len());
    let rest = raw.skip(front.len() as int);
    assert(rest == value + back);
    assert forall|i: int| 0 <= i < back.len() implies CharClass::Closing.has(
        #[trigger] back[i],
    ) by {
        crate::laws::texts::what_the_classes_hold(back[i]);
    }
    crate::laws::texts::what_the_classes_hold(value.last());
    assert forall|i: int| rest.len() - back.len() <= i < rest.len() implies
        #[trigger] CharClass::Closing.has(rest[i]) by {
        assert(rest[i] == back[i - value.len()]);
    }
    assert(rest[rest.len() - back.len() - 1] == value.last());
    trail_len_is(rest, CharClass::Closing, back.len());
    assert(trimmed_end(rest, CharClass::Closing) == value);
    assert(raw.take(front.len() as int) == front);
    assert(raw.skip(front.len() as int + value.len()) == back);
}

/// A word that does not vary stays as it is, with its punctuation.
pub proof fn a_short_word_stays(front: Seq<char>, word: Seq<char>, back: Seq<char>)
    requires
        forall|i: int| 0 <= i < front.len() ==> "([{<\"'"@.contains(#[trigger] front[i]),
        forall|i: int| 0 <= i < back.len() ==> ")]}>\"',;!?"@.contains(#[trigger] back[i]),
        0 < word.len() < 16,
        letters(word),
    ensures
        masked(front + word + back) == front + word + back,
{
    assert(letter(word[0]));
    assert(letter(word[word.len() - 1]));
    crate::laws::texts::what_the_classes_hold(word[0]);
    crate::laws::texts::what_the_classes_hold(word.last());
    the_value_is_found(front, word, back);
    a_short_word_never_varies(word);
    assert(!word.contains('=')) by {
        assert forall|i: int| 0 <= i < word.len() implies word[i] != '=' by {
            assert(letter(word[i]));
        }
    }
    cutting_takes_the_first(word, '=', Seq::empty());
    none_is_a_count_of_zero(word, CharClass::Delimiter);
    assert forall|i: int| 0 <= i < word.len() implies !CharClass::Delimiter.has(
        #[trigger] word[i],
    ) by {
        assert(letter(word[i]));
    }
}

/// A full stop behind a value is punctuation too.
pub proof fn a_full_stop_behind_a_value_stays(front: Seq<char>, value: Seq<char>, back: Seq<char>)
    requires
        forall|i: int| 0 <= i < front.len() ==> "([{<\"'"@.contains(#[trigger] front[i]),
        forall|i: int| 0 <= i < back.len() ==> ")]}>\"',;!?"@.contains(#[trigger] back[i]),
        variable(value),
        value.len() > 0,
        !"([{<\"'"@.contains(value[0]),
        letter(value.last()),
    ensures
        masked(front + value.push('.') + back) == front + "<*>"@ + (seq!['.'] + back),
{
    the_value_before_a_stop_is_found(front, value, back);
}

/// The value is found within its punctuation, and in front of its full stop.
proof fn the_value_before_a_stop_is_found(front: Seq<char>, value: Seq<char>, back: Seq<char>)
    requires
        forall|i: int| 0 <= i < front.len() ==> "([{<\"'"@.contains(#[trigger] front[i]),
        forall|i: int| 0 <= i < back.len() ==> ")]}>\"',;!?"@.contains(#[trigger] back[i]),
        value.len() > 0,
        !"([{<\"'"@.contains(value[0]),
        letter(value.last()),
    ensures
        kernel(front + value.push('.') + back) == value,
        opening(front + value.push('.') + back) == front,
        closing(front + value.push('.') + back) == seq!['.'] + back,
{
    let dotted = value.push('.');
    let raw = front + dotted + back;
    assert forall|i: int| 0 <= i < front.len() implies #[trigger] CharClass::Opening.has(
        raw[i],
    ) by {
        assert(raw[i] == front[i]);
        crate::laws::texts::what_the_classes_hold(front[i]);
    }
    assert(raw[front.len() as int] == value[0]);
    crate::laws::texts::what_the_classes_hold(value[0]);
    lead_len_is(raw, CharClass::Opening, front.len());
    let rest = raw.skip(front.len() as int);
    assert(rest == dotted + back);
    assert forall|i: int| rest.len() - back.len() <= i < rest.len() implies
        #[trigger] CharClass::Closing.has(rest[i]) by {
        assert(rest[i] == back[i - dotted.len()]);
        crate::laws::texts::what_the_classes_hold(back[i - dotted.len()]);
    }
    assert(rest[rest.len() - back.len() - 1] == '.');
    trail_len_is(rest, CharClass::Closing, back.len());
    assert(trimmed_end(rest, CharClass::Closing) == dotted);
    let k = CharClass::Is('.');
    let n = value.len() - 1;
    assert(dotted[n] == value.last());
    trail_len_is(dotted, k, 1);
    assert(trimmed_end(dotted, k) == value);
    assert(!CharClass::Dotted.has(value[n]));
    assert(dotted.drop_last() == value);
    assert(raw.take(front.len() as int) == front);
    assert(raw.skip(front.len() as int + value.len()) =~= seq!['.'] + back);
}

} // verus!
