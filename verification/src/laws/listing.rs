//! Listing log groups and reading their events, page by page.

use crate::cmd::logs::{
    asked_for, eligible, event_is, group_is, matches_of, page_taken, pattern_fault, server_prefix,
    ListedEvent, ListedGroup, LogGroup, RawEvent,
};
use crate::common::errors::Fault;
use crate::common::time::{debug_text, zulu_text, Instant};
use crate::glob::{bounded, glob_match, globbed, nest, opt_text, Nest, Spot};
use crate::json::JsonTree;
use crate::order::{ordered, sorting_orders, Ordered};
use crate::output::Record;
use crate::text::{lead_len_is, signed_decimal, text_less, CharClass};
use vstd::prelude::*;

verus! {

// ---------------------------------------------------------------------------
// Which groups are kept
// ---------------------------------------------------------------------------

/// Whether a text has a character that makes it a pattern.
pub open spec fn has_wildcard(p: Seq<char>) -> bool {
    p.contains('*') || p.contains('?') || p.contains('[')
}

/// Whether a group is asked for: every group with a name, but for those that a
/// pattern with a wildcard does not match.
pub open spec fn sought(g: ListedGroup, pattern: Option<Seq<char>>) -> bool {
    &&& g.name is Some
    &&& pattern is Some && has_wildcard(pattern->0) ==> bounded(pattern->0) && glob_match(
        pattern->0,
        g.name->0@,
    )
}

/// How many of the first `n` groups of a page are asked for.
pub open spec fn sought_among(page: Seq<ListedGroup>, pattern: Option<Seq<char>>, n: int) -> int
    decreases n,
{
    if n <= 0 {
        0
    } else {
        sought_among(page, pattern, n - 1) + if sought(page[n - 1], pattern) {
            1int
        } else {
            0
        }
    }
}

/// A text is a pattern exactly when it has a wildcard.
pub proof fn a_wildcard_makes_a_pattern(p: Seq<char>)
    ensures
        globbed(p) <==> has_wildcard(p),
{
    if globbed(p) {
        let i = choose|i: int| 0 <= i < p.len() && #[trigger] CharClass::Glob.has(p[i]);
        assert(p[i] == '*' || p[i] == '?' || p[i] == '[');
    }
    if has_wildcard(p) {
        let i = choose|i: int| 0 <= i < p.len() && (p[i] == '*' || p[i] == '?' || p[i] == '[');
        assert(CharClass::Glob.has(p[i]));
    }
}

/// The groups asked for, counted.
proof fn the_eligible_are_sought(page: Seq<ListedGroup>, pattern: Option<Seq<char>>, n: int)
    requires
        0 <= n <= page.len(),
    ensures
        0 <= sought_among(page, pattern, n) <= n,
        eligible(page, matches_of(pattern, page), n).len() == sought_among(page, pattern, n),
        forall|k: int|
            0 <= k < n && sought(#[trigger] page[k], pattern) ==> 0 <= sought_among(page, pattern, k)
                < sought_among(page, pattern, n) && eligible(page, matches_of(pattern, page), n)[sought_among(page, pattern, k)] == k,
    decreases n,
{
    if n > 0 {
        the_eligible_are_sought(page, pattern, n - 1);
        if pattern is Some {
            a_wildcard_makes_a_pattern(pattern->0);
        }
        assert(matches_of(pattern, page)[n - 1] == asked_for(pattern, opt_text(page[n - 1].name)));
    }
}

/// Every group of a page that is asked for is kept, in the sequence of the
/// page, as far as the limit leaves room; nothing else is kept; and the page
/// is reported as cut exactly when there was no room for one of them.
pub proof fn a_page_keeps_what_is_sought(
    before: Seq<LogGroup>,
    after: Seq<LogGroup>,
    page: Seq<ListedGroup>,
    pattern: Option<Seq<char>>,
    limit: int,
    now: Instant,
    truncated: bool,
)
    requires
        page_taken(before, after, page, pattern, limit, now, truncated),
        before.len() <= limit,
    ensures
        after.len() == if before.len() + sought_among(page, pattern, page.len() as int) <= limit {
            before.len() + sought_among(page, pattern, page.len() as int)
        } else {
            limit
        },
        forall|k: int| 0 <= k < before.len() ==> #[trigger] after[k] == before[k],
        forall|k: int|
            #![trigger page[k]]
            0 <= k < page.len() && sought(page[k], pattern) && before.len() + sought_among(
                page,
                pattern,
                k,
            ) < limit ==> after[before.len() + sought_among(page, pattern, k)].name@
                == page[k].name->0@,
        truncated <==> exists|k: int|
            0 <= k < page.len() && sought(#[trigger] page[k], pattern) && before.len()
                + sought_among(page, pattern, k) >= limit,
{
    let n = page.len() as int;
    let chosen = eligible(page, matches_of(pattern, page), n);
    the_eligible_are_sought(page, pattern, n);
    assert forall|k: int| 0 <= k < before.len() implies #[trigger] after[k] == before[k] by {
        assert(after.take(before.len() as int)[k] == before[k]);
    }
    assert forall|k: int|
        #![trigger page[k]]
        0 <= k < page.len() && sought(page[k], pattern) && before.len() + sought_among(
            page,
            pattern,
            k,
        ) < limit implies after[before.len() + sought_among(page, pattern, k)].name@
        == page[k].name->0@ by {
        let at = sought_among(page, pattern, k);
        assert(chosen[at] == k);
        assert(group_is(after[before.len() + at], page[chosen[at]], now));
    }
    if truncated {
        the_last_sought(page, pattern, n);
        let k = choose|k: int|
            0 <= k < n && sought(#[trigger] page[k], pattern) && sought_among(page, pattern, k) + 1
                == sought_among(page, pattern, n);
        assert(sought(page[k], pattern));
    }
}

/// Where something is asked for, one group is the last of that kind.
proof fn the_last_sought(page: Seq<ListedGroup>, pattern: Option<Seq<char>>, n: int)
    requires
        0 <= n <= page.len(),
        sought_among(page, pattern, n) > 0,
    ensures
        exists|k: int|
            0 <= k < n && sought(#[trigger] page[k], pattern) && sought_among(page, pattern, k) + 1
                == sought_among(page, pattern, n),
    decreases n,
{
    if n > 0 {
        if sought(page[n - 1], pattern) {
            assert(sought_among(page, pattern, n - 1) + 1 == sought_among(page, pattern, n));
        } else {
            the_last_sought(page, pattern, n - 1);
            let k = choose|k: int|
                0 <= k < n - 1 && sought(#[trigger] page[k], pattern) && sought_among(
                    page,
                    pattern,
                    k,
                ) + 1 == sought_among(page, pattern, n - 1);
            assert(sought(page[k], pattern));
        }
    }
}

/// A pattern without a wildcard leaves the choice to the service: every group
/// with a name is kept, as far as the limit leaves room.
pub proof fn a_plain_prefix_keeps_every_named_group(
    before: Seq<LogGroup>,
    after: Seq<LogGroup>,
    page: Seq<ListedGroup>,
    pattern: Option<Seq<char>>,
    limit: int,
    now: Instant,
    truncated: bool,
)
    requires
        page_taken(before, after, page, pattern, limit, now, truncated),
        pattern is Some ==> forall|i: int|
            0 <= i < pattern->0.len() ==> {
                let c = #[trigger] pattern->0[i];
                c != '*' && c != '?' && c != '['
            },
        forall|k: int| 0 <= k < page.len() ==> (#[trigger] page[k]).name is Some,
        before.len() <= limit,
    ensures
        before.len() + page.len() <= limit ==> after.len() == before.len() + page.len()
            && !truncated,
        before.len() + page.len() > limit ==> after.len() == limit && truncated,
        forall|k: int|
            0 <= k < page.len() && before.len() + k < limit ==> after[before.len() + k].name@ == (
            #[trigger] page[k]).name->0@,
{
    assert forall|k: int| 0 <= k < page.len() implies sought(#[trigger] page[k], pattern) by {
        if pattern is Some {
            assert(!has_wildcard(pattern->0));
        }
    }
    all_are_sought(page, pattern, page.len() as int);
    a_page_keeps_what_is_sought(before, after, page, pattern, limit, now, truncated);
    assert forall|k: int| 0 <= k < page.len() && before.len() + k < limit implies after[before.len()
        + k].name@ == (#[trigger] page[k]).name->0@ by {
        all_are_sought(page, pattern, k);
        assert(sought(page[k], pattern));
    }
    if before.len() + page.len() > limit {
        let k = page.len() - 1;
        all_are_sought(page, pattern, k);
        assert(sought(page[k], pattern));
    }
    if truncated {
        let k = choose|k: int|
            0 <= k < page.len() && sought(#[trigger] page[k], pattern) && before.len()
                + sought_among(page, pattern, k) >= limit;
        all_are_sought(page, pattern, k);
    }
}

/// Where every group is asked for, their count is the page's.
proof fn all_are_sought(page: Seq<ListedGroup>, pattern: Option<Seq<char>>, n: int)
    requires
        0 <= n <= page.len(),
        forall|k: int| 0 <= k < page.len() ==> sought(#[trigger] page[k], pattern),
    ensures
        sought_among(page, pattern, n) == n,
    decreases n,
{
    if n > 0 {
        all_are_sought(page, pattern, n - 1);
        assert(sought(page[n - 1], pattern));
    }
}

/// What the service is asked for is the pattern up to its first wildcard, and
/// nothing where there is nothing in front of one.
pub proof fn the_service_is_asked_for_the_literal_start(p: Seq<char>, n: int)
    requires
        0 <= n <= p.len(),
        forall|i: int|
            0 <= i < n ==> {
                let c = #[trigger] p[i];
                c != '*' && c != '?' && c != '['
            },
        n < p.len() ==> p[n] == '*' || p[n] == '?' || p[n] == '[',
    ensures
        n > 0 ==> server_prefix(Some(p)) == Some(p.take(n)),
        n == 0 ==> server_prefix(Some(p)) is None,
        server_prefix(None) is None,
{
    assert forall|i: int| 0 <= i < n implies #[trigger] CharClass::Literal.has(p[i]) by {
        let c = p[i];
    }
    lead_len_is(p, CharClass::Literal, n as nat);
}

// ---------------------------------------------------------------------------
// What is reported
// ---------------------------------------------------------------------------

/// An instant given in milliseconds of Unix time, or the time of reading where
/// the calendar has no such instant.
pub open spec fn moment(ms: i64, now: Instant) -> Seq<char> {
    if -8_334_601_228_800 <= ms / 1000 <= 8_210_266_876_799 {
        zulu_text((ms / 1000) as i64, ((ms % 1000) * 1_000_000) as u32)
    } else {
        zulu_text(now.secs, now.nanos)
    }
}

/// What is written for a log group are the fields that the service gave.
pub proof fn a_group_is_written_field_by_field(g: LogGroup, listed: ListedGroup, now: Instant)
    requires
        group_is(g, listed, now),
    ensures
        listed.name is Some,
        g.shape() == JsonTree::Object(
            seq![
                ("name"@, JsonTree::Text(listed.name->0@)),
                (
                    "retention_days"@,
                    if listed.retention_days is Some {
                        JsonTree::Number(signed_decimal(listed.retention_days->0 as int))
                    } else {
                        JsonTree::Null
                    },
                ),
                (
                    "stored_bytes"@,
                    if listed.stored_bytes is Some {
                        JsonTree::Number(signed_decimal(listed.stored_bytes->0 as int))
                    } else {
                        JsonTree::Null
                    },
                ),
                (
                    "created"@,
                    if listed.created_millis is Some {
                        JsonTree::Text(moment(listed.created_millis->0, now))
                    } else {
                        JsonTree::Null
                    },
                ),
            ],
        ),
{
}

/// A text, empty where the service left it out.
pub open spec fn given(s: Option<String>) -> Seq<char> {
    if s is Some {
        s->0@
    } else {
        Seq::empty()
    }
}

/// What is written for an event is what the service gave, under the group that
/// was read.
pub proof fn an_event_is_written_field_by_field(
    e: RawEvent,
    listed: ListedEvent,
    group: Seq<char>,
    now: Instant,
)
    requires
        event_is(e, listed, group, now),
    ensures
        e.shape() == JsonTree::Object(
            seq![
                (
                    "ts"@,
                    JsonTree::Text(
                        if listed.timestamp is Some {
                            moment(listed.timestamp->0, now)
                        } else {
                            zulu_text(now.secs, now.nanos)
                        },
                    ),
                ),
                ("group"@, JsonTree::Text(group)),
                ("stream"@, JsonTree::Text(given(listed.stream))),
                ("message"@, JsonTree::Text(given(listed.message))),
            ],
        ),
{
    reveal_strlit("");
    assert(""@ == Seq::<char>::empty());
}

/// Groups are listed by name.
pub proof fn groups_are_listed_by_name(found: Seq<LogGroup>, i: int, j: int)
    requires
        0 <= i < j < ordered(found).len(),
    ensures
        !text_less(ordered(found)[j].name@, ordered(found)[i].name@),
{
    sorting_orders(found);
    assert(!ordered(found)[j].before(ordered(found)[i]));
}

/// Events are listed from the oldest on.
pub proof fn events_are_listed_oldest_first(events: Seq<RawEvent>, i: int, j: int)
    requires
        0 <= i < j < ordered(events).len(),
    ensures
        ({
            let a = ordered(events)[i].ts;
            let b = ordered(events)[j].ts;
            a.secs < b.secs || (a.secs == b.secs && a.nanos <= b.nanos)
        }),
{
    sorting_orders(events);
    assert(!ordered(events)[j].before(ordered(events)[i]));
}

/// A pattern is refused only if it has a wildcard, and the refusal quotes it.
pub proof fn only_a_pattern_is_refused(p: Seq<char>, fault: Option<Seq<char>>)
    ensures
        !has_wildcard(p) || fault is None ==> pattern_fault(p, fault) is None,
        has_wildcard(p) && fault is Some ==> pattern_fault(p, fault) == Some(
            Fault::Aws {
                operation: "logs:DescribeLogGroups"@,
                message: "bad group pattern "@ + debug_text(p) + ": "@ + fault->0,
            },
        ),
{
    a_wildcard_makes_a_pattern(p);
}

/// A pattern without braces is within bounds if it takes 16 384 bytes at most,
/// and 80 open braces are the most there may be.
pub proof fn how_large_a_pattern_may_be(p: Seq<char>, n: nat)
    requires
        !p.contains('{'),
    ensures
        bounded(p) <==> vstd::utf8::encode_utf8(p).len() <= 16_384,
        bounded(Seq::new(n, |i: int| '{')) <==> n <= 80,
{
    crate::laws::texts::bytes_are_those_of_utf8(p);
    no_brace_no_nest(p);
    let b = Seq::new(n, |i: int| '{');
    crate::laws::texts::bytes_are_those_of_utf8(b);
    braces_nest(n);
}

/// Without a brace nothing nests.
proof fn no_brace_no_nest(p: Seq<char>)
    requires
        !p.contains('{'),
    ensures
        nest(p).deepest == 0,
        nest(p).open == 0,
    decreases p.len(),
{
    if p.len() > 0 {
        let d = p.drop_last();
        assert(!d.contains('{')) by {
            if d.contains('{') {
                let i = choose|i: int| 0 <= i < d.len() && d[i] == '{';
                assert(p[i] == '{');
            }
        }
        no_brace_no_nest(d);
        assert(p.contains(p[p.len() - 1]));
    }
}

/// Each brace opens one more level.
proof fn braces_nest(n: nat)
    ensures
        nest(Seq::new(n, |i: int| '{')) == (Nest { spot: Spot::Plain, open: n, deepest: n }),
    decreases n,
{
    let b = Seq::new(n, |i: int| '{');
    if n > 0 {
        let m = (n - 1) as nat;
        braces_nest(m);
        assert(b.drop_last() =~= Seq::new(m, |i: int| '{'));
    }
}

/// A closing brace closes what the last opening one has opened.
pub proof fn a_closing_brace_closes(p: Seq<char>)
    requires
        nest(p).spot == Spot::Plain,
    ensures
        nest(p.push('{')).open == nest(p).open + 1,
        nest(p.push('{').push('}')).open == nest(p).open,
        nest(p.push('{').push('}')).deepest == nest(p.push('{')).deepest,
        nest(p.push('\\').push('{')).open == nest(p).open,
        nest(p.push('[').push('a').push('{').push(']').push('{')).open == nest(p).open + 1,
{
    let a = p.push('{');
    assert(a.drop_last() == p);
    assert(nest(a).spot == Spot::Plain);
    assert(a.push('}').drop_last() == a);
    let b = p.push('\\');
    assert(b.drop_last() == p);
    assert(nest(b).spot == Spot::Escaped);
    assert(b.push('{').drop_last() == b);
    let c = p.push('[');
    assert(c.drop_last() == p);
    assert(nest(c).spot == Spot::Opened);
    let d = c.push('a');
    assert(d.drop_last() == c);
    assert(nest(d).spot == Spot::Class);
    let e = d.push('{');
    assert(e.drop_last() == d);
    assert(nest(e).spot == Spot::Class);
    let f = e.push(']');
    assert(f.drop_last() == e);
    assert(nest(f).spot == Spot::Plain);
    assert(f.push('{').drop_last() == f);
}

/// A full list takes no more, and says so if there was something to take.
pub proof fn a_full_list_takes_no_more(
    before: Seq<LogGroup>,
    after: Seq<LogGroup>,
    page: Seq<ListedGroup>,
    pattern: Option<Seq<char>>,
    limit: int,
    now: Instant,
    truncated: bool,
)
    requires
        page_taken(before, after, page, pattern, limit, now, truncated),
        before.len() >= limit,
    ensures
        after == before,
        truncated <==> sought_among(page, pattern, page.len() as int) > 0,
{
    the_eligible_are_sought(page, pattern, page.len() as int);
    assert(after.take(before.len() as int) == after);
}

/// In a class, the first member may be a closing bracket, also behind a sign
/// of negation; braces in a class do not nest.
pub proof fn a_class_may_start_with_a_bracket(p: Seq<char>, sign: char)
    requires
        nest(p).spot == Spot::Plain,
        sign == '!' || sign == '^',
    ensures
        nest(p.push('[').push(sign).push(']').push('{').push(']')) == (Nest {
            spot: Spot::Plain,
            ..nest(p)
        }),
        nest(p.push('[').push(']').push('{').push(']')) == (Nest { spot: Spot::Plain, ..nest(p) }),
{
    nest_is_deep_enough(p);
    let a = p.push('[');
    assert(a.drop_last() == p);
    assert(nest(a) == (Nest { spot: Spot::Opened, ..nest(p) }));
    let b = a.push(sign);
    assert(b.drop_last() == a);
    assert(nest(b) == (Nest { spot: Spot::First, ..nest(p) }));
    let c = b.push(']');
    assert(c.drop_last() == b);
    assert(nest(c) == (Nest { spot: Spot::Class, ..nest(p) }));
    let d = c.push('{');
    assert(d.drop_last() == c);
    assert(nest(d) == (Nest { spot: Spot::Class, ..nest(p) }));
    assert(d.push(']').drop_last() == d);
    let e = a.push(']');
    assert(e.drop_last() == a);
    assert(nest(e) == (Nest { spot: Spot::Class, ..nest(p) }));
    let f = e.push('{');
    assert(f.drop_last() == e);
    assert(nest(f) == (Nest { spot: Spot::Class, ..nest(p) }));
    assert(f.push(']').drop_last() == f);
}

/// The deepest nesting is no less than the present one.
proof fn nest_is_deep_enough(p: Seq<char>)
    ensures
        nest(p).open <= nest(p).deepest,
    decreases p.len(),
{
    if p.len() > 0 {
        nest_is_deep_enough(p.drop_last());
    }
}

} // verus!
