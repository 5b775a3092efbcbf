//! `awsdiag logs`: CloudWatch Logs discovery, clustered scanning, drill-down.

use crate::cluster::template::{
    self, all_judged, clusters_given, counts_are, groups as cluster_views, id_of, lines, templates,
    Cluster, Group, Line, LogEvent,
};
use crate::cluster::tokenize::{self, template_of};
use crate::common::envelope::{capped, Envelope};
use crate::common::errors::{outcome, Error, Fault};
use crate::common::flags::Window;
use crate::common::time::{
    at_millis, debug, debug_text, from_millis, instant_of, parse_instant, rfc3339_text, seconds,
    seconds_between, to_rfc3339, Instant,
};
use crate::glob::{
    bounded, check_glob, glob_match, glob_matches, globbed, is_bounded, is_glob, literal_prefix,
    opt_text, prefix_of, refusal,
};
use crate::json::{self, fields_of, text_array, text_or_null, Json, JsonTree};
use crate::order::{
    names_are_ordered, ordered, sort, sorting_keeps_elements, sorting_permutes, up_to,
    Ordered, Sortable,
};
use crate::text::{less_str, same_str, strings, text_less};
use vstd::prelude::*;
use vstd::string::StringExecFns;

verus! {

/// Histogram resolution. Roughly one bucket per minute over an hour, and
/// still legible as a sparkline for a 24-hour window.
pub const BUCKETS: usize = 60;

/// Safety rail on glob fan-out. Scanning every log group in an account by
/// accident is slow and expensive, so a wide glob truncates rather than
/// quietly running for minutes.
pub const DEFAULT_MAX_GROUPS: usize = 20;

/// What is known of a log group.
#[derive(Debug)]
pub struct LogGroup {
    pub name: String,
    pub retention_days: Option<i32>,
    pub stored_bytes: Option<i64>,
    pub created: Option<Instant>,
}

/// One event, verbatim.
#[derive(Debug)]
pub struct RawEvent {
    pub ts: Instant,
    pub group: String,
    pub stream: String,
    pub message: String,
}

// ---------------------------------------------------------------------------
// groups
// ---------------------------------------------------------------------------

/// A log group as the API lists it.
#[derive(Debug)]
pub struct ListedGroup {
    pub name: Option<String>,
    pub retention_days: Option<i32>,
    pub stored_bytes: Option<i64>,
    pub created_millis: Option<i64>,
}

/// What to ask the API for: the prefix a pattern narrows the listing to, if it
/// narrows it at all. A glob's literal prefix still narrows the server-side
/// query, so `/aws/lambda/*` does not page through every group in the account.
pub open spec fn server_prefix(pattern: Option<Seq<char>>) -> Option<Seq<char>> {
    match pattern {
        Some(p) => if literal_prefix(p).len() > 0 {
            Some(literal_prefix(p))
        } else {
            None
        },
        None => None,
    }
}

/// Find `server_prefix`.
pub fn listing_prefix(pattern: Option<&str>) -> (r: Option<String>)
    ensures
        opt_text(r) == server_prefix(match pattern {
            Some(p) => Some(p@),
            None => None,
        }),
{
    match pattern {
        Some(p) => {
            let prefix = prefix_of(p);
            if prefix.as_str().unicode_len() > 0 {
                Some(prefix)
            } else {
                None
            }
        },
        None => None,
    }
}

/// Refuse a glob, given why it is refused, if it is.
pub open spec fn pattern_fault(pattern: Seq<char>, fault: Option<Seq<char>>) -> Option<Fault> {
    if globbed(pattern) && fault is Some {
        Some(
            Fault::Aws {
                operation: "logs:DescribeLogGroups"@,
                message: "bad group pattern "@ + debug_text(pattern) + ": "@ + fault->0,
            },
        )
    } else {
        None
    }
}

/// Refuse a glob that is malformed or beyond the bounds.
pub fn check_pattern(pattern: &str) -> (r: Result<(), Error>)
    ensures
        match pattern_fault(pattern@, refusal(pattern@)) {
            Some(f) => r is Err && r->Err_0@ == f,
            None => r is Ok,
        },
{
    if is_glob(pattern) {
        if let Some(e) = check_glob(pattern) {
            return Err(
                Error::Aws {
                    operation: "logs:DescribeLogGroups".to_owned(),
                    message: "bad group pattern ".to_owned().concat(
                        debug(pattern).as_str(),
                    ).concat(": ").concat(e.as_str()),
                },
            );
        }
    }
    Ok(())
}

/// A listed group as it is reported.
pub open spec fn group_is(g: LogGroup, listed: ListedGroup, now: Instant) -> bool {
    &&& Some(g.name@) == opt_text(listed.name)
    &&& g.retention_days == listed.retention_days
    &&& g.stored_bytes == listed.stored_bytes
    &&& g.created == match listed.created_millis {
        Some(ms) => Some(at_millis(ms as int, now)),
        None => None,
    }
}

/// The listed groups, by index, that have a name and match.
pub open spec fn eligible(page: Seq<ListedGroup>, matched: Seq<bool>, n: int) -> Seq<int>
    decreases n,
{
    if n <= 0 || n > page.len() || n > matched.len() {
        Seq::empty()
    } else if page[n - 1].name is Some && matched[n - 1] {
        eligible(page, matched, n - 1).push(n - 1)
    } else {
        eligible(page, matched, n - 1)
    }
}

/// Whether each of the listed groups was kept in order behind what was there,
/// as far as the limit allows.
pub open spec fn kept(
    before: Seq<LogGroup>,
    after: Seq<LogGroup>,
    page: Seq<ListedGroup>,
    chosen: Seq<int>,
    limit: int,
    now: Instant,
) -> bool {
    let room = if limit > before.len() {
        limit - before.len()
    } else {
        0
    };
    let taken = if chosen.len() < room {
        chosen.len() as int
    } else {
        room
    };
    &&& after.len() == before.len() + taken
    &&& after.take(before.len() as int) == before
    &&& forall|k: int|
        0 <= k < taken ==> group_is(
            #[trigger] after[before.len() + k],
            page[chosen[k]],
            now,
        )
}

/// Report a listed group.
fn report_group(listed: &ListedGroup, name: &str, now: Instant) -> (r: LogGroup)
    requires
        now.valid(),
        opt_text(listed.name) == Some(name@),
    ensures
        group_is(r, *listed, now),
{
    LogGroup {
        name: name.to_owned(),
        retention_days: listed.retention_days,
        stored_bytes: listed.stored_bytes,
        created: match listed.created_millis {
            Some(ms) => Some(from_millis(ms, now)),
            None => None,
        },
    }
}

/// Take a page of listed groups, given which of them match. Answers whether
/// one was left out for the limit.
pub fn absorb_groups(
    out: &mut Vec<LogGroup>,
    page: &Vec<ListedGroup>,
    matched: &Vec<bool>,
    limit: usize,
    now: Instant,
) -> (truncated: bool)
    requires
        matched@.len() == page@.len(),
        now.valid(),
    ensures
        ({
            let chosen = eligible(page@, matched@, page@.len() as int);
            &&& kept(old(out)@, final(out)@, page@, chosen, limit as int, now)
            &&& truncated <==> chosen.len() > 0 && old(out)@.len() + chosen.len() > limit
        }),
{
    let ghost before = out@;
    let mut i: usize = 0;
    proof {
        assert(before.take(before.len() as int) == before);
    }
    while i < page.len()
        invariant
            i <= page@.len(),
            matched@.len() == page@.len(),
            now.valid(),
            before == old(out)@,
            kept(before, out@, page@, eligible(page@, matched@, i as int), limit as int, now),
            eligible(page@, matched@, i as int).len() == 0 || before.len() + eligible(
                page@,
                matched@,
                i as int,
            ).len() <= limit,
        decreases page@.len() - i,
    {
        let ghost chosen = eligible(page@, matched@, i as int);
        let ghost next = eligible(page@, matched@, i + 1);
        if let Some(name) = &page[i].name {
            if matched[i] {
                proof {
                    assert(next == chosen.push(i as int));
                    eligible_grows(page@, matched@, i + 1, page@.len() as int);
                }
                if out.len() >= limit {
                    proof {
                        let all = eligible(page@, matched@, page@.len() as int);
                        assert(before.len() + next.len() > limit);
                        assert forall|k: int| 0 <= k < chosen.len() implies #[trigger] all[k]
                            == chosen[k] by {
                            assert(next[k] == chosen[k]);
                        }
                        assert(kept(before, out@, page@, all, limit as int, now));
                    }
                    return true;
                }
                let g = report_group(&page[i], name.as_str(), now);
                let ghost out0 = out@;
                out.push(g);
                proof {
                    assert(out@.take(before.len() as int) == out0.take(before.len() as int));
                    assert forall|k: int| 0 <= k < next.len() implies group_is(
                        #[trigger] out@[before.len() + k],
                        page@[next[k]],
                        now,
                    ) by {
                        if k < chosen.len() {
                            assert(out@[before.len() + k] == out0[before.len() + k]);
                            assert(next[k] == chosen[k]);
                        }
                    }
                }
            }
        }
        i += 1;
    }
    false
}

/// More of a page adds to what is eligible.
proof fn eligible_grows(page: Seq<ListedGroup>, matched: Seq<bool>, n: int, m: int)
    requires
        0 <= n <= m <= page.len(),
        matched.len() == page.len(),
    ensures
        eligible(page, matched, n).len() <= eligible(page, matched, m).len(),
        forall|k: int|
            0 <= k < eligible(page, matched, n).len() ==> #[trigger] eligible(page, matched, m)[k]
                == eligible(page, matched, n)[k],
    decreases m - n,
{
    if n < m {
        eligible_grows(page, matched, n, m - 1);
    }
}

/// Whether a name is one a pattern asks for. A pattern without
/// metacharacters is left to the API, which takes it as a prefix; one beyond
/// the bounds asks for nothing.
pub open spec fn asked_for(pattern: Option<Seq<char>>, name: Option<Seq<char>>) -> bool {
    match (pattern, name) {
        (Some(p), Some(n)) => !globbed(p) || (bounded(p) && glob_match(p, n)),
        _ => true,
    }
}

/// Which listed groups a pattern asks for.
pub open spec fn matches_of(pattern: Option<Seq<char>>, page: Seq<ListedGroup>) -> Seq<bool> {
    page.map_values(|g: ListedGroup| asked_for(pattern, opt_text(g.name)))
}

/// Whether a page of listed groups was taken: those asked for were kept in
/// order as far as the limit allows, and `truncated` tells whether one was
/// left out.
pub open spec fn page_taken(
    before: Seq<LogGroup>,
    after: Seq<LogGroup>,
    page: Seq<ListedGroup>,
    pattern: Option<Seq<char>>,
    limit: int,
    now: Instant,
    truncated: bool,
) -> bool {
    let chosen = eligible(page, matches_of(pattern, page), page.len() as int);
    &&& kept(before, after, page, chosen, limit, now)
    &&& truncated <==> chosen.len() > 0 && before.len() + chosen.len() > limit
}

/// Take a page of listed groups. Answers whether one was left out for the
/// limit.
pub fn discover_page(
    out: &mut Vec<LogGroup>,
    page: &Vec<ListedGroup>,
    pattern: Option<&str>,
    limit: usize,
    now: Instant,
) -> (truncated: bool)
    requires
        now.valid(),
    ensures
        page_taken(
            old(out)@,
            final(out)@,
            page@,
            match pattern {
                Some(p) => Some(p@),
                None => None,
            },
            limit as int,
            now,
            truncated,
        ),
{
    let ghost asked = match pattern {
        Some(p) => Some(p@),
        None => None,
    };
    let ghost want = matches_of(asked, page@);
    let mut matched: Vec<bool> = Vec::new();
    let mut i: usize = 0;
    while i < page.len()
        invariant
            i <= page@.len(),
            asked == (match pattern {
                Some(p) => Some(p@),
                None => None,
            }),
            want == matches_of(asked, page@),
            matched@ == want.take(i as int),
        decreases page@.len() - i,
    {
        let m = match (pattern, &page[i].name) {
            (Some(p), Some(n)) => !is_glob(p) || (is_bounded(p) && glob_matches(p, n.as_str())),
            _ => true,
        };
        matched.push(m);
        proof {
            assert(want.take(i + 1) == want.take(i as int).push(want[i as int]));
        }
        i += 1;
    }
    proof {
        assert(want.take(i as int) == want);
    }
    absorb_groups(out, page, &matched, limit, now)
}

/// The groups that a page lists and a pattern asks for, each with the instant
/// at which the page was taken.
pub open spec fn wanted_of(page: Seq<ListedGroup>, pattern: Option<Seq<char>>, now: Instant) -> Seq<
    (ListedGroup, Instant),
> {
    eligible(page, matches_of(pattern, page), page.len() as int).map_values(
        |i: int| (page[i], now),
    )
}

/// The groups that pages list and a pattern asks for, page by page.
pub open spec fn wanted_of_all(
    pages: Seq<Seq<ListedGroup>>,
    pattern: Option<Seq<char>>,
    nows: Seq<Instant>,
) -> Seq<(ListedGroup, Instant)>
    decreases pages.len(),
{
    if pages.len() == 0 {
        Seq::empty()
    } else {
        wanted_of_all(pages.drop_last(), pattern, nows.drop_last()) + wanted_of(
            pages.last(),
            pattern,
            nows.last(),
        )
    }
}

/// Whether pages were taken one after the other, from nothing: what was kept
/// before each page and behind the last is in `outs`. None but the last left
/// a group out, since nothing is taken behind such a page.
pub open spec fn pages_taken(
    outs: Seq<Seq<LogGroup>>,
    pages: Seq<Seq<ListedGroup>>,
    pattern: Option<Seq<char>>,
    limit: int,
    nows: Seq<Instant>,
    truncated: Seq<bool>,
) -> bool {
    &&& outs.len() == pages.len() + 1
    &&& nows.len() == pages.len()
    &&& truncated.len() == pages.len()
    &&& outs[0].len() == 0
    &&& forall|i: int|
        0 <= i < pages.len() ==> page_taken(
            outs[i],
            outs[i + 1],
            #[trigger] pages[i],
            pattern,
            limit,
            nows[i],
            truncated[i],
        )
    &&& forall|i: int| 0 <= i < pages.len() - 1 ==> !(#[trigger] truncated[i])
}

/// Paging does not matter to a listing: the groups kept are the first of all
/// that are asked for, as many as the limit allows, and the listing is
/// truncated exactly when there are more.
pub proof fn a_listing_keeps_the_first_of_all_pages(
    outs: Seq<Seq<LogGroup>>,
    pages: Seq<Seq<ListedGroup>>,
    pattern: Option<Seq<char>>,
    limit: int,
    nows: Seq<Instant>,
    truncated: Seq<bool>,
)
    requires
        limit >= 0,
        pages_taken(outs, pages, pattern, limit, nows, truncated),
    ensures
        ({
            let all = wanted_of_all(pages, pattern, nows);
            let out = outs.last();
            &&& out.len() == if all.len() < limit {
                all.len() as int
            } else {
                limit
            }
            &&& forall|k: int|
                0 <= k < out.len() ==> group_is(#[trigger] out[k], all[k].0, all[k].1)
            &&& pages.len() > 0 ==> (truncated.last() <==> all.len() > limit)
        }),
    decreases pages.len(),
{
    let all = wanted_of_all(pages, pattern, nows);
    if pages.len() > 0 {
        let n = pages.len() - 1;
        let fronts = pages.drop_last();
        let before = outs[n];
        let past = wanted_of_all(fronts, pattern, nows.drop_last());
        assert(pages_taken(
            outs.drop_last(),
            fronts,
            pattern,
            limit,
            nows.drop_last(),
            truncated.drop_last(),
        )) by {
            assert forall|i: int| 0 <= i < fronts.len() implies page_taken(
                outs.drop_last()[i],
                outs.drop_last()[i + 1],
                #[trigger] fronts[i],
                pattern,
                limit,
                nows.drop_last()[i],
                truncated.drop_last()[i],
            ) by {
                assert(fronts[i] == pages[i]);
            }
            assert forall|i: int| 0 <= i < fronts.len() - 1 implies !(
            #[trigger] truncated.drop_last()[i]) by {
                assert(truncated.drop_last()[i] == truncated[i]);
            }
        }
        a_listing_keeps_the_first_of_all_pages(
            outs.drop_last(),
            fronts,
            pattern,
            limit,
            nows.drop_last(),
            truncated.drop_last(),
        );
        assert(outs.drop_last().last() == before);
        let page = pages[n];
        assert(page_taken(before, outs[n + 1], page, pattern, limit, nows[n], truncated[n]));
        let picked = eligible(page, matches_of(pattern, page), page.len() as int);
        assert(past.len() <= limit) by {
            if n > 0 {
                assert(!truncated[n - 1]);
                assert(truncated.drop_last().last() == truncated[n - 1]);
            }
        }
        assert(before.len() == past.len());
        assert(all.len() == past.len() + picked.len());
        let out = outs[n + 1];
        assert forall|k: int| 0 <= k < out.len() implies group_is(
            #[trigger] out[k],
            all[k].0,
            all[k].1,
        ) by {
            if k < before.len() {
                assert(out.take(before.len() as int)[k] == out[k]);
                assert(group_is(before[k], past[k].0, past[k].1));
                assert(all[k] == past[k]);
            } else {
                let j = k - before.len();
                assert(out[before.len() + j] == out[k]);
                assert(all[k] == wanted_of(page, pattern, nows[n])[j]);
            }
        }
    }
}

impl Ordered for LogGroup {
    /// By name.
    open spec fn before(self, other: LogGroup) -> bool {
        text_less(self.name@, other.name@)
    }

    proof fn is_weak_order(a: LogGroup, b: LogGroup, c: LogGroup) {
        names_are_ordered(a.name@, b.name@, c.name@);
    }
}

impl Sortable for LogGroup {
    fn precedes(&self, other: &LogGroup) -> (r: bool) {
        less_str(self.name.as_str(), other.name.as_str())
    }
}

/// The parameters a listing reports.
pub open spec fn groups_params(profile: Seq<char>, pattern: Option<Seq<char>>) -> JsonTree {
    JsonTree::Object(
        seq![("profile"@, JsonTree::Text(profile)), ("pattern"@, text_or_null(pattern))],
    )
}

/// What `logs groups` returns for the groups that were found.
pub fn groups(profile: &str, pattern: Option<&str>, found: Vec<LogGroup>, truncated: bool) -> (r:
    Envelope<LogGroup>)
    ensures
        r.sound(),
        r.command@ == "logs groups"@,
        r.truncated == truncated,
        r.data@ == ordered(found@),
        r.params@ == groups_params(
            profile@,
            match pattern {
                Some(p) => Some(p@),
                None => None,
            },
        ),
{
    let mut params: Vec<(String, Json)> = Vec::new();
    json::put(&mut params, "profile", json::text(profile));
    json::put(&mut params, "pattern", json::text_opt(pattern));
    proof {
        assert(fields_of(params@) =~= groups_params(
            profile@,
            match pattern {
                Some(p) => Some(p@),
                None => None,
            },
        )->Object_0);
    }
    Envelope::new("logs groups", json::object(params), sort(found)).truncated(truncated)
}

// ---------------------------------------------------------------------------
// scan
// ---------------------------------------------------------------------------

/// What to scan.
pub struct ScanRequest<'a> {
    pub group: &'a str,
    pub window: Window,
    pub filter: Option<&'a str>,
    pub limit: Option<usize>,
    pub max_groups: usize,
}

/// What a scan found.
pub struct ScanResult {
    pub clusters: Vec<Cluster>,
    pub events: Vec<RawEvent>,
    pub groups_scanned: Vec<String>,
    pub truncated: bool,
}

/// The names of groups.
pub open spec fn names_of(groups: Seq<LogGroup>) -> Seq<Seq<char>> {
    groups.map_values(|g: LogGroup| g.name@)
}

/// The groups a scan covers: the one that was named, or those a glob found,
/// of which there must be some.
pub fn groups_to_scan(group: &str, found: Vec<LogGroup>) -> (r: Result<Vec<String>, Error>)
    ensures
        !globbed(group@) ==> r is Ok && strings(r->Ok_0@) == seq![group@],
        globbed(group@) && found@.len() == 0 ==> r is Err && r->Err_0@ == (Fault::Aws {
            operation: "logs:DescribeLogGroups"@,
            message: "no log group matches "@ + debug_text(group@),
        }),
        globbed(group@) && found@.len() > 0 ==> r is Ok && strings(r->Ok_0@) == names_of(
            ordered(found@),
        ),
        r is Ok ==> r->Ok_0@.len() > 0,
{
    let mut out: Vec<String> = Vec::new();
    if !is_glob(group) {
        out.push(group.to_owned());
        proof {
            assert(strings(out@) == seq![group@]);
        }
        return Ok(out);
    }
    if found.len() == 0 {
        return Err(
            Error::Aws {
                operation: "logs:DescribeLogGroups".to_owned(),
                message: "no log group matches ".to_owned().concat(debug(group).as_str()),
            },
        );
    }
    let ghost want = names_of(ordered(found@));
    proof {
        crate::order::sorting_permutes(found@);
    }
    let sorted = sort(found);
    let mut i: usize = 0;
    while i < sorted.len()
        invariant
            i <= sorted@.len(),
            want == names_of(sorted@),
            strings(out@) == want.take(i as int),
            out@.len() == i,
        decreases sorted@.len() - i,
    {
        let ghost out0 = out@;
        out.push(sorted[i].name.as_str().to_owned());
        proof {
            assert(strings(out@) == strings(out0).push(want[i as int]));
            assert(want.take(i + 1) == want.take(i as int).push(want[i as int]));
        }
        i += 1;
    }
    proof {
        assert(want.take(i as int) == want);
    }
    Ok(out)
}

/// How many events each group may contribute, so one noisy group cannot
/// consume the whole limit and leave the others unrepresented.
pub open spec fn budget(limit: int, groups: int) -> int {
    let share = (limit + groups - 1) / groups;
    if share < 1 {
        1
    } else {
        share
    }
}

/// Find `budget`, where there is a limit.
pub fn per_group_budget(limit: Option<usize>, groups: usize) -> (r: Option<usize>)
    requires
        groups > 0,
    ensures
        limit is None ==> r is None,
        limit is Some ==> r is Some && r->0 == budget(limit->0 as int, groups as int),
{
    match limit {
        None => None,
        Some(l) => {
            if l == 0 {
                proof {
                    assert((0 + groups - 1) / (groups as int) == 0) by (nonlinear_arith)
                        requires
                            groups > 0,
                    ;
                }
                return Some(1);
            }
            let share = (l - 1) / groups + 1;
            proof {
                vstd::arithmetic::div_mod::lemma_fundamental_div_mod(
                    (l - 1) as int,
                    groups as int,
                );
                let q = (l - 1) as int / groups as int;
                let m = (l - 1) as int % groups as int;
                assert(l + groups - 1 == (q + 1) * groups + m) by (nonlinear_arith)
                    requires
                        (l - 1) as int == groups * q + m,
                ;
                vstd::arithmetic::div_mod::lemma_fundamental_div_mod_converse(
                    l + groups - 1,
                    groups as int,
                    q + 1,
                    m,
                );
                assert(q >= 0) by (nonlinear_arith)
                    requires
                        q == (l - 1) as int / groups as int,
                        l >= 1,
                        groups > 0,
                ;
            }
            Some(share)
        },
    }
}

/// The budgets of all groups together cover the limit.
pub proof fn budgets_cover_the_limit(limit: int, groups: int)
    requires
        limit >= 0,
        groups > 0,
    ensures
        budget(limit, groups) >= 1,
        budget(limit, groups) * groups >= limit,
{
    let n = limit + groups - 1;
    vstd::arithmetic::div_mod::lemma_fundamental_div_mod(n, groups);
    let share = n / groups;
    assert(share * groups >= limit) by (nonlinear_arith)
        requires
            n == groups * share + n % groups,
            0 <= n % groups,
            n % groups < groups,
            n == limit + groups - 1,
    ;
    assert(budget(limit, groups) * groups >= share * groups) by (nonlinear_arith)
        requires
            budget(limit, groups) >= share,
            groups > 0,
    ;
}

/// An event as the API returns it.
#[derive(Debug)]
pub struct ListedEvent {
    pub timestamp: Option<i64>,
    pub stream: Option<String>,
    pub message: Option<String>,
}

/// The text of an optional text, empty when it is missing.
pub open spec fn or_empty(s: Option<String>) -> Seq<char> {
    match s {
        Some(t) => t@,
        None => ""@,
    }
}

/// A returned event as it is kept.
pub open spec fn event_is(e: RawEvent, listed: ListedEvent, group: Seq<char>, now: Instant) -> bool {
    &&& e.ts == match listed.timestamp {
        Some(ms) => at_millis(ms as int, now),
        None => now,
    }
    &&& e.group@ == group
    &&& e.stream@ == or_empty(listed.stream)
    &&& e.message@ == or_empty(listed.message)
}

/// Copy an optional text, empty when it is missing.
fn text_or_empty(s: &Option<String>) -> (r: String)
    ensures
        r@ == or_empty(*s),
{
    match s {
        Some(t) => t.as_str().to_owned(),
        None => "".to_owned(),
    }
}

/// Take a page of events of one group. Answers whether one was left out for
/// the cap: reporting this is the difference between a partial answer and a
/// wrong one.
pub fn absorb_events(
    out: &mut Vec<RawEvent>,
    page: &Vec<ListedEvent>,
    group: &str,
    cap: Option<usize>,
    now: Instant,
) -> (truncated: bool)
    requires
        now.valid(),
        forall|i: int| 0 <= i < old(out)@.len() ==> (#[trigger] old(out)@[i]).ts.valid(),
    ensures
        ({
            let n = old(out)@.len();
            let room = match cap {
                Some(c) => if c > n {
                    c - n
                } else {
                    0
                },
                None => page@.len() as int,
            };
            let taken = if page@.len() < room {
                page@.len() as int
            } else {
                room
            };
            &&& final(out)@.len() == n + taken
            &&& final(out)@.take(n as int) == old(out)@
            &&& forall|k: int|
                0 <= k < taken ==> event_is(
                    #[trigger] final(out)@[n + k],
                    page@[k],
                    group@,
                    now,
                )
            &&& truncated <==> taken < page@.len()
        }),
        forall|i: int| 0 <= i < final(out)@.len() ==> (#[trigger] final(out)@[i]).ts.valid(),
        forall|k: int| 0 <= k < old(out)@.len() ==> #[trigger] final(out)@[k] == old(out)@[k],
        cap is None || old(out)@.len() + page@.len() <= cap->0 ==> !truncated && final(out)@.len()
            == old(out)@.len() + page@.len(),
        cap is Some && page@.len() > 0 && old(out)@.len() + page@.len() > cap->0 ==> truncated,
        cap is Some && old(out)@.len() <= cap->0 ==> final(out)@.len() <= cap->0,
        truncated && old(out)@.len() <= cap->0 ==> final(out)@.len() == cap->0,
        forall|k: int|
            0 <= k < final(out)@.len() - old(out)@.len() ==> {
                let e = #[trigger] final(out)@[old(out)@.len() + k];
                let listed = page@[k];
                &&& e.group@ == group@
                &&& listed.stream is Some ==> e.stream@ == listed.stream->0@
                &&& listed.message is Some ==> e.message@ == listed.message->0@
            },
{
    let ghost before = out@;
    let ghost n = before.len();
    let ghost room = match cap {
        Some(c) => if c > n {
            c - n
        } else {
            0
        },
        None => page@.len() as int,
    };
    let mut i: usize = 0;
    proof {
        assert(before.take(n as int) == before);
    }
    while i < page.len()
        invariant
            i <= page@.len(),
            now.valid(),
            before == old(out)@,
            n == before.len(),
            room == (match cap {
                Some(c) => if c > n {
                    c - n
                } else {
                    0
                },
                None => page@.len() as int,
            }),
            i <= room,
            out@.len() == n + i,
            out@.take(n as int) == before,
            forall|k: int|
                0 <= k < i ==> event_is(#[trigger] out@[n + k], page@[k], group@, now),
            forall|k: int| 0 <= k < out@.len() ==> (#[trigger] out@[k]).ts.valid(),
        decreases page@.len() - i,
    {
        if let Some(c) = cap {
            if out.len() >= c {
                return true;
            }
        }
        let e = &page[i];
        let ghost out0 = out@;
        out.push(
            RawEvent {
                ts: match e.timestamp {
                    Some(ms) => from_millis(ms, now),
                    None => now,
                },
                group: group.to_owned(),
                stream: text_or_empty(&e.stream),
                message: text_or_empty(&e.message),
            },
        );
        proof {
            assert(out@.take(n as int) == out0.take(n as int));
            assert forall|k: int| 0 <= k < i + 1 implies event_is(
                #[trigger] out@[n + k],
                page@[k],
                group@,
                now,
            ) by {
                if k < i {
                    assert(out@[n + k] == out0[n + k]);
                }
            }
            assert forall|k: int| 0 <= k < out@.len() implies (#[trigger] out@[k]).ts.valid() by {
                if k < n + i {
                    assert(out@[k] == out0[k]);
                }
            }
        }
        i += 1;
    }
    false
}

impl Ordered for RawEvent {
    /// By time.
    open spec fn before(self, other: RawEvent) -> bool {
        other.ts.after(self.ts)
    }

    proof fn is_weak_order(a: RawEvent, b: RawEvent, c: RawEvent) {
    }
}

impl Sortable for RawEvent {
    fn precedes(&self, other: &RawEvent) -> (r: bool) {
        other.ts.is_after(self.ts)
    }
}

/// Every event is in the calendar.
pub open spec fn dated(events: Seq<RawEvent>) -> bool {
    forall|i: int| 0 <= i < events.len() ==> (#[trigger] events[i]).ts.valid()
}

/// Assemble a scan from the events of all groups, oldest first and no more of
/// them than the limit. Leaving some out makes the scan a truncated one.
pub fn gather(
    events: Vec<RawEvent>,
    groups: Vec<String>,
    limit: Option<usize>,
    truncated: bool,
) -> (r: ScanResult)
    ensures
        r.events@ == match limit {
            Some(n) => up_to(ordered(events@), n as int),
            None => ordered(events@),
        },
        dated(events@) ==> dated(r.events@),
        r.groups_scanned == groups,
        r.truncated == (truncated || (limit is Some && events@.len() > limit->0)),
        r.clusters@.len() == 0,
{
    proof {
        sorting_permutes(events@);
        sorting_keeps_elements(events@);
        assert forall|i: int| dated(events@) && 0 <= i < ordered(events@).len() implies (
        #[trigger] ordered(events@)[i]).ts.valid() by {
            let e = ordered(events@)[i];
            assert(ordered(events@).contains(e));
            let k = events@.index_of(e);
            assert(events@[k] == e);
        }
    }
    let (events, more) = capped(sort(events), limit);
    ScanResult { clusters: Vec::new(), events, groups_scanned: groups, truncated: truncated || more }
}

/// The range that events cover.
pub open spec fn covers(events: Seq<RawEvent>, r: Option<(Instant, Instant)>) -> bool {
    match r {
        None => events.len() == 0,
        Some((from, to)) => {
            &&& exists|i: int| 0 <= i < events.len() && (#[trigger] events[i]).ts == from
            &&& exists|i: int| 0 <= i < events.len() && (#[trigger] events[i]).ts == to
            &&& forall|i: int|
                0 <= i < events.len() ==> !from.after((#[trigger] events[i]).ts)
                    && !events[i].ts.after(to)
        },
    }
}

/// What is said of a scan that did not cover its window. CloudWatch returns
/// oldest first, so a shortfall is always at the new end.
pub open spec fn shortfall(range: Option<(Instant, Instant)>, until: Instant) -> Seq<char> {
    let end = rfc3339_text(until.secs, until.nanos);
    let said = match range {
        Some((from, to)) => "truncated: events cover "@ + rfc3339_text(from.secs, from.nanos)
            + " to "@ + rfc3339_text(to.secs, to.nanos) + " of the requested window ending "@ + end,
        None => "truncated: no events were returned of the requested window ending "@ + end,
    };
    said
        + ". CloudWatch returns oldest first, so the newest events are NOT included -- narrow --since or raise --limit."@
}

/// The instant of an end of the range, as it is reported.
pub open spec fn reported(at: Option<Instant>) -> JsonTree {
    match at {
        Some(t) => JsonTree::Text(rfc3339_text(t.secs, t.nanos)),
        None => JsonTree::Null,
    }
}

/// Coverage as it is reported: the range, and a note where the scan did not
/// cover its window.
pub open spec fn coverage_tree(
    range: Option<(Instant, Instant)>,
    truncated: bool,
    until: Instant,
) -> JsonTree {
    let (from, to) = match range {
        Some((a, b)) => (Some(a), Some(b)),
        None => (None, None),
    };
    let base = seq![("events_from"@, reported(from)), ("events_to"@, reported(to))];
    JsonTree::Object(
        if truncated {
            base.push(("note"@, JsonTree::Text(shortfall(range, until))))
        } else {
            base
        },
    )
}

impl ScanResult {
    /// The time range actually covered by the returned events.
    ///
    /// CloudWatch returns events ascending from the window start, so hitting
    /// a limit yields the *oldest* slice of the window, not the newest. A
    /// caller that assumed otherwise would analyse stale data and conclude
    /// the wrong thing; reporting real coverage makes the shortfall visible.
    pub fn coverage(&self) -> (r: Option<(Instant, Instant)>)
        ensures
            covers(self.events@, r),
    {
        let events = &self.events;
        if events.len() == 0 {
            return None;
        }
        let mut first = events[0].ts;
        let mut last = events[0].ts;
        let ghost mut a: int = 0;
        let ghost mut b: int = 0;
        let mut i: usize = 0;
        while i < events.len()
            invariant
                i <= events@.len(),
                0 <= a < events@.len(),
                0 <= b < events@.len(),
                events@[a].ts == first,
                events@[b].ts == last,
                forall|k: int|
                    0 <= k < i ==> !first.after((#[trigger] events@[k]).ts)
                        && !events@[k].ts.after(last),
            decreases events@.len() - i,
        {
            let ts = events[i].ts;
            if first.is_after(ts) {
                first = ts;
                proof {
                    a = i as int;
                }
            }
            if ts.is_after(last) {
                last = ts;
                proof {
                    b = i as int;
                }
            }
            i += 1;
        }
        Some((first, last))
    }

    /// Coverage rendered for the envelope's `params`, with an explicit note
    /// when the window was not fully covered.
    pub fn coverage_json(&self, window: Window) -> (r: Json)
        requires
            dated(self.events@),
            window.valid(),
        ensures
            exists|range: Option<(Instant, Instant)>|
                covers(self.events@, range) && r@ == #[trigger] coverage_tree(
                    range,
                    self.truncated,
                    window.until,
                ),
    {
        let range = self.coverage();
        let mut fields: Vec<(String, Json)> = Vec::new();
        let said = match range {
            None => {
                json::put(&mut fields, "events_from", Json::Null);
                json::put(&mut fields, "events_to", Json::Null);
                "truncated: no events were returned of the requested window ending ".to_owned()
            },
            Some((from, to)) => {
                let a = to_rfc3339(from);
                let b = to_rfc3339(to);
                json::put(&mut fields, "events_from", json::text(a.as_str()));
                json::put(&mut fields, "events_to", json::text(b.as_str()));
                "truncated: events cover ".to_owned().concat(a.as_str()).concat(" to ").concat(
                    b.as_str(),
                ).concat(" of the requested window ending ")
            },
        };
        if self.truncated {
            let end = to_rfc3339(window.until);
            let note = said.concat(end.as_str()).concat(
                ". CloudWatch returns oldest first, so the newest events are NOT included -- narrow --since or raise --limit.",
            );
            json::put(&mut fields, "note", json::text(note.as_str()));
        }
        proof {
            assert(fields_of(fields@) =~= coverage_tree(
                range,
                self.truncated,
                window.until,
            )->Object_0);
        }
        json::object(fields)
    }
}

/// A scan is noted exactly when it did not cover its window, whether or not it
/// returned events, and the note ends by saying what is missing.
pub proof fn a_shortfall_is_always_noted(
    range: Option<(Instant, Instant)>,
    truncated: bool,
    until: Instant,
)
    ensures
        ({
            let fields = coverage_tree(range, truncated, until)->Object_0;
            &&& truncated <==> exists|i: int|
                0 <= i < fields.len() && (#[trigger] fields[i]).0 == "note"@
            &&& truncated ==> fields.last() == ("note"@, JsonTree::Text(shortfall(range, until)))
            &&& fields[0].1 is Null <==> range is None
            &&& fields[1].1 is Null <==> range is None
        }),
{
    reveal_strlit("events_from");
    reveal_strlit("events_to");
    reveal_strlit("note");
    let fields = coverage_tree(range, truncated, until)->Object_0;
    assert("events_from"@.len() != "note"@.len());
    assert("events_to"@.len() != "note"@.len());
    if truncated {
        assert(fields[2].0 == "note"@);
    }
}

/// There is one range that events cover.
pub proof fn coverage_is_unique(
    events: Seq<RawEvent>,
    a: Option<(Instant, Instant)>,
    b: Option<(Instant, Instant)>,
)
    requires
        covers(events, a),
        covers(events, b),
    ensures
        a == b,
{
}

// ---------------------------------------------------------------------------
// Clustering
// ---------------------------------------------------------------------------

/// An event as it is clustered.
pub open spec fn line_of(e: RawEvent) -> Line {
    Line { at: e.ts, stream: e.stream@, message: e.message@ }
}

/// Events as they are clustered.
pub open spec fn raw_lines(events: Seq<RawEvent>) -> Seq<Line> {
    events.map_values(|e: RawEvent| line_of(e))
}

/// Prepare events for clustering.
pub fn to_log_events(events: &[RawEvent]) -> (r: Vec<LogEvent>)
    requires
        dated(events@),
    ensures
        lines(r@) == raw_lines(events@),
        template::dated(r@),
        r@.len() == events@.len(),
{
    let ghost want = raw_lines(events@);
    let mut out: Vec<LogEvent> = Vec::new();
    let mut i: usize = 0;
    while i < events.len()
        invariant
            i <= events@.len(),
            dated(events@),
            want == raw_lines(events@),
            lines(out@) == want.take(i as int),
            template::dated(out@),
            out@.len() == i,
        decreases events@.len() - i,
    {
        let ghost out0 = out@;
        let e = &events[i];
        out.push(
            LogEvent {
                timestamp: e.ts,
                stream: e.stream.as_str().to_owned(),
                message: e.message.as_str().to_owned(),
            },
        );
        proof {
            assert(lines(out@) == lines(out0).push(want[i as int]));
            assert(want.take(i + 1) == want.take(i as int).push(want[i as int]));
        }
        i += 1;
    }
    proof {
        assert(want.take(i as int) == want);
    }
    out
}

/// The clusters of events in a window, before any comparison.
pub open spec fn scanned(events: Seq<RawEvent>, window: Window) -> Seq<Group> {
    let evs = raw_lines(events);
    clusters_given(evs, templates(evs), window.since, window.until, BUCKETS as int)
}

/// Whether clusters are those of the events, judged against the baseline
/// where there is one.
pub open spec fn clustered(
    cs: Seq<Group>,
    events: Seq<RawEvent>,
    window: Window,
    baseline: Option<(Window, ScanResult)>,
) -> bool {
    match baseline {
        None => cs == scanned(events, window),
        Some((base, scan)) => exists|counts: Map<Seq<char>, usize>|
            counts_are(counts, templates(raw_lines(scan.events@))) && cs == #[trigger] ordered(
                all_judged(
                    scanned(events, window),
                    counts,
                    seconds(window.until, window.since),
                    seconds(base.until, base.since),
                ),
            ),
    }
}

/// A baseline's window and events are in the calendar.
pub open spec fn baseline_dated(baseline: Option<(Window, ScanResult)>) -> bool {
    match baseline {
        Some((base, scan)) => base.valid() && dated(scan.events@),
        None => true,
    }
}

/// Whether there is a baseline, and it is incomplete.
pub open spec fn baseline_capped(baseline: Option<(Window, ScanResult)>) -> bool {
    match baseline {
        Some((_, scan)) => scan.truncated,
        None => false,
    }
}

/// Cluster fetched events, classifying them against a baseline period where
/// one was fetched. Answers with the clusters, and whether the baseline is
/// incomplete: a capped baseline undercounts, which makes steady clusters read
/// as new or spiking.
pub fn cluster_events(
    window: Window,
    events: &[RawEvent],
    baseline: Option<(Window, ScanResult)>,
) -> (r: (Vec<Cluster>, bool))
    requires
        window.valid(),
        dated(events@),
        events@.len() <= u32::MAX,
        baseline_dated(baseline),
    ensures
        clustered(cluster_views(r.0@), events@, window, baseline),
        r.1 == baseline_capped(baseline),
{
    let evs = to_log_events(events);
    let mut clusters = template::cluster(evs.as_slice(), window.since, window.until, BUCKETS);
    match baseline {
        None => (clusters, false),
        Some((base, scan)) => {
            let prior = to_log_events(scan.events.as_slice());
            let counts = template::baseline_counts(prior.as_slice());
            let now_secs = seconds_between(window.until, window.since);
            let base_secs = seconds_between(base.until, base.since);
            template::apply_baseline(&mut clusters, &counts, now_secs, base_secs);
            proof {
                assert(cluster_views(clusters@) == ordered(
                    all_judged(
                        scanned(events@, window),
                        counts@,
                        seconds(window.until, window.since),
                        seconds(base.until, base.since),
                    ),
                ));
            }
            (clusters, scan.truncated)
        },
    }
}

/// The period of the given length immediately before a window: "what is new
/// since the same stretch before this".
pub fn baseline_window(baseline: &str, window: Window) -> (r: Result<Window, Error>)
    requires
        window.valid(),
    ensures
        outcome(r) == match instant_of(baseline@, window.since) {
            Ok(start) => Ok(Window { since: start, until: window.since }),
            Err(e) => Err(Fault::Time(e)),
        },
        r is Ok ==> r->Ok_0.valid(),
{
    match parse_instant(baseline, window.since) {
        Ok(start) => Ok(Window { since: start, until: window.since }),
        Err(e) => Err(Error::from(e)),
    }
}

// ---------------------------------------------------------------------------
// drill
// ---------------------------------------------------------------------------

/// Whether an event is one of the stream, where one is asked for.
pub open spec fn in_stream(e: RawEvent, stream: Option<Seq<char>>) -> bool {
    stream is None || e.stream@ == stream->0
}

/// The events of one cluster, given the template of each event.
pub open spec fn chosen(
    events: Seq<RawEvent>,
    ts: Seq<Seq<char>>,
    id: Seq<char>,
    stream: Option<Seq<char>>,
    n: int,
) -> Seq<RawEvent>
    decreases n,
{
    if n <= 0 || n > events.len() || n > ts.len() {
        Seq::empty()
    } else if in_stream(events[n - 1], stream) && id_of(ts[n - 1]) == id {
        chosen(events, ts, id, stream, n - 1).push(events[n - 1])
    } else {
        chosen(events, ts, id, stream, n - 1)
    }
}

/// What references refer to.
pub open spec fn referred(v: Seq<&RawEvent>) -> Seq<RawEvent> {
    v.map_values(|e: &RawEvent| *e)
}

/// The content of an optional text.
pub open spec fn asked(s: Option<&str>) -> Option<Seq<char>> {
    match s {
        Some(t) => Some(t@),
        None => None,
    }
}

/// Select the events of one cluster, given the template of each event.
pub fn select_with<'a>(
    events: &'a [RawEvent],
    ts: &Vec<String>,
    cluster_id: &str,
    stream: Option<&str>,
) -> (r: Vec<&'a RawEvent>)
    requires
        ts@.len() == events@.len(),
    ensures
        referred(r@) == chosen(
            events@,
            strings(ts@),
            cluster_id@,
            asked(stream),
            events@.len() as int,
        ),
{
    let ghost all = strings(ts@);
    let mut out: Vec<&'a RawEvent> = Vec::new();
    let mut i: usize = 0;
    while i < events.len()
        invariant
            i <= events@.len(),
            ts@.len() == events@.len(),
            all == strings(ts@),
            all.len() == ts@.len(),
            referred(out@) == chosen(events@, all, cluster_id@, asked(stream), i as int),
        decreases events@.len() - i,
    {
        let e = &events[i];
        let ghost out0 = out@;
        let wanted = match stream {
            Some(s) => same_str(e.stream.as_str(), s),
            None => true,
        };
        proof {
            assert(all[i as int] == ts@[i as int]@);
        }
        let id = template::cluster_id(ts[i].as_str());
        if wanted && same_str(id.as_str(), cluster_id) {
            out.push(e);
            proof {
                assert(referred(out@) == referred(out0).push(*e));
            }
        }
        i += 1;
    }
    out
}

/// Return the verbatim events behind one cluster.
///
/// Cluster ids are a hash of the template and cannot be inverted, so this
/// keeps the events whose template hashes to the same id. That means the same
/// group and a window overlapping the original.
pub fn select_cluster<'a>(events: &'a [RawEvent], cluster_id: &str, stream: Option<&str>) -> (r:
    Vec<&'a RawEvent>)
    ensures
        referred(r@) == chosen(
            events@,
            templates(raw_lines(events@)),
            cluster_id@,
            asked(stream),
            events@.len() as int,
        ),
{
    let ghost want = templates(raw_lines(events@));
    let mut ts: Vec<String> = Vec::new();
    let mut i: usize = 0;
    while i < events.len()
        invariant
            i <= events@.len(),
            want == templates(raw_lines(events@)),
            strings(ts@) == want.take(i as int),
            ts@.len() == i,
        decreases events@.len() - i,
    {
        let ghost ts0 = ts@;
        ts.push(tokenize::template(events[i].message.as_str()));
        proof {
            assert(raw_lines(events@)[i as int] == line_of(events@[i as int]));
            assert(strings(ts@) == strings(ts0).push(want[i as int]));
            assert(want.take(i + 1) == want.take(i as int).push(want[i as int]));
        }
        i += 1;
    }
    proof {
        assert(want.take(i as int) == want);
    }
    select_with(events, &ts, cluster_id, stream)
}

/// An event is selected by the id of its own template.
pub proof fn an_event_is_reached_by_its_id(
    events: Seq<RawEvent>,
    ts: Seq<Seq<char>>,
    i: int,
    n: int,
)
    requires
        0 <= i < n <= events.len(),
        ts.len() == events.len(),
    ensures
        chosen(events, ts, id_of(ts[i]), None, n).contains(events[i]),
    decreases n,
{
    let c = chosen(events, ts, id_of(ts[i]), None, n);
    if i == n - 1 {
        assert(c.last() == events[i]);
        assert(c[c.len() - 1] == events[i]);
    } else {
        an_event_is_reached_by_its_id(events, ts, i, n - 1);
        let past = chosen(events, ts, id_of(ts[i]), None, n - 1);
        let k = past.index_of(events[i]);
        assert(c[k] == events[i]);
    }
}

/// What is selected is a verbatim event, whose template hashes to the id.
pub proof fn what_is_selected_belongs(
    events: Seq<RawEvent>,
    ts: Seq<Seq<char>>,
    id: Seq<char>,
    stream: Option<Seq<char>>,
    n: int,
    k: int,
)
    requires
        0 <= n <= events.len(),
        ts.len() == events.len(),
        0 <= k < chosen(events, ts, id, stream, n).len(),
    ensures
        exists|i: int|
            0 <= i < n && chosen(events, ts, id, stream, n)[k] == #[trigger] events[i] && id_of(
                ts[i],
            ) == id && in_stream(events[i], stream),
    decreases n,
{
    if n > 0 {
        let past = chosen(events, ts, id, stream, n - 1);
        if k < past.len() {
            what_is_selected_belongs(events, ts, id, stream, n - 1, k);
        } else {
            assert(chosen(events, ts, id, stream, n)[k] == events[n - 1]);
        }
    }
}

/// Scan, then drill: every line of every cluster of a scan is among what the
/// cluster's id selects.
pub proof fn drilling_reaches_every_line_of_a_cluster(
    events: Seq<RawEvent>,
    window: Window,
    c: int,
    i: int,
)
    requires
        0 <= c < scanned(events, window).len(),
        0 <= i < events.len(),
        template_of(events[i].message@) == scanned(events, window)[c].template,
    ensures
        chosen(
            events,
            templates(raw_lines(events)),
            scanned(events, window)[c].id,
            None,
            events.len() as int,
        ).contains(events[i]),
{
    let evs = raw_lines(events);
    let ts = templates(evs);
    template::every_cluster_is_reachable(
        evs,
        ts,
        window.since,
        window.until,
        BUCKETS as int,
        c,
    );
    assert(ts[i] == template_of(events[i].message@));
    an_event_is_reached_by_its_id(events, ts, i, events.len() as int);
}

/// Whether no two templates of the events share an identifier.
pub open spec fn ids_are_distinct(events: Seq<RawEvent>) -> bool {
    forall|i: int, j: int|
        0 <= i < events.len() && 0 <= j < events.len() && id_of(
            template_of((#[trigger] events[i]).message@),
        ) == id_of(template_of((#[trigger] events[j]).message@)) ==> template_of(events[i].message@)
            == template_of(events[j].message@)
}

/// The events with one template, of a stream where one is asked for, verbatim
/// and in their order.
pub open spec fn events_with(
    events: Seq<RawEvent>,
    t: Seq<char>,
    stream: Option<Seq<char>>,
) -> Seq<RawEvent> {
    events.filter(|e: RawEvent| in_stream(e, stream) && template_of(e.message@) == t)
}

/// What an identifier selects among the first events are those of them with
/// its template.
proof fn an_id_selects_its_template(
    events: Seq<RawEvent>,
    t: Seq<char>,
    stream: Option<Seq<char>>,
    n: int,
)
    requires
        ids_are_distinct(events),
        exists|i: int| 0 <= i < events.len() && template_of((#[trigger] events[i]).message@) == t,
        0 <= n <= events.len(),
    ensures
        ({
            let ts = templates(raw_lines(events));
            let picked = chosen(events, ts, id_of(t), stream, n);
            &&& picked == events_with(events.take(n), t, stream)
            &&& stream is None ==> picked.len() == template::places(ts.take(n), t).len()
        }),
    decreases n,
{
    reveal(Seq::filter);
    let ts = templates(raw_lines(events));
    if n > 0 {
        an_id_selects_its_template(events, t, stream, n - 1);
        let i = choose|i: int|
            0 <= i < events.len() && template_of((#[trigger] events[i]).message@) == t;
        let e = events[n - 1];
        assert(ts[n - 1] == template_of(e.message@));
        assert(id_of(ts[n - 1]) == id_of(t) <==> ts[n - 1] == t) by {
            assert(template_of(events[i].message@) == t);
        }
        assert(events.take(n).drop_last() =~= events.take(n - 1));
        assert(events.take(n).last() == e);
        assert(ts.take(n).drop_last() =~= ts.take(n - 1));
        assert(ts.take(n).last() == ts[n - 1]);
    } else {
        assert(events.take(n) =~= Seq::empty());
    }
}

/// Scan, then drill: the id of a cluster selects exactly the events with its
/// template, verbatim and in their order, and as many as it counted; with a
/// stream, those of them in it.
pub proof fn drilling_returns_the_cluster(
    events: Seq<RawEvent>,
    window: Window,
    c: int,
    stream: Option<Seq<char>>,
)
    requires
        ids_are_distinct(events),
        0 <= c < scanned(events, window).len(),
    ensures
        ({
            let cluster = scanned(events, window)[c];
            let picked = chosen(
                events,
                templates(raw_lines(events)),
                cluster.id,
                stream,
                events.len() as int,
            );
            &&& picked == events_with(events, cluster.template, stream)
            &&& stream is None ==> picked.len() == cluster.count
            &&& cluster.count >= 1
        }),
{
    let evs = raw_lines(events);
    let ts = templates(evs);
    let n = events.len() as int;
    let cluster = scanned(events, window)[c];
    template::every_cluster_is_reachable(
        evs,
        ts,
        window.since,
        window.until,
        BUCKETS as int,
        c,
    );
    let k = choose|k: int|
        0 <= k < ts.len() && #[trigger] ts[k] == cluster.template && id_of(ts[k]) == cluster.id;
    assert(template_of(events[k].message@) == cluster.template);
    an_id_selects_its_template(events, cluster.template, stream, n);
    assert(events.take(n) =~= events);
    assert(ts.take(n) =~= ts);
}

/// An id that no event's template has selects nothing.
pub proof fn an_unknown_id_selects_nothing(
    events: Seq<RawEvent>,
    id: Seq<char>,
    stream: Option<Seq<char>>,
    n: int,
)
    requires
        0 <= n <= events.len(),
        forall|i: int|
            0 <= i < events.len() ==> id_of(template_of((#[trigger] events[i]).message@)) != id,
    ensures
        chosen(events, templates(raw_lines(events)), id, stream, n).len() == 0,
    decreases n,
{
    if n > 0 {
        an_unknown_id_selects_nothing(events, id, stream, n - 1);
        assert(templates(raw_lines(events))[n - 1] == template_of(events[n - 1].message@));
    }
}

// ---------------------------------------------------------------------------
// Results
// ---------------------------------------------------------------------------

/// The bounds of a window as entries.
pub open spec fn bounds(window: Window) -> Seq<(Seq<char>, JsonTree)> {
    seq![
        ("since"@, JsonTree::Text(rfc3339_text(window.since.secs, window.since.nanos))),
        ("until"@, JsonTree::Text(rfc3339_text(window.until.secs, window.until.nanos))),
    ]
}

/// The parameters a scan reports.
pub open spec fn scan_params(
    profile: Seq<char>,
    group: Seq<char>,
    groups: Seq<Seq<char>>,
    window: Window,
    filter: Option<Seq<char>>,
    baseline: Option<Seq<char>>,
    coverage: JsonTree,
) -> JsonTree {
    JsonTree::Object(
        seq![
            ("profile"@, JsonTree::Text(profile)),
            ("group"@, JsonTree::Text(group)),
            ("groups_scanned"@, text_array(groups)),
        ] + bounds(window) + seq![
            ("filter"@, text_or_null(filter)),
            ("baseline"@, text_or_null(baseline)),
            ("coverage"@, coverage),
        ],
    )
}

/// Add the bounds of a window.
fn put_bounds(fields: &mut Vec<(String, Json)>, window: Window)
    requires
        window.valid(),
    ensures
        fields_of(final(fields)@) == fields_of(old(fields)@) + bounds(window),
{
    let ghost before = fields_of(fields@);
    let since = to_rfc3339(window.since);
    let until = to_rfc3339(window.until);
    json::put(fields, "since", json::text(since.as_str()));
    json::put(fields, "until", json::text(until.as_str()));
    proof {
        assert(fields_of(fields@) =~= before + bounds(window));
    }
}

/// The parameters of a scan.
pub fn scan_parameters(
    profile: &str,
    req: &ScanRequest,
    baseline: Option<&str>,
    scan: &ScanResult,
) -> (r: Json)
    requires
        req.window.valid(),
        dated(scan.events@),
    ensures
        exists|range: Option<(Instant, Instant)>|
            covers(scan.events@, range) && r@ == scan_params(
                profile@,
                req.group@,
                strings(scan.groups_scanned@),
                req.window,
                asked(req.filter),
                asked(baseline),
                #[trigger] coverage_tree(range, scan.truncated, req.window.until),
            ),
{
    let coverage = scan.coverage_json(req.window);
    let ghost tree = coverage@;
    let mut fields: Vec<(String, Json)> = Vec::new();
    json::put(&mut fields, "profile", json::text(profile));
    json::put(&mut fields, "group", json::text(req.group));
    json::put(&mut fields, "groups_scanned", json::text_list(&scan.groups_scanned));
    put_bounds(&mut fields, req.window);
    json::put(&mut fields, "filter", json::text_opt(req.filter));
    json::put(&mut fields, "baseline", json::text_opt(baseline));
    json::put(&mut fields, "coverage", coverage);
    proof {
        assert(fields_of(fields@) =~= scan_params(
            profile@,
            req.group@,
            strings(scan.groups_scanned@),
            req.window,
            asked(req.filter),
            asked(baseline),
            tree,
        )->Object_0);
    }
    json::object(fields)
}

/// What `logs scan` returns: clusters, marked incomplete when the window or
/// the baseline was capped.
pub fn scan(params: Json, scan_truncated: bool, clusters: Vec<Cluster>, baseline_truncated: bool) -> (r:
    Envelope<Cluster>)
    ensures
        r.sound(),
        r.command@ == "logs scan"@,
        r.params == params,
        r.data@ == clusters@,
        r.truncated == (scan_truncated || baseline_truncated),
{
    Envelope::new("logs scan", params, clusters).truncated(scan_truncated || baseline_truncated)
}

/// What `logs scan --no-cluster` returns: the raw events.
pub fn scan_raw(params: Json, scan: ScanResult) -> (r: Envelope<RawEvent>)
    ensures
        r.sound(),
        r.command@ == "logs scan"@,
        r.params == params,
        r.data@ == scan.events@,
        r.truncated == scan.truncated,
{
    Envelope::new("logs scan", params, scan.events).truncated(scan.truncated)
}

/// The parameters a drill reports.
pub open spec fn drill_params(
    profile: Seq<char>,
    group: Seq<char>,
    cluster: Seq<char>,
    stream: Option<Seq<char>>,
    window: Window,
) -> JsonTree {
    JsonTree::Object(
        seq![
            ("profile"@, JsonTree::Text(profile)),
            ("group"@, JsonTree::Text(group)),
            ("cluster"@, JsonTree::Text(cluster)),
            ("stream"@, text_or_null(stream)),
        ] + bounds(window),
    )
}

/// What `logs drill` returns for the selected events, at most `limit` of them.
pub fn drill<'a>(
    profile: &str,
    req: &ScanRequest,
    cluster: &str,
    stream: Option<&str>,
    limit: Option<usize>,
    picked: Vec<&'a RawEvent>,
    scan_truncated: bool,
) -> (r: Envelope<&'a RawEvent>)
    requires
        req.window.valid(),
    ensures
        r.sound(),
        r.command@ == "logs drill"@,
        r.params@ == drill_params(profile@, req.group@, cluster@, asked(stream), req.window),
        r.data@ == match limit {
            Some(n) => up_to(picked@, n as int),
            None => picked@,
        },
        r.truncated == (scan_truncated || (limit is Some && picked@.len() > limit->0)),
{
    let mut fields: Vec<(String, Json)> = Vec::new();
    json::put(&mut fields, "profile", json::text(profile));
    json::put(&mut fields, "group", json::text(req.group));
    json::put(&mut fields, "cluster", json::text(cluster));
    json::put(&mut fields, "stream", json::text_opt(stream));
    put_bounds(&mut fields, req.window);
    proof {
        assert(fields_of(fields@) =~= drill_params(
            profile@,
            req.group@,
            cluster@,
            asked(stream),
            req.window,
        )->Object_0);
    }
    let (rows, more) = capped(picked, limit);
    Envelope::new("logs drill", json::object(fields), rows).truncated(more || scan_truncated)
}

/// The parameters a tail reports.
pub open spec fn tail_params(
    profile: Seq<char>,
    group: Seq<char>,
    window: Window,
    coverage: JsonTree,
) -> JsonTree {
    JsonTree::Object(
        seq![("profile"@, JsonTree::Text(profile)), ("group"@, JsonTree::Text(group))] + bounds(
            window,
        ) + seq![("coverage"@, coverage)],
    )
}

/// What `logs tail` returns: the raw events, newest last.
pub fn tail(profile: &str, req: &ScanRequest, scan: ScanResult) -> (r: Envelope<RawEvent>)
    requires
        req.window.valid(),
        dated(scan.events@),
    ensures
        r.sound(),
        r.command@ == "logs tail"@,
        r.data@ == scan.events@,
        r.truncated == scan.truncated,
        exists|range: Option<(Instant, Instant)>|
            covers(scan.events@, range) && r.params@ == tail_params(
                profile@,
                req.group@,
                req.window,
                #[trigger] coverage_tree(range, scan.truncated, req.window.until),
            ),
{
    let coverage = scan.coverage_json(req.window);
    let ghost tree = coverage@;
    let mut fields: Vec<(String, Json)> = Vec::new();
    json::put(&mut fields, "profile", json::text(profile));
    json::put(&mut fields, "group", json::text(req.group));
    put_bounds(&mut fields, req.window);
    json::put(&mut fields, "coverage", coverage);
    proof {
        assert(fields_of(fields@) =~= tail_params(
            profile@,
            req.group@,
            req.window,
            tree,
        )->Object_0);
    }
    Envelope::new("logs tail", json::object(fields), scan.events).truncated(scan.truncated)
}

} // verus!
