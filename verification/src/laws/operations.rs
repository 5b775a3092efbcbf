//! The operations themselves: what a call gives back for what it was given.

use crate::cluster::template::{
    classify, cluster, cluster_id, groups, id_of, lines, templates, Cluster, LogEvent, Status,
};
use crate::cluster::tokenize::{
    is_identity_key, is_variable, mask_token, masked, shape, template, template_with, variable,
    words_masked, words_template,
};
use crate::cmd::ec2::{
    build_filters, concerning, describe_event, detail_is, detail_of, event_text, filters_of,
    health_rows, is_concerning, name_of, name_tag, row, row_is, DescribedEvent, DescribedInstance,
    DescribedStatus, DescribedTag, Filter, HealthRow, InstanceDetail, InstanceRow,
};
use crate::cmd::logs::{chosen, referred, select_with, RawEvent};
use crate::cmd::metrics::{
    label_series, labels_for, plot_of, plots, plotted, query_period, sparse_note, SeriesSpec,
};
use crate::common::aws::{chain_of, classify_failure, lowercase, map_sdk_error, meaning};
use crate::common::credcache::{cache_dir_opt, disabled, Entry};
use crate::common::errors::{hint_of, kind_of, message_of, Error, Fault};
use crate::common::flags::{Window, WindowArgs};
use crate::common::profiles::{
    config_lines, fingerprint, is_sso, parse_profile_names, profile_names, section_text, uses_sso,
};
use crate::common::progress::{grouped, thousands};
use crate::common::time::{
    from_millis, instant_of, rfc3339_text, seconds, seconds_between, to_millis, Instant, TimeFault,
};
use crate::json::{tree_opt, Json, JsonTree};
use crate::laws::clusters::lasting;
use crate::laws::masking::{bare_name, tells_the_kind};
use crate::laws::periods::{no_fewer, ordinary, points};
use crate::metrics::align::{align, choose_period, contenders, rank, Matrix, Rank, Series, Summary};
use crate::order::ordered;
use crate::output::{flatten, flattened, Record};
use crate::report::render::{escape_for_script, escape_html_text, html_text, scripted};
use crate::text::{decimal, strings};
use vstd::prelude::*;

verus! {

// ---------------------------------------------------------------------------
// Clusters
// ---------------------------------------------------------------------------

/// A cluster is new if the baseline lacks it, spiking if its rate is more than
/// three times that of the baseline, and steady otherwise.
pub proof fn classifying(
    count: usize,
    prior: Option<usize>,
    window_secs: i64,
    baseline_secs: i64,
    r: Status,
)
    requires
        call_ensures(classify, (count, prior, window_secs, baseline_secs), r),
    ensures
        prior is None <==> r == Status::New,
        prior is Some ==> (r == Status::Spiking <==> prior->0 > 0 && count * lasting(
            baseline_secs as int,
        ) > 3 * prior->0 * lasting(window_secs as int)),
        r != Status::Unknown,
{
    if prior is Some && prior->0 > 0 {
        crate::laws::clusters::a_spike_is_three_times_the_rate(
            count as nat,
            prior->0,
            window_secs as int,
            baseline_secs as int,
        );
    }
}

/// Clusters are made of the templates of the events that are given, in as many
/// bars as are asked for.
pub proof fn clustering(
    events: &[LogEvent],
    since: Instant,
    until: Instant,
    buckets: usize,
    r: Vec<Cluster>,
    k: int,
)
    requires
        call_ensures(cluster, (events, since, until, buckets), r),
        events@.len() <= u32::MAX,
        crate::cluster::template::dated(events@),
        since.valid(),
        until.valid(),
        0 <= k < r@.len(),
        buckets > 0,
    ensures
        ({
            let ts = templates(lines(events@));
            &&& ts.contains(r@[k].template@)
            &&& r@[k].count == crate::laws::clusters::occurring(
                ts,
                r@[k].template@,
                ts.len() as int,
            )
            &&& r@[k].histogram@.len() == buckets
            &&& r@[k].cluster_id@ == id_of(r@[k].template@)
        }),
{
    let evs = lines(events@);
    let ts = templates(evs);
    let cs = groups(r@);
    assert(cs[k] == r@[k]@);
    crate::laws::clusters::a_cluster_counts_the_lines_of_its_template(
        evs,
        ts,
        since,
        until,
        buckets as int,
        k,
    );
    let all = crate::cluster::template::unsorted(evs, ts, since, until, buckets as int);
    crate::order::sorting_permutes(all);
    crate::order::permuted_is_same(ordered(all), all);
    assert(ordered(all).contains(cs[k]));
    let g = choose|g: int| 0 <= g < all.len() && all[g] == cs[k];
}

/// The events of a cluster are those whose template has its identifier, in the
/// stream that is asked for if one is.
pub proof fn selecting(
    events: &[RawEvent],
    ts: &Vec<String>,
    id: &str,
    stream: Option<&str>,
    r: Vec<&RawEvent>,
    k: int,
)
    requires
        call_ensures(select_with, (events, ts, id, stream), r),
        ts@.len() == events@.len(),
        0 <= k < r@.len(),
    ensures
        exists|i: int|
            0 <= i < events@.len() && *r@[k] == #[trigger] events@[i] && id_of(ts@[i]@) == id@ && (
            stream is None || events@[i].stream@ == stream->0@),
{
    let want = crate::cmd::logs::asked(stream);
    assert(referred(r@)[k] == *r@[k]);
    crate::cmd::logs::what_is_selected_belongs(
        events@,
        strings(ts@),
        id@,
        want,
        events@.len() as int,
        k,
    );
    let i = choose|i: int|
        0 <= i < events@.len() && chosen(events@, strings(ts@), id@, want, events@.len() as int)[k]
            == #[trigger] events@[i] && id_of(strings(ts@)[i]) == id@ && crate::cmd::logs::in_stream(
            events@[i],
            want,
        );
    assert(strings(ts@)[i] == ts@[i]@);
    assert(*r@[k] == events@[i]);
}

// ---------------------------------------------------------------------------
// Templates
// ---------------------------------------------------------------------------

/// A field tells the kind of its message exactly if it has one of the names
/// for it.
pub proof fn recognising_a_kind(key: &[char], r: bool)
    requires
        call_ensures(is_identity_key, (key,), r),
        bare_name(key@),
    ensures
        r <==> tells_the_kind(key@),
{
    if tells_the_kind(key@) {
        crate::laws::masking::the_fields_that_tell_the_kind(Seq::empty(), key@, Seq::empty());
    } else {
        crate::laws::masking::no_other_field_tells_the_kind(Seq::empty(), key@, Seq::empty());
    }
}

/// Two payloads that differ in a field that tells the kind get different
/// templates.
pub proof fn making_templates_of_kinds(
    m: &str,
    n: &str,
    v: Option<Json>,
    w: Option<Json>,
    key: Seq<char>,
    a: Seq<char>,
    b: Seq<char>,
    r: String,
    s: String,
)
    requires
        call_ensures(template_with, (m, v), r),
        call_ensures(template_with, (n, w), s),
        tree_opt(v) == Some(crate::laws::masking::lone(key, JsonTree::Number(a))),
        tree_opt(w) == Some(crate::laws::masking::lone(key, JsonTree::Number(b))),
        tells_the_kind(key),
        crate::laws::masking::bytes(a) <= 12,
        crate::laws::masking::bytes(b) <= 12,
        a != b,
        crate::cluster::tokenize::structured(m@),
        crate::cluster::tokenize::structured(n@),
    ensures
        r@ != s@,
{
    crate::laws::masking::kinds_are_kept_apart(key, a, b, m@, n@);
}

/// A message that is no payload is masked word by word, up to 600 characters.
pub proof fn making_a_template_of_words(m: &str, v: Option<Json>, r: String)
    requires
        call_ensures(template_with, (m, v), r),
        v is None || !crate::cluster::tokenize::structured(m@),
    ensures
        words_masked(m@).len() <= 600 ==> r@ == words_masked(m@),
        words_masked(m@).len() > 600 ==> r@ == words_masked(m@).take(600).push('\u{2026}'),
{
}

/// Masking, classing and shaping go by what they are given.
pub proof fn masking_a_token(t: &[char], m: Vec<char>, v: bool, w: Vec<char>)
    requires
        call_ensures(mask_token, (t,), m),
        call_ensures(is_variable, (t,), v),
        call_ensures(words_template, (t,), w),
    ensures
        m@ == masked(t@),
        v == variable(t@),
        w@ == words_masked(t@),
{
}

// ---------------------------------------------------------------------------
// Periods
// ---------------------------------------------------------------------------

/// A query without a period asked for has one for which the service still has
/// the oldest point of the window, and which keeps all its series within
/// 100 800 points.
pub proof fn choosing_a_period(
    window: Window,
    now: Instant,
    series: usize,
    asked: Option<i64>,
    r: i64,
)
    requires
        call_ensures(query_period, (window, now, series, asked), r),
        window.valid(),
        now.valid(),
    ensures
        asked is Some ==> r == asked->0,
        asked is None && seconds(now, window.since) > 15 * 86_400 ==> r >= 300,
        asked is None && seconds(now, window.since) > 63 * 86_400 ==> r >= 3600,
        asked is None ==> points(
            no_fewer(seconds(window.until, window.since), 1),
            r as int,
            no_fewer(series as int, 1),
        ) <= 100_800,
        asked is None && seconds(now, window.since) <= 15 * 86_400 && points(
            no_fewer(seconds(window.until, window.since), 1),
            60,
            no_fewer(series as int, 1),
        ) <= 100_800 ==> r == 60,
{
    if asked is None {
        crate::laws::periods::the_oldest_point_is_retained(window, now, series as int);
        crate::laws::periods::a_query_is_as_fine_as_it_can_be(window, now, series as int, 60);
    }
}

/// The period for a window, an age and a number of series.
pub proof fn choosing_a_period_for(secs: i64, age: i64, series: usize, r: i64)
    requires
        call_ensures(choose_period, (secs, age, series), r),
        1 <= secs <= i64::MAX - 60,
    ensures
        points(secs as int, r as int, no_fewer(series as int, 1)) <= 100_800,
        r == 60 <==> age <= 15 * 86_400 && points(secs as int, 60, no_fewer(series as int, 1))
            <= 100_800,
        age > 63 * 86_400 ==> r >= 3600,
{
    crate::laws::periods::the_finest_period_that_will_do(
        secs as int,
        age as int,
        no_fewer(series as int, 1),
        60,
    );
}

/// Series are aligned to the period that is asked for, a second at least.
pub proof fn aligning<T: Copy>(
    series: &[Series<T>],
    since: Instant,
    until: Instant,
    period: i64,
    r: Matrix<T>,
)
    requires
        call_ensures(align::<T>, (series, since, until, period), r),
        since.valid(),
        until.valid(),
        crate::metrics::align::dated(series@),
        period <= 9_223_372_036_854_775,
    ensures
        period >= 1 ==> r.aligns(series@, since, until, period as int),
        period < 1 ==> r.aligns(series@, since, until, 1),
{
}

/// A ranking is by what was asked.
pub proof fn ranking(s: Vec<Summary>, by: Rank, r: Vec<Summary>, i: int, j: int)
    requires
        call_ensures(rank, (s, by), r),
        0 <= i < j < r@.len(),
    ensures
        r@.len() == s@.len(),
        by == Rank::Max && r@[i].max is Some && r@[j].max is Some ==> r@[i].max->0 >= r@[j].max->0,
        by == Rank::Mean && r@[i].mean is Some && r@[j].mean is Some ==> r@[i].mean->0
            >= r@[j].mean->0,
        by == Rank::Latest && r@[i].latest is Some && r@[j].latest is Some ==> r@[i].latest->0
            >= r@[j].latest->0,
{
    crate::laws::series::a_ranking_goes_by_what_was_asked(s@, by, i, j);
    crate::order::sorting_permutes(contenders(s@, by));
}

/// Series are read, named and noted by what they are given.
pub proof fn reading_series(
    raw: &str,
    s: Result<SeriesSpec, Error>,
    specs: &[SeriesSpec],
    labels: Vec<String>,
    native: Option<i64>,
    period: i64,
    note: Option<String>,
)
    requires
        call_ensures(SeriesSpec::parse, (raw,), s),
        call_ensures(label_series, (specs,), labels),
        call_ensures(sparse_note, (native, period), note),
    ensures
        plotted(s) == plot_of(raw@),
        strings(labels@) == labels_for(plots(specs@)),
        note is Some <==> native is Some && native->0 > period,
{
}

// ---------------------------------------------------------------------------
// Instances
// ---------------------------------------------------------------------------

/// Every status check has its own row, with the service's two results in their
/// own fields.
pub proof fn reporting_health(
    statuses: &Vec<DescribedStatus>,
    named: &Vec<InstanceRow>,
    r: Vec<HealthRow>,
    k: int,
)
    requires
        call_ensures(health_rows, (statuses, named), r),
        0 <= k < statuses@.len(),
    ensures
        r@.len() == statuses@.len(),
        r@[k].shape()->Object_0[3] == (
            "system_status"@,
            crate::laws::inventory::written(statuses@[k].system_status),
        ),
        r@[k].shape()->Object_0[4] == (
            "instance_status"@,
            crate::laws::inventory::written(statuses@[k].instance_status),
        ),
        r@[k].shape()->Object_0[2] == (
            "state"@,
            crate::laws::inventory::written(statuses@[k].state),
        ),
{
    crate::laws::inventory::a_health_row_is_written_field_by_field(r@[k], statuses@[k], named@);
}

/// Instances, their names and their events are reported as they are described.
pub proof fn reporting_instances(
    i: &DescribedInstance,
    r: InstanceRow,
    d: InstanceDetail,
    tags: &Vec<DescribedTag>,
    n: Option<String>,
    e: &DescribedEvent,
    t: String,
    h: &HealthRow,
    c: bool,
)
    requires
        call_ensures(row, (i,), r),
        call_ensures(detail_of, (i,), d),
        call_ensures(name_of, (tags,), n),
        call_ensures(describe_event, (e,), t),
        call_ensures(is_concerning, (h,), c),
    ensures
        row_is(r, *i),
        detail_is(d, *i),
        n is Some <==> name_tag(tags@) is Some,
        n is Some ==> n->0@ == name_tag(tags@)->0,
        t@ == event_text(*e),
        c == concerning(*h),
{
}

/// The service is asked for the state as the state and for the name as the
/// name.
pub proof fn asking_for_instances(state: Option<&str>, name: Option<&str>, r: Vec<Filter>)
    requires
        call_ensures(build_filters, (state, name), r),
    ensures
        state is Some && name is Some ==> filters_of(r@) == seq![
            ("instance-state-name"@, seq![state->0@]),
            ("tag:Name"@, seq![name->0@]),
        ],
        state is Some && name is None ==> filters_of(r@) == seq![
            ("instance-state-name"@, seq![state->0@]),
        ],
        state is None && name is Some ==> filters_of(r@) == seq![("tag:Name"@, seq![name->0@])],
        state is None && name is None ==> r@.len() == 0,
{
    crate::laws::inventory::filters_ask_for_what_was_given(
        crate::cmd::ec2::asked(state),
        crate::cmd::ec2::asked(name),
    );
    assert(filters_of(r@).len() == r@.len());
}

// ---------------------------------------------------------------------------
// Time
// ---------------------------------------------------------------------------

/// A window is resolved from its own bounds.
pub proof fn resolving_a_window(
    args: &WindowArgs,
    now: Instant,
    r: Result<Window, Error>,
    since: Instant,
    until: Instant,
)
    requires
        call_ensures(WindowArgs::resolve, (args, now), r),
        now.valid(),
        instant_of(args.since@, now) == Ok::<Instant, TimeFault>(since),
        args.until is None ==> until == now,
        args.until is Some ==> instant_of(args.until->0@, now) == Ok::<Instant, TimeFault>(until),
    ensures
        r is Ok <==> since.secs < until.secs || (since.secs == until.secs && since.nanos
            <= until.nanos),
        r is Ok ==> r->Ok_0.since == since && r->Ok_0.until == until,
        r is Err ==> r->Err_0@ == (Fault::InvertedWindow {
            since: rfc3339_text(since.secs, since.nanos),
            until: rfc3339_text(until.secs, until.nanos),
        }),
{
    crate::laws::moments::a_window_runs_forward(since, until);
}

/// Time is measured from the second instant to the first, and milliseconds
/// there and back agree.
pub proof fn measuring_time(
    a: Instant,
    b: Instant,
    s: i64,
    ms: i64,
    back: Instant,
    fallback: Instant,
)
    requires
        a.valid(),
        b.valid(),
        fallback.valid(),
        ordinary(a),
        a.nanos % 1_000_000 == 0,
        call_ensures(seconds_between, (a, b), s),
        call_ensures(to_millis, (a,), ms),
        call_ensures(from_millis, (ms, fallback), back),
    ensures
        s == seconds(a, b),
        ms == a.secs * 1000 + a.nanos / 1_000_000,
        back == a,
{
    crate::common::time::millis_tell_the_instant(a, fallback);
}

// ---------------------------------------------------------------------------
// Access
// ---------------------------------------------------------------------------

/// A failure is told by its messages, and laid to the profile and the
/// operation it came from.
pub proof fn mapping_a_failure(
    messages: &Vec<String>,
    profile: &str,
    operation: &str,
    sso: bool,
    r: Error,
)
    requires
        call_ensures(map_sdk_error, (messages, profile, operation, sso), r),
    ensures
        ({
            let chain = chain_of(strings(messages@));
            let lower = lowercase(chain);
            &&& r@ is Auth ==> r@ == (Fault::Auth { profile: profile@, sso })
            &&& r@ is AccessDenied ==> r@ == (Fault::AccessDenied {
                profile: profile@,
                operation: operation@,
            })
            &&& r@ is Auth || r@ is AccessDenied || r@ is Aws
            &&& r@ is Auth <==> crate::common::aws::tells_of_credentials(lower)
        }),
{
}

/// A failure classed from its text and its lowered text.
pub proof fn classing_a_failure(
    chain: &str,
    lower: &str,
    profile: &str,
    operation: &str,
    sso: bool,
    r: Error,
)
    requires
        call_ensures(classify_failure, (chain, lower, profile, operation, sso), r),
    ensures
        r@ == meaning(chain@, lower@, profile@, operation@, sso),
        r@ is Auth <==> crate::common::aws::tells_of_credentials(lower@),
{
}

/// An error has the kind, the words and the hint of what it is.
pub proof fn telling_an_error(e: &Error, k: &'static str, m: String, h: Option<String>)
    requires
        call_ensures(Error::kind, (e,), k),
        call_ensures(Error::message, (e,), m),
        call_ensures(Error::hint, (e,), h),
    ensures
        k@ == kind_of(e@),
        m@ == message_of(e@),
        h is Some <==> hint_of(e@) is Some,
        h is Some ==> h->0@ == hint_of(e@)->0,
{
}

/// The cache is switched off and placed by the variables meant for it.
pub proof fn placing_the_cache(
    own: Option<&str>,
    key: Option<&str>,
    token: Option<&str>,
    off: bool,
    xdg: Option<&str>,
    home: Option<&str>,
    dir: Option<String>,
)
    requires
        call_ensures(disabled, (own, key, token), off),
        call_ensures(cache_dir_opt, (xdg, home), dir),
    ensures
        off <==> {
            ||| own is Some && own->0@ != Seq::<char>::empty() && own->0@ != seq!['0']
            ||| key is Some && key->0@ != Seq::<char>::empty()
            ||| token is Some && token->0@ != Seq::<char>::empty()
        },
        xdg is Some && xdg->0@.len() > 0 ==> (dir is Some <==> xdg->0@[0] == '/'),
        (xdg is None || xdg->0@.len() == 0) && home is Some && home->0@.len() > 0 ==> (dir is Some
            <==> home->0@[0] == '/'),
        (xdg is None || xdg->0@.len() == 0) && (home is None || home->0@.len() == 0)
            ==> dir is None,
{
    crate::laws::access::what_switches_the_cache_off(
        crate::common::credcache::var_text(own),
        crate::common::credcache::var_text(key),
        crate::common::credcache::var_text(token),
    );
    if home is Some && home->0@.len() > 0 {
        reveal_strlit(".local/state");
        let p = crate::path::path_joined(home->0@, ".local/state"@);
        assert(".local/state"@[0] == '.');
        assert(p[0] == home->0@[0]);
    }
}

/// Credentials can be used if they last for two minutes more.
pub proof fn using_credentials(e: &Entry, now: Instant, r: bool)
    requires
        call_ensures(Entry::is_usable_at, (e, now), r),
        now.valid(),
        ordinary(now),
        now.secs + 120 <= 8_210_266_876_799,
    ensures
        r <==> e.expires_at is Some && (e.expires_at->0.secs > now.secs + 120 || (
        e.expires_at->0.secs == now.secs + 120 && e.expires_at->0.nanos > now.nanos)),
{
    if e.expires_at is Some {
        crate::laws::access::credentials_must_last_two_minutes(e.expires_at->0, now);
    }
}

/// A configuration is asked for its profiles, for SSO and for a section.
pub proof fn reading_a_configuration(
    config: &str,
    profile: &str,
    names: Vec<String>,
    sso: bool,
    text: String,
)
    requires
        call_ensures(parse_profile_names, (config,), names),
        call_ensures(is_sso, (config, profile), sso),
        call_ensures(section_text, (config, profile), text),
    ensures
        strings(names@) == profile_names(config_lines(config@)),
        sso == uses_sso(config@, profile@),
        text@ == fingerprint(config@, profile@),
{
}

// ---------------------------------------------------------------------------
// Writing
// ---------------------------------------------------------------------------

/// Counts, texts and escapes are written as their laws say.
pub proof fn writing(n: usize, t: String, s: &str, f: String, h: String, j: String)
    requires
        call_ensures(thousands, (n,), t),
        call_ensures(flatten, (s,), f),
        call_ensures(escape_html_text, (s,), h),
        call_ensures(escape_for_script, (s,), j),
    ensures
        t@ == grouped(decimal(n as nat)),
        f@ == flattened(s@),
        h@ == html_text(s@),
        j@ == scripted(s@),
{
}

/// An answer is written in the format that is asked for.
pub proof fn writing_an_answer<T: Record>(
    env: &crate::common::envelope::Envelope<T>,
    format: crate::common::flags::OutputFormat,
    r: String,
)
    requires
        forall|i: int| 0 <= i < env.data@.len() ==> (#[trigger] env.data@[i]).presentable(),
        call_ensures(crate::output::render::<T>, (env, format), r),
    ensures
        r@ == crate::output::rendered(*env, format),
{
}

// ---------------------------------------------------------------------------
// Reading what a user or a service gives
// ---------------------------------------------------------------------------

/// A duration of a number and a unit is read as that many seconds.
pub proof fn reading_a_duration(
    s: &[char],
    r: Result<Option<i64>, crate::common::time::TimeError>,
    number: Seq<char>,
    unit: char,
)
    requires
        call_ensures(crate::common::time::parse_duration, (s,), r),
        s@ == number.push(unit),
        number.len() > 0,
        crate::laws::values::digits(number),
        unit == 's' || unit == 'm' || unit == 'h' || unit == 'd' || unit == 'w',
        crate::text::decimal_value(number) * crate::laws::moments::unit_length(unit)
            <= 9_223_372_036_854_775,
    ensures
        r == Ok::<Option<i64>, crate::common::time::TimeError>(
            Some(
                (crate::text::decimal_value(number) * crate::laws::moments::unit_length(
                    unit,
                )) as i64,
            ),
        ),
{
    crate::laws::moments::a_duration_is_a_number_of_units(number, unit);
}

/// A moment is read against the time that is given as now.
pub proof fn reading_a_moment(
    raw: &str,
    now: Instant,
    r: Result<Instant, crate::common::time::TimeError>,
)
    requires
        call_ensures(crate::common::time::parse_instant, (raw, now), r),
        now.valid(),
    ensures
        crate::common::time::outcome(r) == instant_of(raw@, now),
{
}

/// The service is asked for groups by the pattern up to its first wildcard.
pub proof fn asking_for_groups(pattern: &str, r: Option<String>, n: int)
    requires
        call_ensures(crate::cmd::logs::listing_prefix, (Some(pattern),), r),
        0 <= n <= pattern@.len(),
        forall|i: int|
            0 <= i < n ==> {
                let c = #[trigger] pattern@[i];
                c != '*' && c != '?' && c != '['
            },
        n < pattern@.len() ==> pattern@[n] == '*' || pattern@[n] == '?' || pattern@[n] == '[',
    ensures
        n > 0 ==> r is Some && r->0@ == pattern@.take(n),
        n == 0 ==> r is None,
{
    crate::laws::listing::the_service_is_asked_for_the_literal_start(pattern@, n);
}

/// Events are clustered with their own times, streams and messages.
pub proof fn preparing_events(events: &[RawEvent], r: Vec<LogEvent>, i: int)
    requires
        crate::cmd::logs::dated(events@),
        call_ensures(crate::cmd::logs::to_log_events, (events,), r),
        0 <= i < events@.len(),
    ensures
        r@.len() == events@.len(),
        r@[i].timestamp == events@[i].ts,
        r@[i].stream@ == events@[i].stream@,
        r@[i].message@ == events@[i].message@,
{
    assert(lines(r@)[i] == r@[i]@);
    assert(crate::cmd::logs::raw_lines(events@)[i] == crate::cmd::logs::line_of(events@[i]));
}

/// A cluster is picked by the templates of the events' own messages.
pub proof fn picking_a_cluster(
    events: &[RawEvent],
    id: &str,
    stream: Option<&str>,
    r: Vec<&RawEvent>,
)
    requires
        call_ensures(crate::cmd::logs::select_cluster, (events, id, stream), r),
    ensures
        referred(r@) == chosen(
            events@,
            Seq::new(
                events@.len(),
                |i: int| crate::cluster::tokenize::template_of(events@[i].message@),
            ),
            id@,
            crate::cmd::logs::asked(stream),
            events@.len() as int,
        ),
{
    assert(templates(crate::cmd::logs::raw_lines(events@)) =~= Seq::new(
        events@.len(),
        |i: int| crate::cluster::tokenize::template_of(events@[i].message@),
    ));
}

/// A key is made of the path, the profile and the section that are given.
pub proof fn making_a_key(
    profile: &str,
    path: &str,
    section: &str,
    r: crate::common::credcache::CacheKey,
)
    requires
        call_ensures(crate::common::credcache::key_for, (profile, path, section), r),
    ensures
        r@ == crate::common::credcache::stable_digest(
            path@ + seq!['\0'] + profile@ + seq!['\0'] + section@,
        ),
{
    crate::laws::access::what_a_key_is_made_of(profile@, path@, section@);
}

/// The targets are those of the arguments among the configured profiles.
pub proof fn choosing_targets(
    target: &crate::common::flags::TargetArgs,
    available: &Vec<String>,
    r: Result<Vec<String>, Error>,
)
    requires
        call_ensures(crate::common::aws::resolve_targets, (target, available), r),
    ensures
        crate::common::aws::resolved(r) == crate::common::aws::targets(
            *target,
            strings(available@),
        ),
{
}

/// A message is made a template of by itself alone.
pub proof fn making_a_template(message: &str, r: String, id: String, t: &str)
    requires
        call_ensures(template, (message,), r),
        call_ensures(cluster_id, (t,), id),
    ensures
        r@ == crate::cluster::tokenize::template_of(message@),
        r@.len() <= 601,
        id@ == id_of(t@),
        id@.len() == 12,
{
    crate::laws::clusters::an_identifier_has_twelve_digits(t@, 0);
}

} // verus!
