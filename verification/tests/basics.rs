//! Text, order, paths and hashes.

use awsdiag::cluster::template::cluster_id;
use awsdiag::common::aws::{available_profiles, cache_key, error_chain, single_profile, ReadFailure};
use awsdiag::common::flags::TargetArgs;
use awsdiag::common::profiles::{resolve, select};
use awsdiag::common::time::{
    from_millis, parse_duration, parse_instant, resolve_instant, seconds_between, to_millis,
    Instant, TimeError,
};
use awsdiag::hash::{hash_of, FNV_PRIME};
use awsdiag::json::{compact_text, parse};
use awsdiag::order::{reversed, sort};
use awsdiag::path::{extension, is_absolute, join_path};

fn chars(s: &str) -> Vec<char> {
    s.chars().collect()
}

#[test]
fn sorting_is_stable_and_by_code_point() {
    let v: Vec<Vec<char>> = ["b", "a", "é", "aa", ""].iter().map(|s| chars(s)).collect();
    let sorted: Vec<String> = sort(v).into_iter().map(|s| s.into_iter().collect()).collect();
    assert_eq!(sorted, ["", "a", "aa", "b", "é"]);
    assert_eq!(reversed(vec![1, 2, 3]), [3, 2, 1]);
}

#[test]
fn hashes_are_the_64_bit_fnv() {
    assert_eq!(hash_of("", FNV_PRIME), 0xcbf2_9ce4_8422_2325);
    assert_eq!(hash_of("a", FNV_PRIME), 0xaf63_dc4c_8601_ec8c);
    assert_eq!(hash_of("foobar", FNV_PRIME), 0x8594_4171_f739_67e8);
    // The identifiers of clusters are 48 bits of a hash of their own.
    assert_eq!(cluster_id("a"), "d84c8601ec8c");
}

#[test]
fn paths_join_as_the_platform_joins_them() {
    assert_eq!(join_path("/a", "b"), "/a/b");
    assert_eq!(join_path("/a/", "b"), "/a/b");
    assert_eq!(join_path("/a", "/b"), "/b");
    assert_eq!(join_path("", "b"), "b");
    assert!(is_absolute("/a") && !is_absolute("a"));
    let name = chars("a.tar.gz");
    assert_eq!(extension(&name), Some(&chars("gz")[..]));
    assert_eq!(extension(&chars(".json")), None);
}

#[test]
fn json_is_read_and_written_in_document_order() {
    let raw = r#"{"b":[1,2.50,-3e2,null],"a":{"x":"é\n"},"t":true}"#;
    let back: String = compact_text(&parse(raw).unwrap()).into_iter().collect();
    assert_eq!(back, "{\"b\":[1,2.5,-300.0,null],\"a\":{\"x\":\"é\\n\"},\"t\":true}");
    assert!(parse("{\"a\":").is_none());
    assert!(parse("").is_none());
}

const NOW: Instant = Instant {
    secs: 1_788_530_400,
    nanos: 0,
};

#[test]
fn durations_are_digits_and_a_unit() {
    assert_eq!(parse_duration(&chars("90s")), Ok(Some(90)));
    assert_eq!(parse_duration(&chars("2w")), Ok(Some(1_209_600)));
    assert_eq!(parse_duration(&chars("x")), Ok(None));
    assert_eq!(
        parse_duration(&chars("12x")),
        Err(TimeError::MissingUnit("12x".into()))
    );
    assert!(matches!(
        parse_duration(&chars("99999999999999999999s")),
        Err(TimeError::Overflow(_))
    ));
}

#[test]
fn what_was_read_decides_the_instant() {
    let rfc = Instant { secs: 5, nanos: 0 };
    assert_eq!(resolve_instant("x", NOW, Some(rfc), None, None), Ok(rfc));
    assert_eq!(
        resolve_instant("x", NOW, None, Some(86_400), None),
        Ok(Instant {
            secs: 86_400,
            nanos: 0
        })
    );
    // A clock time later than now was yesterday.
    let midnight = NOW.secs - NOW.secs % 86_400;
    assert_eq!(
        resolve_instant("x", NOW, None, None, Some((60, 0))),
        Ok(Instant {
            secs: midnight + 60,
            nanos: 0
        })
    );
    assert_eq!(
        resolve_instant("x", NOW, None, None, Some((86_399, 0))),
        Ok(Instant {
            secs: midnight - 1,
            nanos: 0
        })
    );
    assert_eq!(
        resolve_instant("x", NOW, None, None, None),
        Err(TimeError::Unparseable("x".into()))
    );
    assert_eq!(
        parse_instant("2026-09-04T10:00:00.5Z", NOW).map(|t| t.nanos),
        Ok(500_000_000)
    );
}

#[test]
fn refused_times_say_why() {
    assert_eq!(TimeError::Empty.message(), "empty time value");
    assert_eq!(
        TimeError::Overflow("9w".into()).message(),
        "duration \"9w\" overflows the representable range"
    );
    assert!(TimeError::Unparseable("a\"b".into())
        .message()
        .starts_with("cannot parse time \"a\\\"b\"; expected"));
}

#[test]
fn instants_go_to_milliseconds_and_back() {
    let t = Instant {
        secs: -1,
        nanos: 250_000_000,
    };
    assert_eq!(to_millis(t), -750);
    assert_eq!(from_millis(-750, NOW), t);
    assert_eq!(from_millis(i64::MAX, NOW), NOW);
    assert_eq!(seconds_between(NOW, Instant { secs: NOW.secs - 61, nanos: 0 }), 61);
    assert!(Instant::new(0, 2_000_000_000).is_none());
    assert!(Instant::new(59, 1_500_000_000).is_some());
}

#[test]
fn profiles_come_from_the_configuration() {
    assert_eq!(
        available_profiles(Ok("[profile a]\n[default]\n".into())).unwrap(),
        ["a", "default"]
    );
    let missing = ReadFailure {
        missing: true,
        message: "gone".into(),
    };
    assert!(available_profiles(Err(missing)).unwrap().is_empty());
    let denied = ReadFailure {
        missing: false,
        message: "denied".into(),
    };
    let e = available_profiles(Err(denied)).unwrap_err();
    assert_eq!((e.kind(), e.message().as_str()), ("io", "denied"));
}

#[test]
fn a_single_profile_is_the_first_that_matches() {
    let names = vec!["a-1".to_string(), "a-2".to_string(), "b".to_string()];
    let target = |p: &str| TargetArgs {
        profile: Some(p.into()),
        profiles: None,
        region: None,
    };
    assert_eq!(single_profile(&target("a-*"), &names).unwrap(), "a-1");
    assert_eq!(single_profile(&target("b"), &names).unwrap(), "b");
    assert_eq!(
        single_profile(&target("c"), &names).unwrap_err().kind(),
        "no_profile_match"
    );
}

#[test]
fn a_malformed_profile_pattern_matches_nothing() {
    let names = vec!["a".to_string()];
    assert!(resolve("[", &names).is_err());
    assert_eq!(select("a", None, vec!["a"]).unwrap(), ["a"]);
    assert!(select("a", Some("bad".into()), vec!["a"]).is_err());
    assert!(select("a", None, vec![]).is_err());
}

#[test]
fn the_cache_key_follows_the_profile_section() {
    let config = "[profile a]\nrole = x\n[profile b]\nrole = x\n";
    let a = cache_key("a", "/c", config);
    assert_ne!(a.text(), cache_key("b", "/c", config).text());
    assert_ne!(a.text(), cache_key("a", "/d", config).text());
    assert_ne!(a.text(), cache_key("a", "/c", "[profile a]\nrole = y\n").text());
    assert_eq!(a.text(), cache_key("a", "/c", "[profile a]\nrole = x\n").text());
}

#[test]
fn a_chain_says_each_thing_once() {
    let m: Vec<String> = ["outer", "outer", "inner", "inner", "cause"]
        .iter()
        .map(|s| s.to_string())
        .collect();
    assert_eq!(error_chain(&m), "outer: inner: cause");
    assert_eq!(error_chain(&Vec::new()), "");
}
