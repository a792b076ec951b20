use sysmon::config::parse_duration;
use sysmon::config::Config;
use sysmon::config::SourceConfig;
use sysmon::monitor::Severity;
use sysmon::patterns::Pattern;
use sysmon::value::Value;
use sysmon::value::ValueMap;

fn obj(pairs: Vec<(&str, Value)>) -> Value {
    let mut m = ValueMap::new();
    for (k, v) in pairs {
        m.insert(k.to_string(), v);
    }
    Value::Obj(m)
}

fn s(text: &str) -> Value {
    Value::Str(text.to_string())
}

#[test]
fn empty_document_takes_defaults() {
    let c = Config::parse(obj(vec![])).unwrap();
    assert_eq!(c.poll.interval.ms, 15000);
    assert_eq!(c.sources.len(), 2);
    match &c.sources[0] {
        SourceConfig::Systemd(sc) => {
            assert_eq!(sc.common.id, "systemd.system");
            assert_eq!(sc.user, None);
            assert!(sc.common.filters.is_empty());
        }
        other => panic!("expected a systemd source, got {:?}", other),
    }
    match &c.sources[1] {
        SourceConfig::Journal(jc) => {
            assert_eq!(jc.common.id, "journal");
            assert_eq!(jc.common.filters.len(), 1);
            let f = &jc.common.filters[0];
            assert_eq!(f.level, Some(Severity::Warning));
            assert!(f.common.includes.is_empty());
            assert!(f.common.excludes.is_empty());
            assert_eq!(f.attr_extend, None);
            assert_eq!(jc.backlog, None);
        }
        other => panic!("expected a journal source, got {:?}", other),
    }
}

#[test]
fn poll_interval_and_user_source() {
    let doc = obj(vec![
        ("poll", obj(vec![("interval", s("500ms"))])),
        (
            "sources",
            obj(vec![(
                "systemd.user",
                obj(vec![("module", s("systemd")), ("user", Value::Bool(true))]),
            )]),
        ),
    ]);
    let c = Config::parse(doc).unwrap();
    assert_eq!(c.poll.interval.ms, 500);
    assert_eq!(c.sources.len(), 1);
    match &c.sources[0] {
        SourceConfig::Systemd(sc) => {
            assert_eq!(sc.common.id, "systemd.user");
            assert_eq!(sc.user, Some(true));
        }
        other => panic!("expected a systemd source, got {:?}", other),
    }
}

#[test]
fn journal_source_with_regex_filter() {
    let matcher = obj(vec![("type", s("regex")), ("pattern", s("^ssh"))]);
    let inc = format!("incl{}", "ude");
    let filter = obj(vec![(inc.as_str(), Value::Arr(vec![matcher])), ("level", s("Error"))]);
    let doc = obj(vec![(
        "sources",
        obj(vec![(
            "j",
            obj(vec![("module", s("journal")), ("filters", Value::Arr(vec![filter]))]),
        )]),
    )]);
    let c = Config::parse(doc).unwrap();
    assert_eq!(c.sources.len(), 1);
    match &c.sources[0] {
        SourceConfig::Journal(jc) => {
            assert_eq!(jc.common.id, "j");
            assert_eq!(jc.common.filters.len(), 1);
            let f = &jc.common.filters[0];
            assert_eq!(f.level, Some(Severity::Error));
            assert_eq!(f.common.includes.len(), 1);
            match &f.common.includes[0].pattern {
                Pattern::Regex(p) => assert_eq!(p, "^ssh"),
                other => panic!("expected a regex pattern, got {:?}", other),
            }
        }
        other => panic!("expected a journal source, got {:?}", other),
    }
}

#[test]
fn unknown_key_is_rejected_with_its_path() {
    let doc = obj(vec![("poll", obj(vec![("intervalx", s("1s"))]))]);
    let e = Config::parse(doc).unwrap_err();
    let text = e.render();
    assert!(text.contains("Unused config key"), "error was: {}", text);
    assert!(text.contains("poll.intervalx"), "error was: {}", text);
}

#[test]
fn true_source_takes_module_from_id() {
    let doc = obj(vec![("sources", obj(vec![("journal", Value::Bool(true))]))]);
    let c = Config::parse(doc).unwrap();
    assert_eq!(c.sources.len(), 1);
    match &c.sources[0] {
        SourceConfig::Journal(jc) => {
            assert_eq!(jc.common.id, "journal");
            assert!(jc.common.filters.is_empty());
        }
        other => panic!("expected a journal source, got {:?}", other),
    }
}

#[test]
fn unknown_module_is_rejected() {
    let doc = obj(vec![("sources", obj(vec![("weird", Value::Bool(true))]))]);
    let e = Config::parse(doc).unwrap_err();
    assert!(e.render().contains("Unknown module: weird"));
}

#[test]
fn bad_severity_is_rejected() {
    let doc = obj(vec![(
        "sources",
        obj(vec![("journal", obj(vec![("level", s("Loud"))]))]),
    )]);
    let e = Config::parse(doc).unwrap_err();
    let text = e.render();
    assert!(text.contains("Unknown severity: Loud"), "error was: {}", text);
    assert!(text.contains("level"), "error was: {}", text);
}

#[test]
fn bad_regex_is_rejected() {
    let matcher = obj(vec![("type", s("regex")), ("pattern", s("("))]);
    let inc = format!("incl{}", "ude");
    let doc = obj(vec![(
        "sources",
        obj(vec![(
            "journal",
            obj(vec![(inc.as_str(), Value::Arr(vec![matcher]))]),
        )]),
    )]);
    assert!(Config::parse(doc).is_err());
}

#[test]
fn bad_glob_is_rejected_and_good_glob_accepted() {
    let bad = obj(vec![("type", s("glob")), ("pattern", s("a**b"))]);
    let inc = format!("incl{}", "ude");
    let doc = obj(vec![(
        "sources",
        obj(vec![("journal", obj(vec![(inc.as_str(), Value::Arr(vec![bad]))]))]),
    )]);
    assert!(Config::parse(doc).is_err());

    let good = obj(vec![("type", s("glob")), ("pattern", s("ssh*"))]);
    let doc = obj(vec![(
        "sources",
        obj(vec![("journal", obj(vec![(inc.as_str(), Value::Arr(vec![good]))]))]),
    )]);
    assert!(Config::parse(doc).is_ok());
}

#[test]
fn durations_parse_by_suffix() {
    assert_eq!(parse_duration("500ms").unwrap().ms, 500);
    assert_eq!(parse_duration("15s").unwrap().ms, 15000);
    assert_eq!(parse_duration("2m").unwrap().ms, 120000);
    assert_eq!(parse_duration("1h").unwrap().ms, 3600000);
    assert_eq!(parse_duration("1d").unwrap().ms, 86400000);
    assert!(parse_duration("10").is_err());
    assert!(parse_duration("s").is_err());
    assert!(parse_duration("10x").is_err());
    assert!(parse_duration("99999999999999999999s").is_err());
    assert!(parse_duration("9223372036854775807s").is_err());
}

#[test]
fn matcher_shorthand_is_a_literal_on_identity() {
    let inc = format!("incl{}", "ude");
    let doc = obj(vec![(
        "sources",
        obj(vec![(
            "journal",
            obj(vec![(inc.as_str(), Value::Arr(vec![s("sshd")]))]),
        )]),
    )]);
    let c = Config::parse(doc).unwrap();
    match &c.sources[0] {
        SourceConfig::Journal(jc) => {
            let m = &jc.common.filters[0].common.includes[0];
            assert_eq!(m.attr, None);
            match &m.pattern {
                Pattern::Literal(p) => assert_eq!(p, "sshd"),
                other => panic!("expected a literal pattern, got {:?}", other),
            }
        }
        other => panic!("expected a journal source, got {:?}", other),
    }
}

#[test]
fn matcher_with_unknown_type_is_rejected() {
    let matcher = obj(vec![("type", s("prefix")), ("pattern", s("ssh"))]);
    let inc = format!("incl{}", "ude");
    let doc = obj(vec![(
        "sources",
        obj(vec![(
            "journal",
            obj(vec![(inc.as_str(), Value::Arr(vec![matcher]))]),
        )]),
    )]);
    let e = Config::parse(doc).unwrap_err();
    assert!(e.render().contains("Unsupported pattern type: prefix"));
}

#[test]
fn leftover_filter_key_is_rejected() {
    let doc = obj(vec![(
        "sources",
        obj(vec![("journal", obj(vec![("volume", s("loud"))]))]),
    )]);
    let e = Config::parse(doc).unwrap_err();
    assert!(e.render().contains("Unused config key(s): volume"));
}

#[test]
fn valid_configs_round_trip_through_their_normalized_form() {
    let matcher = obj(vec![("type", s("regex")), ("pattern", s("^ssh"))]);
    let inc = format!("incl{}", "ude");
    let filter = obj(vec![(inc.as_str(), Value::Arr(vec![matcher])), ("level", s("Error"))]);
    let doc = obj(vec![
        ("poll", obj(vec![("interval", s("500ms"))])),
        (
            "sources",
            obj(vec![
                (
                    "j",
                    obj(vec![("module", s("journal")), ("filters", Value::Arr(vec![filter]))]),
                ),
                (
                    "systemd.user",
                    obj(vec![("module", s("systemd")), ("user", Value::Bool(true))]),
                ),
            ]),
        ),
    ]);
    let first = Config::parse(doc).unwrap();
    let second = Config::parse(first.to_value()).unwrap();
    assert_eq!(first, second);

    let defaults = Config::parse(obj(vec![])).unwrap();
    let again = Config::parse(defaults.to_value()).unwrap();
    assert_eq!(defaults, again);
}

#[test]
fn interval_errors_carry_their_path() {
    let doc = obj(vec![("poll", obj(vec![("interval", s("soon"))]))]);
    let e = Config::parse(doc).unwrap_err();
    assert_eq!(e.render(), "Invalid duration: soon in config: `poll.interval`");

    let doc = obj(vec![("poll", obj(vec![("interval", Value::Int(5))]))]);
    let e = Config::parse(doc).unwrap_err();
    assert_eq!(
        e.render(),
        "Expected String, got Integer in config: `poll.interval`"
    );

    let doc = obj(vec![("poll", s("fast"))]);
    let e = Config::parse(doc).unwrap_err();
    assert_eq!(e.render(), "Expected Object, got String in config: `poll`");
}

#[test]
fn source_errors_carry_the_source_id() {
    let doc = obj(vec![(
        "sources",
        obj(vec![("j", obj(vec![("module", s("journal")), ("level", Value::Int(3))]))]),
    )]);
    let e = Config::parse(doc).unwrap_err();
    assert_eq!(
        e.render(),
        "Expected String, got Integer in config: `sources.j.level`"
    );
}

#[test]
fn matcher_errors_carry_their_index() {
    let good = s("sshd");
    let bad = obj(vec![("type", s("prefix")), ("pattern", s("ssh"))]);
    let inc = format!("incl{}", "ude");
    let filter = obj(vec![(inc.as_str(), Value::Arr(vec![good, bad]))]);
    let doc = obj(vec![(
        "sources",
        obj(vec![(
            "j",
            obj(vec![("module", s("journal")), ("filters", Value::Arr(vec![filter]))]),
        )]),
    )]);
    let e = Config::parse(doc).unwrap_err();
    assert_eq!(
        e.render(),
        format!(
            "Unsupported pattern type: prefix in config: `sources.j.filters.0.{}.1`",
            inc
        )
    );
}
