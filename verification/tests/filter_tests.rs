use sysmon::config::FilterCommon;
use sysmon::config::JournalFilter;
use sysmon::filter::filter;
use sysmon::filter::get_severity;
use sysmon::filter::post_mutate;
use sysmon::filter::pre_mutate;
use sysmon::monitor::Severity;
use sysmon::patterns::Match;
use sysmon::patterns::Pattern;
use sysmon::value::Value;
use sysmon::value::ValueMap;

fn record(pairs: Vec<(&str, Value)>) -> ValueMap {
    let mut m = ValueMap::new();
    for (k, v) in pairs {
        m.insert(k.to_string(), v);
    }
    m
}

fn get_str(m: &ValueMap, k: &str) -> Option<String> {
    match m.get(k) {
        Some(Value::Str(s)) => Some(s.clone()),
        _ => None,
    }
}

fn regex_filter(pattern: &str, level: Option<Severity>) -> JournalFilter {
    JournalFilter {
        common: FilterCommon {
            includes: vec![Match { attr: None, pattern: Pattern::Regex(pattern.to_string()) }],
            excludes: vec![],
        },
        level,
        attr_extend: None,
    }
}

#[test]
fn pre_mutate_normalizes_string_priority() {
    let mut attrs = record(vec![("PRIORITY", Value::Str("3".to_string()))]);
    pre_mutate(&mut attrs);
    assert_eq!(attrs.get("PRIORITY"), Some(&Value::Int(3)));
    assert_eq!(attrs.get("SEVERITY"), Some(&Value::Str("Error".to_string())));
}

#[test]
fn pre_mutate_drops_out_of_range_priority() {
    let mut attrs = record(vec![("PRIORITY", Value::Int(9))]);
    pre_mutate(&mut attrs);
    assert_eq!(attrs.get("PRIORITY"), None);
    assert_eq!(attrs.get("SEVERITY"), None);
}

#[test]
fn pre_mutate_drops_unreadable_priority() {
    let mut attrs = record(vec![("PRIORITY", Value::Str("loud".to_string()))]);
    pre_mutate(&mut attrs);
    assert_eq!(attrs.get("PRIORITY"), None);
}

#[test]
fn pre_mutate_without_priority_changes_nothing() {
    let mut attrs = record(vec![("MESSAGE", Value::Str("hello".to_string()))]);
    pre_mutate(&mut attrs);
    assert_eq!(attrs.len(), 1);
    assert_eq!(get_str(&attrs, "MESSAGE").unwrap(), "hello");
}

#[test]
fn post_mutate_strips_underscore_keys() {
    let mut attrs = record(vec![
        ("_SYSTEMD_UNIT", Value::Str("sshd.service".to_string())),
        ("MESSAGE", Value::Str("hi".to_string())),
        ("_PID", Value::Int(42)),
    ]);
    post_mutate(&mut attrs);
    assert_eq!(attrs.len(), 1);
    assert!(attrs.get("_SYSTEMD_UNIT").is_none());
    assert!(attrs.get("_PID").is_none());
    assert_eq!(get_str(&attrs, "MESSAGE").unwrap(), "hi");
}

#[test]
fn empty_filter_list_emits_everything() {
    let filters: Vec<JournalFilter> = vec![];
    let attrs = record(vec![
        ("MESSAGE", Value::Str("hi".to_string())),
        ("_PID", Value::Int(1)),
    ]);
    let out = filter("anything", &filters, attrs).unwrap();
    assert!(out.get("_PID").is_none());
    assert_eq!(get_str(&out, "MESSAGE").unwrap(), "hi");
}

#[test]
fn ssh_record_is_emitted_and_cron_dropped() {
    let filters = vec![regex_filter("^ssh", Some(Severity::Error))];
    let attrs = record(vec![
        ("PRIORITY", Value::Str("3".to_string())),
        ("MESSAGE", Value::Str("login".to_string())),
        ("_COMM", Value::Str("sshd".to_string())),
    ]);
    let out = filter("sshd", &filters, attrs).unwrap();
    assert_eq!(get_str(&out, "SEVERITY").unwrap(), "Error");
    assert!(out.get("_COMM").is_none());

    let attrs = record(vec![("PRIORITY", Value::Str("3".to_string()))]);
    assert!(filter("cron", &filters, attrs).is_none());
}

#[test]
fn severity_floor_drops_less_severe_records() {
    let filters = vec![regex_filter("^ssh", Some(Severity::Error))];
    let attrs = record(vec![("PRIORITY", Value::Str("6".to_string()))]);
    assert!(filter("sshd", &filters, attrs).is_none());

    let filters = vec![regex_filter("^ssh", Some(Severity::Error))];
    let attrs = record(vec![("PRIORITY", Value::Str("0".to_string()))]);
    assert!(filter("sshd", &filters, attrs).is_some());
}

#[test]
fn exclude_overrides_include() {
    let filters = vec![JournalFilter {
        common: FilterCommon {
            includes: vec![],
            excludes: vec![Match {
                attr: None,
                pattern: Pattern::Literal("noisy".to_string()),
            }],
        },
        level: None,
        attr_extend: None,
    }];
    assert!(filter("noisy", &filters, record(vec![])).is_none());
    assert!(filter("quiet", &filters, record(vec![])).is_some());
}

#[test]
fn glob_matcher_matches_through_the_pipeline() {
    let filters = vec![JournalFilter {
        common: FilterCommon {
            includes: vec![Match { attr: None, pattern: Pattern::Glob("ssh*".to_string()) }],
            excludes: vec![],
        },
        level: None,
        attr_extend: None,
    }];
    assert!(filter("sshd", &filters, record(vec![])).is_some());
    assert!(filter("cron", &filters, record(vec![])).is_none());
}

#[test]
fn attribute_matcher_reads_the_named_attribute() {
    let filters = vec![JournalFilter {
        common: FilterCommon {
            includes: vec![Match {
                attr: Some("UNIT".to_string()),
                pattern: Pattern::Literal("sshd.service".to_string()),
            }],
            excludes: vec![],
        },
        level: None,
        attr_extend: None,
    }];
    let matching = record(vec![("UNIT", Value::Str("sshd.service".to_string()))]);
    assert!(filter("x", &filters, matching).is_some());
    let non_string = record(vec![("UNIT", Value::Int(3))]);
    assert!(filter("x", &filters, non_string).is_none());
    let absent = record(vec![]);
    assert!(filter("x", &filters, absent).is_none());
}

#[test]
fn attr_extend_merges_into_matching_records() {
    let extra = record(vec![("TAG", Value::Str("ssh".to_string()))]);
    let filters = vec![JournalFilter {
        common: FilterCommon { includes: vec![], excludes: vec![] },
        level: None,
        attr_extend: Some(extra),
    }];
    let out = filter("sshd", &filters, record(vec![])).unwrap();
    assert_eq!(get_str(&out, "TAG").unwrap(), "ssh");
}

#[test]
fn get_severity_reads_normalized_priority() {
    let mut attrs = record(vec![("PRIORITY", Value::Str("4".to_string()))]);
    pre_mutate(&mut attrs);
    assert_eq!(get_severity(&attrs), Some(Severity::Warning));
    let empty = record(vec![]);
    assert_eq!(get_severity(&empty), None);
}

#[test]
fn severity_order_and_names() {
    assert!(Severity::Emergency.at_least(&Severity::Debug));
    assert!(!Severity::Debug.at_least(&Severity::Info));
    assert_eq!(Severity::from_syslog(4).unwrap(), Severity::Warning);
    assert!(Severity::from_syslog(8).is_err());
    assert_eq!(
        Severity::from_syslog(8).unwrap_err().render(),
        "Unknown severity: 8"
    );
    assert_eq!(Severity::Notice.to_string(), "Notice");
    assert_eq!(Severity::Alert.to_int(), 1);
}
