use sysmon::config_error::ConfigError;
use sysmon::monitor::Time;
use sysmon::strutil::i64_to_string;
use sysmon::strutil::parse_decimal_i64;
use sysmon::strutil::str_eq;
use sysmon::strutil::str_starts_with;
use sysmon::strutil::u64_to_string;
use sysmon::value::Value;
use sysmon::value::ValueMap;

#[test]
fn string_helpers() {
    assert!(str_eq("abc", "abc"));
    assert!(!str_eq("abc", "abd"));
    assert!(!str_eq("abc", "ab"));
    assert!(str_starts_with("_PID", "_"));
    assert!(!str_starts_with("PID", "_"));
    assert!(str_starts_with("", ""));
    assert_eq!(u64_to_string(0), "0");
    assert_eq!(u64_to_string(9070), "9070");
    assert_eq!(i64_to_string(-42), "-42");
    assert_eq!(i64_to_string(i64::MIN), "-9223372036854775808");
    assert_eq!(parse_decimal_i64("0"), Some(0));
    assert_eq!(parse_decimal_i64("123"), Some(123));
    assert_eq!(parse_decimal_i64(""), None);
    assert_eq!(parse_decimal_i64("12x"), None);
    assert_eq!(parse_decimal_i64("-3"), None);
    assert_eq!(parse_decimal_i64("9223372036854775807"), Some(i64::MAX));
    assert_eq!(parse_decimal_i64("9223372036854775808"), None);
}

#[test]
fn map_insert_get_remove() {
    let mut m = ValueMap::new();
    assert!(m.is_empty());
    m.insert("a".to_string(), Value::Int(1));
    m.insert("b".to_string(), Value::Int(2));
    m.insert("a".to_string(), Value::Int(3));
    assert_eq!(m.len(), 2);
    assert_eq!(m.get("a"), Some(&Value::Int(3)));
    assert_eq!(m.get("b"), Some(&Value::Int(2)));
    assert!(m.contains_key("a"));
    assert!(!m.contains_key("c"));
    let e = m.entry_at(0);
    assert_eq!(e.0, "a");
    assert_eq!(m.remove("a"), Some(Value::Int(3)));
    assert_eq!(m.remove("a"), None);
    assert_eq!(m.len(), 1);
}

#[test]
fn map_take_first_walks_in_order() {
    let mut m = ValueMap::new();
    m.insert("x".to_string(), Value::Int(1));
    m.insert("y".to_string(), Value::Int(2));
    let (k, v) = m.take_first().unwrap();
    assert_eq!((k.as_str(), v), ("x", Value::Int(1)));
    let (k, v) = m.take_first().unwrap();
    assert_eq!((k.as_str(), v), ("y", Value::Int(2)));
    assert!(m.take_first().is_none());
}

#[test]
fn deep_values_clone_and_check() {
    let mut inner = ValueMap::new();
    inner.insert("k".to_string(), Value::Str("v".to_string()));
    let v = Value::Arr(vec![Value::Obj(inner), Value::Float("1.5".to_string())]);
    let copy = v.clone();
    assert_eq!(copy, v);
    assert!(v.deep_wf_check());
    assert_eq!(v.kind_name(), "Array");
    assert_eq!(Value::Int(3).kind_name(), "Integer");
    assert_eq!(Value::Null.kind_name(), "Null");
}

#[test]
fn config_errors_render_their_path() {
    let mut e = ConfigError::new("Unknown severity: Loud".to_string());
    e.annotate("level".to_string());
    e.annotate("j".to_string());
    e.annotate("sources".to_string());
    assert_eq!(
        e.render(),
        "Unknown severity: Loud in config: `sources.j.level`"
    );
    let plain = ConfigError::missing();
    assert_eq!(plain.render(), "Missing config value");
    let missing_key = ConfigError::missing_key("type");
    assert_eq!(missing_key.render(), "Missing config key `type`");
}

#[test]
fn clock_gives_wall_time() {
    let t = Time::now();
    assert!(t.ms < 2000);
    // after 2020-01-01 and before 2100-01-01
    assert!(t.timestamp() > 1_577_836_800);
    assert!(t.timestamp() < 4_102_444_800);
}
