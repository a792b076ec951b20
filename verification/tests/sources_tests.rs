use sysmon::config::CommonConfig;
use sysmon::config::JournalConfig;
use sysmon::config::SystemdConfig;
use sysmon::errors::InternalError;
use sysmon::journal::follow_failure_update;
use sysmon::journal::journal_record_event;
use sysmon::journal::unparseable_line_event;
use sysmon::journal::Journal;
use sysmon::monitor::Data;
use sysmon::monitor::DataSource;
use sysmon::monitor::ErrorReporter;
use sysmon::monitor::MonitorDataSource;
use sysmon::monitor::Severity;
use sysmon::monitor::State;
use sysmon::monitor::Status;
use sysmon::monitor::Time;
use sysmon::monitor::UpdateScope;
use sysmon::systemd::poll_update;
use sysmon::systemd::SystemdMonitor;
use sysmon::systemd_common::should_ignore_unit;
use sysmon::systemd_common::state_of_active_state;
use sysmon::systemd_dbus::UnitTracker;
use sysmon::systemd_subprocess::parse_prop_line;
use sysmon::systemd_subprocess::process_props;
use sysmon::systemd_subprocess::SystemdPoller;
use sysmon::value::Value;
use sysmon::value::ValueMap;

fn record(pairs: Vec<(&str, Value)>) -> ValueMap {
    let mut m = ValueMap::new();
    for (k, v) in pairs {
        m.insert(k.to_string(), v);
    }
    m
}

#[test]
fn journal_record_becomes_an_event() {
    let filters = vec![];
    let attrs = record(vec![
        ("SYSLOG_IDENTIFIER", Value::Str("sshd".to_string())),
        ("MESSAGE", Value::Str("accepted".to_string())),
        ("PRIORITY", Value::Str("5".to_string())),
        ("_PID", Value::Int(7)),
    ]);
    let ev = journal_record_event(&filters, attrs).unwrap();
    assert_eq!(ev.id, None);
    assert_eq!(ev.message, Some("accepted".to_string()));
    assert_eq!(ev.severity, Some(Severity::Notice));
    assert!(ev.attrs.get("_PID").is_none());
    assert!(ev.attrs.get("MESSAGE").is_none());
    assert_eq!(ev.attrs.get("SOURCE"), Some(&Value::Str("sshd".to_string())));
}

#[test]
fn journal_record_without_identity_matches_unknown() {
    let filters = vec![];
    let attrs = record(vec![("MESSAGE", Value::Str("hi".to_string()))]);
    let ev = journal_record_event(&filters, attrs).unwrap();
    assert!(ev.attrs.get("SOURCE").is_none());
}

#[test]
fn unparseable_line_becomes_an_informational_event() {
    let ev = unparseable_line_event("{oops");
    assert_eq!(ev.id, Some("internal".to_string()));
    assert_eq!(ev.severity, Some(Severity::Info));
    assert_eq!(ev.message, Some("Unparseable journal line: {oops".to_string()));
}

#[test]
fn follower_failure_is_partial_and_rolled_up() {
    let u = follow_failure_update("j", "pipe closed", Time { sec: 3, ms: 1 });
    assert_eq!(u.source, "j");
    assert_eq!(u.scope, UpdateScope::Partial);
    match u.data {
        Data::Error(f) => {
            assert_eq!(f.id, Some("follow".to_string()));
            assert_eq!(f.error, "failed to follow journal logs: pipe closed");
        }
        _ => panic!("expected a failure payload"),
    }
}

#[test]
fn journal_source_holds_its_configuration() {
    let config = JournalConfig {
        common: CommonConfig { filters: vec![], id: "j".to_string() },
        backlog: Some(5),
    };
    let j = Journal::new(config.clone()).unwrap();
    assert_eq!(j.config, config);
}

#[test]
fn systemd_monitor_defaults_and_pusher() {
    let conf = SystemdConfig {
        common: CommonConfig { filters: vec![], id: "sys".to_string() },
        user: None,
    };
    let m = SystemdMonitor::new(conf);
    assert_eq!(m.id, "sys");
    assert!(!m.user);
    assert_eq!(m.ignored_types.len(), 5);
    let p = m.pusher();
    assert_eq!(p.id(), "sys");
    assert_eq!(p.typ(), "systemd");
}

#[test]
fn unit_type_filtering() {
    let ignored = vec!["device".to_string(), "mount".to_string()];
    assert!(should_ignore_unit(&ignored, "dev-sda.device"));
    assert!(should_ignore_unit(&ignored, "tmp.mount"));
    assert!(!should_ignore_unit(&ignored, "sshd.service"));
    assert!(!should_ignore_unit(&ignored, "nodots"));
}

#[test]
fn active_state_words() {
    assert_eq!(state_of_active_state("active"), State::Active);
    assert_eq!(state_of_active_state("reloading"), State::Active);
    assert_eq!(state_of_active_state("activating"), State::Active);
    assert_eq!(state_of_active_state("inactive"), State::Inactive);
    assert_eq!(state_of_active_state("deactivating"), State::Inactive);
    assert_eq!(state_of_active_state("failed"), State::Error);
    assert_eq!(state_of_active_state("odd"), State::Unknown);
}

#[test]
fn listing_lines_yield_unit_names() {
    let poller = SystemdPoller {
        ignored_types: vec![],
        user: false,
        id: "sys".to_string(),
    };
    assert_eq!(poller.parse_unit_name("  sshd.service loaded active").unwrap(), "sshd.service");
    assert_eq!(poller.parse_unit_name("cron.service").unwrap(), "cron.service");
    assert_eq!(poller.id(), "sys");
    assert_eq!(poller.typ(), "systemd");
}

#[test]
fn property_lines_split_at_the_first_equals() {
    let (k, v) = parse_prop_line("ActiveState=active").unwrap();
    assert_eq!(k, "ActiveState");
    assert_eq!(v, "active");
    let (k, v) = parse_prop_line("StatusText=a=b").unwrap();
    assert_eq!(k, "StatusText");
    assert_eq!(v, "a=b");
    assert!(parse_prop_line("no separator").is_err());
}

#[test]
fn timestamps_parse_with_their_zone_word_stripped() {
    let props = vec![
        ("ActiveState".to_string(), "active".to_string()),
        (
            "ExecMainStartTimestamp".to_string(),
            "Sun 2015-05-24 13:59:07 AEST".to_string(),
        ),
        ("ExecMainExitTimestamp".to_string(), "not a date".to_string()),
    ];
    let st = process_props(props).unwrap();
    assert!(matches!(
        st.attrs.get("ExecMainStartTimestamp"),
        Some(Value::Int(_))
    ));
    assert_eq!(
        st.attrs.get("ExecMainExitTimestamp"),
        Some(&Value::Str("not a date".to_string()))
    );
}

#[test]
fn props_become_a_status() {
    let props = vec![
        ("ActiveState".to_string(), "failed".to_string()),
        ("StatusText".to_string(), "broke".to_string()),
        ("Result".to_string(), "".to_string()),
    ];
    let st = process_props(props).unwrap();
    assert_eq!(st.state, State::Error);
    assert_eq!(st.attrs.get("StatusText"), Some(&Value::Str("broke".to_string())));
    assert!(st.attrs.get("Result").is_none());
    assert!(st.attrs.get("ActiveState").is_none());

    let missing = vec![("SubState".to_string(), "dead".to_string())];
    assert!(process_props(missing).is_err());
}

#[test]
fn unit_tracker_add_change_remove() {
    let mut t = UnitTracker::new();
    let st = Status { state: State::Active, attrs: ValueMap::new() };
    assert!(t.add_unit("sshd.service", "/unit/sshd", st.clone()));
    assert!(!t.add_unit("sshd.service", "/unit/sshd", st.clone()));
    assert!(t.knows_path("/unit/sshd"));
    assert_eq!(t.name_of("/unit/sshd"), Some("sshd.service".to_string()));

    let down = Status { state: State::Inactive, attrs: ValueMap::new() };
    assert!(t.unit_changed("/unit/sshd", down));
    assert!(!t.unit_changed("/unit/none", st.clone()));

    let u = t.snapshot_update("sys", Time { sec: 0, ms: 0 });
    assert_eq!(u.scope, UpdateScope::Snapshot);
    match u.data {
        Data::State(m) => assert_eq!(m.get("sshd.service").unwrap().state, State::Inactive),
        _ => panic!("expected a state payload"),
    }

    assert_eq!(t.remove_unit("/unit/sshd"), Some("sshd.service".to_string()));
    assert!(!t.knows_path("/unit/sshd"));
    assert_eq!(t.remove_unit("/unit/sshd"), None);
}

#[test]
fn poll_outcomes_become_snapshot_updates() {
    let ok = poll_update(
        "sys",
        "systemd",
        Ok(Data::State(sysmon::monitor::StatusMap::new())),
        Time { sec: 1, ms: 0 },
    );
    assert_eq!(ok.scope, UpdateScope::Snapshot);
    let failed = poll_update(
        "sys",
        "systemd",
        Err(InternalError::new("listing failed".to_string())),
        Time { sec: 1, ms: 0 },
    );
    assert_eq!(failed.scope, UpdateScope::Snapshot);
    match failed.data {
        Data::Error(f) => {
            assert_eq!(f.id, Some("poll".to_string()));
            assert_eq!(f.error, "listing failed");
        }
        _ => panic!("expected a failure payload"),
    }
}

#[test]
fn error_reporter_wraps_context_and_reason() {
    let conf = SystemdConfig {
        common: CommonConfig { filters: vec![], id: "sys".to_string() },
        user: None,
    };
    let pusher = SystemdMonitor::new(conf).pusher();
    let reporter = ErrorReporter::new(&pusher);
    let u = reporter.failure_update("processing DBus message", "bad frame", Time { sec: 2, ms: 0 });
    assert_eq!(u.source, "sys");
    assert_eq!(u.typ, "systemd");
    assert_eq!(u.scope, UpdateScope::Partial);
    match u.data {
        Data::Error(f) => {
            assert_eq!(f.id, None);
            assert_eq!(f.error, "Error processing DBus message: bad frame");
        }
        _ => panic!("expected a failure payload"),
    }
    let src = MonitorDataSource::extract(&pusher);
    assert_eq!(src.id(), "sys");
    assert_eq!(src.typ(), "systemd");
}
