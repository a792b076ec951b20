use sysmon::monitor::Data;
use sysmon::monitor::Failure;
use sysmon::monitor::Status;
use sysmon::monitor::StatusMap;
use sysmon::monitor::State;
use sysmon::monitor::Time;
use sysmon::monitor::Update;
use sysmon::monitor::UpdateScope;
use sysmon::system_monitor::start_outcome_step;
use sysmon::system_monitor::subscribe_phase_step;
use sysmon::system_monitor::teardown_step;
use sysmon::system_monitor::FabricPhase;
use sysmon::system_monitor::StateSnapshot;
use sysmon::system_monitor::SystemMonitor;

fn snapshot_update(source: &str, marker: &str) -> Update {
    Update {
        source: source.to_string(),
        typ: "systemd".to_string(),
        scope: UpdateScope::Snapshot,
        time: Time { sec: 1, ms: 0 },
        data: Data::Error(Failure { id: None, error: marker.to_string() }),
    }
}

fn partial_update(source: &str, marker: &str) -> Update {
    Update {
        source: source.to_string(),
        typ: "systemd".to_string(),
        scope: UpdateScope::Partial,
        time: Time { sec: 2, ms: 0 },
        data: Data::Error(Failure { id: None, error: marker.to_string() }),
    }
}

fn marker_of(u: &Update) -> String {
    match &u.data {
        Data::Error(f) => f.error.clone(),
        _ => panic!("expected a failure payload"),
    }
}

#[test]
fn subscriber_is_primed_with_stored_snapshots() {
    let mut fabric = SystemMonitor::new(1000, 50);
    fabric.dispatch(&snapshot_update("a", "a1"));
    fabric.dispatch(&snapshot_update("b", "b1"));
    let id = fabric.subscribe().unwrap();
    assert_eq!(marker_of(&fabric.pop(id).unwrap()), "a1");
    assert_eq!(marker_of(&fabric.pop(id).unwrap()), "b1");
    assert!(fabric.pop(id).is_none());
}

#[test]
fn snapshot_replaces_and_partial_does_not() {
    let mut fabric = SystemMonitor::new(1000, 50);
    fabric.dispatch(&snapshot_update("a", "old"));
    fabric.dispatch(&snapshot_update("a", "new"));
    fabric.dispatch(&partial_update("a", "aside"));
    let id = fabric.subscribe().unwrap();
    assert_eq!(marker_of(&fabric.pop(id).unwrap()), "new");
    assert!(fabric.pop(id).is_none());
}

#[test]
fn live_updates_follow_the_initial_snapshots() {
    let mut fabric = SystemMonitor::new(1000, 50);
    fabric.dispatch(&snapshot_update("a", "a1"));
    let id = fabric.subscribe().unwrap();
    fabric.dispatch(&partial_update("a", "live"));
    assert_eq!(marker_of(&fabric.pop(id).unwrap()), "a1");
    assert_eq!(marker_of(&fabric.pop(id).unwrap()), "live");
}

#[test]
fn unsubscribe_deregisters() {
    let mut fabric = SystemMonitor::new(1000, 50);
    let id = fabric.subscribe().unwrap();
    fabric.unsubscribe(id);
    assert!(fabric.pop(id).is_none());
    fabric.dispatch(&snapshot_update("a", "a1"));
    assert!(fabric.pop(id).is_none());
}

#[test]
fn slow_subscriber_does_not_stall_the_other() {
    let mut fabric = SystemMonitor::new(1000, 50);
    let slow = fabric.subscribe().unwrap();
    let live = fabric.subscribe().unwrap();
    for i in 0..10 {
        fabric.dispatch(&snapshot_update("a", &format!("u{}", i)));
        // the live subscriber keeps reading; the slow one never does
        let got = fabric.pop(live).unwrap();
        assert_eq!(marker_of(&got), format!("u{}", i));
    }
    // the slow subscriber's bounded queue kept at most its capacity
    let mut slow_count = 0;
    while fabric.pop(slow).is_some() {
        slow_count += 1;
    }
    assert!(slow_count <= 10);
}

#[test]
fn overflowing_slow_queue_drops_only_for_that_subscriber() {
    let mut fabric = SystemMonitor::new(1000, 50);
    let slow = fabric.subscribe().unwrap();
    let live = fabric.subscribe().unwrap();
    for i in 0..25 {
        fabric.dispatch(&snapshot_update("a", &format!("u{}", i)));
        assert_eq!(marker_of(&fabric.pop(live).unwrap()), format!("u{}", i));
    }
    let mut slow_count = 0;
    while fabric.pop(slow).is_some() {
        slow_count += 1;
    }
    assert_eq!(slow_count, 10);
}

#[test]
fn subscriber_ids_are_monotonic() {
    let mut fabric = SystemMonitor::new(1000, 50);
    let a = fabric.subscribe().unwrap();
    let b = fabric.subscribe().unwrap();
    assert_eq!(a, 0);
    assert_eq!(b, 1);
    assert_eq!(fabric.poll_time_ms(), 1000);
}

#[test]
fn snapshot_store_update_and_values() {
    let mut store = StateSnapshot::new();
    assert!(store.update(&snapshot_update("a", "a1")));
    assert!(!store.update(&partial_update("a", "p1")));
    assert!(store.update(&snapshot_update("a", "a2")));
    let values = store.values();
    assert_eq!(values.len(), 1);
    assert_eq!(marker_of(&values[0]), "a2");
}

#[test]
fn push_failure_is_attributed_and_other_source_unaffected() {
    // a push source's worker fails after three updates: the fabric carries
    // the in-band failure and the other source's stream goes on
    let mut fabric = SystemMonitor::new(1000, 50);
    let id = fabric.subscribe().unwrap();
    for i in 0..3 {
        fabric.dispatch(&partial_update("pushy", &format!("p{}", i)));
    }
    let failure = sysmon::systemd::watch_failure_update(
        "pushy",
        "worker panicked",
        Time { sec: 9, ms: 0 },
    );
    fabric.dispatch(&failure);
    fabric.dispatch(&snapshot_update("other", "alive"));
    let mut seen = Vec::new();
    while let Some(u) = fabric.pop(id) {
        seen.push((u.source.clone(), marker_of(&u)));
    }
    assert!(seen.iter().any(|(src, m)| src == "pushy"
        && m == "failed to monitor systemd units: worker panicked"));
    assert!(seen.iter().any(|(src, m)| src == "other" && m == "alive"));
}

#[test]
fn per_entity_state_rides_snapshots() {
    let mut units = StatusMap::new();
    units.insert(
        "sshd.service".to_string(),
        Status { state: State::Active, attrs: sysmon::value::ValueMap::new() },
    );
    let u = Update {
        source: "sys".to_string(),
        typ: "systemd".to_string(),
        scope: UpdateScope::Snapshot,
        time: Time { sec: 0, ms: 0 },
        data: Data::State(units),
    };
    let mut fabric = SystemMonitor::new(1000, 50);
    fabric.dispatch(&u);
    let id = fabric.subscribe().unwrap();
    let got = fabric.pop(id).unwrap();
    match got.data {
        Data::State(m) => {
            let st = m.get("sshd.service").unwrap();
            assert_eq!(st.state, State::Active);
        }
        _ => panic!("expected a state payload"),
    }
}

#[test]
fn first_subscribe_starts_and_ended_is_terminal() {
    let phase = FabricPhase::NotRunning;
    assert_eq!(subscribe_phase_step(phase).unwrap(), true);
    let phase = start_outcome_step(true);
    assert_eq!(phase, FabricPhase::Running);
    assert_eq!(subscribe_phase_step(phase).unwrap(), false);
    // a failed start rolls back so the next subscriber retries
    assert_eq!(start_outcome_step(false), FabricPhase::NotRunning);
    let phase = teardown_step(phase);
    assert_eq!(phase, FabricPhase::Ended);
    let e = subscribe_phase_step(phase).unwrap_err();
    assert_eq!(e.render(), "cannot subscribe monitor, it has already ended");
    assert_eq!(teardown_step(phase), FabricPhase::Ended);
}
