use sfsm::machine::MachineGraph;
use sfsm::message::MessageError;
use sfsm::non_fallible::SfsmError;
use sfsm::samples::{route_machine, route_stats, trek_data, trip_machine, RouteData, RouteStats};
use sfsm::TransitGuard;

fn fresh_climb(go: bool) -> RouteData {
    RouteData::Climb { stats: route_stats(), go }
}

#[test]
fn step_before_start_is_internal() {
    let mut m = route_machine();
    assert!(matches!(m.step(), Err(SfsmError::Internal)));
}

#[test]
fn stop_before_start_is_internal() {
    let mut m = route_machine();
    assert!(matches!(m.stop(), Err(SfsmError::Internal)));
}

#[test]
fn double_start_is_internal() {
    let mut m = route_machine();
    assert!(m.start(fresh_climb(false)).is_ok());
    assert!(matches!(m.start(fresh_climb(false)), Err(SfsmError::Internal)));
}

#[test]
fn start_enters_initial_state() {
    let mut m = route_machine();
    assert!(m.is_state(0));
    assert!(m.start(fresh_climb(false)).is_ok());
    assert!(m.is_state(0));
    assert_eq!(m.peek_state(), 0);
}

#[test]
fn step_without_matching_guard_runs_execute_once_and_stays() {
    let mut m = route_machine();
    assert!(m.start(fresh_climb(false)).is_ok());
    assert!(m.step().is_ok());
    assert!(m.is_state(0));
    assert!(m.step().is_ok());
    assert!(m.is_state(0));
    let data = m.stop().unwrap();
    // Two steps ran execute twice; the stop ran the climb's exit once and
    // its two transition actions; entry ran once at start.
    assert_eq!(
        data,
        RouteData::Climb {
            stats: RouteStats {
                climb_entries: 1,
                climb_exits: 1,
                summit_entries: 0,
                summit_exits: 0,
                descent_entries: 0,
                descent_exits: 0,
                execs: 2,
                actions: 2,
            },
            go: false,
        }
    );
}

#[test]
fn transition_runs_each_hook_exactly_once() {
    let mut m = route_machine();
    assert!(m.start(fresh_climb(true)).is_ok());
    assert!(m.step().is_ok());
    assert!(m.is_state(1));
    let data = m.stop().unwrap();
    // The one step: execute, climb exit, both climb actions, conversion,
    // summit entry.  The stop: summit exit and its one action.
    assert_eq!(
        data,
        RouteData::Summit {
            stats: RouteStats {
                climb_entries: 1,
                climb_exits: 1,
                summit_entries: 1,
                summit_exits: 1,
                descent_entries: 0,
                descent_exits: 0,
                execs: 1,
                actions: 3,
            },
            inbox: None,
        }
    );
}

#[test]
fn guard_priority_takes_first_declared_transition() {
    // Both of the climb's guards fire; the summit is declared first.
    let mut m = route_machine();
    assert!(m.start(fresh_climb(true)).is_ok());
    assert!(m.step().is_ok());
    assert!(m.is_state(1));
    assert!(!m.is_state(2));
}

#[test]
fn entry_and_exit_counts_balance_after_stop() {
    let mut m = route_machine();
    assert!(m.start(fresh_climb(true)).is_ok());
    assert!(m.step().is_ok()); // climb -> summit
    assert!(m.step().is_ok()); // summit stays
    let data = m.stop().unwrap();
    match data {
        RouteData::Summit { stats, .. } => {
            assert_eq!(stats.climb_entries, stats.climb_exits);
            assert_eq!(stats.summit_entries, stats.summit_exits);
            assert_eq!(stats.descent_entries, stats.descent_exits);
        }
        other => panic!("expected summit data, got {:?}", other),
    }
}

#[test]
fn machine_can_restart_after_stop() {
    let mut m = route_machine();
    assert!(m.start(fresh_climb(true)).is_ok());
    assert!(m.step().is_ok());
    assert!(m.stop().is_ok());
    assert!(m.is_state(0));
    assert!(m.start(fresh_climb(false)).is_ok());
    assert!(m.step().is_ok());
    assert!(m.is_state(0));
}

#[test]
fn push_against_inactive_target_returns_payload() {
    let mut m = route_machine();
    assert!(m.start(fresh_climb(false)).is_ok());
    match m.push_message(1, 7u32) {
        Err(MessageError::StateIsNotActive(payload)) => assert_eq!(payload, 7),
        other => panic!("expected rejected push, got {:?}", other),
    }
}

#[test]
fn poll_against_inactive_target_fails_without_payload() {
    let mut m = route_machine();
    assert!(m.start(fresh_climb(false)).is_ok());
    let r: Result<Option<u32>, MessageError<()>> = m.poll_message(1);
    assert!(matches!(r, Err(MessageError::StateIsNotActive(()))));
}

#[test]
fn poll_with_nothing_to_report_is_ok_none() {
    let mut m = route_machine();
    assert!(m.start(fresh_climb(true)).is_ok());
    assert!(m.step().is_ok()); // now at the summit
    let r: Result<Option<u32>, MessageError<()>> = m.poll_message(1);
    assert_eq!(r, Ok(None));
}

#[test]
fn push_then_poll_round_trip() {
    let mut m = route_machine();
    assert!(m.start(fresh_climb(true)).is_ok());
    assert!(m.step().is_ok()); // now at the summit
    assert!(m.push_message(1, 42u32).is_ok());
    assert_eq!(m.poll_message(1), Ok(Some(42u32)));
    assert_eq!(m.poll_message(1), Ok::<Option<u32>, _>(None));
}

#[test]
fn nested_machine_drives_outer_guard() {
    let mut outer = trip_machine();
    assert!(outer.start(trek_data()).is_ok());
    assert!(outer.is_state(0));
    // One outer step: the embedded trek advances to its summit, and the
    // outer guard sees it and moves home.
    assert!(outer.step().is_ok());
    assert!(outer.is_state(1));
}

#[test]
fn transit_guard_from_bool() {
    assert_eq!(TransitGuard::from(true), TransitGuard::Transit);
    assert_eq!(TransitGuard::from(false), TransitGuard::Remain);
    let g: TransitGuard = (1 == 1).into();
    assert_eq!(g, TransitGuard::Transit);
}

#[test]
fn graph_accessors_reflect_construction() {
    let g = MachineGraph {
        init: 0,
        edges: vec![vec![1], vec![]],
    };
    assert_eq!(g.init, 0);
    assert_eq!(g.edges.len(), 2);
    assert_eq!(g.edges[0], vec![1]);
}
