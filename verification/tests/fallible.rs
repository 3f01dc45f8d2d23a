use sfsm::fallible::ExtendedSfsmError;
use sfsm::machine::MachineGraph;
use sfsm::samples::{launch_graph, launch_machine_for, LaunchData, LaunchFault};

fn quiet_flight() -> LaunchData {
    LaunchData::Flight { execs: 0, fail_exec: false, poison_recovery: false }
}

fn failing_flight() -> LaunchData {
    LaunchData::Flight { execs: 0, fail_exec: true, poison_recovery: false }
}

#[test]
fn fallible_step_before_start_is_internal() {
    let mut m = launch_machine_for(launch_graph()).unwrap();
    assert!(matches!(m.step(), Err(ExtendedSfsmError::Internal)));
}

#[test]
fn quiet_flight_stays_active() {
    let mut m = launch_machine_for(launch_graph()).unwrap();
    assert!(m.start(quiet_flight()).is_ok());
    assert!(m.is_state(0));
    assert!(m.step().is_ok());
    assert!(m.is_state(0));
    let data = m.stop().unwrap();
    assert_eq!(
        data,
        LaunchData::Flight { execs: 1, fail_exec: false, poison_recovery: false }
    );
}

#[test]
fn failing_execute_reroutes_into_error_state() {
    let mut m = launch_machine_for(launch_graph()).unwrap();
    assert!(m.start(failing_flight()).is_ok());
    assert!(m.step().is_ok());
    assert!(m.is_state(1));
    let data = m.stop().unwrap();
    // The fault was consumed before the recovery state's entry ran: both
    // the recorded fault and the entry count are visible.
    assert_eq!(
        data,
        LaunchData::Recovery { entries: 1, seen: Some(LaunchFault::Engine), failing: false }
    );
}

#[test]
fn error_state_recovers_through_declared_transition() {
    let mut m = launch_machine_for(launch_graph()).unwrap();
    assert!(m.start(failing_flight()).is_ok());
    assert!(m.step().is_ok()); // reroutes into recovery
    assert!(m.is_state(1));
    assert!(m.step().is_ok()); // recovery's guard fires: back to flight
    assert!(m.is_state(0));
}

#[test]
fn failing_hook_on_error_state_escalates() {
    let graph = MachineGraph { init: 1, edges: vec![vec![], vec![0]] };
    let mut m = launch_machine_for(graph).unwrap();
    let start_data = LaunchData::Recovery { entries: 0, seen: None, failing: true };
    assert!(m.start(start_data).is_ok());
    match m.step() {
        Err(ExtendedSfsmError::Custom(fault)) => assert_eq!(fault, LaunchFault::Guidance),
        other => panic!("expected escalated fault, got {:?}", other),
    }
    // The machine has halted until it is restarted.
    assert!(matches!(m.step(), Err(ExtendedSfsmError::Internal)));
}

#[test]
fn machine_can_restart_after_escalation() {
    let graph = MachineGraph { init: 1, edges: vec![vec![], vec![0]] };
    let mut m = launch_machine_for(graph).unwrap();
    let start_data = LaunchData::Recovery { entries: 0, seen: None, failing: true };
    assert!(m.start(start_data).is_ok());
    assert!(matches!(m.step(), Err(ExtendedSfsmError::Custom(_))));
    let calm = LaunchData::Recovery { entries: 0, seen: None, failing: false };
    assert!(m.start(calm).is_ok());
    assert!(m.step().is_ok());
}

#[test]
fn stop_returns_flight_data_unchanged_by_exit() {
    let mut m = launch_machine_for(launch_graph()).unwrap();
    assert!(m.start(quiet_flight()).is_ok());
    let data = m.stop().unwrap();
    assert_eq!(data, quiet_flight());
}
