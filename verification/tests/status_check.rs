use ankaios_agent::{ExecutionState, StatusCheck, STATUS_CHECK_INTERVAL_MS};

#[test]
fn reports_each_change_once_and_stops_at_removal() {
    let mut check = StatusCheck::new("agent_A".to_string(), "nginx".to_string());
    assert_eq!(check.last_state, ExecutionState::ExecUnknown);

    let outcome = check.observe(ExecutionState::ExecUnknown);
    assert!(outcome.update.is_none());
    assert!(!outcome.done);

    let outcome = check.observe(ExecutionState::ExecRunning);
    let update = outcome.update.unwrap();
    assert_eq!(update.agent_name, "agent_A");
    assert_eq!(update.workload_name, "nginx");
    assert_eq!(update.execution_state, ExecutionState::ExecRunning);
    assert!(!outcome.done);

    let outcome = check.observe(ExecutionState::ExecRunning);
    assert!(outcome.update.is_none());
    assert!(!outcome.done);

    let outcome = check.observe(ExecutionState::ExecRemoved);
    assert_eq!(
        outcome.update.unwrap().execution_state,
        ExecutionState::ExecRemoved
    );
    assert!(outcome.done);
    assert_eq!(check.last_state, ExecutionState::ExecRemoved);
}

#[test]
fn first_observation_of_removal_ends_monitoring() {
    let mut check = StatusCheck::new("a".to_string(), "w".to_string());
    let outcome = check.observe(ExecutionState::ExecRemoved);
    assert!(outcome.done);
    assert!(outcome.update.is_some());
}

#[test]
fn status_check_interval() {
    assert_eq!(STATUS_CHECK_INTERVAL_MS, 1000);
}
