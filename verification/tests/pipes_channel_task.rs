use ankaios_agent::{
    ExecutionState, PipesChannelTask, RequestCompleteState, StateChangeCommand, WorkloadState,
};

fn task() -> PipesChannelTask<(), (), ()> {
    PipesChannelTask::new((), (), (), (), String::from("prefix@"))
}

#[test]
fn new_keeps_its_arguments() {
    let t = PipesChannelTask::new(1u8, 2u8, "rx", "tx", String::from("prefix@"));
    assert_eq!(t.output_stream, 1);
    assert_eq!(t.input_stream, 2);
    assert_eq!(t.input_pipe_receiver, "rx");
    assert_eq!(t.output_pipe_channel, "tx");
    assert_eq!(t.request_id_prefix, "prefix@");
}

#[test]
fn utest_pipes_channel_task_run_task() {
    let request: StateChangeCommand<()> = StateChangeCommand::RequestCompleteState(RequestCompleteState {
        request_id: "req_id".to_owned(),
        field_mask: vec![],
    });
    assert_eq!(
        task().handle_state_change_request(Ok(request)),
        Some(StateChangeCommand::RequestCompleteState(RequestCompleteState {
            request_id: "prefix@req_id".to_owned(),
            field_mask: vec![],
        }))
    );
}

#[test]
fn other_commands_pass_unchanged_and_failed_conversions_are_dropped() {
    let update: StateChangeCommand<String> = StateChangeCommand::UpdateWorkloadState(vec![WorkloadState {
        agent_name: "a".to_string(),
        workload_name: "w".to_string(),
        execution_state: ExecutionState::ExecRunning,
    }]);
    assert_eq!(
        task().handle_state_change_request(Ok(update.clone())),
        Some(update)
    );
    let other: StateChangeCommand<String> = StateChangeCommand::Other("update state".to_string());
    assert_eq!(
        task().handle_state_change_request(Ok(other.clone())),
        Some(other)
    );
    assert_eq!(
        task().handle_state_change_request::<String>(Err("not a known request".to_string())),
        None
    );
}

#[test]
fn execution_requests_are_length_delimited() {
    assert_eq!(
        task().forward_execution_command(Some(vec![10, 20, 30])),
        Some(vec![3, 10, 20, 30])
    );
    assert_eq!(task().forward_execution_command(None), None);
}

#[test]
fn prefix_request_id_keeps_field_mask() {
    let mut request = RequestCompleteState {
        request_id: "42".to_string(),
        field_mask: vec!["workloadStates".to_string()],
    };
    request.prefix_request_id("agent_A@");
    assert_eq!(request.request_id, "agent_A@42");
    assert_eq!(request.field_mask, vec!["workloadStates".to_string()]);
}
