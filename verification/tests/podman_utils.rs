use ankaios_agent::{ExecutionState, ListContainer, PodmanUtils, WorkloadExecutionInstanceName};

fn generate_test_empty_list_container() -> ListContainer {
    ListContainer {
        id: None,
        names: None,
        state: None,
        exited: None,
        exit_code: None,
    }
}

fn generate_test_list_container_with_state(
    exit_code: Option<i32>,
    exited: Option<bool>,
    state: Option<String>,
) -> ListContainer {
    let mut list_item = generate_test_empty_list_container();
    list_item.exit_code = exit_code;
    list_item.exited = exited;
    list_item.state = state;
    list_item
}

fn container_with_state(state: &str) -> ListContainer {
    generate_test_list_container_with_state(None, None, Some(state.to_string()))
}

#[test]
fn utest_execution_state_from_podman_states() {
    let ec_success = Some(0);
    let ec_failed = Some(1);
    let ec_none: Option<i32> = None;
    let finished = Some(true);
    let not_finished = Some(false);

    let item_running_state = generate_test_list_container_with_state(
        ec_success,
        not_finished,
        Some("running".to_string()),
    );
    assert_eq!(
        PodmanUtils::convert_podman_container_state_to_execution_state(item_running_state),
        ExecutionState::ExecRunning
    );

    let item_running_state = generate_test_list_container_with_state(
        ec_success,
        not_finished,
        Some("pending".to_string()),
    );
    assert_eq!(
        PodmanUtils::convert_podman_container_state_to_execution_state(item_running_state),
        ExecutionState::ExecPending
    );

    let item_created_state = generate_test_list_container_with_state(
        ec_none,
        not_finished,
        Some("Created".to_string()),
    );
    assert_eq!(
        PodmanUtils::convert_podman_container_state_to_execution_state(item_created_state),
        ExecutionState::ExecPending
    );

    let item_paused_state = generate_test_list_container_with_state(
        ec_none,
        not_finished,
        Some("Paused".to_string()),
    );
    assert_eq!(
        PodmanUtils::convert_podman_container_state_to_execution_state(item_paused_state),
        ExecutionState::ExecUnknown
    );

    let item_unknown_state = generate_test_list_container_with_state(
        ec_success,
        not_finished,
        Some("Unknown".to_string()),
    );
    assert_eq!(
        PodmanUtils::convert_podman_container_state_to_execution_state(item_unknown_state),
        ExecutionState::ExecUnknown
    );

    let item_exited_succeeded = generate_test_list_container_with_state(
        ec_success,
        finished,
        Some("Exited".to_string()),
    );
    assert_eq!(
        PodmanUtils::convert_podman_container_state_to_execution_state(item_exited_succeeded),
        ExecutionState::ExecSucceeded
    );

    let item_exited_failed = generate_test_list_container_with_state(
        ec_failed,
        finished,
        Some("Exited".to_string()),
    );
    assert_eq!(
        PodmanUtils::convert_podman_container_state_to_execution_state(item_exited_failed),
        ExecutionState::ExecFailed
    );

    // Following combinations are rather unrealistic, but we should test that it behaves correctly.
    let item_no_exit_code =
        generate_test_list_container_with_state(None, finished, Some("exited".to_string()));
    assert_eq!(
        PodmanUtils::convert_podman_container_state_to_execution_state(item_no_exit_code),
        ExecutionState::ExecUnknown
    );

    let item_success_no_exited =
        generate_test_list_container_with_state(ec_success, None, Some("exited".to_string()));
    assert_eq!(
        PodmanUtils::convert_podman_container_state_to_execution_state(item_success_no_exited),
        ExecutionState::ExecUnknown
    );

    let item_success_no_state =
        generate_test_list_container_with_state(ec_success, finished, None);
    assert_eq!(
        PodmanUtils::convert_podman_container_state_to_execution_state(item_success_no_state),
        ExecutionState::ExecUnknown
    );
}

#[test]
fn utest_convert_to_ankaios_instance_name() {
    let workload_instance_name = WorkloadExecutionInstanceName::builder()
        .agent_name("agent_x")
        .workload_name("fancy_name-1")
        .config(&String::from("fancy config"))
        .build();

    let container_names = vec![
        "bjhc76ec87c78yds78cyds8".to_string(),
        workload_instance_name.to_string(),
    ];

    let mut list_container = generate_test_empty_list_container();

    assert_eq!(
        PodmanUtils::convert_to_ankaios_instance_name(
            workload_instance_name.agent_name(),
            &list_container
        ),
        None
    );

    list_container.names = Some(container_names);

    assert_eq!(
        PodmanUtils::convert_to_ankaios_instance_name(
            workload_instance_name.agent_name(),
            &list_container
        ),
        Some(workload_instance_name)
    );

    assert_eq!(
        PodmanUtils::convert_to_ankaios_instance_name("some other agent name", &list_container),
        None
    );
}

#[test]
fn utest_status_get_success() {
    let container_list_item = container_with_state("Dead");
    let status = PodmanUtils::get_status(Ok(vec![container_list_item]));
    assert_eq!(status, ExecutionState::ExecUnknown);
}

#[test]
fn utest_status_get_bad_request() {
    assert_eq!(
        PodmanUtils::get_status(Err("Simulated rejection".to_string())),
        ExecutionState::ExecUnknown
    );
}

#[test]
fn utest_status_get_empty_list_returned() {
    assert_eq!(PodmanUtils::get_status(Ok(vec![])), ExecutionState::ExecRemoved);
}

#[test]
fn utest_status_get_undefined_status() {
    assert_eq!(
        PodmanUtils::get_status(Ok(vec![container_with_state("Undefined")])),
        ExecutionState::ExecUnknown
    );
}

#[test]
fn utest_status_get_status_key_missing() {
    assert_eq!(
        PodmanUtils::get_status(Ok(vec![generate_test_empty_list_container()])),
        ExecutionState::ExecUnknown
    );
}

#[test]
fn utest_status_get_no_connetion_to_socket() {
    assert_eq!(
        PodmanUtils::get_status(Err("connection refused: /not/running/socket".to_string())),
        ExecutionState::ExecUnknown
    );
}

#[test]
fn status_of_single_running_container() {
    assert_eq!(
        PodmanUtils::get_status(Ok(vec![container_with_state("RUNNING")])),
        ExecutionState::ExecRunning
    );
}

#[test]
fn status_of_several_matches_is_unknown() {
    assert_eq!(
        PodmanUtils::get_status(Ok(vec![
            container_with_state("running"),
            container_with_state("running")
        ])),
        ExecutionState::ExecUnknown
    );
}

#[test]
fn exited_with_nonzero_code_fails_even_in_odd_case() {
    let item = generate_test_list_container_with_state(Some(137), Some(true), Some("eXiTeD".to_string()));
    assert_eq!(
        PodmanUtils::convert_podman_container_state_to_execution_state(item),
        ExecutionState::ExecFailed
    );
}

#[test]
fn exited_but_not_marked_finished_is_unknown() {
    let item = generate_test_list_container_with_state(Some(0), Some(false), Some("exited".to_string()));
    assert_eq!(
        PodmanUtils::convert_podman_container_state_to_execution_state(item),
        ExecutionState::ExecUnknown
    );
}

#[test]
fn execution_state_from_lowercase_status_words() {
    assert_eq!(
        PodmanUtils::execution_state_from_status("created", None, None),
        ExecutionState::ExecPending
    );
    assert_eq!(
        PodmanUtils::execution_state_from_status("exited", Some(true), Some(0)),
        ExecutionState::ExecSucceeded
    );
    assert_eq!(
        PodmanUtils::execution_state_from_status("exited", Some(true), Some(2)),
        ExecutionState::ExecFailed
    );
    // The word is taken as given: upper case is not lower-cased here.
    assert_eq!(
        PodmanUtils::execution_state_from_status("Running", None, None),
        ExecutionState::ExecUnknown
    );
    assert_eq!(
        ExecutionState::from_lowercase_status("running"),
        ExecutionState::ExecRunning
    );
}

#[test]
fn first_matching_name_of_agent_is_chosen() {
    let mut list_container = generate_test_empty_list_container();
    list_container.names = Some(vec![
        "w0.h0.other".to_string(),
        "a.b.c.d".to_string(),
        "w1.h1.me".to_string(),
        "w2.h2.me".to_string(),
    ]);
    let found = PodmanUtils::convert_to_ankaios_instance_name("me", &list_container).unwrap();
    assert_eq!(found.workload_name(), "w1");
    assert_eq!(found.hash, "h1");
    assert_eq!(found.agent_name(), "me");
}
