//! Agent-side logic of a workload orchestrator: how container states reported
//! by podman map to workload execution states, how container names encode
//! workload instances, how workload state changes are reported, and how
//! messages are framed on the control-interface pipes.

mod execution_state;
mod framing;
mod instance_name;
mod pipes_channel_task;
mod podman_utils;
mod running_workloads;
mod status_check;

pub use execution_state::{state_of_status_word, ExecutionState, WorkloadState};
pub use framing::{
    decode_length_delimited, encode_length_delimited, leb128_prefix, lemma_frame_round_trip,
    length_delimiter, pow128, split_frame, varint,
};
pub use instance_name::{
    is_lower_hex_digit, lemma_instance_name_round_trip, lemma_instance_name_text_unique,
    no_separator, parse_instance_name, separator, sha256_hex, InstanceNameView,
    WorkloadExecutionInstanceName, WorkloadExecutionInstanceNameBuilder,
};
pub use pipes_channel_task::{PipesChannelTask, RequestCompleteState, StateChangeCommand};
pub use podman_utils::{
    ascii_lowercase, ascii_lowercase_char, container_execution_state, container_instance_name, first_instance_of_agent,
    lemma_exited_container_state, lemma_exited_state_follows_exit_code,
    lemma_first_instance_of_agent, lemma_running_workloads_complete,
    lemma_running_workloads_of_agent, lemma_running_workloads_sound,
    lemma_single_listed_container_status, lists_workload, listed_status, lowercase,
    running_workloads_of, state_of_status, texts, ListContainer, PodmanUtils,
    STATUS_CHECK_INTERVAL_MS,
};
pub use running_workloads::{
    entries_map, entry_value, keys_unique, lists_container_ids, RunningWorkloads,
    WorkloadEntry,
};
pub use status_check::{
    lemma_monitor_ends_at_first_removal, lemma_monitor_never_repeats,
    lemma_monitor_reports_changes, monitor_outcomes, previous_state, status_step, StatusCheck,
    StatusCheckOutcome,
};
