use vstd::prelude::*;

verus! {

/// The execution state of a workload as the agent reports it.
#[derive(Debug, Clone, Copy, PartialEq, Eq, Structural)]
pub enum ExecutionState {
    ExecUnknown,
    ExecPending,
    ExecRunning,
    ExecSucceeded,
    ExecFailed,
    ExecRemoved,
}

/// The state that a lower-cased podman status word stands for.
pub open spec fn state_of_status_word(lower: Seq<char>) -> ExecutionState {
    if lower == "running"@ {
        ExecutionState::ExecRunning
    } else if lower == "pending"@ || lower == "created"@ {
        ExecutionState::ExecPending
    } else {
        ExecutionState::ExecUnknown
    }
}

impl ExecutionState {
    /// Reads a lower-cased podman status word. Words that name no known
    /// state give `ExecUnknown`.
    pub fn from_lowercase_status(lower: &str) -> (res: ExecutionState)
        ensures
            res == state_of_status_word(lower@),
    {
        let s = lower.to_owned();
        if s == String::from_str("running") {
            ExecutionState::ExecRunning
        } else if s == String::from_str("pending") || s == String::from_str("created") {
            ExecutionState::ExecPending
        } else {
            ExecutionState::ExecUnknown
        }
    }
}

/// The execution state of one workload on one agent, as it is reported to
/// the server.
#[derive(Debug, Clone, PartialEq)]
pub struct WorkloadState {
    pub agent_name: String,
    pub workload_name: String,
    pub execution_state: ExecutionState,
}

} // verus!
