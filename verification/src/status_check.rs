use vstd::prelude::*;

use crate::execution_state::{ExecutionState, WorkloadState};

verus! {

/// One observation of the monitor: from the last reported state and the state
/// just observed, the new last state, the state to report (if any) and
/// whether monitoring ends. A state is reported when it differs from the last
/// one; monitoring ends once the removal of the workload has been reported.
pub open spec fn status_step(last: ExecutionState, current: ExecutionState) -> (
    ExecutionState,
    Option<ExecutionState>,
    bool,
) {
    if current != last {
        (current, Some(current), current == ExecutionState::ExecRemoved)
    } else {
        (last, None, false)
    }
}

/// What the monitor reports, and whether it ends, at each of a sequence of
/// observations, starting from the last reported state `last`.
pub open spec fn monitor_outcomes(last: ExecutionState, observed: Seq<ExecutionState>) -> Seq<
    (Option<ExecutionState>, bool),
>
    decreases observed.len(),
{
    if observed.len() == 0 {
        Seq::empty()
    } else {
        let (next, report, done) = status_step(last, observed[0]);
        seq![(report, done)] + monitor_outcomes(next, observed.drop_first())
    }
}

/// The state the monitor compares the `i`-th observation with.
pub open spec fn previous_state(
    last: ExecutionState,
    observed: Seq<ExecutionState>,
    i: int,
) -> ExecutionState {
    if i == 0 {
        last
    } else {
        observed[i - 1]
    }
}

/// At each observation the monitor reports the observed state exactly when
/// it differs from the state observed just before (or, at the first
/// observation, from the state it started with), and it ends exactly when it
/// reports the workload's removal.
pub proof fn lemma_monitor_reports_changes(last: ExecutionState, observed: Seq<ExecutionState>)
    ensures
        monitor_outcomes(last, observed).len() == observed.len(),
        forall|i: int|
            0 <= i < observed.len() ==> #[trigger] monitor_outcomes(last, observed)[i] == (
                if observed[i] != previous_state(last, observed, i) {
                    (Some(observed[i]), observed[i] == ExecutionState::ExecRemoved)
                } else {
                    (None, false)
                }),
    decreases observed.len(),
{
    if observed.len() > 0 {
        let rest = observed.drop_first();
        let next = status_step(last, observed[0]).0;
        assert(next == observed[0]);
        lemma_monitor_reports_changes(next, rest);
        assert forall|i: int| 0 <= i < observed.len() implies #[trigger] monitor_outcomes(
            last,
            observed,
        )[i] == (if observed[i] != previous_state(last, observed, i) {
            (Some(observed[i]), observed[i] == ExecutionState::ExecRemoved)
        } else {
            (None, false)
        }) by {
            if i > 0 {
                assert(monitor_outcomes(last, observed)[i] == monitor_outcomes(next, rest)[i - 1]);
                assert(rest[i - 1] == observed[i]);
                if i > 1 {
                    assert(rest[i - 2] == observed[i - 1]);
                }
            }
        }
    }
}

/// Two reports in a row never carry the same state, and observing the same
/// state twice in a row reports nothing the second time.
pub proof fn lemma_monitor_never_repeats(last: ExecutionState, observed: Seq<ExecutionState>)
    ensures
        forall|i: int|
            0 < i < observed.len() && observed[i] == observed[i - 1] ==> #[trigger] monitor_outcomes(
                last,
                observed,
            )[i] == (None::<ExecutionState>, false),
        forall|i: int, j: int|
            0 <= i < j < observed.len() && monitor_outcomes(last, observed)[i].0 is Some
                && monitor_outcomes(last, observed)[j].0 is Some && (forall|k: int|
                i < k < j ==> #[trigger] monitor_outcomes(last, observed)[k].0 is None)
                ==> #[trigger] monitor_outcomes(last, observed)[i].0 != #[trigger] monitor_outcomes(
                last,
                observed,
            )[j].0,
{
    lemma_monitor_reports_changes(last, observed);
    let m = monitor_outcomes(last, observed);
    assert forall|i: int, j: int|
        0 <= i < j < observed.len() && m[i].0 is Some && m[j].0 is Some && (forall|k: int|
            i < k < j ==> #[trigger] m[k].0 is None) implies #[trigger] m[i].0 != #[trigger] m[j].0 by {
        // Between two reports nothing changed, so the state before `j` is the
        // state reported at `i`.
        assert forall|k: int| i <= k < j implies #[trigger] observed[k] == observed[i] by {
            lemma_unchanged_between(last, observed, i, k);
        }
        assert(observed[j - 1] == observed[i]);
        assert(previous_state(last, observed, j) == observed[j - 1]);
    }
}

/// Where nothing is reported the observed state stays the same.
proof fn lemma_unchanged_between(last: ExecutionState, observed: Seq<ExecutionState>, i: int, k: int)
    requires
        0 <= i <= k < observed.len(),
        monitor_outcomes(last, observed).len() == observed.len(),
        forall|n: int|
            0 <= n < observed.len() ==> #[trigger] monitor_outcomes(last, observed)[n] == (
                if observed[n] != previous_state(last, observed, n) {
                    (Some(observed[n]), observed[n] == ExecutionState::ExecRemoved)
                } else {
                    (None, false)
                }),
        forall|n: int| i < n <= k ==> #[trigger] monitor_outcomes(last, observed)[n].0 is None,
    ensures
        observed[k] == observed[i],
    decreases k - i,
{
    if k > i {
        lemma_unchanged_between(last, observed, i, k - 1);
        assert(monitor_outcomes(last, observed)[k].0 is None);
    }
}

/// Starting from an unknown state, the monitor ends at the first observation
/// of the workload's removal, and only ever at an observation of a removal.
pub proof fn lemma_monitor_ends_at_first_removal(observed: Seq<ExecutionState>)
    ensures
        forall|i: int|
            0 <= i < observed.len() && observed[i] == ExecutionState::ExecRemoved && (forall|j: int|
                0 <= j < i ==> observed[j] != ExecutionState::ExecRemoved) ==> #[trigger] monitor_outcomes(
                ExecutionState::ExecUnknown,
                observed,
            )[i].1,
        forall|i: int|
            0 <= i < observed.len() && #[trigger] monitor_outcomes(
                ExecutionState::ExecUnknown,
                observed,
            )[i].1 ==> observed[i] == ExecutionState::ExecRemoved,
{
    let last = ExecutionState::ExecUnknown;
    lemma_monitor_reports_changes(last, observed);
    let m = monitor_outcomes(last, observed);
    assert forall|i: int|
        0 <= i < observed.len() && observed[i] == ExecutionState::ExecRemoved && (forall|j: int|
            0 <= j < i ==> observed[j] != ExecutionState::ExecRemoved) implies #[trigger] m[i].1 by {
        if i > 0 {
            assert(observed[i - 1] != ExecutionState::ExecRemoved);
        }
    }
}

/// Follows the execution state of one workload and decides what to report.
pub struct StatusCheck {
    pub agent_name: String,
    pub workload_name: String,
    pub last_state: ExecutionState,
}

/// What one observation asks of the monitoring loop: an update to send, if
/// any, and whether monitoring ends.
pub struct StatusCheckOutcome {
    pub update: Option<WorkloadState>,
    pub done: bool,
}

impl StatusCheck {
    /// A monitor for the workload `workload_name` on the agent `agent_name`
    /// that has not reported anything yet.
    pub fn new(agent_name: String, workload_name: String) -> (res: StatusCheck)
        ensures
            res.agent_name == agent_name,
            res.workload_name == workload_name,
            res.last_state == ExecutionState::ExecUnknown,
    {
        StatusCheck { agent_name, workload_name, last_state: ExecutionState::ExecUnknown }
    }

    /// Takes in the state just observed and says what to report.
    pub fn observe(&mut self, current_state: ExecutionState) -> (res: StatusCheckOutcome)
        ensures
            final(self).agent_name == old(self).agent_name,
            final(self).workload_name == old(self).workload_name,
            ({
                let (next, report, done) = status_step(old(self).last_state, current_state);
                &&& final(self).last_state == next
                &&& res.done == done
                &&& match res.update {
                    Some(update) => report == Some(update.execution_state)
                        && update.agent_name@ == old(self).agent_name@
                        && update.workload_name@ == old(self).workload_name@,
                    None => report is None,
                }
            }),
    {
        if current_state != self.last_state {
            self.last_state = current_state;
            let update = WorkloadState {
                agent_name: self.agent_name.clone(),
                workload_name: self.workload_name.clone(),
                execution_state: current_state,
            };
            StatusCheckOutcome {
                update: Some(update),
                done: current_state == ExecutionState::ExecRemoved,
            }
        } else {
            StatusCheckOutcome { update: None, done: false }
        }
    }
}

} // verus!
