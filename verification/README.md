# ankaios_agent

The decisions that a workload orchestrator's agent makes around podman and a
workload's control-interface pipes, written in Verus with their contracts
proved.

- `src/execution_state.rs` — workload execution states and state reports.
- `src/podman_utils.rs` — from podman's container list to execution states,
  instance names and the agent's running workloads.
- `src/instance_name.rs` — the `<workload>.<hash>.<agent>` container names,
  their parser, printer and builder (the hash is the SHA-256 of the runtime
  configuration).
- `src/running_workloads.rs` — a map from workload names to instance names
  and container ids.
- `src/status_check.rs` — what the monitoring loop of a workload reports and
  when it ends.
- `src/framing.rs` — length-delimited frames (LEB128 length, then body).
- `src/pipes_channel_task.rs` — what the pipes task sends for each event.
- `app/` — the I/O around it: podman calls, the monitoring loop, the pipe loop.
