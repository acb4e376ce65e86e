use vstd::prelude::*;

use crate::execution_state::WorkloadState;
use crate::framing::{encode_length_delimited, varint};

verus! {

/// A request for the complete state of the cluster.
#[derive(Debug, Clone, PartialEq)]
pub struct RequestCompleteState {
    pub request_id: String,
    pub field_mask: Vec<String>,
}

impl RequestCompleteState {
    /// Puts `prefix` in front of the request id, so that the answer can be
    /// routed back to whoever asked.
    pub fn prefix_request_id(&mut self, prefix: &str)
        ensures
            final(self).request_id@ == prefix@ + old(self).request_id@,
            final(self).field_mask == old(self).field_mask,
    {
        let mut id = prefix.to_owned();
        id.append(self.request_id.as_str());
        self.request_id = id;
    }
}

/// A command that the agent sends to the server. The agent builds complete
/// state requests and workload state updates itself; any other command (of
/// type `O`) it only forwards, without reading it.
#[derive(Debug, Clone, PartialEq)]
pub enum StateChangeCommand<O> {
    RequestCompleteState(RequestCompleteState),
    UpdateWorkloadState(Vec<WorkloadState>),
    Other(O),
}

/// Connects a workload's control interface (a pair of pipes) with the agent:
/// it forwards the agent's execution requests into the output pipe and the
/// workload's requests from the input pipe to the server.
pub struct PipesChannelTask<F, R, S> {
    pub output_stream: F,
    pub input_stream: F,
    pub input_pipe_receiver: R,
    pub output_pipe_channel: S,
    pub request_id_prefix: String,
}

impl<F, R, S> PipesChannelTask<F, R, S> {
    /// A task over the given pipes and channels; requests from the workload
    /// get `request_id_prefix` in front of their ids.
    pub fn new(
        output_stream: F,
        input_stream: F,
        input_pipe_receiver: R,
        output_pipe_channel: S,
        request_id_prefix: String,
    ) -> (res: Self)
        ensures
            res.output_stream == output_stream,
            res.input_stream == input_stream,
            res.input_pipe_receiver == input_pipe_receiver,
            res.output_pipe_channel == output_pipe_channel,
            res.request_id_prefix == request_id_prefix,
    {
        PipesChannelTask {
            output_stream,
            input_stream,
            input_pipe_receiver,
            output_pipe_channel,
            request_id_prefix,
        }
    }

    /// The bytes to write into the output pipe for an execution request, given
    /// its encoded message (`None` when the request has no message form, and
    /// then nothing is written): the message, length-delimited.
    pub fn forward_execution_command(&self, encoded_request: Option<Vec<u8>>) -> (res: Option<
        Vec<u8>,
    >)
        ensures
            match encoded_request {
                Some(body) => res matches Some(bytes) && bytes@ == varint(body@.len()) + body@,
                None => res is None,
            },
    {
        match encoded_request {
            Some(body) => Some(encode_length_delimited(body.as_slice())),
            None => None,
        }
    }

    /// What to send to the server for a request read from the input pipe,
    /// given the command it converts to (`Err` when it converts to none, and
    /// then nothing is sent): a request for the complete state gets the
    /// task's prefix in front of its id; any other command goes unchanged.
    pub fn handle_state_change_request<O>(
        &self,
        converted: Result<StateChangeCommand<O>, String>,
    ) -> (res: Option<StateChangeCommand<O>>)
        ensures
            match converted {
                Ok(StateChangeCommand::RequestCompleteState(request)) => res matches Some(
                    StateChangeCommand::RequestCompleteState(sent),
                ) && sent.request_id@ == self.request_id_prefix@ + request.request_id@
                    && sent.field_mask == request.field_mask,
                Ok(command) => res == Some(command),
                Err(_) => res is None,
            },
    {
        match converted {
            Ok(StateChangeCommand::RequestCompleteState(mut request)) => {
                request.prefix_request_id(self.request_id_prefix.as_str());
                Some(StateChangeCommand::RequestCompleteState(request))
            },
            Ok(command) => Some(command),
            Err(_) => None,
        }
    }
}

} // verus!
