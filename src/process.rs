//! Errors of the agent runtime, and the events it reports.
use vstd::prelude::*;

use crate::agent::AgentStatus;

verus! {

/// Why a runtime operation failed.
#[derive(Debug, Clone, PartialEq, Eq)]
pub enum ProcessError {
    /// The agent has no runtime, or no live process where one is needed.
    AgentNotFound(String),
    /// A spawn was asked for an agent whose process is live.
    AlreadyRunning(String),
    /// The terminal, the child or its preparation failed.
    SpawnFailed(String),
    /// Reading from or writing to the terminal failed.
    Io(String),
}

/// A coarse lifecycle event, for the transport layer.
#[derive(Debug, Clone)]
pub enum ProcessEvent {
    Output { agent_id: String, content: String, is_complete: bool },
    Status { agent_id: String, status: AgentStatus, reason: Option<String> },
    Context { agent_id: String, level: i32 },
    Error { agent_id: String, message: String },
    Exit { agent_id: String, code: Option<i32>, signal: Option<String> },
}

/// The event says that the agent's status became `status`.
pub open spec fn is_status_event(e: ProcessEvent, id: Seq<char>, status: AgentStatus) -> bool {
    e matches ProcessEvent::Status { agent_id, status: s, .. } && agent_id@ == id && s == status
}

/// The event says that the agent's process ended with `code` and no signal.
pub open spec fn is_exit_event(e: ProcessEvent, id: Seq<char>, code: Option<i32>) -> bool {
    e matches ProcessEvent::Exit { agent_id, code: c, signal } && agent_id@ == id && c == code
        && signal is None
}

/// The event says that the agent's process was killed.
pub open spec fn is_kill_event(e: ProcessEvent, id: Seq<char>) -> bool {
    e matches ProcessEvent::Exit { agent_id, code, signal } && agent_id@ == id && code is None
        && (signal matches Some(s) && s@ == "SIGKILL"@)
}

/// The error is `AgentNotFound` for `id`.
pub open spec fn is_not_found(e: ProcessError, id: Seq<char>) -> bool {
    e matches ProcessError::AgentNotFound(s) && s@ == id
}

/// The error is `AlreadyRunning` for `id`.
pub open spec fn is_already_running(e: ProcessError, id: Seq<char>) -> bool {
    e matches ProcessError::AlreadyRunning(s) && s@ == id
}

} // verus!
