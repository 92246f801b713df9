//! Messages between the front-end and the transport.
use vstd::prelude::*;

use crate::agent::AgentStatus;

verus! {

/// Subscribe to an agent's output.
#[derive(Debug, Clone)]
pub struct SubscribeAgentPayload {
    pub agent_id: String,
}

/// Stop following an agent's output.
#[derive(Debug, Clone)]
pub struct UnsubscribeAgentPayload {
    pub agent_id: String,
}

/// Subscribe to a workspace's events.
#[derive(Debug, Clone)]
pub struct SubscribeWorkspacePayload {
    pub workspace_id: String,
}

/// Stop following a workspace's events.
#[derive(Debug, Clone)]
pub struct UnsubscribeWorkspacePayload {
    pub workspace_id: String,
}

/// What a front-end client may send.
#[derive(Debug, Clone)]
pub enum WsClientMessage {
    SubscribeAgent { payload: SubscribeAgentPayload },
    UnsubscribeAgent { payload: UnsubscribeAgentPayload },
    SubscribeWorkspace { payload: SubscribeWorkspacePayload },
    UnsubscribeWorkspace { payload: UnsubscribeWorkspacePayload },
    Ping,
}

/// Output of an agent.
#[derive(Debug, Clone)]
pub struct AgentOutputPayload {
    pub agent_id: String,
    pub content: String,
    pub is_complete: bool,
    pub timestamp: String,
}

/// A status change of an agent.
#[derive(Debug, Clone)]
pub struct AgentStatusPayload {
    pub agent_id: String,
    pub status: AgentStatus,
    pub reason: Option<String>,
    pub timestamp: String,
}

/// The context level of an agent.
#[derive(Debug, Clone)]
pub struct AgentContextPayload {
    pub agent_id: String,
    pub level: i32,
    pub timestamp: String,
}

/// An error of an agent.
#[derive(Debug, Clone)]
pub struct AgentErrorPayload {
    pub agent_id: String,
    pub error: String,
    pub timestamp: String,
}

/// The end of an agent's process.
#[derive(Debug, Clone)]
pub struct AgentTerminatedPayload {
    pub agent_id: String,
    pub exit_code: Option<i32>,
    pub signal: Option<String>,
    pub timestamp: String,
}

/// A change to a workspace.
#[derive(Debug, Clone)]
pub struct WorkspaceUpdatedPayload {
    pub workspace_id: String,
    pub event: String,
    pub timestamp: String,
}

} // verus!
