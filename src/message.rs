//! Conversation messages of an agent.
use vstd::prelude::*;

use crate::text::{lowercase_of, same_text, to_lowercase};

verus! {

/// Who wrote a message.
#[derive(PartialEq, Eq, Structural, Clone, Copy, Debug)]
pub enum MessageRole {
    User,
    Assistant,
    System,
    Tool,
}

/// The lower-case name of a value of `MessageRole`.
pub open spec fn role_name(x: MessageRole) -> Seq<char> {
    match x {
        MessageRole::User => "user"@,
        MessageRole::Assistant => "assistant"@,
        MessageRole::System => "system"@,
        MessageRole::Tool => "tool"@,
    }
}

/// The value a lower-case name stands for; any other name reads as `User`.
pub open spec fn role_from_lower(t: Seq<char>) -> MessageRole {
    if t == "assistant"@ {
        MessageRole::Assistant
    } else if t == "system"@ {
        MessageRole::System
    } else if t == "tool"@ {
        MessageRole::Tool
    } else {
        MessageRole::User
    }
}

impl MessageRole {
    /// The lower-case name of this value.
    pub fn as_str(&self) -> (r: &'static str)
        ensures
            r@ == role_name(*self),
    {
        match self {
            MessageRole::User => "user",
            MessageRole::Assistant => "assistant",
            MessageRole::System => "system",
            MessageRole::Tool => "tool",
        }
    }

    /// The value named by `s`, which is already in lower case.
    pub fn from_lowercase(s: &str) -> (r: MessageRole)
        ensures
            r == role_from_lower(s@),
    {
        if same_text(s, "assistant") {
            MessageRole::Assistant
        } else if same_text(s, "system") {
            MessageRole::System
        } else if same_text(s, "tool") {
            MessageRole::Tool
        } else {
            MessageRole::User
        }
    }

    /// The value named by `s`, in any case.
    pub fn from_str(s: &str) -> (r: MessageRole)
        ensures
            r == role_from_lower(lowercase_of(s@)),
    {
        let lower = to_lowercase(s);
        MessageRole::from_lowercase(lower.as_str())
    }
}

/// A message as the store holds it.
#[derive(Debug, Clone)]
pub struct MessageRow {
    pub id: String,
    pub agent_id: String,
    pub role: String,
    pub content: String,
    pub token_count: Option<i32>,
    pub tool_name: Option<String>,
    pub tool_input: Option<String>,
    pub tool_output: Option<String>,
    pub created_at: String,
    pub is_complete: bool,
}

/// A message.
#[derive(Debug, Clone)]
pub struct Message {
    pub id: String,
    pub agent_id: String,
    pub role: MessageRole,
    pub content: String,
    pub token_count: Option<i32>,
    pub tool_name: Option<String>,
    pub tool_input: Option<String>,
    pub tool_output: Option<String>,
    pub created_at: String,
    pub is_complete: bool,
}

impl Message {
    /// The message a stored row holds; the role is read in any case.
    pub fn from_row(row: MessageRow) -> (r: Message)
        ensures
            r.id == row.id,
            r.agent_id == row.agent_id,
            r.role == role_from_lower(lowercase_of(row.role@)),
            r.content == row.content,
            r.token_count == row.token_count,
            r.tool_name == row.tool_name,
            r.tool_input == row.tool_input,
            r.tool_output == row.tool_output,
            r.created_at == row.created_at,
            r.is_complete == row.is_complete,
    {
        let role = MessageRole::from_str(row.role.as_str());
        Message {
            id: row.id,
            agent_id: row.agent_id,
            role,
            content: row.content,
            token_count: row.token_count,
            tool_name: row.tool_name,
            tool_input: row.tool_input,
            tool_output: row.tool_output,
            created_at: row.created_at,
            is_complete: row.is_complete,
        }
    }
}

/// Input for sending a message to an agent.
#[derive(Debug, Clone)]
pub struct SendMessageInput {
    pub content: String,
}

/// The answer to sending a message.
#[derive(Debug, Clone)]
pub struct SendMessageResponse {
    pub message_id: String,
    pub status: String,
    pub running: bool,
}

/// A page of messages.
#[derive(Debug, Clone)]
pub struct MessageListResponse {
    pub messages: Vec<Message>,
    pub has_more: bool,
    pub next_cursor: Option<String>,
}

} // verus!
