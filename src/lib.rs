//! Supervision of interactive command-line agents: each runs in a pseudo-terminal,
//! its output is kept in a bounded replay buffer and fanned out to viewers, and its
//! status is reconciled from process exit, inactivity with a prompt heuristic, and
//! lifecycle notifications the agent posts itself.
use vstd::prelude::*;

pub mod agent;
pub mod argv;
pub mod catalog;
pub mod hook;
pub mod message;
pub mod migration;
pub mod process;
pub mod prompt;
pub mod registry;
pub mod replay;
pub mod runtime;
pub mod text;
pub mod usage;
pub mod websocket;
pub mod workspace;

verus! {

} // verus!
