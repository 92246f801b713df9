//! Workspaces and their worktrees.
use vstd::prelude::*;

use crate::text::{lowercase_of, same_text, to_lowercase};
use crate::agent::Agent;

verus! {

/// How a worktree sorts its agents.
#[derive(PartialEq, Eq, Structural, Clone, Copy, Debug)]
pub enum SortMode {
    Free,
    Status,
    Name,
}

/// The lower-case name of a value of `SortMode`.
pub open spec fn sort_mode_name(x: SortMode) -> Seq<char> {
    match x {
        SortMode::Free => "free"@,
        SortMode::Status => "status"@,
        SortMode::Name => "name"@,
    }
}

/// The value a lower-case name stands for; any other name reads as `Free`.
pub open spec fn sort_mode_from_lower(t: Seq<char>) -> SortMode {
    if t == "status"@ {
        SortMode::Status
    } else if t == "name"@ {
        SortMode::Name
    } else {
        SortMode::Free
    }
}

impl SortMode {
    /// The lower-case name of this value.
    pub fn as_str(&self) -> (r: &'static str)
        ensures
            r@ == sort_mode_name(*self),
    {
        match self {
            SortMode::Free => "free",
            SortMode::Status => "status",
            SortMode::Name => "name",
        }
    }

    /// The value named by `s`, which is already in lower case.
    pub fn from_lowercase(s: &str) -> (r: SortMode)
        ensures
            r == sort_mode_from_lower(s@),
    {
        if same_text(s, "status") {
            SortMode::Status
        } else if same_text(s, "name") {
            SortMode::Name
        } else {
            SortMode::Free
        }
    }

    /// The value named by `s`, in any case.
    pub fn parse(s: &str) -> (r: SortMode)
        ensures
            r == sort_mode_from_lower(lowercase_of(s@)),
    {
        let lower = to_lowercase(s);
        SortMode::from_lowercase(lower.as_str())
    }
}

/// A workspace as the store holds it.
#[derive(Debug, Clone)]
pub struct WorkspaceRow {
    pub id: String,
    pub name: String,
    pub path: String,
    pub created_at: String,
    pub updated_at: String,
    pub worktree_count: i32,
    pub agent_count: i32,
}

/// A workspace: a repository directory and its counts.
#[derive(Debug, Clone)]
pub struct Workspace {
    pub id: String,
    pub name: String,
    pub path: String,
    pub created_at: String,
    pub updated_at: String,
    pub worktree_count: i32,
    pub agent_count: i32,
}

/// A workspace with its worktrees and their agents.
#[derive(Debug, Clone)]
pub struct WorkspaceWithDetails {
    pub workspace: Workspace,
    pub worktrees: Vec<WorktreeWithAgents>,
}

/// A worktree with its live and its deleted agents.
#[derive(Debug, Clone)]
pub struct WorktreeWithAgents {
    pub worktree: Worktree,
    pub agents: Vec<Agent>,
    pub previous_agents: Vec<Agent>,
}

/// Input for creating a workspace.
#[derive(Debug, Clone)]
pub struct CreateWorkspaceInput {
    pub path: String,
    pub name: Option<String>,
}

/// A list of workspaces.
#[derive(Debug, Clone)]
pub struct WorkspaceListResponse {
    pub workspaces: Vec<Workspace>,
}

/// A worktree as the store holds it.
#[derive(Debug, Clone)]
pub struct WorktreeRow {
    pub id: String,
    pub workspace_id: String,
    pub name: String,
    pub branch: String,
    pub path: String,
    pub sort_mode: String,
    pub display_order: i32,
    pub is_main: bool,
    pub created_at: String,
    pub updated_at: String,
}

/// A worktree: a checkout directory of a workspace.
#[derive(Debug, Clone)]
pub struct Worktree {
    pub id: String,
    pub workspace_id: String,
    pub name: String,
    pub branch: String,
    pub path: String,
    pub sort_mode: SortMode,
    pub display_order: i32,
    pub is_main: bool,
    pub created_at: String,
    pub updated_at: String,
}

impl Worktree {
    /// The worktree a stored row holds; the sort mode is read in any case.
    pub fn from_row(row: WorktreeRow) -> (r: Worktree)
        ensures
            r.id == row.id,
            r.workspace_id == row.workspace_id,
            r.name == row.name,
            r.branch == row.branch,
            r.path == row.path,
            r.sort_mode == sort_mode_from_lower(lowercase_of(row.sort_mode@)),
            r.display_order == row.display_order,
            r.is_main == row.is_main,
            r.created_at == row.created_at,
            r.updated_at == row.updated_at,
    {
        let sort_mode = SortMode::parse(row.sort_mode.as_str());
        Worktree {
            id: row.id,
            workspace_id: row.workspace_id,
            name: row.name,
            branch: row.branch,
            path: row.path,
            sort_mode,
            display_order: row.display_order,
            is_main: row.is_main,
            created_at: row.created_at,
            updated_at: row.updated_at,
        }
    }
}

/// Input for creating a worktree.
#[derive(Debug, Clone)]
pub struct CreateWorktreeInput {
    pub workspace_id: String,
    pub name: String,
    pub branch: String,
    pub path: Option<String>,
    pub create_branch: Option<bool>,
}

/// Input for updating a worktree.
#[derive(Debug, Clone)]
pub struct UpdateWorktreeInput {
    pub name: Option<String>,
    pub sort_mode: Option<SortMode>,
    pub display_order: Option<i32>,
}

/// Input for checking out a branch.
#[derive(Debug, Clone)]
pub struct CheckoutBranchInput {
    pub branch: String,
    pub create: Option<bool>,
}

/// Input for reordering worktrees: ids in their new order.
#[derive(Debug, Clone)]
pub struct ReorderWorktreesInput {
    pub worktree_ids: Vec<String>,
}

/// A list of worktrees.
#[derive(Debug, Clone)]
pub struct WorktreeListResponse {
    pub worktrees: Vec<Worktree>,
}

/// The branches of a repository.
#[derive(Debug, Clone)]
pub struct BranchInfo {
    pub local: Vec<String>,
    pub remote: Vec<String>,
    pub current: String,
}

/// The state of a checkout.
#[derive(Debug, Clone)]
pub struct GitStatusInfo {
    pub is_clean: bool,
    pub ahead: i32,
    pub behind: i32,
    pub modified: Vec<String>,
    pub staged: Vec<String>,
    pub untracked: Vec<String>,
}

/// A worktree as source control lists it.
#[derive(Debug, Clone)]
pub struct WorktreeInfo {
    pub path: String,
    pub branch: String,
    pub is_main: bool,
}

/// Why a workspace operation failed.
#[derive(Debug, Clone)]
pub enum WorkspaceError {
    NotFound(String),
    InvalidPath(String),
    Database(String),
    Git(String),
}

/// Why a worktree operation failed.
#[derive(Debug, Clone)]
pub enum WorktreeError {
    NotFound(String),
    WorkspaceNotFound(String),
    CannotDeleteMain,
    Database(String),
    Git(String),
}

} // verus!
