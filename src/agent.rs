//! Agents: their status, mode and permissions, and the record kept for each.
use vstd::prelude::*;

use crate::text::{same_text, to_lowercase, lowercase_of};

verus! {

/// Last observed status of an agent.
#[derive(PartialEq, Eq, Structural, Clone, Copy, Debug)]
pub enum AgentStatus {
    /// Not spawned, or at rest at its prompt.
    Idle,
    /// Producing output.
    Running,
    /// At rest, with a prompt that waits for the user.
    Waiting,
    /// Failed persistently.
    Error,
}

/// The lower-case name of a status.
pub open spec fn status_name(s: AgentStatus) -> Seq<char> {
    match s {
        AgentStatus::Idle => "idle"@,
        AgentStatus::Running => "running"@,
        AgentStatus::Waiting => "waiting"@,
        AgentStatus::Error => "error"@,
    }
}

/// The status a lower-case name stands for; any other name reads as `Idle`.
pub open spec fn status_from_lower(t: Seq<char>) -> AgentStatus {
    if t == "running"@ {
        AgentStatus::Running
    } else if t == "waiting"@ {
        AgentStatus::Waiting
    } else if t == "error"@ {
        AgentStatus::Error
    } else {
        AgentStatus::Idle
    }
}

impl AgentStatus {
    /// The lower-case name of this status.
    pub fn as_str(&self) -> (r: &'static str)
        ensures
            r@ == status_name(*self),
    {
        match self {
            AgentStatus::Idle => "idle",
            AgentStatus::Running => "running",
            AgentStatus::Waiting => "waiting",
            AgentStatus::Error => "error",
        }
    }

    /// The status named by `s`, which is already in lower case.
    pub fn from_lowercase(s: &str) -> (r: AgentStatus)
        ensures
            r == status_from_lower(s@),
    {
        if same_text(s, "running") {
            AgentStatus::Running
        } else if same_text(s, "waiting") {
            AgentStatus::Waiting
        } else if same_text(s, "error") {
            AgentStatus::Error
        } else {
            AgentStatus::Idle
        }
    }

    /// The status named by `s`, in any case.
    pub fn from_str(s: &str) -> (r: AgentStatus)
        ensures
            r == status_from_lower(lowercase_of(s@)),
    {
        let lower = to_lowercase(s);
        AgentStatus::from_lowercase(lower.as_str())
    }
}

/// How an agent runs.
#[derive(PartialEq, Eq, Structural, Clone, Copy, Debug)]
pub enum AgentMode {
    /// Runs without asking for permissions.
    Auto,
    /// Plans before acting.
    Plan,
    /// Asks for permissions it was not given.
    Regular,
}

/// The lower-case name of a mode.
pub open spec fn mode_name(m: AgentMode) -> Seq<char> {
    match m {
        AgentMode::Auto => "auto"@,
        AgentMode::Plan => "plan"@,
        AgentMode::Regular => "regular"@,
    }
}

/// The mode a lower-case name stands for; any other name reads as `Regular`.
pub open spec fn mode_from_lower(t: Seq<char>) -> AgentMode {
    if t == "auto"@ {
        AgentMode::Auto
    } else if t == "plan"@ {
        AgentMode::Plan
    } else {
        AgentMode::Regular
    }
}

impl AgentMode {
    /// The lower-case name of this mode.
    pub fn as_str(&self) -> (r: &'static str)
        ensures
            r@ == mode_name(*self),
    {
        match self {
            AgentMode::Auto => "auto",
            AgentMode::Plan => "plan",
            AgentMode::Regular => "regular",
        }
    }

    /// The mode named by `s`, which is already in lower case.
    pub fn from_lowercase(s: &str) -> (r: AgentMode)
        ensures
            r == mode_from_lower(s@),
    {
        if same_text(s, "auto") {
            AgentMode::Auto
        } else if same_text(s, "plan") {
            AgentMode::Plan
        } else {
            AgentMode::Regular
        }
    }

    /// The mode named by `s`, in any case.
    pub fn from_str(s: &str) -> (r: AgentMode)
        ensures
            r == mode_from_lower(lowercase_of(s@)),
    {
        let lower = to_lowercase(s);
        AgentMode::from_lowercase(lower.as_str())
    }
}

/// A permission that an agent may be given.
#[derive(PartialEq, Eq, Structural, Clone, Copy, Debug, Hash)]
pub enum Permission {
    Read,
    Write,
    Execute,
}

/// The lower-case name of a permission.
pub open spec fn permission_name(p: Permission) -> Seq<char> {
    match p {
        Permission::Read => "read"@,
        Permission::Write => "write"@,
        Permission::Execute => "execute"@,
    }
}

/// The permission an exact name stands for.
pub open spec fn permission_from_name(t: Seq<char>) -> Option<Permission> {
    if t == "read"@ {
        Some(Permission::Read)
    } else if t == "write"@ {
        Some(Permission::Write)
    } else if t == "execute"@ {
        Some(Permission::Execute)
    } else {
        None
    }
}

impl Permission {
    /// The lower-case name of this permission.
    pub fn as_str(&self) -> (r: &'static str)
        ensures
            r@ == permission_name(*self),
    {
        match self {
            Permission::Read => "read",
            Permission::Write => "write",
            Permission::Execute => "execute",
        }
    }

    /// The permission named exactly by `s`, if any.
    pub fn from_name(s: &str) -> (r: Option<Permission>)
        ensures
            r == permission_from_name(s@),
    {
        if same_text(s, "read") {
            Some(Permission::Read)
        } else if same_text(s, "write") {
            Some(Permission::Write)
        } else if same_text(s, "execute") {
            Some(Permission::Execute)
        } else {
            None
        }
    }
}

} // verus!

verus! {

/// The characters of an optional string.
pub open spec fn opt_view(o: Option<String>) -> Option<Seq<char>> {
    match o {
        Some(s) => Some(s@),
        None => None,
    }
}

/// An agent record as a mathematical value.
pub struct AgentView {
    pub id: Seq<char>,
    pub worktree_id: Seq<char>,
    pub name: Seq<char>,
    pub status: AgentStatus,
    pub context_level: i32,
    pub mode: AgentMode,
    pub permissions: Seq<Permission>,
    pub display_order: i32,
    pub pid: Option<i32>,
    pub session_id: Option<Seq<char>>,
    pub created_at: Seq<char>,
    pub updated_at: Seq<char>,
    pub started_at: Option<Seq<char>>,
    pub stopped_at: Option<Seq<char>>,
    pub deleted_at: Option<Seq<char>>,
    pub parent_agent_id: Option<Seq<char>>,
}

/// The durable record of an agent.
#[derive(Debug, Clone)]
pub struct Agent {
    pub id: String,
    pub worktree_id: String,
    pub name: String,
    pub status: AgentStatus,
    pub context_level: i32,
    pub mode: AgentMode,
    pub permissions: Vec<Permission>,
    pub display_order: i32,
    pub pid: Option<i32>,
    pub session_id: Option<String>,
    pub created_at: String,
    pub updated_at: String,
    pub started_at: Option<String>,
    pub stopped_at: Option<String>,
    pub deleted_at: Option<String>,
    pub parent_agent_id: Option<String>,
}

impl View for Agent {
    type V = AgentView;

    open spec fn view(&self) -> AgentView {
        AgentView {
            id: self.id@,
            worktree_id: self.worktree_id@,
            name: self.name@,
            status: self.status,
            context_level: self.context_level,
            mode: self.mode,
            permissions: self.permissions@,
            display_order: self.display_order,
            pid: self.pid,
            session_id: opt_view(self.session_id),
            created_at: self.created_at@,
            updated_at: self.updated_at@,
            started_at: opt_view(self.started_at),
            stopped_at: opt_view(self.stopped_at),
            deleted_at: opt_view(self.deleted_at),
            parent_agent_id: opt_view(self.parent_agent_id),
        }
    }
}

/// A copy of an optional string.
pub fn copy_opt(o: &Option<String>) -> (r: Option<String>)
    ensures
        opt_view(r) == opt_view(*o),
{
    match o {
        Some(s) => Some(s.clone()),
        None => None,
    }
}

/// A copy of a permission list.
pub fn copy_permissions(p: &Vec<Permission>) -> (r: Vec<Permission>)
    ensures
        r@ == p@,
{
    let mut out: Vec<Permission> = Vec::new();
    let mut i: usize = 0;
    while i < p.len()
        invariant
            i <= p@.len(),
            out@ == p@.subrange(0, i as int),
        decreases p.len() - i,
    {
        out.push(p[i]);
        i = i + 1;
        assert(out@ =~= p@.subrange(0, i as int));
    }
    assert(out@ =~= p@);
    out
}

impl Agent {
    /// A copy of this record.
    pub fn duplicate(&self) -> (r: Agent)
        ensures
            r@ == self@,
    {
        Agent {
            id: self.id.clone(),
            worktree_id: self.worktree_id.clone(),
            name: self.name.clone(),
            status: self.status,
            context_level: self.context_level,
            mode: self.mode,
            permissions: copy_permissions(&self.permissions),
            display_order: self.display_order,
            pid: self.pid,
            session_id: copy_opt(&self.session_id),
            created_at: self.created_at.clone(),
            updated_at: self.updated_at.clone(),
            started_at: copy_opt(&self.started_at),
            stopped_at: copy_opt(&self.stopped_at),
            deleted_at: copy_opt(&self.deleted_at),
            parent_agent_id: copy_opt(&self.parent_agent_id),
        }
    }
}

/// Input for creating an agent.
#[derive(Debug, Clone)]
pub struct CreateAgentInput {
    pub worktree_id: String,
    pub name: Option<String>,
    pub mode: Option<AgentMode>,
    pub permissions: Option<Vec<Permission>>,
    pub initial_prompt: Option<String>,
}

/// Input for updating an agent: each field present replaces the record's.
#[derive(Debug, Clone)]
pub struct UpdateAgentInput {
    pub name: Option<String>,
    pub mode: Option<AgentMode>,
    pub permissions: Option<Vec<Permission>>,
    pub display_order: Option<i32>,
}

/// A list of agents.
#[derive(Debug, Clone)]
pub struct AgentListResponse {
    pub agents: Vec<Agent>,
}

/// Input for reordering agents: ids in their new order.
#[derive(Debug, Clone)]
pub struct ReorderAgentsInput {
    pub agent_ids: Vec<String>,
}

} // verus!

verus! {

/// What `serde_json::from_str` makes of the text as a list of strings, where it is
/// one.
pub uninterp spec fn json_string_list(s: Seq<char>) -> Option<Seq<Seq<char>>>;

/// Relies on `serde_json::from_str::<Vec<String>>`: the strings of a JSON array of
/// strings, in order, or nothing where the text is not one.
#[verifier::external_body]
fn parse_string_list(s: &str) -> (r: Option<Vec<String>>)
    ensures
        match r {
            Some(v) => json_string_list(s@) == Some(v@.map_values(|x: String| x@)),
            None => json_string_list(s@) is None,
        },
{
    serde_json::from_str::<Vec<String>>(s).ok()
}

/// The permissions a list of names stands for, where every name is one.
pub open spec fn permissions_of_names(names: Seq<Seq<char>>) -> Option<Seq<Permission>>
    decreases names.len(),
{
    if names.len() == 0 {
        Some(Seq::empty())
    } else {
        match (permissions_of_names(names.drop_last()), permission_from_name(names.last())) {
            (Some(ps), Some(p)) => Some(ps.push(p)),
            _ => None,
        }
    }
}

/// The permissions stored as JSON text: the named ones where the text is an array of
/// permission names, else read access alone.
pub open spec fn permissions_from_json(parsed: Option<Seq<Seq<char>>>) -> Seq<Permission> {
    match parsed {
        Some(names) => match permissions_of_names(names) {
            Some(ps) => ps,
            None => seq![Permission::Read],
        },
        None => seq![Permission::Read],
    }
}

/// The permissions that `names` stand for, where every name is one.
pub fn permissions_from_names(names: &Vec<String>) -> (r: Option<Vec<Permission>>)
    ensures
        match r {
            Some(ps) => permissions_of_names(names@.map_values(|x: String| x@)) == Some(ps@),
            None => permissions_of_names(names@.map_values(|x: String| x@)) is None,
        },
{
    let ghost all = names@.map_values(|x: String| x@);
    let mut out: Vec<Permission> = Vec::new();
    let mut i: usize = 0;
    while i < names.len()
        invariant
            i <= names@.len(),
            all == names@.map_values(|x: String| x@),
            permissions_of_names(all.subrange(0, i as int)) == Some(out@),
        decreases names.len() - i,
    {
        assert(all.subrange(0, i as int + 1).drop_last() =~= all.subrange(0, i as int));
        match Permission::from_name(names[i].as_str()) {
            Some(p) => {
                out.push(p);
            },
            None => {
                proof {
                    lemma_names_prefix_fails(all, i as int + 1);
                }
                return None;
            },
        }
        i = i + 1;
    }
    assert(all.subrange(0, i as int) =~= all);
    Some(out)
}

/// Once a prefix of the names fails to read, the whole list does.
proof fn lemma_names_prefix_fails(all: Seq<Seq<char>>, n: int)
    requires
        0 <= n <= all.len(),
        permissions_of_names(all.subrange(0, n)) is None,
    ensures
        permissions_of_names(all) is None,
    decreases all.len() - n,
{
    if n < all.len() {
        assert(all.subrange(0, n + 1).drop_last() =~= all.subrange(0, n));
        lemma_names_prefix_fails(all, n + 1);
    } else {
        assert(all.subrange(0, n) =~= all);
    }
}

/// The permissions stored as JSON text `json`.
pub fn parse_permissions(json: &str) -> (r: Vec<Permission>)
    ensures
        r@ == permissions_from_json(json_string_list(json@)),
{
    match parse_string_list(json) {
        Some(names) => match permissions_from_names(&names) {
            Some(ps) => ps,
            None => vec![Permission::Read],
        },
        None => vec![Permission::Read],
    }
}

/// An agent record as the store holds it: status, mode and permissions as text.
#[derive(Debug, Clone)]
pub struct AgentRow {
    pub id: String,
    pub worktree_id: String,
    pub name: String,
    pub status: String,
    pub context_level: i32,
    pub mode: String,
    pub permissions: String,
    pub display_order: i32,
    pub pid: Option<i32>,
    pub session_id: Option<String>,
    pub created_at: String,
    pub updated_at: String,
    pub started_at: Option<String>,
    pub stopped_at: Option<String>,
    pub deleted_at: Option<String>,
    pub parent_agent_id: Option<String>,
}

impl Agent {
    /// The record a stored row holds: status and mode read in any case, permissions
    /// read from their JSON text.
    pub fn from_row(row: AgentRow) -> (r: Agent)
        ensures
            r@ == (AgentView {
                id: row.id@,
                worktree_id: row.worktree_id@,
                name: row.name@,
                status: status_from_lower(lowercase_of(row.status@)),
                context_level: row.context_level,
                mode: mode_from_lower(lowercase_of(row.mode@)),
                permissions: permissions_from_json(json_string_list(row.permissions@)),
                display_order: row.display_order,
                pid: row.pid,
                session_id: opt_view(row.session_id),
                created_at: row.created_at@,
                updated_at: row.updated_at@,
                started_at: opt_view(row.started_at),
                stopped_at: opt_view(row.stopped_at),
                deleted_at: opt_view(row.deleted_at),
                parent_agent_id: opt_view(row.parent_agent_id),
            }),
    {
        let status = AgentStatus::from_str(row.status.as_str());
        let mode = AgentMode::from_str(row.mode.as_str());
        let permissions = parse_permissions(row.permissions.as_str());
        Agent {
            id: row.id,
            worktree_id: row.worktree_id,
            name: row.name,
            status,
            context_level: row.context_level,
            mode,
            permissions,
            display_order: row.display_order,
            pid: row.pid,
            session_id: row.session_id,
            created_at: row.created_at,
            updated_at: row.updated_at,
            started_at: row.started_at,
            stopped_at: row.stopped_at,
            deleted_at: row.deleted_at,
            parent_agent_id: row.parent_agent_id,
        }
    }
}

} // verus!
