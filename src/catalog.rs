//! The agent catalog: the durable agent records of every worktree, with creation,
//! update, forking, soft delete and restore, permanent delete, and reordering.
//! Identifiers and timestamps are supplied by the caller.
use vstd::prelude::*;

use crate::agent::{
    copy_opt, copy_permissions, opt_view, Agent, AgentMode, AgentStatus, AgentView, Permission,
    UpdateAgentInput,
};
use crate::process::ProcessError;
use crate::text::same_text;

verus! {

/// Why a catalog operation failed.
#[derive(Debug, Clone)]
pub enum AgentError {
    NotFound(String),
    Database(String),
    Process(ProcessError),
    Validation(String),
}

/// No two records of `s` have the same id.
pub open spec fn unique_ids(s: Seq<AgentView>) -> bool {
    forall|x: int, y: int| 0 <= x < y < s.len() ==> #[trigger] s[x].id != #[trigger] s[y].id
}

/// Where the last record with `id` stands in `s`.
pub open spec fn index_of(s: Seq<AgentView>, id: Seq<char>) -> Option<int>
    decreases s.len(),
{
    if s.len() == 0 {
        None
    } else if s.last().id == id {
        Some(s.len() - 1)
    } else {
        index_of(s.drop_last(), id)
    }
}

/// Where `id` last stands in the list `ids`.
pub open spec fn last_position(ids: Seq<Seq<char>>, id: Seq<char>) -> Option<int>
    decreases ids.len(),
{
    if ids.len() == 0 {
        None
    } else if ids.last() == id {
        Some(ids.len() - 1)
    } else {
        last_position(ids.drop_last(), id)
    }
}

/// The record is listed for worktree `wt`: it belongs there, and is not soft-deleted
/// unless deleted records are asked for.
pub open spec fn listed(a: AgentView, wt: Seq<char>, include_deleted: bool) -> bool {
    a.worktree_id == wt && (include_deleted || a.deleted_at is None)
}

/// The records of `s` listed for `wt`, in catalog order.
pub open spec fn listing(s: Seq<AgentView>, wt: Seq<char>, include_deleted: bool) -> Seq<AgentView>
    decreases s.len(),
{
    if s.len() == 0 {
        Seq::empty()
    } else if listed(s.last(), wt, include_deleted) {
        listing(s.drop_last(), wt, include_deleted).push(s.last())
    } else {
        listing(s.drop_last(), wt, include_deleted)
    }
}

/// `s`, which is in display order, with `a` placed after every record whose display
/// order is not larger.
pub open spec fn insert_by_order(s: Seq<AgentView>, a: AgentView) -> Seq<AgentView>
    decreases s.len(),
{
    if s.len() == 0 {
        seq![a]
    } else if s.last().display_order <= a.display_order {
        s.push(a)
    } else {
        insert_by_order(s.drop_last(), a).push(s.last())
    }
}

/// `s` sorted by display order; records with equal display orders keep their order.
pub open spec fn sort_by_order(s: Seq<AgentView>) -> Seq<AgentView>
    decreases s.len(),
{
    if s.len() == 0 {
        Seq::empty()
    } else {
        insert_by_order(sort_by_order(s.drop_last()), s.last())
    }
}

/// Inserting at the place past the last record that is not larger is `insert_by_order`.
proof fn lemma_insert_by_order_at(s: Seq<AgentView>, a: AgentView, p: int)
    requires
        0 <= p <= s.len(),
        forall|k: int| p <= k < s.len() ==> s[k].display_order > a.display_order,
        p == 0 || s[p - 1].display_order <= a.display_order,
    ensures
        insert_by_order(s, a) == s.insert(p, a),
    decreases s.len() - p,
{
    if p == s.len() {
        if s.len() == 0 {
            assert(s.insert(p, a) =~= seq![a]);
        } else {
            assert(s.insert(p, a) =~= s.push(a));
        }
    } else {
        let d = s.drop_last();
        assert forall|k: int| p <= k < d.len() implies d[k].display_order > a.display_order by {
            assert(d[k] == s[k]);
        }
        if p > 0 {
            assert(d[p - 1] == s[p - 1]);
        }
        lemma_insert_by_order_at(d, a, p);
        assert(d.insert(p, a).push(s.last()) =~= s.insert(p, a));
    }
}

/// The characters of each id.
pub open spec fn id_views(ids: Seq<String>) -> Seq<Seq<char>> {
    ids.map_values(|s: String| s@)
}

/// `a` once reordering by `ids` in worktree `wt` has passed over it: its display
/// order becomes the last position of its id in `ids`.
pub open spec fn reordered(a: AgentView, wt: Seq<char>, ids: Seq<Seq<char>>) -> AgentView {
    if a.worktree_id == wt && last_position(ids, a.id) is Some {
        AgentView { display_order: last_position(ids, a.id).unwrap() as i32, ..a }
    } else {
        a
    }
}

/// The record that a fork of `parent` named `name` makes, with id `id` at time `now`.
pub open spec fn forked(parent: AgentView, id: Seq<char>, name: Option<Seq<char>>, now: Seq<char>) -> AgentView {
    AgentView {
        id,
        worktree_id: parent.worktree_id,
        name: match name {
            Some(n) => n,
            None => parent.name + " (fork)"@,
        },
        status: AgentStatus::Idle,
        context_level: 0,
        mode: parent.mode,
        permissions: parent.permissions,
        display_order: (parent.display_order + 1) as i32,
        pid: None,
        session_id: parent.session_id,
        created_at: now,
        updated_at: now,
        started_at: None,
        stopped_at: None,
        deleted_at: None,
        parent_agent_id: Some(parent.id),
    }
}

/// `a` with the fields of `input` that are present.
pub open spec fn updated(a: AgentView, input: UpdateAgentInput, now: Seq<char>) -> AgentView {
    AgentView {
        name: match input.name {
            Some(n) => n@,
            None => a.name,
        },
        mode: match input.mode {
            Some(m) => m,
            None => a.mode,
        },
        permissions: match input.permissions {
            Some(p) => p@,
            None => a.permissions,
        },
        display_order: match input.display_order {
            Some(d) => d,
            None => a.display_order,
        },
        updated_at: now,
        ..a
    }
}

/// The name a new agent gets: `name` where given, else `Agent` and the time of day
/// `clock` (hours and minutes).
pub fn agent_name_or_default(name: Option<String>, clock: &str) -> (r: String)
    ensures
        r@ == match name {
            Some(n) => n@,
            None => "Agent "@ + clock@,
        },
{
    match name {
        Some(n) => n,
        None => "Agent ".to_owned().concat(clock),
    }
}

/// The agent catalog.
pub struct AgentCatalog {
    agents: Vec<Agent>,
}

impl View for AgentCatalog {
    type V = Seq<AgentView>;

    closed spec fn view(&self) -> Seq<AgentView> {
        self.agents@.map_values(|a: Agent| a@)
    }
}

/// Two record lists with the same ids at every place find each id at the same place.
proof fn lemma_same_ids_same_index(s: Seq<AgentView>, t: Seq<AgentView>, id: Seq<char>)
    requires
        s.len() == t.len(),
        forall|k: int| 0 <= k < s.len() ==> s[k].id == t[k].id,
    ensures
        index_of(s, id) == index_of(t, id),
    decreases s.len(),
{
    if s.len() > 0 {
        lemma_same_ids_same_index(s.drop_last(), t.drop_last(), id);
    }
}

proof fn lemma_index_of_bounds(s: Seq<AgentView>, id: Seq<char>)
    ensures
        index_of(s, id) matches Some(i) ==> 0 <= i < s.len() && s[i].id == id,
        index_of(s, id) is None ==> forall|k: int| 0 <= k < s.len() ==> s[k].id != id,
    decreases s.len(),
{
    if s.len() > 0 {
        let d = s.drop_last();
        lemma_index_of_bounds(d, id);
        if s.last().id != id && index_of(d, id) is None {
            assert forall|k: int| 0 <= k < s.len() implies s[k].id != id by {
                if k < s.len() - 1 {
                    assert(s[k] == d[k]);
                }
            }
        }
    }
}

proof fn lemma_index_of_push(s: Seq<AgentView>, a: AgentView, id: Seq<char>)
    requires
        a.id != id,
    ensures
        index_of(s.push(a), id) == index_of(s, id),
{
    assert(s.push(a).drop_last() =~= s);
}

proof fn lemma_last_position_bounds(ids: Seq<Seq<char>>, id: Seq<char>)
    ensures
        last_position(ids, id) matches Some(k) ==> 0 <= k < ids.len() && ids[k] == id
            && forall|m: int| k < m < ids.len() ==> ids[m] != id,
        last_position(ids, id) is None ==> forall|m: int| 0 <= m < ids.len() ==> ids[m] != id,
    decreases ids.len(),
{
    if ids.len() > 0 {
        let d = ids.drop_last();
        lemma_last_position_bounds(d, id);
        if ids.last() != id {
            match last_position(d, id) {
                Some(k) => {
                    assert(ids[k] == d[k]);
                    assert forall|m: int| k < m < ids.len() implies ids[m] != id by {
                        if m < ids.len() - 1 {
                            assert(ids[m] == d[m]);
                        }
                    }
                },
                None => {
                    assert forall|m: int| 0 <= m < ids.len() implies ids[m] != id by {
                        if m < ids.len() - 1 {
                            assert(ids[m] == d[m]);
                        }
                    }
                },
            }
        }
    }
}

impl AgentCatalog {
    /// An empty catalog.
    pub fn new() -> (r: AgentCatalog)
        ensures
            r@ == Seq::<AgentView>::empty(),
            unique_ids(r@),
    {
        let r = AgentCatalog { agents: Vec::new() };
        assert(r@ =~= Seq::<AgentView>::empty());
        r
    }

    /// Where the record with `id` stands.
    fn position(&self, id: &str) -> (r: Option<usize>)
        ensures
            r matches Some(i) ==> index_of(self@, id@) == Some(i as int) && i < self.agents@.len(),
            r is None ==> index_of(self@, id@) is None,
    {
        let mut i: usize = self.agents.len();
        assert(self@.subrange(0, i as int) =~= self@);
        while i > 0
            invariant
                i <= self.agents@.len(),
                index_of(self@, id@) == index_of(self@.subrange(0, i as int), id@),
            decreases i,
        {
            let ghost pre = self@.subrange(0, i as int);
            assert(pre.drop_last() =~= self@.subrange(0, i - 1));
            if same_text(self.agents[i - 1].id.as_str(), id) {
                return Some(i - 1);
            }
            i = i - 1;
        }
        None
    }

    /// The record with `id`.
    pub fn get_agent(&self, id: &str) -> (r: Result<Agent, AgentError>)
        ensures
            r is Ok <==> index_of(self@, id@) is Some,
            r matches Ok(a) ==> a@ == self@[index_of(self@, id@).unwrap()],
            r matches Err(e) ==> (e matches AgentError::NotFound(s) && s@ == id@),
    {
        match self.position(id) {
            Some(i) => Ok(self.agents[i].duplicate()),
            None => Err(AgentError::NotFound(id.to_owned())),
        }
    }

    /// Adds a record. Refused where its id is taken.
    pub fn insert(&mut self, agent: Agent) -> (r: Result<(), AgentError>)
        ensures
            unique_ids(old(self)@) ==> unique_ids(final(self)@),
            r is Ok <==> index_of(old(self)@, agent.id@) is None,
            r is Ok ==> final(self)@ == old(self)@.push(agent@),
            r is Err ==> final(self)@ == old(self)@,
    {
        match self.position(agent.id.as_str()) {
            Some(_) => Err(AgentError::Database(agent.id)),
            None => {
                let ghost a = agent@;
                proof {
                    lemma_index_of_bounds(self@, a.id);
                }
                self.agents.push(agent);
                assert(self@ =~= old(self)@.push(a));
                proof {
                    if unique_ids(old(self)@) {
                        assert forall|x: int, y: int| 0 <= x < y < self@.len() implies #[trigger] self@[x].id
                            != #[trigger] self@[y].id by {
                            if y == self@.len() - 1 {
                                assert(old(self)@[x].id != a.id);
                            } else {
                                assert(old(self)@[x].id != old(self)@[y].id);
                            }
                        }
                    }
                }
                Ok(())
            },
        }
    }

    /// Creates an idle record in worktree `worktree_id` with id `id`, created at `now`.
    pub fn create_agent(
        &mut self,
        id: String,
        worktree_id: &str,
        name: String,
        mode: AgentMode,
        permissions: Vec<Permission>,
        now: &str,
    ) -> (r: Result<Agent, AgentError>)
        ensures
            unique_ids(old(self)@) ==> unique_ids(final(self)@),
            r is Ok <==> index_of(old(self)@, id@) is None,
            r matches Ok(a) ==> {
                &&& final(self)@ == old(self)@.push(a@)
                &&& a@ == AgentView {
                    id: id@,
                    worktree_id: worktree_id@,
                    name: name@,
                    status: AgentStatus::Idle,
                    context_level: 0,
                    mode,
                    permissions: permissions@,
                    display_order: 0,
                    pid: None,
                    session_id: None,
                    created_at: now@,
                    updated_at: now@,
                    started_at: None,
                    stopped_at: None,
                    deleted_at: None,
                    parent_agent_id: None,
                }
            },
            r is Err ==> final(self)@ == old(self)@,
    {
        let agent = Agent {
            id,
            worktree_id: worktree_id.to_owned(),
            name,
            status: AgentStatus::Idle,
            context_level: 0,
            mode,
            permissions,
            display_order: 0,
            pid: None,
            session_id: None,
            created_at: now.to_owned(),
            updated_at: now.to_owned(),
            started_at: None,
            stopped_at: None,
            deleted_at: None,
            parent_agent_id: None,
        };
        let copy = agent.duplicate();
        match self.insert(agent) {
            Ok(()) => Ok(copy),
            Err(e) => Err(e),
        }
    }

    /// The records of worktree `worktree_id`, soft-deleted ones only when asked for,
    /// sorted by display order.
    pub fn list_agents(&self, worktree_id: &str, include_deleted: bool) -> (r: Vec<Agent>)
        ensures
            r@.map_values(|a: Agent| a@) == sort_by_order(listing(self@, worktree_id@, include_deleted)),
            in_display_order(r@.map_values(|a: Agent| a@)),
    {
        proof {
            lemma_sort_sorted(listing(self@, worktree_id@, include_deleted));
        }
        let found = self.select(worktree_id, include_deleted);
        let mut out: Vec<Agent> = Vec::new();
        let ghost src = found@.map_values(|a: Agent| a@);
        let mut i: usize = 0;
        while i < found.len()
            invariant
                i <= found@.len(),
                src == found@.map_values(|a: Agent| a@),
                out@.map_values(|a: Agent| a@) == sort_by_order(src.subrange(0, i as int)),
            decreases found.len() - i,
        {
            let ghost before = out@.map_values(|a: Agent| a@);
            assert(src.subrange(0, i as int + 1).drop_last() =~= src.subrange(0, i as int));
            let a = found[i].duplicate();
            let mut p: usize = out.len();
            while p > 0 && out[p - 1].display_order > a.display_order
                invariant
                    p <= out@.len(),
                    before == out@.map_values(|a: Agent| a@),
                    forall|k: int| p <= k < out@.len() ==> out@[k].display_order > a.display_order,
                decreases p,
            {
                p = p - 1;
            }
            proof {
                lemma_insert_by_order_at(before, a@, p as int);
            }
            let ghost av = a@;
            out.insert(p, a);
            assert(out@.map_values(|a: Agent| a@) =~= before.insert(p as int, av));
            i = i + 1;
        }
        assert(src.subrange(0, i as int) =~= src);
        out
    }

    /// The records of worktree `worktree_id`, soft-deleted ones only when asked for,
    /// in catalog order.
    fn select(&self, worktree_id: &str, include_deleted: bool) -> (r: Vec<Agent>)
        ensures
            r@.map_values(|a: Agent| a@) == listing(self@, worktree_id@, include_deleted),
    {
        let mut out: Vec<Agent> = Vec::new();
        let mut i: usize = 0;
        while i < self.agents.len()
            invariant
                i <= self.agents@.len(),
                out@.map_values(|a: Agent| a@) == listing(self@.subrange(0, i as int), worktree_id@, include_deleted),
            decreases self.agents.len() - i,
        {
            let ghost pre = self@.subrange(0, i as int + 1);
            assert(pre.drop_last() =~= self@.subrange(0, i as int));
            let a = &self.agents[i];
            let keep = same_text(a.worktree_id.as_str(), worktree_id) && (include_deleted || a.deleted_at.is_none());
            if keep {
                let ghost before = out@;
                out.push(a.duplicate());
                assert(out@.map_values(|a: Agent| a@) =~= before.map_values(|a: Agent| a@).push(self@[i as int]));
            }
            i = i + 1;
        }
        assert(self@.subrange(0, i as int) =~= self@);
        out
    }

    /// Replaces the record at place `i` by `a`, whose id is the same.
    fn replace_at(&mut self, i: usize, a: Agent)
        requires
            i < old(self).agents@.len(),
            a.id@ == old(self)@[i as int].id,
        ensures
            unique_ids(old(self)@) ==> unique_ids(final(self)@),
            final(self)@ == old(self)@.update(i as int, a@),
            final(self).agents@.len() == old(self).agents@.len(),
    {
        let ghost v = a@;
        self.agents.set(i, a);
        assert(self@ =~= old(self)@.update(i as int, v));
        proof {
            if unique_ids(old(self)@) {
                assert forall|x: int, y: int| 0 <= x < y < self@.len() implies #[trigger] self@[x].id
                    != #[trigger] self@[y].id by {
                    assert(self@[x].id == old(self)@[x].id);
                    assert(self@[y].id == old(self)@[y].id);
                }
            }
        }
    }

    /// Applies the present fields of `input` to the record with `id`, at `now`.
    pub fn update_agent(&mut self, id: &str, input: UpdateAgentInput, now: &str) -> (r: Result<Agent, AgentError>)
        ensures
            unique_ids(old(self)@) ==> unique_ids(final(self)@),
            r is Ok <==> index_of(old(self)@, id@) is Some,
            r matches Ok(a) ==> {
                let i = index_of(old(self)@, id@).unwrap();
                &&& a@ == updated(old(self)@[i], input, now@)
                &&& final(self)@ == old(self)@.update(i, a@)
            },
            r is Err ==> final(self)@ == old(self)@,
    {
        let i = match self.position(id) {
            Some(i) => i,
            None => {
                return Err(AgentError::NotFound(id.to_owned()));
            },
        };
        let mut a = self.agents[i].duplicate();
        match input.name {
            Some(n) => {
                a.name = n;
            },
            None => {},
        }
        match input.mode {
            Some(m) => {
                a.mode = m;
            },
            None => {},
        }
        match input.permissions {
            Some(p) => {
                a.permissions = p;
            },
            None => {},
        }
        match input.display_order {
            Some(d) => {
                a.display_order = d;
            },
            None => {},
        }
        a.updated_at = now.to_owned();
        let copy = a.duplicate();
        proof {
            lemma_index_of_bounds(self@, id@);
        }
        self.replace_at(i, a);
        Ok(copy)
    }

    /// Records the status and process id of the agent with `id`, at `now`.
    pub fn update_status(&mut self, id: &str, status: AgentStatus, pid: Option<i32>, now: &str) -> (r: Result<(), AgentError>)
        ensures
            unique_ids(old(self)@) ==> unique_ids(final(self)@),
            r is Ok <==> index_of(old(self)@, id@) is Some,
            r is Ok ==> {
                let i = index_of(old(self)@, id@).unwrap();
                final(self)@ == old(self)@.update(i, AgentView { status, pid, updated_at: now@, ..old(self)@[i] })
            },
            r is Err ==> final(self)@ == old(self)@,
    {
        let i = match self.position(id) {
            Some(i) => i,
            None => {
                return Err(AgentError::NotFound(id.to_owned()));
            },
        };
        let mut a = self.agents[i].duplicate();
        a.status = status;
        a.pid = pid;
        a.updated_at = now.to_owned();
        proof {
            lemma_index_of_bounds(self@, id@);
        }
        self.replace_at(i, a);
        Ok(())
    }

    /// Records the session token of the agent with `id`, for resuming it, at `now`.
    pub fn update_session_id(&mut self, id: &str, session_id: &str, now: &str) -> (r: Result<(), AgentError>)
        ensures
            unique_ids(old(self)@) ==> unique_ids(final(self)@),
            r is Ok <==> index_of(old(self)@, id@) is Some,
            r is Ok ==> {
                let i = index_of(old(self)@, id@).unwrap();
                final(self)@ == old(self)@.update(i, AgentView { session_id: Some(session_id@), updated_at: now@, ..old(self)@[i] })
            },
            r is Err ==> final(self)@ == old(self)@,
    {
        let i = match self.position(id) {
            Some(i) => i,
            None => {
                return Err(AgentError::NotFound(id.to_owned()));
            },
        };
        let mut a = self.agents[i].duplicate();
        a.session_id = Some(session_id.to_owned());
        a.updated_at = now.to_owned();
        proof {
            lemma_index_of_bounds(self@, id@);
        }
        self.replace_at(i, a);
        Ok(())
    }

    /// Marks the record with `id` deleted at `now`; it stays restorable.
    pub fn soft_delete(&mut self, id: &str, now: &str) -> (r: Result<(), AgentError>)
        ensures
            unique_ids(old(self)@) ==> unique_ids(final(self)@),
            r is Ok <==> index_of(old(self)@, id@) is Some,
            r is Ok ==> {
                let i = index_of(old(self)@, id@).unwrap();
                final(self)@ == old(self)@.update(
                    i,
                    AgentView { deleted_at: Some(now@), updated_at: now@, ..old(self)@[i] },
                )
            },
            r is Err ==> final(self)@ == old(self)@,
    {
        let i = match self.position(id) {
            Some(i) => i,
            None => {
                return Err(AgentError::NotFound(id.to_owned()));
            },
        };
        let mut a = self.agents[i].duplicate();
        a.deleted_at = Some(now.to_owned());
        a.updated_at = now.to_owned();
        proof {
            lemma_index_of_bounds(self@, id@);
        }
        self.replace_at(i, a);
        Ok(())
    }

    /// Clears the deletion mark of the record with `id`, at `now`.
    pub fn restore_agent(&mut self, id: &str, now: &str) -> (r: Result<Agent, AgentError>)
        ensures
            unique_ids(old(self)@) ==> unique_ids(final(self)@),
            r is Ok <==> index_of(old(self)@, id@) is Some,
            r matches Ok(a) ==> {
                let i = index_of(old(self)@, id@).unwrap();
                &&& a@ == AgentView { deleted_at: None, updated_at: now@, ..old(self)@[i] }
                &&& final(self)@ == old(self)@.update(i, a@)
            },
            r is Err ==> final(self)@ == old(self)@,
    {
        let i = match self.position(id) {
            Some(i) => i,
            None => {
                return Err(AgentError::NotFound(id.to_owned()));
            },
        };
        let mut a = self.agents[i].duplicate();
        a.deleted_at = None;
        a.updated_at = now.to_owned();
        let copy = a.duplicate();
        proof {
            lemma_index_of_bounds(self@, id@);
        }
        self.replace_at(i, a);
        Ok(copy)
    }

    /// Removes the record with `id` for good.
    pub fn hard_delete(&mut self, id: &str) -> (r: Result<(), AgentError>)
        ensures
            unique_ids(old(self)@) ==> unique_ids(final(self)@),
            r is Ok <==> index_of(old(self)@, id@) is Some,
            r is Ok ==> final(self)@ == old(self)@.remove(index_of(old(self)@, id@).unwrap()),
            r is Err ==> final(self)@ == old(self)@,
    {
        let i = match self.position(id) {
            Some(i) => i,
            None => {
                return Err(AgentError::NotFound(id.to_owned()));
            },
        };
        let _gone = self.agents.remove(i);
        assert(self@ =~= old(self)@.remove(i as int));
        proof {
            if unique_ids(old(self)@) {
                assert forall|x: int, y: int| 0 <= x < y < self@.len() implies #[trigger] self@[x].id
                    != #[trigger] self@[y].id by {
                    let x0 = if x < i { x } else { x + 1 };
                    let y0 = if y < i { y } else { y + 1 };
                    assert(self@[x] == old(self)@[x0]);
                    assert(self@[y] == old(self)@[y0]);
                    assert(old(self)@[x0].id != old(self)@[y0].id);
                }
            }
        }
        Ok(())
    }

    /// Deletes the record with `id`: soft when `archive` holds, else for good.
    pub fn delete_agent(&mut self, id: &str, archive: bool, now: &str) -> (r: Result<(), AgentError>)
        ensures
            unique_ids(old(self)@) ==> unique_ids(final(self)@),
            r is Ok <==> index_of(old(self)@, id@) is Some,
            r is Ok ==> {
                let i = index_of(old(self)@, id@).unwrap();
                final(self)@ == if archive {
                    old(self)@.update(i, AgentView { deleted_at: Some(now@), updated_at: now@, ..old(self)@[i] })
                } else {
                    old(self)@.remove(i)
                }
            },
            r is Err ==> final(self)@ == old(self)@,
    {
        if archive {
            self.soft_delete(id, now)
        } else {
            self.hard_delete(id)
        }
    }

    /// Forks the record with id `parent_id` into a new idle record with id `id`,
    /// created at `now`: same worktree, mode, permissions and session token, display
    /// order one past the parent's, `name` or the parent's name with " (fork)", and
    /// the parent named. Refused where the parent is missing, `id` is taken, or the
    /// parent's display order is the largest there is.
    pub fn fork_agent(&mut self, parent_id: &str, id: String, name: Option<String>, now: &str) -> (r:
        Result<Agent, AgentError>)
        ensures
            unique_ids(old(self)@) ==> unique_ids(final(self)@),
            r is Ok <==> (index_of(old(self)@, parent_id@) is Some && index_of(old(self)@, id@) is None
                && old(self)@[index_of(old(self)@, parent_id@).unwrap()].display_order < i32::MAX),
            index_of(old(self)@, parent_id@) is None ==> (r matches Err(e) && (e matches AgentError::NotFound(s) && s@ == parent_id@)),
            r matches Ok(a) ==> {
                &&& a@ == forked(old(self)@[index_of(old(self)@, parent_id@).unwrap()], id@, opt_view(name), now@)
                &&& final(self)@ == old(self)@.push(a@)
            },
            r is Err ==> final(self)@ == old(self)@,
    {
        let i = match self.position(parent_id) {
            Some(i) => i,
            None => {
                return Err(AgentError::NotFound(parent_id.to_owned()));
            },
        };
        proof {
            lemma_index_of_bounds(self@, parent_id@);
        }
        let parent = &self.agents[i];
        if parent.display_order == i32::MAX {
            return Err(AgentError::Validation(parent_id.to_owned()));
        }
        let child_name = match name {
            Some(n) => n,
            None => parent.name.clone().concat(" (fork)"),
        };
        let child = Agent {
            id,
            worktree_id: parent.worktree_id.clone(),
            name: child_name,
            status: AgentStatus::Idle,
            context_level: 0,
            mode: parent.mode,
            permissions: copy_permissions(&parent.permissions),
            display_order: parent.display_order + 1,
            pid: None,
            session_id: copy_opt(&parent.session_id),
            created_at: now.to_owned(),
            updated_at: now.to_owned(),
            started_at: None,
            stopped_at: None,
            deleted_at: None,
            parent_agent_id: Some(parent.id.clone()),
        };
        let copy = child.duplicate();
        match self.insert(child) {
            Ok(()) => Ok(copy),
            Err(e) => Err(e),
        }
    }

    /// Sets the display order of each record of worktree `worktree_id` whose id is in
    /// `agent_ids` to the (last) position of its id there, at `now`. Returns the
    /// worktree's records that are not deleted.
    pub fn reorder_agents(&mut self, worktree_id: &str, agent_ids: &[String]) -> (r: Vec<Agent>)
        requires
            agent_ids@.len() <= i32::MAX,
        ensures
            unique_ids(old(self)@) ==> unique_ids(final(self)@),
            final(self)@.len() == old(self)@.len(),
            forall|j: int| 0 <= j < old(self)@.len() ==> #[trigger] final(self)@[j] == reordered(
                old(self)@[j],
                worktree_id@,
                id_views(agent_ids@),
            ),
            r@.map_values(|a: Agent| a@) == sort_by_order(listing(final(self)@, worktree_id@, false)),
            in_display_order(r@.map_values(|a: Agent| a@)),
    {
        let ghost ids = id_views(agent_ids@);
        let mut j: usize = 0;
        while j < self.agents.len()
            invariant
                j <= self.agents@.len(),
                self.agents@.len() == old(self).agents@.len(),
                ids == id_views(agent_ids@),
                agent_ids@.len() <= i32::MAX,
                forall|k: int| 0 <= k < j ==> #[trigger] self@[k] == reordered(old(self)@[k], worktree_id@, ids),
                unique_ids(old(self)@) ==> unique_ids(self@),
                forall|k: int| j <= k < self.agents@.len() ==> #[trigger] self@[k] == old(self)@[k],
            decreases self.agents.len() - j,
        {
            if same_text(self.agents[j].worktree_id.as_str(), worktree_id) {
                let mut k: usize = agent_ids.len();
                let mut found = false;
                assert(ids.subrange(0, k as int) =~= ids);
                while k > 0 && !found
                    invariant
                        k <= agent_ids@.len(),
                        ids == id_views(agent_ids@),
                        j < self.agents@.len(),
                        !found ==> last_position(ids, self@[j as int].id) == last_position(ids.subrange(0, k as int), self@[j as int].id),
                        found ==> k < agent_ids@.len() && last_position(ids, self@[j as int].id) == Some(k as int),
                    decreases k + if found { 0int } else { 1int },
                {
                    let ghost pre = ids.subrange(0, k as int);
                    assert(pre.drop_last() =~= ids.subrange(0, k - 1));
                    if same_text(agent_ids[k - 1].as_str(), self.agents[j].id.as_str()) {
                        found = true;
                    }
                    k = k - 1;
                }
                if found {
                    let mut a = self.agents[j].duplicate();
                    a.display_order = k as i32;
                    let ghost target = reordered(old(self)@[j as int], worktree_id@, ids);
                    self.replace_at(j, a);
                    assert(self@[j as int] == target);
                } else {
                    proof {
                        assert(ids.subrange(0, 0) =~= Seq::<Seq<char>>::empty());
                    }
                }
            }
            j = j + 1;
        }
        self.list_agents(worktree_id, false)
    }
}

/// Some record of worktree `wt` in `s` has display order `k`.
pub open spec fn order_taken(s: Seq<AgentView>, wt: Seq<char>, k: int) -> bool {
    exists|j: int| 0 <= j < s.len() && (#[trigger] s[j]).worktree_id == wt && s[j].display_order == k as i32
}

/// In a list without repeats, an id's last position is its only one.
pub proof fn lemma_last_position_distinct(ids: Seq<Seq<char>>, k: int)
    requires
        ids.no_duplicates(),
        0 <= k < ids.len(),
    ensures
        last_position(ids, ids[k]) == Some(k),
{
    lemma_last_position_bounds(ids, ids[k]);
    match last_position(ids, ids[k]) {
        Some(m) => {
            if m != k {
                assert(ids[m] == ids[k]);
            }
        },
        None => {
            assert(ids[k] == ids[k]);
        },
    }
}

/// Reordering a worktree's records by a list `ids` of distinct ids gives each record
/// named there its position in the list. Where the list names each record of the
/// worktree exactly once, their display orders are then a permutation of
/// `0 .. ids.len()`: each lies in that range, no two are equal, and each value is taken.
pub proof fn lemma_reorder_is_permutation(
    before: Seq<AgentView>,
    after: Seq<AgentView>,
    wt: Seq<char>,
    ids: Seq<Seq<char>>,
)
    requires
        ids.len() <= i32::MAX,
        ids.no_duplicates(),
        after.len() == before.len(),
        forall|j: int| 0 <= j < before.len() ==> #[trigger] after[j] == reordered(before[j], wt, ids),
    ensures
        forall|j: int, k: int|
            0 <= j < after.len() && 0 <= k < ids.len() && after[j].worktree_id == wt
                && #[trigger] after[j].id == #[trigger] ids[k] ==> after[j].display_order == k,
        (forall|j: int| 0 <= j < before.len() && before[j].worktree_id == wt ==> ids.contains(#[trigger] before[j].id))
            ==> forall|j: int| 0 <= j < after.len() && #[trigger] after[j].worktree_id == wt
                ==> 0 <= after[j].display_order < ids.len(),
        (forall|j1: int, j2: int| 0 <= j1 < j2 < before.len() && before[j1].worktree_id == wt
            && before[j2].worktree_id == wt ==> #[trigger] before[j1].id != #[trigger] before[j2].id)
            ==> forall|j1: int, j2: int| 0 <= j1 < j2 < after.len() && after[j1].worktree_id == wt
                && after[j2].worktree_id == wt && ids.contains(#[trigger] after[j1].id)
                && ids.contains(#[trigger] after[j2].id) ==> after[j1].display_order != after[j2].display_order,
        (forall|k: int| 0 <= k < ids.len() ==> exists|j: int| 0 <= j < before.len()
            && before[j].worktree_id == wt && #[trigger] before[j].id == #[trigger] ids[k])
            ==> forall|k: int| 0 <= k < ids.len() ==> #[trigger] order_taken(after, wt, k),
{
    assert forall|j: int, k: int|
        0 <= j < after.len() && 0 <= k < ids.len() && after[j].worktree_id == wt
            && #[trigger] after[j].id == #[trigger] ids[k] implies after[j].display_order == k by {
        lemma_last_position_distinct(ids, k);
        assert(after[j] == reordered(before[j], wt, ids));
    }
    if forall|j: int| 0 <= j < before.len() && before[j].worktree_id == wt ==> ids.contains(#[trigger] before[j].id) {
        assert forall|j: int| 0 <= j < after.len() && #[trigger] after[j].worktree_id == wt
            implies 0 <= after[j].display_order < ids.len() by {
            assert(after[j] == reordered(before[j], wt, ids));
            assert(ids.contains(before[j].id));
            let k = choose|k: int| 0 <= k < ids.len() && ids[k] == before[j].id;
            lemma_last_position_distinct(ids, k);
        }
    }
    if forall|j1: int, j2: int| 0 <= j1 < j2 < before.len() && before[j1].worktree_id == wt
        && before[j2].worktree_id == wt ==> #[trigger] before[j1].id != #[trigger] before[j2].id {
        assert forall|j1: int, j2: int| 0 <= j1 < j2 < after.len() && after[j1].worktree_id == wt
            && after[j2].worktree_id == wt && ids.contains(#[trigger] after[j1].id)
            && ids.contains(#[trigger] after[j2].id) implies after[j1].display_order != after[j2].display_order by {
            assert(after[j1] == reordered(before[j1], wt, ids));
            assert(after[j2] == reordered(before[j2], wt, ids));
            let k1 = choose|k: int| 0 <= k < ids.len() && ids[k] == after[j1].id;
            let k2 = choose|k: int| 0 <= k < ids.len() && ids[k] == after[j2].id;
            lemma_last_position_distinct(ids, k1);
            lemma_last_position_distinct(ids, k2);
            assert(before[j1].id != before[j2].id);
        }
    }
    if forall|k: int| 0 <= k < ids.len() ==> exists|j: int| 0 <= j < before.len()
        && before[j].worktree_id == wt && #[trigger] before[j].id == #[trigger] ids[k] {
        assert forall|k: int| 0 <= k < ids.len() implies #[trigger] order_taken(after, wt, k) by {
            let j = choose|j: int| 0 <= j < before.len() && before[j].worktree_id == wt && #[trigger] before[j].id == #[trigger] ids[k];
            assert(after[j] == reordered(before[j], wt, ids));
            lemma_last_position_distinct(ids, k);
            assert(after[j].display_order == k as i32);
        }
    }
}

proof fn lemma_insert_by_order_contains(s: Seq<AgentView>, a: AgentView, x: AgentView)
    ensures
        insert_by_order(s, a).contains(x) <==> (s.contains(x) || x == a),
    decreases s.len(),
{
    if s.len() == 0 {
        assert(seq![a][0] == a);
    } else if s.last().display_order <= a.display_order {
        assert(s.push(a)[s.len() as int] == a);
        if s.contains(x) {
            let k = choose|k: int| 0 <= k < s.len() && s[k] == x;
            assert(s.push(a)[k] == x);
        }
        if s.push(a).contains(x) && x != a {
            let k = choose|k: int| 0 <= k < s.len() + 1 && s.push(a)[k] == x;
            assert(s[k] == x);
        }
    } else {
        let d = s.drop_last();
        lemma_insert_by_order_contains(d, a, x);
        let t = insert_by_order(d, a);
        assert(t.push(s.last())[t.len() as int] == s.last());
        if s.contains(x) {
            let k = choose|k: int| 0 <= k < s.len() && s[k] == x;
            if k < s.len() - 1 {
                assert(d[k] == x);
                let m = choose|m: int| 0 <= m < t.len() && t[m] == x;
                assert(t.push(s.last())[m] == x);
            }
        }
        if x == a {
            let m = choose|m: int| 0 <= m < t.len() && t[m] == x;
            assert(t.push(s.last())[m] == x);
        }
        if t.push(s.last()).contains(x) && x != s.last() {
            let k = choose|k: int| 0 <= k < t.len() + 1 && t.push(s.last())[k] == x;
            assert(t[k] == x);
            if d.contains(x) {
                let m = choose|m: int| 0 <= m < d.len() && d[m] == x;
                assert(s[m] == x);
            }
        }
        if x == s.last() {
            assert(s[s.len() - 1] == x);
        }
    }
}

/// Sorting by display order keeps exactly the records it was given.
pub proof fn lemma_sort_contains(s: Seq<AgentView>, x: AgentView)
    ensures
        sort_by_order(s).contains(x) <==> s.contains(x),
    decreases s.len(),
{
    if s.len() > 0 {
        let d = s.drop_last();
        lemma_sort_contains(d, x);
        lemma_insert_by_order_contains(sort_by_order(d), s.last(), x);
        if s.contains(x) && x != s.last() {
            let k = choose|k: int| 0 <= k < s.len() && s[k] == x;
            assert(d[k] == x);
        }
        if d.contains(x) {
            let k = choose|k: int| 0 <= k < d.len() && d[k] == x;
            assert(s[k] == x);
        }
        if x == s.last() {
            assert(s[s.len() - 1] == x);
        }
    }
}

/// A listing holds exactly the records of the catalog that are listed.
pub proof fn lemma_listing_contains(s: Seq<AgentView>, wt: Seq<char>, include_deleted: bool, x: AgentView)
    ensures
        listing(s, wt, include_deleted).contains(x) <==> (s.contains(x) && listed(x, wt, include_deleted)),
    decreases s.len(),
{
    if s.len() > 0 {
        let d = s.drop_last();
        let l = listing(d, wt, include_deleted);
        lemma_listing_contains(d, wt, include_deleted, x);
        if listed(s.last(), wt, include_deleted) {
            assert(l.push(s.last())[l.len() as int] == s.last());
            if l.contains(x) {
                let m = choose|m: int| 0 <= m < l.len() && l[m] == x;
                assert(l.push(s.last())[m] == x);
            }
            if l.push(s.last()).contains(x) && x != s.last() {
                let k = choose|k: int| 0 <= k < l.len() + 1 && l.push(s.last())[k] == x;
                assert(l[k] == x);
            }
        }
        if s.contains(x) && x != s.last() {
            let k = choose|k: int| 0 <= k < s.len() && s[k] == x;
            assert(d[k] == x);
        }
        if d.contains(x) {
            let k = choose|k: int| 0 <= k < d.len() && d[k] == x;
            assert(s[k] == x);
        }
        if x == s.last() {
            assert(s[s.len() - 1] == x);
        }
    }
}

/// Soft delete then restore, as `soft_delete` and `restore_agent` change the catalog:
/// once deleted, the record is missing from the worktree's default listing and shows,
/// marked deleted, in the listing with deleted records; once restored, it is listed
/// by default again, unmarked.
pub proof fn lemma_soft_delete_round_trip(
    s0: Seq<AgentView>,
    s1: Seq<AgentView>,
    s2: Seq<AgentView>,
    id: Seq<char>,
    deleted_at: Seq<char>,
    restored_at: Seq<char>,
)
    requires
        unique_ids(s0),
        index_of(s0, id) is Some,
        s1 == s0.update(
            index_of(s0, id).unwrap(),
            AgentView { deleted_at: Some(deleted_at), updated_at: deleted_at, ..s0[index_of(s0, id).unwrap()] },
        ),
        s2 == s1.update(
            index_of(s1, id).unwrap(),
            AgentView { deleted_at: None, updated_at: restored_at, ..s1[index_of(s1, id).unwrap()] },
        ),
    ensures
        ({
            let i = index_of(s0, id).unwrap();
            let wt = s0[i].worktree_id;
            &&& forall|x: AgentView| #[trigger] sort_by_order(listing(s1, wt, false)).contains(x) ==> x.id != id
            &&& sort_by_order(listing(s1, wt, true)).contains(s1[i]) && s1[i].id == id && s1[i].deleted_at is Some
            &&& sort_by_order(listing(s2, wt, false)).contains(s2[i]) && s2[i].id == id && s2[i].deleted_at is None
        }),
{
    let i = index_of(s0, id).unwrap();
    let wt = s0[i].worktree_id;
    lemma_index_of_bounds(s0, id);
    assert forall|k: int| 0 <= k < s1.len() implies s1[k].id == s0[k].id by {}
    lemma_same_ids_same_index(s0, s1, id);
    assert forall|x: AgentView| #[trigger] sort_by_order(listing(s1, wt, false)).contains(x) implies x.id != id by {
        lemma_sort_contains(listing(s1, wt, false), x);
        lemma_listing_contains(s1, wt, false, x);
        let k = choose|k: int| 0 <= k < s1.len() && s1[k] == x;
        if x.id == id && k != i {
            if k < i {
                assert(s0[k].id != s0[i].id);
            } else {
                assert(s0[i].id != s0[k].id);
            }
        }
    }
    assert(s1[i] == s1[i]);
    assert(s1.contains(s1[i]));
    lemma_listing_contains(s1, wt, true, s1[i]);
    lemma_sort_contains(listing(s1, wt, true), s1[i]);
    assert(s2.contains(s2[i]));
    lemma_listing_contains(s2, wt, false, s2[i]);
    lemma_sort_contains(listing(s2, wt, false), s2[i]);
}

/// The records of `s` are in display order.
pub open spec fn in_display_order(s: Seq<AgentView>) -> bool {
    forall|i: int, j: int| 0 <= i < j < s.len() ==> #[trigger] s[i].display_order <= #[trigger] s[j].display_order
}

proof fn lemma_insert_by_order_sorted(s: Seq<AgentView>, a: AgentView)
    requires
        in_display_order(s),
    ensures
        in_display_order(insert_by_order(s, a)),
        insert_by_order(s, a).len() == s.len() + 1,
        forall|k: int| 0 <= k < insert_by_order(s, a).len() ==> #[trigger] insert_by_order(s, a)[k] == a
            || s.contains(insert_by_order(s, a)[k]),
    decreases s.len(),
{
    let t = insert_by_order(s, a);
    if s.len() == 0 {
    } else if s.last().display_order <= a.display_order {
        assert forall|k: int| 0 <= k < t.len() implies #[trigger] t[k] == a || s.contains(t[k]) by {
            if k < s.len() {
                assert(t[k] == s[k]);
            }
        }
    } else {
        let d = s.drop_last();
        assert forall|i: int, j: int| 0 <= i < j < d.len() implies #[trigger] d[i].display_order
            <= #[trigger] d[j].display_order by {
            assert(d[i] == s[i] && d[j] == s[j]);
        }
        lemma_insert_by_order_sorted(d, a);
        let u = insert_by_order(d, a);
        assert forall|k: int| 0 <= k < u.len() implies #[trigger] u[k].display_order <= s.last().display_order by {
            if u[k] != a {
                assert(d.contains(u[k]));
                let m = choose|m: int| 0 <= m < d.len() && d[m] == u[k];
                assert(s[m] == d[m]);
                assert(s[m].display_order <= s[s.len() - 1].display_order);
            }
        }
        assert forall|i: int, j: int| 0 <= i < j < t.len() implies #[trigger] t[i].display_order
            <= #[trigger] t[j].display_order by {
            if j < u.len() {
                assert(t[i] == u[i] && t[j] == u[j]);
            } else {
                assert(t[i] == u[i]);
            }
        }
        assert forall|k: int| 0 <= k < t.len() implies #[trigger] t[k] == a || s.contains(t[k]) by {
            if k < u.len() {
                assert(t[k] == u[k]);
                if u[k] != a {
                    let m = choose|m: int| 0 <= m < d.len() && d[m] == u[k];
                    assert(s[m] == u[k]);
                }
            } else {
                assert(s[s.len() - 1] == t[k]);
            }
        }
    }
}

/// A sorted listing is in display order and as long as what it sorted.
pub proof fn lemma_sort_sorted(s: Seq<AgentView>)
    ensures
        in_display_order(sort_by_order(s)),
        sort_by_order(s).len() == s.len(),
    decreases s.len(),
{
    if s.len() > 0 {
        lemma_sort_sorted(s.drop_last());
        lemma_insert_by_order_sorted(sort_by_order(s.drop_last()), s.last());
    }
}

proof fn lemma_insert_by_order_multiset(s: Seq<AgentView>, a: AgentView)
    ensures
        insert_by_order(s, a).to_multiset() == s.to_multiset().insert(a),
    decreases s.len(),
{
    broadcast use vstd::seq_lib::to_multiset_build;
    if s.len() == 0 {
        assert(seq![a] =~= s.push(a));
    } else if s.last().display_order > a.display_order {
        let d = s.drop_last();
        lemma_insert_by_order_multiset(d, a);
        assert(d.push(s.last()) =~= s);
        assert(d.to_multiset().insert(a).insert(s.last()) =~= d.to_multiset().insert(s.last()).insert(a));
    }
}

proof fn lemma_sort_multiset(s: Seq<AgentView>)
    ensures
        sort_by_order(s).to_multiset() == s.to_multiset(),
    decreases s.len(),
{
    broadcast use vstd::seq_lib::to_multiset_build;
    if s.len() == 0 {
        assert(s =~= Seq::<AgentView>::empty());
    } else {
        let d = s.drop_last();
        lemma_sort_multiset(d);
        lemma_insert_by_order_multiset(sort_by_order(d), s.last());
        assert(d.push(s.last()) =~= s);
    }
}

proof fn lemma_listing_no_duplicates(s: Seq<AgentView>, wt: Seq<char>, include_deleted: bool)
    requires
        s.no_duplicates(),
    ensures
        listing(s, wt, include_deleted).no_duplicates(),
    decreases s.len(),
{
    if s.len() > 0 {
        let d = s.drop_last();
        assert forall|i: int, j: int| 0 <= i < d.len() && 0 <= j < d.len() && i != j implies d[i] != d[j] by {
            assert(d[i] == s[i] && d[j] == s[j]);
        }
        lemma_listing_no_duplicates(d, wt, include_deleted);
        let l = listing(d, wt, include_deleted);
        if listed(s.last(), wt, include_deleted) {
            lemma_listing_contains(d, wt, include_deleted, s.last());
            if d.contains(s.last()) {
                let k = choose|k: int| 0 <= k < d.len() && d[k] == s.last();
                assert(s[k] == s[s.len() - 1]);
            }
            let t = l.push(s.last());
            assert forall|i: int, j: int| 0 <= i < t.len() && 0 <= j < t.len() && i != j implies t[i] != t[j] by {
                if i < l.len() && j < l.len() {
                    assert(t[i] == l[i] && t[j] == l[j]);
                } else if i < l.len() {
                    assert(t[i] == l[i]);
                    assert(l.contains(l[i]));
                } else {
                    assert(t[j] == l[j]);
                    assert(l.contains(l[j]));
                }
            }
        }
    }
}

/// Some entry of `d` is `k`.
pub open spec fn takes_value(d: Seq<int>, k: int) -> bool {
    exists|m: int| 0 <= m < d.len() && #[trigger] d[m] == k
}

/// A strictly increasing sequence of values below `n` that takes every value below
/// `n` is `0, 1, ..., n - 1`.
proof fn lemma_strict_cover(d: Seq<int>, n: int, i: int)
    requires
        0 <= i < d.len(),
        forall|a: int, b: int| 0 <= a < b < d.len() ==> #[trigger] d[a] < #[trigger] d[b],
        forall|a: int| 0 <= a < d.len() ==> 0 <= #[trigger] d[a] < n,
        forall|k: int| 0 <= k < n ==> #[trigger] takes_value(d, k),
    ensures
        forall|k: int| 0 <= k <= i ==> #[trigger] d[k] == k,
    decreases i,
{
    if i > 0 {
        lemma_strict_cover(d, n, i - 1);
        assert(d[i] > d[i - 1]);
    } else {
        assert(d[0] >= 0);
    }
    assert(d[i] >= i);
    assert(takes_value(d, i));
    let m = choose|m: int| 0 <= m < d.len() && #[trigger] d[m] == i;
    if m < i {
        assert(d[m] == m);
    }
    if m > i {
        assert(d[i] < d[m]);
    }
}

/// Reordering by a list `ids` that names each live record of worktree `wt` exactly
/// once makes the worktree's default listing follow `ids`: the record at place `k`
/// has id `ids[k]` and display order `k`.
pub proof fn lemma_reorder_listing_follows_ids(
    before: Seq<AgentView>,
    after: Seq<AgentView>,
    wt: Seq<char>,
    ids: Seq<Seq<char>>,
)
    requires
        unique_ids(before),
        ids.len() <= i32::MAX,
        ids.no_duplicates(),
        after.len() == before.len(),
        forall|j: int| 0 <= j < before.len() ==> #[trigger] after[j] == reordered(before[j], wt, ids),
        forall|k: int| 0 <= k < ids.len() ==> exists|j: int| 0 <= j < before.len()
            && listed(before[j], wt, false) && #[trigger] before[j].id == #[trigger] ids[k],
        forall|j: int| 0 <= j < before.len() && listed(before[j], wt, false) ==> ids.contains(#[trigger] before[j].id),
    ensures
        sort_by_order(listing(after, wt, false)).len() == ids.len(),
        forall|k: int| 0 <= k < ids.len() ==> (#[trigger] sort_by_order(listing(after, wt, false))[k]).id == ids[k]
            && sort_by_order(listing(after, wt, false))[k].display_order == k,
{
    let lst = listing(after, wt, false);
    let v = sort_by_order(lst);
    let n = ids.len() as int;
    assert forall|j: int| 0 <= j < after.len() implies #[trigger] after[j].id == before[j].id
        && after[j].worktree_id == before[j].worktree_id && after[j].deleted_at == before[j].deleted_at by {
        assert(after[j] == reordered(before[j], wt, ids));
    }
    assert forall|a: int, b: int| 0 <= a < after.len() && 0 <= b < after.len() && a != b implies after[a] != after[b] by {
        if a < b {
            assert(before[a].id != before[b].id);
        } else {
            assert(before[b].id != before[a].id);
        }
    }
    lemma_listing_no_duplicates(after, wt, false);
    lemma_sort_multiset(lst);
    lemma_sort_sorted(lst);
    lst.lemma_multiset_has_no_duplicates();
    v.lemma_multiset_has_no_duplicates_conv();
    // Every listed record sits at the position of its id.
    assert forall|x: AgentView| #[trigger] v.contains(x) implies exists|p: int| 0 <= p < n && ids[p] == x.id
        && x.display_order == p by {
        lemma_sort_contains(lst, x);
        lemma_listing_contains(after, wt, false, x);
        let j = choose|j: int| 0 <= j < after.len() && after[j] == x;
        assert(listed(before[j], wt, false));
        assert(ids.contains(before[j].id));
        let p = choose|p: int| 0 <= p < n && ids[p] == before[j].id;
        lemma_last_position_distinct(ids, p);
        assert(after[j] == reordered(before[j], wt, ids));
    }
    let d = Seq::new(v.len(), |i: int| v[i].display_order as int);
    assert forall|a: int| 0 <= a < d.len() implies 0 <= #[trigger] d[a] < n by {
        assert(v.contains(v[a]));
    }
    assert forall|a: int, b: int| 0 <= a < b < d.len() implies #[trigger] d[a] < #[trigger] d[b] by {
        assert(v[a].display_order <= v[b].display_order);
        assert(v.contains(v[a]));
        assert(v.contains(v[b]));
        let pa = choose|p: int| 0 <= p < n && ids[p] == v[a].id && v[a].display_order == p;
        let pb = choose|p: int| 0 <= p < n && ids[p] == v[b].id && v[b].display_order == p;
        if pa == pb {
            assert(v[a] != v[b]);
            lemma_sort_contains(lst, v[a]);
            lemma_listing_contains(after, wt, false, v[a]);
            lemma_sort_contains(lst, v[b]);
            lemma_listing_contains(after, wt, false, v[b]);
            let ja = choose|j: int| 0 <= j < after.len() && after[j] == v[a];
            let jb = choose|j: int| 0 <= j < after.len() && after[j] == v[b];
            if ja < jb {
                assert(before[ja].id != before[jb].id);
            } else if jb < ja {
                assert(before[jb].id != before[ja].id);
            }
        }
    }
    assert forall|k: int| 0 <= k < n implies #[trigger] takes_value(d, k) by {
        let j = choose|j: int| 0 <= j < before.len() && listed(before[j], wt, false) && #[trigger] before[j].id == #[trigger] ids[k];
        assert(after[j] == reordered(before[j], wt, ids));
        lemma_last_position_distinct(ids, k);
        assert(after.contains(after[j]));
        lemma_listing_contains(after, wt, false, after[j]);
        lemma_sort_contains(lst, after[j]);
        let m = choose|m: int| 0 <= m < v.len() && v[m] == after[j];
        assert(d[m] == k);
    }
    if d.len() > 0 {
        lemma_strict_cover(d, n, d.len() - 1);
        assert(d[d.len() - 1] < n);
    }
    if n > 0 {
        assert(takes_value(d, n - 1));
        let m = choose|m: int| 0 <= m < d.len() && #[trigger] d[m] == n - 1;
        assert(d[m] == m);
    }
    assert forall|k: int| 0 <= k < n implies (#[trigger] v[k]).id == ids[k] && v[k].display_order == k by {
        assert(d[k] == k);
        assert(v.contains(v[k]));
        let p = choose|p: int| 0 <= p < n && ids[p] == v[k].id && v[k].display_order == p;
    }
}

} // verus!
