//! The agent registry: the process-wide directory from agent id to runtime. It guards
//! the single-spawn rule, routes input, output, stops and hook notifications by id or
//! by session token, and says which lifecycle events each step emits.
//!
//! The handle type `H` is whatever the caller keeps for a live process (the child,
//! the terminal master, the input sender and the output fan-out).
use vstd::prelude::*;

use crate::agent::{AgentMode, AgentStatus, Permission};
use crate::argv::{build_args, is_uuid_v4_text, new_session_id, spawn_args, views};
use crate::process::{
    is_already_running, is_exit_event, is_kill_event, is_not_found, is_status_event,
    ProcessError, ProcessEvent,
};
use crate::runtime::{
    after_hook, cleared, started, tick_outcome, took_output, went_quiet, AgentRuntime,
    ActiveSession, Tick,
};
use crate::text::same_text;
use vstd::string::StringSliceAdditionalSpecFns;

verus! {

/// One agent's place in the registry.
pub struct RegistryEntry<H> {
    pub agent_id: String,
    pub runtime: AgentRuntime<H>,
}

/// What a spawn hands to the child: its arguments and the session token in effect.
pub struct SpawnPlan {
    pub args: Vec<String>,
    pub session_id: String,
}

/// The registry: at most one runtime per agent id.
pub struct AgentRegistry<H> {
    entries: Vec<RegistryEntry<H>>,
}

/// How many of the entries have a live process.
pub open spec fn count_active<H>(s: Seq<RegistryEntry<H>>) -> nat
    decreases s.len(),
{
    if s.len() == 0 {
        0
    } else {
        count_active(s.drop_last()) + if s.last().runtime.active is Some {
            1nat
        } else {
            0nat
        }
    }
}

/// With no live process among the entries, none is counted.
pub proof fn lemma_count_inactive<H>(s: Seq<RegistryEntry<H>>)
    requires
        forall|k: int| 0 <= k < s.len() ==> s[k].runtime.active is None,
    ensures
        count_active(s) == 0,
    decreases s.len(),
{
    if s.len() > 0 {
        lemma_count_inactive(s.drop_last());
    }
}

/// `after` is `before` with its live part dropped, or both are absent.
pub open spec fn stays_cleared<H>(before: Option<AgentRuntime<H>>, after: Option<AgentRuntime<H>>) -> bool {
    match before {
        Some(rt) => after matches Some(rt2) && cleared(rt, rt2),
        None => after is None,
    }
}

/// `out` is the kill event for agent `id`, whose runtime `rt` was live, with its handle.
pub open spec fn killed<H>(rt: Option<AgentRuntime<H>>, id: Seq<char>, out: (ProcessEvent, H)) -> bool {
    rt matches Some(r) && (r.active matches Some(a) && is_kill_event(out.0, id) && out.1 == a.handle)
}

/// The agent an event is about.
pub open spec fn event_agent(e: ProcessEvent) -> Seq<char> {
    match e {
        ProcessEvent::Output { agent_id, .. } => agent_id@,
        ProcessEvent::Status { agent_id, .. } => agent_id@,
        ProcessEvent::Context { agent_id, .. } => agent_id@,
        ProcessEvent::Error { agent_id, .. } => agent_id@,
        ProcessEvent::Exit { agent_id, .. } => agent_id@,
    }
}

/// `rt` is a runtime with a live process that runs the session `q`.
pub open spec fn runs_session<H>(rt: Option<AgentRuntime<H>>, q: Seq<char>) -> bool {
    rt matches Some(r) && r.active is Some && (r.session_id matches Some(s) && s@ == q)
}

/// The bytes a text message sends to an agent: the text, then a newline.
pub fn frame_message(content: &str) -> (r: Vec<u8>)
    ensures
        r@ == content.spec_bytes().push(10u8),
{
    let mut v = vstd::slice::slice_to_vec(content.as_bytes());
    v.push(10u8);
    v
}

/// The reason given with a status that a hook (`from_hook`) or the inactivity
/// heuristic reported.
pub open spec fn status_reason(status: AgentStatus, from_hook: bool) -> Seq<char> {
    if from_hook {
        match status {
            AgentStatus::Waiting => "Hook: waiting for user input"@,
            AgentStatus::Idle => "Hook: agent idle at prompt"@,
            _ => "Hook: status update"@,
        }
    } else {
        match status {
            AgentStatus::Waiting => "Waiting for user input"@,
            AgentStatus::Idle => "Agent idle at prompt"@,
            _ => "Status update"@,
        }
    }
}

/// The status event that a hook notification or an inactivity tick emits, with its
/// reason.
pub fn status_event(agent_id: &str, status: AgentStatus, from_hook: bool) -> (r: ProcessEvent)
    ensures
        is_status_event(r, agent_id@, status),
        r matches ProcessEvent::Status { reason, .. } && (reason matches Some(t) && t@ == status_reason(status, from_hook)),
{
    let reason = if from_hook {
        match status {
            AgentStatus::Waiting => "Hook: waiting for user input",
            AgentStatus::Idle => "Hook: agent idle at prompt",
            _ => "Hook: status update",
        }
    } else {
        match status {
            AgentStatus::Waiting => "Waiting for user input",
            AgentStatus::Idle => "Agent idle at prompt",
            _ => "Status update",
        }
    };
    ProcessEvent::Status {
        agent_id: agent_id.to_owned(),
        status,
        reason: Some(reason.to_owned()),
    }
}

impl<H> AgentRegistry<H> {
    /// Agent ids are unique.
    pub closed spec fn wf(&self) -> bool {
        forall|i: int, j: int|
            0 <= i < j < self.entries@.len() ==> self.entries@[i].agent_id@
                != self.entries@[j].agent_id@
    }

    spec fn holds_at(&self, i: int, id: Seq<char>) -> bool {
        0 <= i < self.entries@.len() && self.entries@[i].agent_id@ == id
    }

    /// The runtime registered under `id`.
    pub closed spec fn lookup(&self, id: Seq<char>) -> Option<AgentRuntime<H>> {
        if exists|i: int| #[trigger] self.holds_at(i, id) {
            Some(self.entries@[choose|i: int| #[trigger] self.holds_at(i, id)].runtime)
        } else {
            None
        }
    }

    /// The agent registered under `id` has a live process.
    pub open spec fn is_active(&self, id: Seq<char>) -> bool {
        self.lookup(id) matches Some(r) && r.active is Some
    }

    /// How many registered agents have a live process.
    pub closed spec fn active_count(&self) -> nat {
        count_active(self.entries@)
    }

    proof fn lemma_lookup_at(&self, i: int)
        requires
            self.wf(),
            0 <= i < self.entries@.len(),
        ensures
            self.lookup(self.entries@[i].agent_id@) == Some(self.entries@[i].runtime),
    {
        let id = self.entries@[i].agent_id@;
        assert(self.holds_at(i, id));
        let j = choose|j: int| #[trigger] self.holds_at(j, id);
        assert(self.holds_at(j, id));
        if i < j {
            assert(self.entries@[i].agent_id@ != self.entries@[j].agent_id@);
        } else if j < i {
            assert(self.entries@[j].agent_id@ != self.entries@[i].agent_id@);
        }
    }

    proof fn lemma_lookup_absent(&self, id: Seq<char>)
        requires
            forall|k: int| 0 <= k < self.entries@.len() ==> self.entries@[k].agent_id@ != id,
        ensures
            self.lookup(id) is None,
    {
        assert(!exists|i: int| #[trigger] self.holds_at(i, id));
    }

    /// `other` has the same entries as `self` but at index `i`, where the id is the
    /// same: every other id looks up as before.
    proof fn lemma_frame_one(&self, other: &Self, i: int)
        requires
            self.wf(),
            0 <= i < self.entries@.len(),
            other.entries@.len() == self.entries@.len(),
            other.entries@[i].agent_id@ == self.entries@[i].agent_id@,
            forall|k: int| 0 <= k < self.entries@.len() && k != i ==> other.entries@[k] == self.entries@[k],
        ensures
            other.wf(),
            other.lookup(self.entries@[i].agent_id@) == Some(other.entries@[i].runtime),
            forall|id: Seq<char>| id != self.entries@[i].agent_id@ ==> other.lookup(id) == self.lookup(id),
    {
        assert forall|a: int, b: int| 0 <= a < b < other.entries@.len() implies other.entries@[a].agent_id@
            != other.entries@[b].agent_id@ by {
            assert(self.entries@[a].agent_id@ != self.entries@[b].agent_id@);
        }
        other.lemma_lookup_at(i);
        assert forall|id: Seq<char>| id != self.entries@[i].agent_id@ implies other.lookup(id) == self.lookup(id) by {
            if exists|k: int| #[trigger] self.holds_at(k, id) {
                let k = choose|k: int| #[trigger] self.holds_at(k, id);
                self.lemma_lookup_at(k);
                other.lemma_lookup_at(k);
            } else {
                assert forall|k: int| 0 <= k < other.entries@.len() implies other.entries@[k].agent_id@ != id by {
                    assert(!self.holds_at(k, id));
                }
                other.lemma_lookup_absent(id);
            }
        }
    }

    /// An empty registry.
    pub fn new() -> (r: AgentRegistry<H>)
        ensures
            r.wf(),
            forall|id: Seq<char>| r.lookup(id) is None,
            r.active_count() == 0,
    {
        let r = AgentRegistry { entries: Vec::new() };
        assert forall|id: Seq<char>| r.lookup(id) is None by {
            r.lemma_lookup_absent(id);
        }
        r
    }

    /// Where `id` stands among the entries.
    fn position(&self, id: &str) -> (r: Option<usize>)
        requires
            self.wf(),
        ensures
            match r {
                Some(i) => i < self.entries@.len() && self.entries@[i as int].agent_id@ == id@
                    && self.lookup(id@) == Some(self.entries@[i as int].runtime),
                None => self.lookup(id@) is None && forall|k: int|
                    0 <= k < self.entries@.len() ==> self.entries@[k].agent_id@ != id@,
            },
    {
        let mut i: usize = 0;
        while i < self.entries.len()
            invariant
                self.wf(),
                i <= self.entries@.len(),
                forall|k: int| 0 <= k < i ==> self.entries@[k].agent_id@ != id@,
            decreases self.entries.len() - i,
        {
            if same_text(self.entries[i].agent_id.as_str(), id) {
                proof {
                    self.lemma_lookup_at(i as int);
                }
                return Some(i);
            }
            i = i + 1;
        }
        proof {
            self.lemma_lookup_absent(id@);
        }
        None
    }

    /// The runtime registered under `id`, live or not.
    pub fn runtime(&self, id: &str) -> (r: Option<&AgentRuntime<H>>)
        requires
            self.wf(),
        ensures
            match r {
                Some(rt) => self.lookup(id@) == Some(*rt),
                None => self.lookup(id@) is None,
            },
    {
        match self.position(id) {
            Some(i) => Some(&self.entries[i].runtime),
            None => None,
        }
    }

    /// Whether the agent has a live process.
    pub fn is_running(&self, id: &str) -> (r: bool)
        requires
            self.wf(),
        ensures
            r == self.is_active(id@),
    {
        match self.position(id) {
            Some(i) => self.entries[i].runtime.active.is_some(),
            None => false,
        }
    }

    /// How many agents have a live process.
    pub fn get_running_count(&self) -> (r: usize)
        requires
            self.wf(),
        ensures
            r == self.active_count(),
    {
        let mut n: usize = 0;
        let mut i: usize = 0;
        while i < self.entries.len()
            invariant
                i <= self.entries@.len(),
                n == count_active(self.entries@.subrange(0, i as int)),
                n <= i,
            decreases self.entries.len() - i,
        {
            assert(self.entries@.subrange(0, i as int + 1).drop_last() =~= self.entries@.subrange(0, i as int));
            if self.entries[i].runtime.active.is_some() {
                n = n + 1;
            }
            i = i + 1;
        }
        assert(self.entries@.subrange(0, i as int) =~= self.entries@);
        n
    }

    /// Refuses a spawn for an agent whose process is live.
    pub fn check_spawn(&self, id: &str) -> (r: Result<(), ProcessError>)
        requires
            self.wf(),
        ensures
            r is Err <==> self.is_active(id@),
            r matches Err(e) ==> is_already_running(e, id@),
    {
        if self.is_running(id) {
            Err(ProcessError::AlreadyRunning(id.to_owned()))
        } else {
            Ok(())
        }
    }

    /// Decides a spawn: refused with `AlreadyRunning` while the agent's process is
    /// live, so that no second child starts; else the arguments for the child, which
    /// resume `session_id` where one is known and name a new random session otherwise.
    pub fn plan_spawn(
        &self,
        id: &str,
        mode: AgentMode,
        permissions: &[Permission],
        session_id: Option<&str>,
    ) -> (r: Result<SpawnPlan, ProcessError>)
        requires
            self.wf(),
        ensures
            r is Err <==> self.is_active(id@),
            r matches Err(e) ==> is_already_running(e, id@),
            r matches Ok(plan) ==> {
                &&& views(plan.args@) == spawn_args(
                    mode,
                    permissions@,
                    match session_id {
                        Some(s) => Some(s@),
                        None => None,
                    },
                    plan.session_id@,
                )
                &&& (session_id matches Some(s) ==> plan.session_id@ == s@)
                &&& (session_id is None ==> is_uuid_v4_text(plan.session_id@))
            },
    {
        match self.check_spawn(id) {
            Err(e) => Err(e),
            Ok(()) => {
                let effective = match session_id {
                    Some(s) => s.to_owned(),
                    None => new_session_id(),
                };
                let args = build_args(mode, permissions, session_id, effective.as_str());
                Ok(SpawnPlan { args, session_id: effective })
            },
        }
    }

    /// Records a spawned process at `now`: the agent's runtime is created where it had
    /// none, its replay buffer is emptied, and it is live with `handle` and
    /// `session_id`. Emits `Running`. Refused with `AlreadyRunning`, changing nothing,
    /// while the agent's process is live.
    pub fn begin_session(&mut self, id: &str, handle: H, session_id: String, now: u64) -> (r:
        Result<ProcessEvent, ProcessError>)
        requires
            old(self).wf(),
        ensures
            final(self).wf(),
            r is Err <==> old(self).is_active(id@),
            r matches Err(e) ==> is_already_running(e, id@)
                && final(self).lookup(id@) == old(self).lookup(id@),
            r matches Ok(e) ==> is_status_event(e, id@, AgentStatus::Running)
                && (e matches ProcessEvent::Status { reason, .. } && reason is None)
                && (final(self).lookup(id@) matches Some(rt) && started(rt, handle, session_id@, now)),
            forall|other: Seq<char>| other != id@ ==> final(self).lookup(other) == old(self).lookup(other),
    {
        match self.position(id) {
            Some(i) => {
                if self.entries[i].runtime.active.is_some() {
                    return Err(ProcessError::AlreadyRunning(id.to_owned()));
                }
                let ghost before = *self;
                self.entries[i].runtime.start(handle, session_id, now);
                proof {
                    before.lemma_frame_one(self, i as int);
                }
            },
            None => {
                let mut rt = AgentRuntime::new();
                rt.start(handle, session_id, now);
                let ghost before = *self;
                self.entries.push(RegistryEntry { agent_id: id.to_owned(), runtime: rt });
                proof {
                    let n = before.entries@.len() as int;
                    assert forall|a: int, b: int| 0 <= a < b < self.entries@.len() implies self.entries@[a].agent_id@
                        != self.entries@[b].agent_id@ by {
                        if b < n {
                            assert(before.entries@[a].agent_id@ != before.entries@[b].agent_id@);
                        } else {
                            assert(before.entries@[a].agent_id@ != id@);
                        }
                    }
                    self.lemma_lookup_at(n);
                    assert forall|other: Seq<char>| other != id@ implies self.lookup(other) == before.lookup(other) by {
                        if exists|k: int| #[trigger] before.holds_at(k, other) {
                            let k = choose|k: int| #[trigger] before.holds_at(k, other);
                            before.lemma_lookup_at(k);
                            self.lemma_lookup_at(k);
                        } else {
                            assert forall|k: int| 0 <= k < self.entries@.len() implies self.entries@[k].agent_id@ != other by {
                                if k < n {
                                    assert(!before.holds_at(k, other));
                                }
                            }
                            self.lemma_lookup_absent(other);
                        }
                    }
                }
            },
        }
        Ok(ProcessEvent::Status { agent_id: id.to_owned(), status: AgentStatus::Running, reason: None })
    }

    /// Output arrived from the agent's terminal at `now`: appended to the replay
    /// buffer, the inactivity clock restarted and a hook status forgotten. Emits
    /// `Running` where the agent had been classified quiet.
    pub fn record_output(&mut self, id: &str, chunk: &[u8], now: u64) -> (r: Option<ProcessEvent>)
        requires
            old(self).wf(),
        ensures
            final(self).wf(),
            forall|other: Seq<char>| other != id@ ==> final(self).lookup(other) == old(self).lookup(other),
            old(self).lookup(id@) is None ==> final(self).lookup(id@) is None && r is None,
            old(self).lookup(id@) matches Some(rt) ==> {
                &&& final(self).lookup(id@) matches Some(rt2) && took_output(rt, rt2, chunk@, now)
                &&& (r is Some <==> rt.is_idle)
                &&& (r matches Some(e) ==> is_status_event(e, id@, AgentStatus::Running)
                    && (e matches ProcessEvent::Status { reason, .. } && reason is None))
            },
    {
        match self.position(id) {
            Some(i) => {
                let ghost before = *self;
                let was_idle = self.entries[i].runtime.record_output(chunk, now);
                proof {
                    before.lemma_frame_one(self, i as int);
                }
                if was_idle {
                    Some(ProcessEvent::Status { agent_id: id.to_owned(), status: AgentStatus::Running, reason: None })
                } else {
                    None
                }
            },
            None => None,
        }
    }

    /// An inactivity tick for the agent at `now`; `Stop` where it has no runtime.
    pub fn idle_tick(&mut self, id: &str, now: u64) -> (r: Tick)
        requires
            old(self).wf(),
        ensures
            final(self).wf(),
            forall|other: Seq<char>| other != id@ ==> final(self).lookup(other) == old(self).lookup(other),
            old(self).lookup(id@) is None ==> final(self).lookup(id@) is None && r == Tick::Stop,
            old(self).lookup(id@) matches Some(rt) ==> {
                &&& r == tick_outcome(rt, now)
                &&& final(self).lookup(id@) matches Some(rt2) && rt2.is_idle == (rt.is_idle || went_quiet(rt, now))
                    && rt2.active == rt.active && rt2.replay@ == rt.replay@
                    && rt2.session_id == rt.session_id && rt2.hook_status_at == rt.hook_status_at
            },
    {
        match self.position(id) {
            Some(i) => {
                let ghost before = *self;
                let t = self.entries[i].runtime.idle_tick(now);
                proof {
                    before.lemma_frame_one(self, i as int);
                }
                t
            },
            None => Tick::Stop,
        }
    }

    /// A hook reported `status` for the agent at `now`: the agent counts as classified
    /// and the heuristic is held off. Emits the status, with a reason naming the hook.
    pub fn set_hook_status(&mut self, id: &str, status: AgentStatus, now: u64) -> (r: ProcessEvent)
        requires
            old(self).wf(),
        ensures
            final(self).wf(),
            is_status_event(r, id@, status),
            r matches ProcessEvent::Status { reason, .. } && (reason matches Some(t) && t@ == status_reason(status, true)),
            forall|other: Seq<char>| other != id@ ==> final(self).lookup(other) == old(self).lookup(other),
            final(self).lookup(id@) == match old(self).lookup(id@) {
                Some(rt) => Some(after_hook(rt, now)),
                None => None,
            },
    {
        match self.position(id) {
            Some(i) => {
                let ghost before = *self;
                self.entries[i].runtime.record_hook(now);
                proof {
                    before.lemma_frame_one(self, i as int);
                }
            },
            None => {},
        }
        status_event(id, status, true)
    }

    /// The agent's process was seen to end with `code`: its live part is dropped, the
    /// replay buffer and session token kept. Emits `Exit`; nothing where the agent had
    /// no live process.
    pub fn end_session(&mut self, id: &str, code: Option<i32>) -> (r: Option<ProcessEvent>)
        requires
            old(self).wf(),
        ensures
            final(self).wf(),
            r is Some <==> old(self).is_active(id@),
            r matches Some(e) ==> is_exit_event(e, id@, code),
            forall|other: Seq<char>| other != id@ ==> final(self).lookup(other) == old(self).lookup(other),
            old(self).is_active(id@) ==> (old(self).lookup(id@) matches Some(rt) && final(self).lookup(id@) matches Some(rt2) && cleared(rt, rt2)),
            !old(self).is_active(id@) ==> final(self).lookup(id@) == old(self).lookup(id@),
    {
        match self.position(id) {
            Some(i) => {
                if self.entries[i].runtime.active.is_none() {
                    return None;
                }
                let ghost before = *self;
                self.entries[i].runtime.clear_active();
                proof {
                    before.lemma_frame_one(self, i as int);
                }
                Some(ProcessEvent::Exit { agent_id: id.to_owned(), code, signal: None })
            },
            None => None,
        }
    }

    /// After the caller killed the agent's process: its live part is dropped, the
    /// replay buffer and session token kept, and `Exit` with the kill signal is
    /// emitted. `AgentNotFound`, changing nothing, where the agent had no live process.
    pub fn complete_force_stop(&mut self, id: &str) -> (r: Result<ProcessEvent, ProcessError>)
        requires
            old(self).wf(),
        ensures
            final(self).wf(),
            r is Ok <==> old(self).is_active(id@),
            r matches Ok(e) ==> is_kill_event(e, id@),
            r matches Err(e) ==> is_not_found(e, id@),
            !final(self).is_active(id@),
            forall|other: Seq<char>| other != id@ ==> final(self).lookup(other) == old(self).lookup(other),
            old(self).is_active(id@) ==> (old(self).lookup(id@) matches Some(rt) && final(self).lookup(id@) matches Some(rt2) && cleared(rt, rt2)),
            !old(self).is_active(id@) ==> final(self).lookup(id@) == old(self).lookup(id@),
    {
        match self.position(id) {
            Some(i) => {
                if self.entries[i].runtime.active.is_none() {
                    return Err(ProcessError::AgentNotFound(id.to_owned()));
                }
                let ghost before = *self;
                self.entries[i].runtime.clear_active();
                proof {
                    before.lemma_frame_one(self, i as int);
                }
                Ok(ProcessEvent::Exit {
                    agent_id: id.to_owned(),
                    code: None,
                    signal: Some("SIGKILL".to_owned()),
                })
            },
            None => Err(ProcessError::AgentNotFound(id.to_owned())),
        }
    }

    /// The handle on the agent's live process, for sending input, resizing or
    /// signalling it; `AgentNotFound` where there is none.
    pub fn active_handle(&self, id: &str) -> (r: Result<&H, ProcessError>)
        requires
            self.wf(),
        ensures
            r is Ok <==> self.is_active(id@),
            r matches Ok(h) ==> (self.lookup(id@) matches Some(rt) && rt.active matches Some(a) && *h == a.handle),
            r matches Err(e) ==> is_not_found(e, id@),
    {
        match self.position(id) {
            Some(i) => match &self.entries[i].runtime.active {
                Some(a) => Ok(&a.handle),
                None => Err(ProcessError::AgentNotFound(id.to_owned())),
            },
            None => Err(ProcessError::AgentNotFound(id.to_owned())),
        }
    }

    /// A new subscription to the agent's output: the handle that carries the fan-out
    /// and a snapshot of the replay buffer, to be forwarded first. `None` where the
    /// agent has no live process.
    pub fn subscribe_pty_output(&self, id: &str) -> (r: Option<(&H, Vec<u8>)>)
        requires
            self.wf(),
        ensures
            r is Some <==> self.is_active(id@),
            r matches Some((h, snap)) ==> (self.lookup(id@) matches Some(rt) && rt.active matches Some(a)
                && *h == a.handle && snap@ == rt.replay@),
    {
        match self.position(id) {
            Some(i) => match &self.entries[i].runtime.active {
                Some(a) => Some((&a.handle, self.entries[i].runtime.replay.snapshot())),
                None => None,
            },
            None => None,
        }
    }

    /// The agent whose live process runs the session `session_id`.
    pub fn find_agent_by_session(&self, session_id: Option<&str>) -> (r: Option<String>)
        requires
            self.wf(),
        ensures
            session_id is None ==> r is None,
            session_id matches Some(q) ==> (r matches Some(id) ==> runs_session(self.lookup(id@), q@)),
            session_id matches Some(q) ==> (r is None ==> forall|id: Seq<char>|
                !runs_session(#[trigger] self.lookup(id), q@)),
    {
        let q = match session_id {
            Some(q) => q,
            None => {
                return None;
            },
        };
        let mut i: usize = 0;
        while i < self.entries.len()
            invariant
                self.wf(),
                session_id == Some(q),
                i <= self.entries@.len(),
                forall|k: int| 0 <= k < i ==> !(self.entries@[k].runtime.active is Some
                    && (self.entries@[k].runtime.session_id matches Some(s) && s@ == q@)),
            decreases self.entries.len() - i,
        {
            let matches_session = match &self.entries[i].runtime.session_id {
                Some(s) => same_text(s.as_str(), q),
                None => false,
            };
            if matches_session && self.entries[i].runtime.active.is_some() {
                proof {
                    self.lemma_lookup_at(i as int);
                }
                return Some(self.entries[i].agent_id.clone());
            }
            i = i + 1;
        }
        proof {
            assert forall|id: Seq<char>| !runs_session(#[trigger] self.lookup(id), q@) by {
                if exists|k: int| #[trigger] self.holds_at(k, id) {
                    let k = choose|k: int| #[trigger] self.holds_at(k, id);
                    self.lemma_lookup_at(k);
                }
            }
        }
        None
    }

    /// Shutdown: every live process is dropped from its runtime, buffers and session
    /// tokens kept. Returns, for each agent that was live, the `Exit` event with the
    /// kill signal and the handle, which the caller kills.
    pub fn stop_all(&mut self) -> (r: Vec<(ProcessEvent, H)>)
        requires
            old(self).wf(),
        ensures
            final(self).wf(),
            final(self).active_count() == 0,
            r@.len() == old(self).active_count(),
            forall|id: Seq<char>| stays_cleared(#[trigger] old(self).lookup(id), final(self).lookup(id)),
            forall|k: int| 0 <= k < r@.len() ==> exists|id: Seq<char>| killed(#[trigger] old(self).lookup(id), id, #[trigger] r@[k]),
            forall|k1: int, k2: int| 0 <= k1 < k2 < r@.len() ==> event_agent(#[trigger] r@[k1].0) != event_agent(#[trigger] r@[k2].0),
            forall|id: Seq<char>| #[trigger] old(self).is_active(id) ==> exists|k: int| 0 <= k < r@.len() && is_kill_event(#[trigger] r@[k].0, id),
    {
        let ghost before = *self;
        let ghost mut ids: Seq<Seq<char>> = Seq::empty();
        let ghost mut idx: Seq<int> = Seq::empty();
        let mut out: Vec<(ProcessEvent, H)> = Vec::new();
        let mut i: usize = 0;
        while i < self.entries.len()
            invariant
                before.wf(),
                i <= self.entries@.len(),
                self.entries@.len() == before.entries@.len(),
                forall|k: int| 0 <= k < self.entries@.len() ==> #[trigger] self.entries@[k].agent_id == before.entries@[k].agent_id,
                forall|k: int| 0 <= k < i ==> cleared(before.entries@[k].runtime, #[trigger] self.entries@[k].runtime),
                forall|k: int| i <= k < self.entries@.len() ==> #[trigger] self.entries@[k] == before.entries@[k],
                out@.len() == count_active(before.entries@.subrange(0, i as int)),
                ids.len() == out@.len(),
                forall|e: int| 0 <= e < out@.len() ==> killed(#[trigger] before.lookup(ids[e]), ids[e], out@[e]),
                idx.len() == ids.len(),
                forall|e: int| 0 <= e < idx.len() ==> 0 <= #[trigger] idx[e] < i && ids[e] == before.entries@[idx[e]].agent_id@,
                forall|e1: int, e2: int| 0 <= e1 < e2 < idx.len() ==> #[trigger] idx[e1] < #[trigger] idx[e2],
                forall|k: int| 0 <= k < i && (#[trigger] before.entries@[k]).runtime.active is Some ==> exists|e: int| 0 <= e < idx.len() && idx[e] == k,
            decreases self.entries.len() - i,
        {
            assert(before.entries@.subrange(0, i as int + 1).drop_last() =~= before.entries@.subrange(0, i as int));
            let ghost old_idx = idx;
            let taken = self.entries[i].runtime.take_active();
            assert(taken == before.entries@[i as int].runtime.active);
            match taken {
                Some(a) => {
                    proof {
                        before.lemma_lookup_at(i as int);
                        ids = ids.push(before.entries@[i as int].agent_id@);
                        idx = idx.push(i as int);
                        assert(idx[idx.len() - 1] == i as int);
                    }
                    let e = ProcessEvent::Exit {
                        agent_id: self.entries[i].agent_id.clone(),
                        code: None,
                        signal: Some("SIGKILL".to_owned()),
                    };
                    out.push((e, a.handle));
                },
                None => {},
            }
            proof {
                assert forall|k: int| 0 <= k < i + 1 && (#[trigger] before.entries@[k]).runtime.active is Some
                    implies exists|e: int| 0 <= e < idx.len() && idx[e] == k by {
                    if k < i {
                        let e = choose|e: int| 0 <= e < old_idx.len() && old_idx[e] == k;
                        assert(idx[e] == k);
                    } else {
                        assert(idx[idx.len() - 1] == k);
                    }
                }
            }
            i = i + 1;
        }
        proof {
            assert(before.entries@.subrange(0, i as int) =~= before.entries@);
            assert forall|a: int, b: int| 0 <= a < b < self.entries@.len() implies self.entries@[a].agent_id@
                != self.entries@[b].agent_id@ by {
                assert(before.entries@[a].agent_id@ != before.entries@[b].agent_id@);
                assert(self.entries@[a].agent_id == before.entries@[a].agent_id);
                assert(self.entries@[b].agent_id == before.entries@[b].agent_id);
            }
            lemma_count_inactive(self.entries@);
            assert forall|k1: int, k2: int| 0 <= k1 < k2 < out@.len() implies event_agent(#[trigger] out@[k1].0)
                != event_agent(#[trigger] out@[k2].0) by {
                assert(killed(before.lookup(ids[k1]), ids[k1], out@[k1]));
                assert(killed(before.lookup(ids[k2]), ids[k2], out@[k2]));
                assert(idx[k1] < idx[k2]);
                assert(before.entries@[idx[k1]].agent_id@ != before.entries@[idx[k2]].agent_id@);
            }
            assert forall|id: Seq<char>| #[trigger] before.is_active(id) implies exists|k: int| 0 <= k < out@.len()
                && is_kill_event(#[trigger] out@[k].0, id) by {
                let k = choose|k: int| #[trigger] before.holds_at(k, id);
                before.lemma_lookup_at(k);
                assert(before.entries@[k].runtime.active is Some);
                let e = choose|e: int| 0 <= e < idx.len() && idx[e] == k;
                assert(killed(before.lookup(ids[e]), ids[e], out@[e]));
            }
            assert forall|id: Seq<char>| stays_cleared(#[trigger] before.lookup(id), self.lookup(id)) by {
                if exists|k: int| #[trigger] before.holds_at(k, id) {
                    let k = choose|k: int| #[trigger] before.holds_at(k, id);
                    before.lemma_lookup_at(k);
                    assert(self.entries@[k].agent_id == before.entries@[k].agent_id);
                    self.lemma_lookup_at(k);
                } else {
                    assert forall|k: int| 0 <= k < self.entries@.len() implies self.entries@[k].agent_id@ != id by {
                        assert(self.entries@[k].agent_id == before.entries@[k].agent_id);
                        assert(!before.holds_at(k, id));
                    }
                    self.lemma_lookup_absent(id);
                }
            }
            assert forall|k: int| 0 <= k < out@.len() implies exists|id: Seq<char>| killed(#[trigger] before.lookup(id), id, #[trigger] out@[k]) by {
                assert(killed(before.lookup(ids[k]), ids[k], out@[k]));
            }
        }
        out
    }

    /// Removes the agent's runtime, buffer and session token. Returns whether it had one.
    pub fn remove_agent(&mut self, id: &str) -> (r: bool)
        requires
            old(self).wf(),
        ensures
            final(self).wf(),
            r == old(self).lookup(id@) is Some,
            final(self).lookup(id@) is None,
            forall|other: Seq<char>| other != id@ ==> final(self).lookup(other) == old(self).lookup(other),
    {
        match self.position(id) {
            Some(i) => {
                let ghost before = *self;
                let _gone = self.entries.remove(i);
                proof {
                    let n = self.entries@.len() as int;
                    assert forall|k: int| 0 <= k < n implies #[trigger] self.entries@[k] == before.entries@[if k < i { k } else { k + 1 }] by {}
                    assert forall|a: int, b: int| 0 <= a < b < n implies self.entries@[a].agent_id@
                        != self.entries@[b].agent_id@ by {
                        let a0 = if a < i { a } else { a + 1 };
                        let b0 = if b < i { b } else { b + 1 };
                        assert(self.entries@[a] == before.entries@[a0]);
                        assert(self.entries@[b] == before.entries@[b0]);
                        assert(before.entries@[a0].agent_id@ != before.entries@[b0].agent_id@);
                    }
                    assert forall|k: int| 0 <= k < n implies self.entries@[k].agent_id@ != id@ by {
                        let k0 = if k < i { k } else { k + 1 };
                        assert(self.entries@[k] == before.entries@[k0]);
                        assert(before.entries@[k0].agent_id@ != before.entries@[i as int].agent_id@);
                    }
                    self.lemma_lookup_absent(id@);
                    assert forall|other: Seq<char>| other != id@ implies self.lookup(other) == before.lookup(other) by {
                        if exists|k: int| #[trigger] before.holds_at(k, other) {
                            let k = choose|k: int| #[trigger] before.holds_at(k, other);
                            before.lemma_lookup_at(k);
                            let k1 = if k < i { k } else { k - 1 };
                            assert(self.entries@[k1] == before.entries@[k]);
                            self.lemma_lookup_at(k1);
                        } else {
                            assert forall|k: int| 0 <= k < n implies self.entries@[k].agent_id@ != other by {
                                let k0 = if k < i { k } else { k + 1 };
                                assert(self.entries@[k] == before.entries@[k0]);
                                assert(!before.holds_at(k0, other));
                            }
                            self.lemma_lookup_absent(other);
                        }
                    }
                }
                true
            },
            None => false,
        }
    }
}

/// A session that began is live, and output, inactivity ticks and hook notifications
/// keep it live: only an exit, a forced stop, shutdown or removal end it. Meanwhile
/// `plan_spawn` and `begin_session`, which refuse exactly while the agent is live,
/// answer `AlreadyRunning` and start no second child.
pub proof fn lemma_live_until_exit<H>(
    rt: AgentRuntime<H>,
    handle: H,
    session: Seq<char>,
    start: u64,
    later: AgentRuntime<H>,
    chunk: Seq<u8>,
    now: u64,
)
    requires
        started(rt, handle, session, start),
    ensures
        rt.active is Some,
        took_output(rt, later, chunk, now) ==> later.active is Some,
        after_hook(rt, now).active is Some,
        (tick_outcome(rt, now) != Tick::Stop),
{
}

/// An agent whose live part was dropped (by an exit, a forced stop or shutdown) is not
/// live: `subscribe_pty_output` answers `None` and `active_handle`, through which
/// input is sent, answers `AgentNotFound`.
pub proof fn lemma_cleared_agent_detached<H>(reg: AgentRegistry<H>, id: Seq<char>, before: AgentRuntime<H>)
    requires
        reg.lookup(id) matches Some(rt) && cleared(before, rt),
    ensures
        !reg.is_active(id),
{
}

} // verus!
