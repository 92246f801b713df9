//! The per-agent runtime record and the status reconciler: how byte arrivals,
//! inactivity ticks, hook notifications and process exit change an agent's state.
//! Times are monotonic milliseconds supplied by the caller.
use vstd::prelude::*;

use crate::agent::AgentStatus;
use crate::prompt::{is_waiting, is_waiting_prompt};
use crate::replay::{keep_tail, last_bytes, ReplayBuffer};
use crate::text::{decode_lossy, utf8_lossy};

verus! {

/// Inactivity after which the heuristic classifies the agent (3 s).
pub const IDLE_THRESHOLD_MS: u64 = 3000;

/// How long a hook-reported status is trusted over the heuristic (10 s).
pub const HOOK_TRUST_MS: u64 = 10000;

/// How many trailing bytes of the replay buffer the heuristic reads.
pub const PROMPT_TAIL_BYTES: usize = 200;

/// The live part of a runtime: the caller's handle on the process, its input and its
/// output fan-out, and when output last arrived. These exist together or not at all.
pub struct ActiveSession<H> {
    pub handle: H,
    pub last_output_at: u64,
}

/// Everything the runtime keeps for one agent.
pub struct AgentRuntime<H> {
    /// Present while a process is spawned and not yet reaped.
    pub active: Option<ActiveSession<H>>,
    /// The latest output, kept across process exit.
    pub replay: ReplayBuffer,
    /// Set once inactivity or a hook classified the agent; cleared by new output.
    pub is_idle: bool,
    /// The session token, kept across process exit for resuming.
    pub session_id: Option<String>,
    /// When a hook last reported a status.
    pub hook_status_at: Option<u64>,
}

/// What an inactivity tick decided.
#[derive(PartialEq, Eq, Structural, Clone, Copy, Debug)]
pub enum Tick {
    /// The agent has no live process: the monitor ends.
    Stop,
    /// Nothing to report.
    Quiet,
    /// The agent went quiet with this status.
    Emit(AgentStatus),
}

/// Milliseconds from `then` to `now`, zero if `now` is earlier.
pub open spec fn elapsed(now: u64, then: u64) -> nat {
    if now >= then {
        (now - then) as nat
    } else {
        0
    }
}

/// The heuristic's status for clean or raw terminal text.
pub open spec fn heuristic_status(text: Seq<char>) -> AgentStatus {
    if is_waiting(text) {
        AgentStatus::Waiting
    } else {
        AgentStatus::Idle
    }
}

/// A hook reported a status less than `HOOK_TRUST_MS` before `now`.
pub open spec fn hook_fresh<H>(r: AgentRuntime<H>, now: u64) -> bool {
    r.hook_status_at matches Some(t) && elapsed(now, t) < HOOK_TRUST_MS
}

/// The agent is live, has been quiet for the threshold, and was not yet classified.
pub open spec fn went_quiet<H>(r: AgentRuntime<H>, now: u64) -> bool {
    r.active matches Some(a) && elapsed(now, a.last_output_at) >= IDLE_THRESHOLD_MS && !r.is_idle
}

/// What an inactivity tick at `now` decides for `r`.
pub open spec fn tick_outcome<H>(r: AgentRuntime<H>, now: u64) -> Tick {
    if r.active is None {
        Tick::Stop
    } else if went_quiet(r, now) {
        if hook_fresh(r, now) {
            Tick::Quiet
        } else {
            Tick::Emit(
                heuristic_status(utf8_lossy(last_bytes(r.replay@, PROMPT_TAIL_BYTES as nat))),
            )
        }
    } else {
        Tick::Quiet
    }
}

/// `r` after a hook reported a status at `now`.
pub open spec fn after_hook<H>(r: AgentRuntime<H>, now: u64) -> AgentRuntime<H> {
    AgentRuntime { is_idle: true, hook_status_at: Some(now), ..r }
}

/// `after` is `before` with its live part dropped and nothing else lost: the replay
/// buffer and the session token stay as they were.
pub open spec fn cleared<H>(before: AgentRuntime<H>, after: AgentRuntime<H>) -> bool {
    &&& after.active is None
    &&& !after.is_idle
    &&& after.hook_status_at is None
    &&& after.replay@ == before.replay@
    &&& after.session_id == before.session_id
}

/// `r` is a runtime just spawned at `now` with `handle` and session `session`.
pub open spec fn started<H>(r: AgentRuntime<H>, handle: H, session: Seq<char>, now: u64) -> bool {
    &&& r.active == Some(ActiveSession { handle, last_output_at: now })
    &&& r.replay@ == Seq::<u8>::empty()
    &&& !r.is_idle
    &&& r.hook_status_at is None
    &&& r.session_id matches Some(s) && s@ == session
}

/// `after` is `before` once `chunk` arrived at `now`.
pub open spec fn took_output<H>(before: AgentRuntime<H>, after: AgentRuntime<H>, chunk: Seq<u8>, now: u64) -> bool {
    &&& after.active == (match before.active {
        Some(a) => Some(ActiveSession { handle: a.handle, last_output_at: now }),
        None => None,
    })
    &&& after.replay@ == keep_tail(before.replay@ + chunk)
    &&& !after.is_idle
    &&& after.hook_status_at is None
    &&& after.session_id == before.session_id
}

/// The heuristic's status for terminal text.
pub fn classify_quiet_text(text: &str) -> (r: AgentStatus)
    ensures
        r == heuristic_status(text@),
{
    if is_waiting_prompt(text) {
        AgentStatus::Waiting
    } else {
        AgentStatus::Idle
    }
}

impl<H> AgentRuntime<H> {
    /// A runtime with no process, no output and no session.
    pub fn new() -> (r: AgentRuntime<H>)
        ensures
            r.active is None,
            r.replay@ == Seq::<u8>::empty(),
            !r.is_idle,
            r.session_id is None,
            r.hook_status_at is None,
    {
        AgentRuntime {
            active: None,
            replay: ReplayBuffer::new(),
            is_idle: false,
            session_id: None,
            hook_status_at: None,
        }
    }

    /// Drops the live part of the runtime. The replay buffer and the session token are
    /// kept, byte for byte.
    pub fn clear_active(&mut self)
        ensures
            cleared(*old(self), *final(self)),
    {
        self.active = None;
        self.is_idle = false;
        self.hook_status_at = None;
    }

    /// Drops the live part of the runtime, as `clear_active` does, and hands it back.
    pub fn take_active(&mut self) -> (r: Option<ActiveSession<H>>)
        ensures
            r == old(self).active,
            cleared(*old(self), *final(self)),
    {
        let taken = self.active.take();
        self.clear_active();
        taken
    }

    /// Starts a new session at `now`: the replay buffer is emptied and the runtime is
    /// live with `handle`.
    pub fn start(&mut self, handle: H, session_id: String, now: u64)
        ensures
            started(*final(self), handle, session_id@, now),
    {
        self.active = Some(ActiveSession { handle, last_output_at: now });
        self.replay.clear();
        self.is_idle = false;
        self.hook_status_at = None;
        self.session_id = Some(session_id);
    }

    /// Output arrived at `now`. Returns whether the agent was classified quiet before,
    /// in which case it is running again.
    pub fn record_output(&mut self, chunk: &[u8], now: u64) -> (r: bool)
        ensures
            r == old(self).is_idle,
            took_output(*old(self), *final(self), chunk@, now),
    {
        let was_idle = self.is_idle;
        match &mut self.active {
            Some(a) => {
                a.last_output_at = now;
            },
            None => {},
        }
        self.hook_status_at = None;
        self.is_idle = false;
        self.replay.append(chunk);
        was_idle
    }

    /// A hook reported a status at `now`: the agent counts as classified.
    pub fn record_hook(&mut self, now: u64)
        ensures
            *final(self) == after_hook(*old(self), now),
    {
        self.is_idle = true;
        self.hook_status_at = Some(now);
    }

    /// An inactivity tick at `now`. When the agent has just gone quiet it counts as
    /// classified from then on, whether a fresh hook or the heuristic classified it.
    pub fn idle_tick(&mut self, now: u64) -> (r: Tick)
        ensures
            r == tick_outcome(*old(self), now),
            final(self).is_idle == (old(self).is_idle || went_quiet(*old(self), now)),
            final(self).active == old(self).active,
            final(self).replay@ == old(self).replay@,
            final(self).session_id == old(self).session_id,
            final(self).hook_status_at == old(self).hook_status_at,
    {
        let last = match &self.active {
            None => {
                return Tick::Stop;
            },
            Some(a) => a.last_output_at,
        };
        let quiet_for: u64 = if now >= last {
            now - last
        } else {
            0
        };
        if quiet_for < IDLE_THRESHOLD_MS || self.is_idle {
            return Tick::Quiet;
        }
        self.is_idle = true;
        let fresh = match self.hook_status_at {
            Some(t) => (if now >= t {
                now - t
            } else {
                0
            }) < HOOK_TRUST_MS,
            None => false,
        };
        if fresh {
            Tick::Quiet
        } else {
            let tail = self.replay.tail(PROMPT_TAIL_BYTES);
            let text = decode_lossy(tail.as_slice());
            Tick::Emit(classify_quiet_text(text.as_str()))
        }
    }
}

/// The status a hook reported stands for `HOOK_TRUST_MS`: an inactivity tick within
/// that time never lets the heuristic speak.
pub proof fn lemma_fresh_hook_silences_heuristic<H>(r: AgentRuntime<H>, now: u64)
    requires
        hook_fresh(r, now),
    ensures
        !(tick_outcome(r, now) is Emit),
{
}

/// After a hook notification at `t`, the next inactivity tick within `HOOK_TRUST_MS`
/// emits nothing.
pub proof fn lemma_hook_suppresses_next_tick<H>(r: AgentRuntime<H>, t: u64, now: u64)
    requires
        now >= t,
        now - t < HOOK_TRUST_MS,
    ensures
        !(tick_outcome(after_hook(r, t), now) is Emit),
{
}

} // verus!
