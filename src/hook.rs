//! Lifecycle notifications that an agent posts about itself, and the status each
//! stands for.
use vstd::prelude::*;

use crate::agent::AgentStatus;
use crate::process::{is_status_event, ProcessEvent};
use crate::registry::{runs_session, AgentRegistry};
use crate::runtime::after_hook;
use crate::text::same_text;

verus! {

/// A notification posted by an agent; every field may be missing.
#[derive(Debug, Clone)]
pub struct HookNotification {
    /// The session token the agent runs under.
    pub session_id: Option<String>,
    /// The agent's working directory.
    pub cwd: Option<String>,
    /// The hook event, such as `Notification`.
    pub hook_event_name: Option<String>,
    /// `permission_prompt`, `idle_prompt` or `elicitation_dialog`.
    pub notification_type: Option<String>,
    /// A message for people.
    pub message: Option<String>,
}

/// The status a notification type reports: waiting for a permission prompt or a
/// question, idle at the prompt, nothing for any other type.
pub open spec fn hook_status_of(kind: Seq<char>) -> Option<AgentStatus> {
    if kind == "permission_prompt"@ || kind == "elicitation_dialog"@ {
        Some(AgentStatus::Waiting)
    } else if kind == "idle_prompt"@ {
        Some(AgentStatus::Idle)
    } else {
        None
    }
}

/// The status that the notification type `kind` reports.
pub fn hook_status(kind: &str) -> (r: Option<AgentStatus>)
    ensures
        r == hook_status_of(kind@),
{
    if same_text(kind, "permission_prompt") || same_text(kind, "elicitation_dialog") {
        Some(AgentStatus::Waiting)
    } else if same_text(kind, "idle_prompt") {
        Some(AgentStatus::Idle)
    } else {
        None
    }
}

impl<H> AgentRegistry<H> {
    /// Routes a notification received at `now` to the live agent that runs its
    /// session, where its type reports a status: that agent counts as classified and
    /// the status is emitted. Nothing changes otherwise.
    pub fn route_hook(&mut self, note: &HookNotification, now: u64) -> (r: Option<ProcessEvent>)
        requires
            old(self).wf(),
        ensures
            final(self).wf(),
            r is None ==> forall|id: Seq<char>| #[trigger] final(self).lookup(id) == old(self).lookup(id),
            r matches Some(e) ==> exists|id: Seq<char>| {
                &&& note.session_id matches Some(q) && runs_session(#[trigger] old(self).lookup(id), q@)
                &&& note.notification_type matches Some(k) && hook_status_of(k@) matches Some(st)
                    && is_status_event(e, id, st)
                &&& final(self).lookup(id) == Some(after_hook(old(self).lookup(id).unwrap(), now))
            },
            (note.session_id is None || note.notification_type is None) ==> r is None,
            (note.notification_type matches Some(k) && hook_status_of(k@) is None) ==> r is None,
            (note.session_id matches Some(q) && note.notification_type matches Some(k)
                && hook_status_of(k@) is Some && exists|id: Seq<char>|
                runs_session(#[trigger] old(self).lookup(id), q@)) ==> r is Some,
    {
        let status = match &note.notification_type {
            Some(k) => match hook_status(k.as_str()) {
                Some(st) => st,
                None => {
                    return None;
                },
            },
            None => {
                return None;
            },
        };
        let session = match &note.session_id {
            Some(s) => s.as_str(),
            None => {
                return None;
            },
        };
        match self.find_agent_by_session(Some(session)) {
            Some(id) => {
                let e = self.set_hook_status(id.as_str(), status, now);
                Some(e)
            },
            None => None,
        }
    }
}

} // verus!

verus! {

/// The character of a decimal digit.
pub open spec fn digit_char(d: nat) -> char {
    if d == 0 {
        '0'
    } else if d == 1 {
        '1'
    } else if d == 2 {
        '2'
    } else if d == 3 {
        '3'
    } else if d == 4 {
        '4'
    } else if d == 5 {
        '5'
    } else if d == 6 {
        '6'
    } else if d == 7 {
        '7'
    } else if d == 8 {
        '8'
    } else {
        '9'
    }
}

/// `n` written in decimal.
pub open spec fn decimal(n: nat) -> Seq<char>
    decreases n,
{
    if n < 10 {
        seq![digit_char(n)]
    } else {
        decimal(n / 10).push(digit_char(n % 10))
    }
}

/// The command each hook runs: it posts the notification it reads on its input to
/// the local endpoint on `port`.
pub open spec fn hook_command_text(port: u16) -> Seq<char> {
    "curl -s -X POST http://127.0.0.1:"@ + decimal(port as nat)
        + "/hooks -H 'Content-Type: application/json' -d @-"@
}

fn digit(d: u16) -> (r: char)
    requires
        d < 10,
    ensures
        r == digit_char(d as nat),
{
    if d == 0 {
        '0'
    } else if d == 1 {
        '1'
    } else if d == 2 {
        '2'
    } else if d == 3 {
        '3'
    } else if d == 4 {
        '4'
    } else if d == 5 {
        '5'
    } else if d == 6 {
        '6'
    } else if d == 7 {
        '7'
    } else if d == 8 {
        '8'
    } else {
        '9'
    }
}

fn decimal_chars(n: u16) -> (r: Vec<char>)
    ensures
        r@ == decimal(n as nat),
    decreases n,
{
    if n < 10 {
        let mut v: Vec<char> = Vec::new();
        v.push(digit(n));
        assert(v@ =~= seq![digit_char(n as nat)]);
        v
    } else {
        let mut v = decimal_chars(n / 10);
        v.push(digit(n % 10));
        v
    }
}

/// `n` written in decimal.
pub fn decimal_text(n: u16) -> (r: String)
    ensures
        r@ == decimal(n as nat),
{
    let v = decimal_chars(n);
    crate::text::string_of(&v)
}

/// The command each hook runs, for the endpoint on `port`.
pub fn hook_command(port: u16) -> (r: String)
    ensures
        r@ == hook_command_text(port),
{
    let digits = decimal_text(port);
    let head = "curl -s -X POST http://127.0.0.1:".to_owned();
    let with_port = head.concat(digits.as_str());
    with_port.concat("/hooks -H 'Content-Type: application/json' -d @-")
}

/// A JSON value, as the settings file holds it. Object members keep their order.
#[derive(Debug)]
pub enum JsonValue {
    Null,
    Bool(bool),
    Number(String),
    Str(String),
    Array(Vec<JsonValue>),
    Object(Vec<(String, JsonValue)>),
}

/// `v` is the string `t`.
pub open spec fn is_str(v: JsonValue, t: Seq<char>) -> bool {
    match v {
        JsonValue::Str(s) => s@ == t,
        _ => false,
    }
}

/// The member `m` is named `k`.
pub open spec fn member_is(m: (String, JsonValue), k: Seq<char>) -> bool {
    m.0@ == k
}

/// `v` is the command hook `{"type": "command", "command": <the hook command>}`.
pub open spec fn is_command_hook(v: JsonValue, port: u16) -> bool {
    match v {
        JsonValue::Object(f) => f@.len() == 2 && member_is(f@[0], "type"@) && is_str(
            f@[0].1,
            "command"@,
        ) && member_is(f@[1], "command"@) && is_str(f@[1].1, hook_command_text(port)),
        _ => false,
    }
}

/// `v` is the entry `{"matcher": <matcher>, "hooks": [<the command hook>]}`.
pub open spec fn is_hook_entry(v: JsonValue, matcher: Seq<char>, port: u16) -> bool {
    match v {
        JsonValue::Object(f) => f@.len() == 2 && member_is(f@[0], "matcher"@) && is_str(
            f@[0].1,
            matcher,
        ) && member_is(f@[1], "hooks"@) && match f@[1].1 {
            JsonValue::Array(h) => h@.len() == 1 && is_command_hook(h@[0], port),
            _ => false,
        },
        _ => false,
    }
}

/// `v` is the value of the `hooks` key: `{"Notification": [...]}` with one entry for
/// each of `permission_prompt`, `idle_prompt` and `elicitation_dialog`, in that order.
pub open spec fn is_hooks_value(v: JsonValue, port: u16) -> bool {
    match v {
        JsonValue::Object(f) => f@.len() == 1 && member_is(f@[0], "Notification"@) && match f@[0].1 {
            JsonValue::Array(a) => a@.len() == 3 && is_hook_entry(a@[0], "permission_prompt"@, port)
                && is_hook_entry(a@[1], "idle_prompt"@, port) && is_hook_entry(
                a@[2],
                "elicitation_dialog"@,
                port,
            ),
            _ => false,
        },
        _ => false,
    }
}

/// The members of `s` other than those named `k`, in order.
pub open spec fn without_key(s: Seq<(String, JsonValue)>, k: Seq<char>) -> Seq<(String, JsonValue)>
    decreases s.len(),
{
    if s.len() == 0 {
        Seq::empty()
    } else {
        (if s[0].0@ == k {
            Seq::empty()
        } else {
            seq![s[0]]
        }) + without_key(s.skip(1), k)
    }
}

/// The members a settings file keeps: all of them where it held an object, none
/// where it was missing or held anything else.
pub open spec fn kept_members(existing: Option<JsonValue>) -> Seq<(String, JsonValue)> {
    match existing {
        Some(JsonValue::Object(m)) => without_key(m@, "hooks"@),
        _ => Seq::empty(),
    }
}

fn str_value(s: &str) -> (r: JsonValue)
    ensures
        is_str(r, s@),
{
    JsonValue::Str(s.to_owned())
}

fn command_hook(port: u16) -> (r: JsonValue)
    ensures
        is_command_hook(r, port),
{
    let f = vec![("type".to_owned(), str_value("command")), ("command".to_owned(), JsonValue::Str(hook_command(port)))];
    JsonValue::Object(f)
}

fn hook_entry(matcher: &str, port: u16) -> (r: JsonValue)
    ensures
        is_hook_entry(r, matcher@, port),
{
    let f = vec![
        ("matcher".to_owned(), str_value(matcher)),
        ("hooks".to_owned(), JsonValue::Array(vec![command_hook(port)])),
    ];
    JsonValue::Object(f)
}

/// The value of the `hooks` key that a worktree's settings file gets before a spawn,
/// for the endpoint on `port`.
pub fn hooks_value(port: u16) -> (r: JsonValue)
    ensures
        is_hooks_value(r, port),
{
    let entries = vec![
        hook_entry("permission_prompt", port),
        hook_entry("idle_prompt", port),
        hook_entry("elicitation_dialog", port),
    ];
    JsonValue::Object(vec![("Notification".to_owned(), JsonValue::Array(entries))])
}

/// The settings a worktree gets before a spawn: those in `existing` where it is an
/// object (else none), every member but `hooks` kept in order, then `hooks` once,
/// holding the notification hooks for the endpoint on `port`.
pub fn merge_hook_settings(existing: Option<JsonValue>, port: u16) -> (r: JsonValue)
    ensures
        r matches JsonValue::Object(m) && m@.len() == kept_members(existing).len() + 1
            && m@.subrange(0, m@.len() - 1) == kept_members(existing)
            && m@.last().0@ == "hooks"@ && is_hooks_value(m@.last().1, port),
        forall|i: int| 0 <= i < kept_members(existing).len() ==> kept_members(existing)[i].0@ != "hooks"@,
{
    let ghost kept = kept_members(existing);
    let mut members: Vec<(String, JsonValue)> = match existing {
        Some(JsonValue::Object(m)) => m,
        _ => Vec::new(),
    };
    let ghost orig = members@;
    assert(kept == without_key(orig, "hooks"@));
    let mut out: Vec<(String, JsonValue)> = Vec::new();
    while members.len() > 0
        invariant
            out@ + without_key(members@, "hooks"@) == without_key(orig, "hooks"@),
            forall|i: int| 0 <= i < out@.len() ==> out@[i].0@ != "hooks"@,
        decreases members.len(),
    {
        let ghost before = members@;
        let m = members.remove(0);
        assert(before.skip(1) =~= members@);
        if same_text(m.0.as_str(), "hooks") {
            assert(Seq::<(String, JsonValue)>::empty() + without_key(members@, "hooks"@) =~= without_key(members@, "hooks"@));
        } else {
            let ghost out_before = out@;
            let ghost rest = without_key(members@, "hooks"@);
            assert(without_key(before, "hooks"@) == seq![m] + rest);
            out.push(m);
            assert(out@ + rest =~= out_before + (seq![m] + rest));
        }
    }
    assert(without_key(members@, "hooks"@) =~= Seq::<(String, JsonValue)>::empty());
    assert(out@ =~= kept);
    let ghost before_push = out@;
    out.push(("hooks".to_owned(), hooks_value(port)));
    assert(out@.subrange(0, out@.len() - 1) =~= before_push);
    JsonValue::Object(out)
}

} // verus!
