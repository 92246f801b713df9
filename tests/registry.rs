use claude_manager::agent::{AgentMode, AgentStatus, Permission};
use claude_manager::argv::build_args;
use claude_manager::hook::HookNotification;
use claude_manager::process::{ProcessError, ProcessEvent};
use claude_manager::registry::AgentRegistry;
use claude_manager::replay::ReplayBuffer;
use claude_manager::runtime::{classify_quiet_text, ActiveSession, AgentRuntime, Tick};

fn registry() -> AgentRegistry<u32> {
    AgentRegistry::new()
}

fn is_status(e: &ProcessEvent, id: &str, st: AgentStatus) -> bool {
    matches!(e, ProcessEvent::Status { agent_id, status, .. } if agent_id == id && *status == st)
}

#[test]
fn new_process_manager_has_zero_running() {
    let pm = registry();
    assert_eq!(pm.get_running_count(), 0);
}

#[test]
fn subscribe_pty_output_nonexistent_returns_none() {
    let pm = registry();
    assert!(pm.subscribe_pty_output("nonexistent").is_none());
}

#[test]
fn get_pty_input_tx_nonexistent_returns_none() {
    let pm = registry();
    assert!(pm.active_handle("nonexistent").ok().is_none());
}

#[test]
fn send_message_nonexistent_returns_err() {
    let pm = registry();
    assert!(pm.active_handle("nonexistent").is_err());
}

#[test]
fn stop_agent_nonexistent_returns_err() {
    let mut pm = registry();
    assert!(pm.complete_force_stop("nonexistent").is_err());
}

#[test]
fn resize_pty_nonexistent_returns_err() {
    let pm = registry();
    assert!(pm.active_handle("nonexistent").is_err());
}

#[test]
fn stop_all_on_empty_does_not_panic() {
    let mut pm = registry();
    let killed = pm.stop_all();
    assert!(killed.is_empty());
    assert_eq!(pm.get_running_count(), 0);
}

#[test]
fn is_running_returns_false_for_unknown() {
    let pm = registry();
    assert!(!pm.is_running("unknown"));
}

#[test]
fn clear_active_preserves_buffer() {
    let mut runtime: AgentRuntime<u32> = AgentRuntime {
        active: Some(ActiveSession { handle: 7, last_output_at: 100 }),
        replay: ReplayBuffer::from_bytes(vec![1, 2, 3, 4, 5]),
        is_idle: true,
        session_id: Some("test-session".to_string()),
        hook_status_at: Some(100),
    };
    runtime.clear_active();
    assert!(runtime.active.is_none());
    assert!(!runtime.is_idle);
    assert!(runtime.hook_status_at.is_none());
    assert_eq!(runtime.replay.snapshot(), vec![1, 2, 3, 4, 5]);
    assert_eq!(runtime.session_id.as_deref(), Some("test-session"));
}

#[test]
fn find_agent_by_session_returns_matching_agent() {
    let mut pm = registry();
    pm.begin_session("agent-1", 1, "session-abc".to_string(), 0).unwrap();
    pm.end_session("agent-1", Some(0));
    // No live process: no match.
    assert!(pm.find_agent_by_session(Some("session-abc")).is_none());
}

#[test]
fn find_agent_by_session_returns_none_for_unknown() {
    let pm = registry();
    assert!(pm.find_agent_by_session(Some("nonexistent")).is_none());
    assert!(pm.find_agent_by_session(None).is_none());
}

#[test]
fn set_hook_status_emits_event_and_sets_fields() {
    let mut pm = registry();
    pm.begin_session("agent-1", 1, "s1".to_string(), 0).unwrap();
    pm.end_session("agent-1", None);

    let event = pm.set_hook_status("agent-1", AgentStatus::Waiting, 50);
    let runtime = pm.runtime("agent-1").unwrap();
    assert!(runtime.is_idle);
    assert!(runtime.hook_status_at.is_some());
    match event {
        ProcessEvent::Status { agent_id, status, reason } => {
            assert_eq!(agent_id, "agent-1");
            assert_eq!(status, AgentStatus::Waiting);
            assert!(reason.unwrap().contains("Hook"));
        }
        _ => panic!("Expected Status event"),
    }
}

#[test]
fn session_lookup_finds_live_agent() {
    let mut pm = registry();
    pm.begin_session("a", 1, "S1".to_string(), 0).unwrap();
    pm.begin_session("b", 2, "S2".to_string(), 0).unwrap();
    assert_eq!(pm.find_agent_by_session(Some("S2")).as_deref(), Some("b"));
    assert_eq!(pm.get_running_count(), 2);
}

#[test]
fn second_spawn_is_refused_until_exit() {
    let mut pm = registry();
    let plan = pm.plan_spawn("a", AgentMode::Regular, &[], Some("S")).unwrap();
    assert_eq!(plan.session_id, "S");
    pm.begin_session("a", 11, plan.session_id, 0).unwrap();
    assert!(matches!(
        pm.plan_spawn("a", AgentMode::Regular, &[], Some("S")),
        Err(ProcessError::AlreadyRunning(id)) if id == "a"
    ));
    pm.record_output("a", b"x", 10);
    pm.idle_tick("a", 5000);
    assert!(matches!(
        pm.begin_session("a", 12, "S".to_string(), 6000),
        Err(ProcessError::AlreadyRunning(_))
    ));
    assert_eq!(*pm.active_handle("a").unwrap(), 11);
    pm.end_session("a", Some(0));
    assert!(pm.plan_spawn("a", AgentMode::Regular, &[], Some("S")).is_ok());
    assert!(pm.begin_session("a", 13, "S".to_string(), 7000).is_ok());
    assert_eq!(*pm.active_handle("a").unwrap(), 13);
}

#[test]
fn new_session_gets_random_token() {
    let pm = registry();
    let plan = pm.plan_spawn("a", AgentMode::Auto, &[Permission::Write], None).unwrap();
    assert_eq!(plan.session_id.len(), 36);
    let chars: Vec<char> = plan.session_id.chars().collect();
    for (i, c) in chars.iter().enumerate() {
        if [8, 13, 18, 23].contains(&i) {
            assert_eq!(*c, '-');
        } else {
            assert!(c.is_ascii_hexdigit() && !c.is_ascii_uppercase());
        }
    }
    assert_eq!(chars[14], '4');
    assert!(['8', '9', 'a', 'b'].contains(&chars[19]));
    assert_eq!(
        plan.args,
        vec![
            "--verbose".to_string(),
            "--dangerously-skip-permissions".to_string(),
            "--session-id".to_string(),
            plan.session_id.clone()
        ]
    );
    let other = pm.plan_spawn("b", AgentMode::Auto, &[], None).unwrap();
    assert_ne!(other.session_id, plan.session_id);
}

#[test]
fn argument_vectors() {
    assert_eq!(
        build_args(AgentMode::Regular, &[Permission::Read, Permission::Write, Permission::Execute], Some("tok"), "new"),
        vec!["--verbose", "--allowedTools", "Write,Edit,Bash", "--resume", "tok"]
    );
    assert_eq!(
        build_args(AgentMode::Plan, &[Permission::Execute], None, "new"),
        vec!["--verbose", "--plan", "--allowedTools", "Bash", "--session-id", "new"]
    );
    assert_eq!(
        build_args(AgentMode::Regular, &[Permission::Read], None, "n"),
        vec!["--verbose", "--session-id", "n"]
    );
    assert_eq!(
        build_args(AgentMode::Regular, &[Permission::Write], None, "n"),
        vec!["--verbose", "--allowedTools", "Write,Edit", "--session-id", "n"]
    );
}

#[test]
fn idle_then_hook_overrides_heuristic() {
    let mut pm = registry();
    let e = pm.begin_session("a", 1, "S".to_string(), 0).unwrap();
    assert!(is_status(&e, "a", AgentStatus::Running));
    assert!(pm.record_output("a", b"Working...", 0).is_none());
    assert_eq!(pm.idle_tick("a", 1000), Tick::Quiet);
    assert_eq!(pm.idle_tick("a", 4000), Tick::Emit(AgentStatus::Idle));
    let e = pm.set_hook_status("a", AgentStatus::Waiting, 4500);
    assert!(is_status(&e, "a", AgentStatus::Waiting));
    assert_eq!(pm.runtime("a").unwrap().hook_status_at, Some(4500));
    assert_eq!(pm.idle_tick("a", 5500), Tick::Quiet);
    assert_eq!(pm.idle_tick("a", 14000), Tick::Quiet);
}

#[test]
fn fresh_hook_suppresses_heuristic_even_after_output() {
    let mut rt: AgentRuntime<u32> = AgentRuntime::new();
    rt.start(1, "S".to_string(), 0);
    rt.record_hook(100);
    // A hook was trusted, then the agent went quiet again without new output.
    rt.is_idle = false;
    assert_eq!(rt.idle_tick(3200), Tick::Quiet);
    assert!(rt.is_idle);
    rt.is_idle = false;
    rt.hook_status_at = Some(0);
    assert_eq!(rt.idle_tick(20_000), Tick::Emit(AgentStatus::Idle));
}

#[test]
fn output_after_idle_flips_back_to_running() {
    let mut pm = registry();
    pm.begin_session("a", 1, "S".to_string(), 0).unwrap();
    pm.record_output("a", b"Continue? [Y/n]", 10);
    assert_eq!(pm.idle_tick("a", 4000), Tick::Emit(AgentStatus::Waiting));
    let e = pm.record_output("a", b"y\n", 4100).unwrap();
    assert!(is_status(&e, "a", AgentStatus::Running));
    assert_eq!(pm.idle_tick("a", 5000), Tick::Quiet);
}

#[test]
fn heuristic_reads_only_the_tail() {
    let mut pm = registry();
    pm.begin_session("a", 1, "S".to_string(), 0).unwrap();
    pm.record_output("a", b"Proceed? [Y/n]", 0);
    pm.record_output("a", &vec![b'.'; 300], 0);
    assert_eq!(pm.idle_tick("a", 3000), Tick::Emit(AgentStatus::Idle));
    assert_eq!(classify_quiet_text("Proceed? [Y/n]"), AgentStatus::Waiting);
}

#[test]
fn exit_preserves_replay() {
    let mut pm = registry();
    pm.begin_session("a", 1, "S".to_string(), 0).unwrap();
    let bytes = vec![b'z'; 100];
    pm.record_output("a", &bytes, 5);
    let e = pm.complete_force_stop("a").unwrap();
    assert!(matches!(&e, ProcessEvent::Exit { agent_id, code: None, signal: Some(s) } if agent_id == "a" && s == "SIGKILL"));
    assert!(pm.subscribe_pty_output("a").is_none());
    assert!(matches!(pm.active_handle("a"), Err(ProcessError::AgentNotFound(id)) if id == "a"));
    let rt = pm.runtime("a").unwrap();
    assert_eq!(rt.replay.snapshot(), bytes);
    assert_eq!(rt.session_id.as_deref(), Some("S"));
    pm.begin_session("a", 2, "S".to_string(), 10).unwrap();
    assert!(pm.runtime("a").unwrap().replay.snapshot().is_empty());
}

#[test]
fn stop_then_nothing_reaches_the_agent() {
    let mut pm = registry();
    pm.begin_session("a", 1, "S".to_string(), 0).unwrap();
    assert!(pm.subscribe_pty_output("a").is_some());
    pm.complete_force_stop("a").unwrap();
    assert!(pm.subscribe_pty_output("a").is_none());
    assert!(matches!(pm.active_handle("a"), Err(ProcessError::AgentNotFound(_))));
    assert!(matches!(pm.complete_force_stop("a"), Err(ProcessError::AgentNotFound(_))));
}

#[test]
fn subscriber_sees_a_suffix_of_the_output() {
    let mut pm = registry();
    pm.begin_session("a", 1, "S".to_string(), 0).unwrap();
    let chunks: Vec<Vec<u8>> = vec![b"one ".to_vec(), b"two ".to_vec(), b"three ".to_vec(), b"four".to_vec()];
    let mut all = Vec::new();
    let mut seen = Vec::new();
    for (i, c) in chunks.iter().enumerate() {
        if i == 2 {
            let (_, snap) = pm.subscribe_pty_output("a").unwrap();
            seen = snap;
        }
        pm.record_output("a", c, 0);
        all.extend_from_slice(c);
        if i >= 2 {
            seen.extend_from_slice(c);
        }
    }
    assert!(all.ends_with(&seen));
    assert_eq!(seen, all);
}

#[test]
fn stop_all_kills_every_live_agent() {
    let mut pm = registry();
    pm.begin_session("a", 1, "S1".to_string(), 0).unwrap();
    pm.begin_session("b", 2, "S2".to_string(), 0).unwrap();
    pm.begin_session("c", 3, "S3".to_string(), 0).unwrap();
    pm.end_session("b", Some(0));
    let killed = pm.stop_all();
    let mut handles: Vec<u32> = killed.iter().map(|(_, h)| *h).collect();
    handles.sort();
    assert_eq!(handles, vec![1, 3]);
    assert_eq!(pm.get_running_count(), 0);
    assert_eq!(pm.runtime("a").unwrap().session_id.as_deref(), Some("S1"));
}

#[test]
fn remove_drops_runtime() {
    let mut pm = registry();
    pm.begin_session("a", 1, "S".to_string(), 0).unwrap();
    assert!(pm.remove_agent("a"));
    assert!(pm.runtime("a").is_none());
    assert!(!pm.remove_agent("a"));
}

#[test]
fn hook_notifications_route_by_session() {
    let mut pm = registry();
    pm.begin_session("a", 1, "S1".to_string(), 0).unwrap();
    let note = HookNotification {
        session_id: Some("S1".to_string()),
        cwd: None,
        hook_event_name: Some("Notification".to_string()),
        notification_type: Some("permission_prompt".to_string()),
        message: None,
    };
    let e = pm.route_hook(&note, 200).unwrap();
    assert!(is_status(&e, "a", AgentStatus::Waiting));
    assert_eq!(pm.runtime("a").unwrap().hook_status_at, Some(200));
    let unknown = HookNotification { session_id: Some("S9".to_string()), ..note.clone() };
    assert!(pm.route_hook(&unknown, 300).is_none());
    let odd = HookNotification { notification_type: Some("other".to_string()), ..note };
    assert!(pm.route_hook(&odd, 300).is_none());
}

#[test]
fn stop_all_reports_each_live_agent_once() {
    let mut pm = registry();
    for (i, id) in ["a", "b", "c", "d"].iter().enumerate() {
        pm.begin_session(id, i as u32, format!("S{i}"), 0).unwrap();
    }
    let killed = pm.stop_all();
    let mut ids: Vec<String> = killed
        .iter()
        .map(|(e, _)| match e {
            ProcessEvent::Exit { agent_id, .. } => agent_id.clone(),
            _ => panic!("Expected Exit event"),
        })
        .collect();
    ids.sort();
    assert_eq!(ids, vec!["a", "b", "c", "d"]);
}

#[test]
fn running_event_has_no_reason() {
    let mut pm = registry();
    let e = pm.begin_session("a", 1, "S".to_string(), 0).unwrap();
    assert!(matches!(e, ProcessEvent::Status { reason: None, .. }));
    pm.set_hook_status("a", AgentStatus::Idle, 10);
    let e = pm.record_output("a", b"x", 20).unwrap();
    assert!(matches!(e, ProcessEvent::Status { reason: None, status: AgentStatus::Running, .. }));
}
