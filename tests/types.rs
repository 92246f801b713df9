use claude_manager::agent::{Agent, AgentMode, AgentRow, AgentStatus, Permission};
use claude_manager::hook::{decimal_text, hook_command, hook_status, merge_hook_settings, JsonValue};
use claude_manager::registry::frame_message;
use claude_manager::message::{Message, MessageRole, MessageRow};
use claude_manager::migration::MigrationStats;
use claude_manager::usage::UsagePeriod;
use claude_manager::workspace::{SortMode, Worktree, WorktreeRow};

#[test]
fn test_migration_stats() {
    let stats = MigrationStats {
        workspaces_migrated: 1,
        worktrees_migrated: 2,
        agents_migrated: 3,
        messages_migrated: 10,
        sessions_migrated: 1,
        usage_stats_migrated: 5,
    };

    assert_eq!(stats.total(), 22);
}

#[test]
fn migration_stats_start_at_zero() {
    assert_eq!(MigrationStats::new().total(), 0);
}

#[test]
fn status_names_round_trip() {
    for s in [AgentStatus::Idle, AgentStatus::Running, AgentStatus::Waiting, AgentStatus::Error] {
        assert_eq!(AgentStatus::from_str(s.as_str()), s);
    }
    assert_eq!(AgentStatus::from_str("RUNNING"), AgentStatus::Running);
    assert_eq!(AgentStatus::from_str("Waiting"), AgentStatus::Waiting);
    assert_eq!(AgentStatus::from_str("finished"), AgentStatus::Idle);
    assert_eq!(AgentStatus::from_lowercase("RUNNING"), AgentStatus::Idle);
    assert_eq!(AgentStatus::Running.as_str(), "running");
}

#[test]
fn mode_and_permission_names() {
    assert_eq!(AgentMode::from_str("AUTO"), AgentMode::Auto);
    assert_eq!(AgentMode::from_str("plan"), AgentMode::Plan);
    assert_eq!(AgentMode::from_str("other"), AgentMode::Regular);
    assert_eq!(AgentMode::Plan.as_str(), "plan");
    assert_eq!(Permission::Execute.as_str(), "execute");
    assert_eq!(Permission::from_name("write"), Some(Permission::Write));
    assert_eq!(Permission::from_name("Write"), None);
}

#[test]
fn message_role_and_usage_period_and_sort_mode() {
    assert_eq!(MessageRole::from_str("Assistant"), MessageRole::Assistant);
    assert_eq!(MessageRole::from_str("nobody"), MessageRole::User);
    assert_eq!(MessageRole::Tool.as_str(), "tool");
    assert_eq!(UsagePeriod::from_str("MONTHLY"), UsagePeriod::Monthly);
    assert_eq!(UsagePeriod::from_str("yearly"), UsagePeriod::Daily);
    assert_eq!(UsagePeriod::Weekly.as_str(), "weekly");
    assert_eq!(SortMode::parse("Name"), SortMode::Name);
    assert_eq!(SortMode::parse(""), SortMode::Free);
    assert_eq!(SortMode::Status.as_str(), "status");
}

fn row(permissions: &str) -> AgentRow {
    AgentRow {
        id: "ag_1".to_string(),
        worktree_id: "wt_1".to_string(),
        name: "Row Agent".to_string(),
        status: "Running".to_string(),
        context_level: 4,
        mode: "PLAN".to_string(),
        permissions: permissions.to_string(),
        display_order: 3,
        pid: Some(42),
        session_id: Some("S".to_string()),
        created_at: "c".to_string(),
        updated_at: "u".to_string(),
        started_at: None,
        stopped_at: None,
        deleted_at: None,
        parent_agent_id: None,
    }
}

#[test]
fn agent_from_row_reads_permissions_json() {
    let a = Agent::from_row(row(r#"["write","execute"]"#));
    assert_eq!(a.permissions, vec![Permission::Write, Permission::Execute]);
    assert_eq!(a.status, AgentStatus::Running);
    assert_eq!(a.mode, AgentMode::Plan);
    assert_eq!(a.display_order, 3);
    assert_eq!(a.session_id.as_deref(), Some("S"));
    assert_eq!(Agent::from_row(row("[]")).permissions, Vec::<Permission>::new());
    assert_eq!(Agent::from_row(row(r#"["admin"]"#)).permissions, vec![Permission::Read]);
    assert_eq!(Agent::from_row(row("not json")).permissions, vec![Permission::Read]);
}

#[test]
fn message_and_worktree_from_rows() {
    let m = Message::from_row(MessageRow {
        id: "m".to_string(),
        agent_id: "a".to_string(),
        role: "SYSTEM".to_string(),
        content: "hi".to_string(),
        token_count: Some(3),
        tool_name: None,
        tool_input: None,
        tool_output: None,
        created_at: "t".to_string(),
        is_complete: true,
    });
    assert_eq!(m.role, MessageRole::System);
    assert_eq!(m.content, "hi");
    let w = Worktree::from_row(WorktreeRow {
        id: "w".to_string(),
        workspace_id: "ws".to_string(),
        name: "main".to_string(),
        branch: "main".to_string(),
        path: "/p".to_string(),
        sort_mode: "status".to_string(),
        display_order: 1,
        is_main: true,
        created_at: "c".to_string(),
        updated_at: "u".to_string(),
    });
    assert_eq!(w.sort_mode, SortMode::Status);
    assert!(w.is_main);
}

#[test]
fn hook_types_map_to_status() {
    assert_eq!(hook_status("permission_prompt"), Some(AgentStatus::Waiting));
    assert_eq!(hook_status("elicitation_dialog"), Some(AgentStatus::Waiting));
    assert_eq!(hook_status("idle_prompt"), Some(AgentStatus::Idle));
    assert_eq!(hook_status("other"), None);
}

#[test]
fn hook_settings_value() {
    assert_eq!(decimal_text(0), "0");
    assert_eq!(decimal_text(3001), "3001");
    assert_eq!(decimal_text(65535), "65535");
    let cmd = hook_command(3001);
    assert!(cmd.contains("3001"));
    assert!(cmd.contains("curl"));
    assert_eq!(cmd, "curl -s -X POST http://127.0.0.1:3001/hooks -H 'Content-Type: application/json' -d @-");
    let merged = merge_hook_settings(None, 3001);
    let JsonValue::Object(members) = merged else { panic!("not an object") };
    assert_eq!(members.len(), 1);
    assert_eq!(members[0].0, "hooks");
    let JsonValue::Object(hooks) = &members[0].1 else { panic!("hooks not an object") };
    assert_eq!(hooks[0].0, "Notification");
    let JsonValue::Array(notifications) = &hooks[0].1 else { panic!("not an array") };
    assert_eq!(notifications.len(), 3);
    let mut matchers = Vec::new();
    for n in notifications {
        let JsonValue::Object(f) = n else { panic!("entry not an object") };
        let JsonValue::Str(m) = &f[0].1 else { panic!("matcher not a string") };
        matchers.push(m.clone());
        let JsonValue::Array(h) = &f[1].1 else { panic!("hooks not an array") };
        let JsonValue::Object(c) = &h[0] else { panic!("hook not an object") };
        assert!(matches!(&c[0].1, JsonValue::Str(t) if t == "command"));
        assert!(matches!(&c[1].1, JsonValue::Str(t) if *t == cmd));
    }
    assert_eq!(matchers, vec!["permission_prompt", "idle_prompt", "elicitation_dialog"]);
}

#[test]
fn message_framing_appends_newline() {
    assert_eq!(frame_message("hello"), b"hello\n".to_vec());
    assert_eq!(frame_message(""), b"\n".to_vec());
}

#[test]
fn hook_settings_keep_other_keys() {
    let existing = JsonValue::Object(vec![
        ("someExistingSetting".to_string(), JsonValue::Bool(true)),
        ("hooks".to_string(), JsonValue::Null),
        ("theme".to_string(), JsonValue::Str("dark".to_string())),
    ]);
    let JsonValue::Object(members) = merge_hook_settings(Some(existing), 3001) else { panic!("not an object") };
    let keys: Vec<&str> = members.iter().map(|(k, _)| k.as_str()).collect();
    assert_eq!(keys, vec!["someExistingSetting", "theme", "hooks"]);
    assert!(matches!(members[0].1, JsonValue::Bool(true)));
    let JsonValue::Object(fresh) = merge_hook_settings(Some(JsonValue::Array(vec![])), 3001) else { panic!("not an object") };
    assert_eq!(fresh.len(), 1);
    assert_eq!(fresh[0].0, "hooks");
}
