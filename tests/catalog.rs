use claude_manager::agent::{AgentMode, AgentStatus, Permission, UpdateAgentInput};
use claude_manager::catalog::{agent_name_or_default, AgentCatalog, AgentError};

const WT: &str = "wt_main";

fn make(cat: &mut AgentCatalog, id: &str, name: &str, mode: AgentMode, perms: Vec<Permission>) -> claude_manager::agent::Agent {
    cat.create_agent(id.to_string(), WT, name.to_string(), mode, perms, "2026-01-01T00:00:00Z")
        .expect("Should create agent")
}

#[test]
fn agent_service_test_create_agent() {
    let mut cat = AgentCatalog::new();
    let agent = make(&mut cat, "ag_1", "Test Agent", AgentMode::Regular, vec![Permission::Read]);
    assert_eq!(agent.name, "Test Agent");
    assert_eq!(agent.mode, AgentMode::Regular);
    assert_eq!(agent.status, AgentStatus::Idle);
    assert!(agent.id.starts_with("ag_"));
}

#[test]
fn test_get_agent() {
    let mut cat = AgentCatalog::new();
    let created = make(&mut cat, "ag_1", "Test Agent", AgentMode::Regular, vec![Permission::Read]);
    let found = cat.get_agent(&created.id).unwrap();
    assert_eq!(found.id, created.id);
    assert_eq!(found.name, "Test Agent");
}

#[test]
fn test_get_agent_not_found() {
    let cat = AgentCatalog::new();
    let result = cat.get_agent("nonexistent");
    assert!(matches!(result, Err(AgentError::NotFound(_))));
}

#[test]
fn test_agent_not_found() {
    let cat = AgentCatalog::new();
    assert!(cat.get_agent("nonexistent").is_err());
}

#[test]
fn test_list_agents() {
    let mut cat = AgentCatalog::new();
    make(&mut cat, "ag_1", "Agent 1", AgentMode::Regular, vec![Permission::Read]);
    make(&mut cat, "ag_2", "Agent 2", AgentMode::Auto, vec![Permission::Read, Permission::Write]);
    let agents = cat.list_agents(WT, false);
    assert_eq!(agents.len(), 2);
}

#[test]
fn test_agent_list_empty_worktree() {
    let mut cat = AgentCatalog::new();
    make(&mut cat, "ag_1", "Agent 1", AgentMode::Regular, vec![]);
    assert!(cat.list_agents("wt_other", false).is_empty());
}

#[test]
fn test_update_agent() {
    let mut cat = AgentCatalog::new();
    let created = make(&mut cat, "ag_1", "Test Agent", AgentMode::Regular, vec![Permission::Read]);
    let updated = cat
        .update_agent(
            &created.id,
            UpdateAgentInput {
                name: Some("Updated Agent".to_string()),
                mode: Some(AgentMode::Auto),
                permissions: None,
                display_order: None,
            },
            "later",
        )
        .unwrap();
    assert_eq!(updated.name, "Updated Agent");
    assert_eq!(updated.mode, AgentMode::Auto);
    assert_eq!(updated.permissions, vec![Permission::Read]);
    assert_eq!(updated.updated_at, "later");
    assert_eq!(cat.get_agent("ag_1").unwrap().name, "Updated Agent");
}

#[test]
fn test_delete_agent_archive() {
    let mut cat = AgentCatalog::new();
    let created = make(&mut cat, "ag_1", "Test Agent", AgentMode::Regular, vec![Permission::Read]);
    cat.delete_agent(&created.id, true, "t1").unwrap();
    assert_eq!(cat.list_agents(WT, false).len(), 0);
    assert_eq!(cat.list_agents(WT, true).len(), 1);
}

#[test]
fn test_delete_agent_permanent() {
    let mut cat = AgentCatalog::new();
    let created = make(&mut cat, "ag_1", "Test Agent", AgentMode::Regular, vec![Permission::Read]);
    cat.delete_agent(&created.id, false, "t1").unwrap();
    assert_eq!(cat.list_agents(WT, true).len(), 0);
}

#[test]
fn test_agent_permanent_delete() {
    let mut cat = AgentCatalog::new();
    let agent = make(&mut cat, "ag_1", "Test", AgentMode::Regular, vec![]);
    cat.delete_agent(&agent.id, false, "t1").expect("Should permanently delete");
    let agents = cat.list_agents(WT, true);
    assert!(!agents.iter().any(|a| a.id == agent.id));
}

#[test]
fn test_restore_agent() {
    let mut cat = AgentCatalog::new();
    let created = make(&mut cat, "ag_1", "Test Agent", AgentMode::Regular, vec![Permission::Read]);
    cat.delete_agent(&created.id, true, "t1").unwrap();
    let restored = cat.restore_agent(&created.id, "t2").unwrap();
    assert!(restored.deleted_at.is_none());
    assert_eq!(cat.list_agents(WT, false).len(), 1);
}

#[test]
fn test_agent_restore() {
    let mut cat = AgentCatalog::new();
    let agent = make(&mut cat, "ag_1", "Test", AgentMode::Regular, vec![]);
    cat.delete_agent(&agent.id, true, "t1").expect("Should archive");
    let restored = cat.restore_agent(&agent.id, "t2").expect("Should restore agent");
    assert!(restored.deleted_at.is_none());
    let agents = cat.list_agents(WT, false);
    assert!(agents.iter().any(|a| a.id == agent.id));
}

#[test]
fn soft_delete_round_trip() {
    let mut cat = AgentCatalog::new();
    make(&mut cat, "A", "A", AgentMode::Regular, vec![]);
    cat.delete_agent("A", true, "t1").unwrap();
    assert!(!cat.list_agents(WT, false).iter().any(|a| a.id == "A"));
    let all = cat.list_agents(WT, true);
    let a = all.iter().find(|a| a.id == "A").unwrap();
    assert_eq!(a.deleted_at.as_deref(), Some("t1"));
    cat.restore_agent("A", "t2").unwrap();
    assert!(cat.get_agent("A").unwrap().deleted_at.is_none());
    assert!(cat.list_agents(WT, false).iter().any(|a| a.id == "A"));
}

#[test]
fn test_reorder_agents() {
    let mut cat = AgentCatalog::new();
    let agent1 = make(&mut cat, "ag_1", "Agent 1", AgentMode::Regular, vec![Permission::Read]);
    let agent2 = make(&mut cat, "ag_2", "Agent 2", AgentMode::Regular, vec![Permission::Read]);
    let reordered = cat.reorder_agents(WT, &[agent2.id.clone(), agent1.id.clone()]);
    assert_eq!(reordered[0].display_order, 0);
    assert_eq!(reordered[1].display_order, 1);
    assert_eq!(reordered[0].id, "ag_2");
}

#[test]
fn test_agent_reorder() {
    let mut cat = AgentCatalog::new();
    let agent1 = make(&mut cat, "ag_1", "Agent 1", AgentMode::Regular, vec![]);
    let agent2 = make(&mut cat, "ag_2", "Agent 2", AgentMode::Regular, vec![]);
    let reordered = cat.reorder_agents(WT, &[agent2.id.clone(), agent1.id.clone()]);
    let a2 = reordered.iter().find(|a| a.id == agent2.id).unwrap();
    let a1 = reordered.iter().find(|a| a.id == agent1.id).unwrap();
    assert_eq!(a2.display_order, 0);
    assert_eq!(a1.display_order, 1);
}

#[test]
fn reorder_gives_positions_as_permutation() {
    let mut cat = AgentCatalog::new();
    for i in 0..5 {
        make(&mut cat, &format!("ag_{i}"), "x", AgentMode::Regular, vec![]);
    }
    cat.create_agent("other".to_string(), "wt_other", "o".to_string(), AgentMode::Regular, vec![], "t")
        .unwrap();
    let order: Vec<String> = ["ag_3", "ag_0", "ag_4", "ag_1", "ag_2"].iter().map(|s| s.to_string()).collect();
    let listed = cat.reorder_agents(WT, &order);
    let mut orders: Vec<i32> = listed.iter().map(|a| a.display_order).collect();
    for (pos, id) in order.iter().enumerate() {
        assert_eq!(cat.get_agent(id).unwrap().display_order, pos as i32);
        assert_eq!(&listed[pos].id, id);
    }
    orders.sort();
    assert_eq!(orders, vec![0, 1, 2, 3, 4]);
    assert_eq!(cat.get_agent("other").unwrap().display_order, 0);
}

#[test]
fn test_agent_fork() {
    let mut cat = AgentCatalog::new();
    let parent = make(&mut cat, "ag_p", "Parent Agent", AgentMode::Auto, vec![Permission::Read, Permission::Write]);
    let forked = cat.fork_agent(&parent.id, "ag_f".to_string(), None, "t").expect("Should fork agent");
    assert_eq!(forked.name, "Parent Agent (fork)");
    assert_eq!(forked.mode, AgentMode::Auto);
    assert_eq!(forked.permissions, vec![Permission::Read, Permission::Write]);
    assert_eq!(forked.parent_agent_id, Some(parent.id));
}

#[test]
fn test_agent_fork_with_custom_name() {
    let mut cat = AgentCatalog::new();
    let parent = make(&mut cat, "ag_p", "Parent", AgentMode::Regular, vec![]);
    let forked = cat
        .fork_agent(&parent.id, "ag_f".to_string(), Some("Custom Fork Name".to_string()), "t")
        .expect("Should fork agent");
    assert_eq!(forked.name, "Custom Fork Name");
}

#[test]
fn fork_semantics() {
    let mut cat = AgentCatalog::new();
    make(&mut cat, "P", "Parent", AgentMode::Auto, vec![Permission::Read, Permission::Write]);
    cat.update_agent(
        "P",
        UpdateAgentInput { name: None, mode: None, permissions: None, display_order: Some(2) },
        "t",
    )
    .unwrap();
    cat.update_session_id("P", "S", "t").unwrap();
    let child = cat.fork_agent("P", "C".to_string(), None, "t2").unwrap();
    assert_eq!(child.mode, AgentMode::Auto);
    assert_eq!(child.permissions, vec![Permission::Read, Permission::Write]);
    assert_eq!(child.display_order, 3);
    assert_eq!(child.session_id.as_deref(), Some("S"));
    assert_eq!(child.parent_agent_id.as_deref(), Some("P"));
    assert_ne!(child.id, "P");
    assert_eq!(child.status, AgentStatus::Idle);
    assert_eq!(cat.get_agent("C").unwrap().display_order, 3);
}

#[test]
fn fork_refusals() {
    let mut cat = AgentCatalog::new();
    make(&mut cat, "P", "Parent", AgentMode::Regular, vec![]);
    assert!(matches!(cat.fork_agent("missing", "C".to_string(), None, "t"), Err(AgentError::NotFound(_))));
    assert!(cat.fork_agent("P", "P".to_string(), None, "t").is_err());
    cat.update_agent("P", UpdateAgentInput { name: None, mode: None, permissions: None, display_order: Some(i32::MAX) }, "t")
        .unwrap();
    assert!(matches!(cat.fork_agent("P", "C".to_string(), None, "t"), Err(AgentError::Validation(_))));
    assert_eq!(cat.list_agents(WT, true).len(), 1);
}

#[test]
fn test_agent_modes() {
    let mut cat = AgentCatalog::new();
    for (i, mode) in [AgentMode::Regular, AgentMode::Auto, AgentMode::Plan].into_iter().enumerate() {
        let agent = make(&mut cat, &format!("ag_{i}"), &format!("{:?} Agent", mode), mode, vec![]);
        assert_eq!(agent.mode, mode);
    }
}

#[test]
fn test_agent_permissions() {
    let mut cat = AgentCatalog::new();
    let all_perms = vec![Permission::Read, Permission::Write, Permission::Execute];
    let agent = make(&mut cat, "ag_1", "Full Perms Agent", AgentMode::Auto, all_perms.clone());
    assert_eq!(agent.permissions, all_perms);
}

#[test]
fn duplicate_ids_are_refused() {
    let mut cat = AgentCatalog::new();
    make(&mut cat, "ag_1", "One", AgentMode::Regular, vec![]);
    assert!(matches!(
        cat.create_agent("ag_1".to_string(), WT, "Two".to_string(), AgentMode::Regular, vec![], "t"),
        Err(AgentError::Database(_))
    ));
    assert_eq!(cat.list_agents(WT, true).len(), 1);
}

#[test]
fn status_updates_are_recorded() {
    let mut cat = AgentCatalog::new();
    make(&mut cat, "ag_1", "One", AgentMode::Regular, vec![]);
    cat.update_status("ag_1", AgentStatus::Running, Some(77), "t").unwrap();
    let a = cat.get_agent("ag_1").unwrap();
    assert_eq!(a.status, AgentStatus::Running);
    assert_eq!(a.pid, Some(77));
    assert!(cat.update_status("nope", AgentStatus::Running, None, "t").is_err());
}

#[test]
fn test_agent_crud() {
    let mut cat = AgentCatalog::new();
    let created = cat
        .create_agent("ag_1".to_string(), WT, "Test Agent".to_string(), AgentMode::Regular, vec![Permission::Read], "t0")
        .expect("Should create agent");
    assert!(created.id.starts_with("ag_"));
    assert_eq!(created.name, "Test Agent");
    assert_eq!(created.status, AgentStatus::Idle);
    assert_eq!(created.mode, AgentMode::Regular);
    assert_eq!(created.permissions, vec![Permission::Read]);

    let found = cat.get_agent(&created.id).expect("Should get agent");
    assert_eq!(found.name, "Test Agent");

    let updated = cat
        .update_agent(
            &created.id,
            UpdateAgentInput {
                name: Some("Updated Agent".to_string()),
                mode: Some(AgentMode::Auto),
                permissions: Some(vec![Permission::Read, Permission::Write]),
                display_order: None,
            },
            "t1",
        )
        .expect("Should update agent");
    assert_eq!(updated.name, "Updated Agent");
    assert_eq!(updated.mode, AgentMode::Auto);
    assert_eq!(updated.permissions, vec![Permission::Read, Permission::Write]);

    cat.delete_agent(&created.id, true, "t2").expect("Should archive agent");
    let agents = cat.list_agents(WT, false);
    assert!(!agents.iter().any(|a| a.id == created.id));
    let agents = cat.list_agents(WT, true);
    assert!(agents.iter().any(|a| a.id == created.id));
}

#[test]
fn test_agent_default_name() {
    let mut cat = AgentCatalog::new();
    let name = agent_name_or_default(None, "09:41");
    let created = cat
        .create_agent("ag_1".to_string(), WT, name, AgentMode::Regular, vec![Permission::Read], "t0")
        .expect("Should create agent");
    assert!(created.name.starts_with("Agent"), "Default name should start with 'Agent'");
    assert_eq!(created.name, "Agent 09:41");
    assert_eq!(agent_name_or_default(Some("Mine".to_string()), "09:41"), "Mine");
}
