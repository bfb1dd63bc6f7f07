use nexus::session_tree::{
    collect_sessions_needing_detection, count_sessions, find_group_in_tree, find_session_in_tree,
    groups_with_attention, interactor_inner_size, reconcile_tree,
};
use nexus::tmux::sanitize_tmux_name;
use nexus::types::{GroupIcon, GroupNode, SessionOrigin, SessionStatus, SessionSummary, TreeNode};

fn session(id: &str, name: &str, cwd: &str, last: &str, active: bool, status: SessionStatus, tmux: Option<&str>, origin: SessionOrigin, created: &str) -> TreeNode {
    TreeNode::Session(SessionSummary {
        session_id: id.to_string(),
        display_name: name.to_string(),
        cwd: Some(cwd.to_string()),
        last_active: last.to_string(),
        is_active: active,
        status,
        tmux_name: tmux.map(|t| t.to_string()),
        created_by: origin,
        created_at: created.to_string(),
        claude_session_id: None,
        worktree: None,
        jsonl_path: None,
    })
}

fn mock_tree() -> Vec<TreeNode> {
    vec![
        TreeNode::Group(GroupNode {
            id: 1,
            name: "nexus".to_string(),
            icon: GroupIcon::Root,
            children: vec![
                session("a1b2c3d4-e5f6-7890-abcd-ef1234567890", "feat/scanner", "/Users/dev/Code/nexus", "2026-02-28T15:30:00Z", true, SessionStatus::Active, Some("a1b2c3d4-e5f6-7890-abcd-ef1234567890"), SessionOrigin::Nexus, "2026-02-28T10:00:00Z"),
                session("b2c3d4e5-f6a7-8901-bcde-f12345678901", "fix/render-tick", "/Users/dev/Code/nexus", "2026-02-27T09:15:00Z", false, SessionStatus::Detached, Some("b2c3d4e5-f6a7-8901-bcde-f12345678901"), SessionOrigin::Nexus, "2026-02-27T08:00:00Z"),
            ],
        }),
        TreeNode::Group(GroupNode {
            id: 2,
            name: "website".to_string(),
            icon: GroupIcon::Root,
            children: vec![
                session("c3d4e5f6-a7b8-9012-cdef-123456789012", "redesign-landing", "/Users/dev/Code/website", "2026-02-28T14:00:00Z", true, SessionStatus::Active, Some("c3d4e5f6-a7b8-9012-cdef-123456789012"), SessionOrigin::Nexus, "2026-02-28T12:00:00Z"),
                TreeNode::Group(GroupNode {
                    id: 3,
                    name: "api-work".to_string(),
                    icon: GroupIcon::SubGroup,
                    children: vec![session("d4e5f6a7-b8c9-0123-defa-234567890123", "api-auth-endpoints", "/Users/dev/Code/website", "2026-02-25T11:30:00Z", false, SessionStatus::Dead, None, SessionOrigin::Scanner, "2026-02-25T10:00:00Z")],
                }),
            ],
        }),
        TreeNode::Group(GroupNode {
            id: 4,
            name: "Ungrouped".to_string(),
            icon: GroupIcon::Root,
            children: vec![session("e5f6a7b8-c9d0-1234-efab-345678901234", "quick-question", "/Users/dev", "2026-02-20T08:00:00Z", false, SessionStatus::Dead, None, SessionOrigin::Scanner, "2026-02-20T08:00:00Z")],
        }),
    ]
}

#[test]
fn test_sanitize_tmux_name_ascii() {
    assert_eq!(sanitize_tmux_name("hello-world"), "hello-world");
    assert_eq!(sanitize_tmux_name("a1b2c3"), "a1b2c3");
}

#[test]
fn test_sanitize_tmux_name_special_chars() {
    assert_eq!(sanitize_tmux_name("foo.bar/baz"), "foo-bar-baz");
    assert_eq!(sanitize_tmux_name("a b c"), "a-b-c");
}

#[test]
fn test_sanitize_tmux_name_preserves_full_id() {
    let id = "a1b2c3d4-e5f6-7890-abcd-ef1234567890";
    let sanitized = sanitize_tmux_name(id);
    assert_eq!(sanitized, id);
}

#[test]
fn test_count_sessions_empty() {
    let tree: Vec<TreeNode> = vec![];
    assert_eq!(count_sessions(&tree), (0, 0));
}

#[test]
fn test_count_sessions_nested() {
    let tree = mock_tree();
    let (total, active) = count_sessions(&tree);
    assert_eq!(total, 5);
    assert_eq!(active, 2);
}

#[test]
fn test_find_session_in_tree() {
    let tree = mock_tree();

    let found = find_session_in_tree(&tree, "a1b2c3d4-e5f6-7890-abcd-ef1234567890");
    assert!(found.is_some());
    assert_eq!(found.unwrap().display_name, "feat/scanner");

    let not_found = find_session_in_tree(&tree, "nonexistent");
    assert!(not_found.is_none());
}

#[test]
fn sessions_inside_subgroups_are_found() {
    let tree = mock_tree();
    let s = find_session_in_tree(&tree, "d4e5f6a7-b8c9-0123-defa-234567890123").unwrap();
    assert_eq!(s.display_name, "api-auth-endpoints");
    assert_eq!(find_group_in_tree(&tree, 3).unwrap().name, "api-work");
}

#[test]
fn test_find_group_in_tree() {
    let tree = mock_tree();

    let found = find_group_in_tree(&tree, 1);
    assert!(found.is_some());
    assert_eq!(found.unwrap().name, "nexus");

    let not_found = find_group_in_tree(&tree, 999);
    assert!(not_found.is_none());
}

#[test]
fn sessions_needing_detection_are_live_sessions_without_agent_id() {
    let tree = mock_tree();
    let pending = collect_sessions_needing_detection(&tree);
    // Live sessions with a cwd and no agent session id yet, in tree order.
    let ids: Vec<&str> = pending.iter().map(|(id, _)| id.as_str()).collect();
    assert_eq!(ids, vec![
        "a1b2c3d4-e5f6-7890-abcd-ef1234567890",
        "b2c3d4e5-f6a7-8901-bcde-f12345678901",
        "c3d4e5f6-a7b8-9012-cdef-123456789012",
    ]);
    assert_eq!(pending[0].1, "/Users/dev/Code/nexus");
}

#[test]
fn attention_marks_enclosing_groups() {
    let tree = mock_tree();
    // attention is matched on tmux names
    let groups = groups_with_attention(&tree, &["c3d4e5f6-a7b8-9012-cdef-123456789012".to_string()]);
    assert!(groups.contains(&2));
    assert!(!groups.contains(&3));
    assert!(!groups.contains(&1));
    assert_eq!(groups.len(), 1);
    let none = groups_with_attention(&tree, &["no-such-pane".to_string()]);
    assert!(none.is_empty());
}

#[test]
fn interactor_size_from_terminal() {
    assert_eq!(interactor_inner_size(100, 40, 30), (68, 35));
    assert_eq!(interactor_inner_size(0, 0, 30), (0, 0));
}

#[test]
fn test_reconcile_marks_detached() {
    let tree = mock_tree();
    let active_names: Vec<String> = Vec::new(); // no tmux sessions
    let (tree, changes) = reconcile_tree(&tree, &active_names);

    // Sessions that were Active should now be Detached
    let s = find_session_in_tree(&tree, "a1b2c3d4-e5f6-7890-abcd-ef1234567890").unwrap();
    assert_eq!(s.status, SessionStatus::Detached);
    assert!(!s.is_active);
    assert!(!changes.is_empty());
}

#[test]
fn reconcile_keeps_live_sessions_and_is_stable() {
    let tree = mock_tree();
    let live = vec!["a1b2c3d4-e5f6-7890-abcd-ef1234567890".to_string()];
    let (once, changes) = reconcile_tree(&tree, &live);
    let s = find_session_in_tree(&once, "a1b2c3d4-e5f6-7890-abcd-ef1234567890").unwrap();
    assert_eq!(s.status, SessionStatus::Active);
    assert!(changes.iter().all(|(id, _)| id != "a1b2c3d4-e5f6-7890-abcd-ef1234567890"));
    let (_, again) = reconcile_tree(&once, &live);
    assert!(again.is_empty());
}
