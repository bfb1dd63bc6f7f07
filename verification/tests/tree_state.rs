use nexus::keys::{KeyCode, KeyEvent};
use nexus::types::{GroupIcon, GroupNode, SelectionTarget, SessionOrigin, SessionStatus, SessionSummary, TreeNode};
use nexus::widgets::tree_state::{TreeAction, TreeState};

fn session(id: &str, name: &str, cwd: &str, last: &str, active: bool, status: SessionStatus, tmux: Option<&str>, origin: SessionOrigin, created: &str) -> TreeNode {
    TreeNode::Session(SessionSummary {
        session_id: id.to_string(),
        display_name: name.to_string(),
        cwd: Some(cwd.to_string()),
        last_active: last.to_string(),
        is_active: active,
        status,
        tmux_name: tmux.map(|t| t.to_string()),
        created_by: origin,
        created_at: created.to_string(),
        claude_session_id: None,
        worktree: None,
        jsonl_path: None,
    })
}

fn mock_tree() -> Vec<TreeNode> {
    vec![
        TreeNode::Group(GroupNode {
            id: 1,
            name: "nexus".to_string(),
            icon: GroupIcon::Root,
            children: vec![
                session("a1b2c3d4-e5f6-7890-abcd-ef1234567890", "feat/scanner", "/Users/dev/Code/nexus", "2026-02-28T15:30:00Z", true, SessionStatus::Active, Some("a1b2c3d4-e5f6-7890-abcd-ef1234567890"), SessionOrigin::Nexus, "2026-02-28T10:00:00Z"),
                session("b2c3d4e5-f6a7-8901-bcde-f12345678901", "fix/render-tick", "/Users/dev/Code/nexus", "2026-02-27T09:15:00Z", false, SessionStatus::Detached, Some("b2c3d4e5-f6a7-8901-bcde-f12345678901"), SessionOrigin::Nexus, "2026-02-27T08:00:00Z"),
            ],
        }),
        TreeNode::Group(GroupNode {
            id: 2,
            name: "website".to_string(),
            icon: GroupIcon::Root,
            children: vec![
                session("c3d4e5f6-a7b8-9012-cdef-123456789012", "redesign-landing", "/Users/dev/Code/website", "2026-02-28T14:00:00Z", true, SessionStatus::Active, Some("c3d4e5f6-a7b8-9012-cdef-123456789012"), SessionOrigin::Nexus, "2026-02-28T12:00:00Z"),
                TreeNode::Group(GroupNode {
                    id: 3,
                    name: "api-work".to_string(),
                    icon: GroupIcon::SubGroup,
                    children: vec![session("d4e5f6a7-b8c9-0123-defa-234567890123", "api-auth-endpoints", "/Users/dev/Code/website", "2026-02-25T11:30:00Z", false, SessionStatus::Dead, None, SessionOrigin::Scanner, "2026-02-25T10:00:00Z")],
                }),
            ],
        }),
        TreeNode::Group(GroupNode {
            id: 4,
            name: "Ungrouped".to_string(),
            icon: GroupIcon::Root,
            children: vec![session("e5f6a7b8-c9d0-1234-efab-345678901234", "quick-question", "/Users/dev", "2026-02-20T08:00:00Z", false, SessionStatus::Dead, None, SessionOrigin::Scanner, "2026-02-20T08:00:00Z")],
        }),
    ]
}

#[test]
fn test_visible_nodes_all_expanded() {
    let tree = mock_tree();
    let state = TreeState::new(&tree);
    let flat = state.visible_nodes(&tree);
    // All expanded: 3 groups + 5 sessions + 1 subgroup = 9 nodes
    assert_eq!(flat.len(), 9);
}

#[test]
fn test_visible_nodes_collapsed_group() {
    let tree = mock_tree();
    let mut state = TreeState::new(&tree);

    // Collapse nexus group (id=1) -- hides 2 sessions
    state.toggle_expand(1);
    let flat = state.visible_nodes(&tree);
    // Was 9, minus 2 children of nexus = 7
    assert_eq!(flat.len(), 7);
}

#[test]
fn test_cursor_wraps_down() {
    let tree = mock_tree();
    let mut state = TreeState::new(&tree);
    let count = state.visible_nodes(&tree).len();

    state.cursor_index = count - 1;
    state.move_cursor_down(&tree);
    assert_eq!(state.cursor_index, 0);
}

#[test]
fn test_cursor_wraps_up() {
    let tree = mock_tree();
    let mut state = TreeState::new(&tree);

    state.cursor_index = 0;
    state.move_cursor_up(&tree);
    let count = state.visible_nodes(&tree).len();
    assert_eq!(state.cursor_index, count - 1);
}

#[test]
fn test_toggle_expand() {
    let tree = mock_tree();
    let mut state = TreeState::new(&tree);

    assert!(state.expanded.contains(&1));
    state.toggle_expand(1);
    assert!(!state.expanded.contains(&1));
    state.toggle_expand(1);
    assert!(state.expanded.contains(&1));
}

#[test]
fn test_selected_target_group() {
    let tree = mock_tree();
    let mut state = TreeState::new(&tree);
    state.cursor_index = 0; // first node is nexus group
    let target = state.selected_target(&tree);
    assert_eq!(target, Some(SelectionTarget::Group(1)));
}

#[test]
fn test_selected_target_session() {
    let tree = mock_tree();
    let mut state = TreeState::new(&tree);
    state.cursor_index = 1; // second node is feat/scanner session
    let target = state.selected_target(&tree);
    assert_eq!(target, Some(SelectionTarget::Session("a1b2c3d4-e5f6-7890-abcd-ef1234567890".to_string())));
}

#[test]
fn test_flat_node_depths() {
    let tree = mock_tree();
    let state = TreeState::new(&tree);
    let flat = state.visible_nodes(&tree);

    // nexus group at depth 0
    assert_eq!(flat[0].depth, 0);
    // its children at depth 1
    assert_eq!(flat[1].depth, 1);
    assert_eq!(flat[2].depth, 1);
    // website group at depth 0
    assert_eq!(flat[3].depth, 0);
    // website child sessions at depth 1
    assert_eq!(flat[4].depth, 1);
    // api-work subgroup at depth 1
    assert_eq!(flat[5].depth, 1);
    // api-work child at depth 2
    assert_eq!(flat[6].depth, 2);
}

#[test]
fn test_ensure_cursor_visible() {
    let tree = mock_tree();
    let mut state = TreeState::new(&tree);
    state.cursor_index = 8;
    state.scroll_offset = 0;
    state.ensure_cursor_visible(5);
    // cursor 8 needs offset at least 8-5+1=4
    assert_eq!(state.scroll_offset, 4);
}

#[test]
fn test_handle_key_j_moves_down() {
    let tree = mock_tree();
    let mut state = TreeState::new(&tree);
    state.cursor_index = 0;

    let key = KeyEvent::from(KeyCode::Char('j'));
    let action = state.handle_key(key, &tree);
    assert_eq!(action, Some(TreeAction::ScrollDown));
    assert_eq!(state.cursor_index, 1);
}

#[test]
fn test_handle_key_enter_toggles_group() {
    let tree = mock_tree();
    let mut state = TreeState::new(&tree);
    state.cursor_index = 0; // nexus group

    let key = KeyEvent::from(KeyCode::Enter);
    let action = state.handle_key(key, &tree);
    assert_eq!(action, Some(TreeAction::ToggleExpand(1)));
    assert!(!state.expanded.contains(&1));
}

#[test]
fn test_cache_invalidated_on_toggle() {
    let tree = mock_tree();
    let mut state = TreeState::new(&tree);

    // Cache starts valid after new()
    assert!(state.cache_valid);

    // Toggle invalidates
    state.toggle_expand(1);
    assert!(!state.cache_valid);

    // ensure_cache rebuilds
    state.ensure_cache(&tree);
    assert!(state.cache_valid);
    assert_eq!(state.cached_flat.len(), 7); // nexus collapsed: 9-2=7
}

#[test]
fn test_visible_nodes_uses_cache_when_valid() {
    let tree = mock_tree();
    let state = TreeState::new(&tree);

    // cache_valid should be true after new()
    assert!(state.cache_valid);

    let flat = state.visible_nodes(&tree);
    assert_eq!(flat.len(), 9);
}

#[test]
fn enter_on_session_selects_it() {
    let tree = mock_tree();
    let mut state = TreeState::new(&tree);
    state.cursor_index = 1;
    let action = state.handle_key(KeyEvent::from(KeyCode::Enter), &tree);
    assert_eq!(action, Some(TreeAction::Select(SelectionTarget::Session("a1b2c3d4-e5f6-7890-abcd-ef1234567890".to_string()))));
}

#[test]
fn k_moves_up_and_wraps() {
    let tree = mock_tree();
    let mut state = TreeState::new(&tree);
    state.cursor_index = 0;
    let action = state.handle_key(KeyEvent::from(KeyCode::Char('k')), &tree);
    assert_eq!(action, Some(TreeAction::ScrollUp));
    assert_eq!(state.cursor_index, 8);
}

#[test]
fn jump_to_session_expands_the_way_and_moves_the_cursor() {
    let tree = mock_tree();
    let mut state = TreeState::new(&tree);
    // collapse "website" and its sub-group
    state.toggle_expand(2);
    state.toggle_expand(3);
    assert!(state.jump_to_session("d4e5f6a7-b8c9-0123-defa-234567890123", &tree));
    assert!(state.expanded.contains(&2) && state.expanded.contains(&3));
    assert_eq!(
        state.selected_target(&tree),
        Some(SelectionTarget::Session("d4e5f6a7-b8c9-0123-defa-234567890123".to_string()))
    );
    let before = state.cursor_index;
    assert!(!state.jump_to_session("no-such-session", &tree));
    assert_eq!(state.cursor_index, before);
}
