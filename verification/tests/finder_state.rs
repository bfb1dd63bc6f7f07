use nexus::types::{GroupIcon, GroupNode, SessionOrigin, SessionStatus, SessionSummary, TreeNode};
use nexus::widgets::finder_state::{FinderEntry, FinderState};

fn session(id: &str, name: &str, cwd: &str, last: &str, active: bool, status: SessionStatus, tmux: Option<&str>, origin: SessionOrigin, created: &str) -> TreeNode {
    TreeNode::Session(SessionSummary {
        session_id: id.to_string(),
        display_name: name.to_string(),
        cwd: Some(cwd.to_string()),
        last_active: last.to_string(),
        is_active: active,
        status,
        tmux_name: tmux.map(|t| t.to_string()),
        created_by: origin,
        created_at: created.to_string(),
        claude_session_id: None,
        worktree: None,
        jsonl_path: None,
    })
}

fn mock_tree() -> Vec<TreeNode> {
    vec![
        TreeNode::Group(GroupNode {
            id: 1,
            name: "nexus".to_string(),
            icon: GroupIcon::Root,
            children: vec![
                session("a1b2c3d4-e5f6-7890-abcd-ef1234567890", "feat/scanner", "/Users/dev/Code/nexus", "2026-02-28T15:30:00Z", true, SessionStatus::Active, Some("a1b2c3d4-e5f6-7890-abcd-ef1234567890"), SessionOrigin::Nexus, "2026-02-28T10:00:00Z"),
                session("b2c3d4e5-f6a7-8901-bcde-f12345678901", "fix/render-tick", "/Users/dev/Code/nexus", "2026-02-27T09:15:00Z", false, SessionStatus::Detached, Some("b2c3d4e5-f6a7-8901-bcde-f12345678901"), SessionOrigin::Nexus, "2026-02-27T08:00:00Z"),
            ],
        }),
        TreeNode::Group(GroupNode {
            id: 2,
            name: "website".to_string(),
            icon: GroupIcon::Root,
            children: vec![
                session("c3d4e5f6-a7b8-9012-cdef-123456789012", "redesign-landing", "/Users/dev/Code/website", "2026-02-28T14:00:00Z", true, SessionStatus::Active, Some("c3d4e5f6-a7b8-9012-cdef-123456789012"), SessionOrigin::Nexus, "2026-02-28T12:00:00Z"),
                TreeNode::Group(GroupNode {
                    id: 3,
                    name: "api-work".to_string(),
                    icon: GroupIcon::SubGroup,
                    children: vec![session("d4e5f6a7-b8c9-0123-defa-234567890123", "api-auth-endpoints", "/Users/dev/Code/website", "2026-02-25T11:30:00Z", false, SessionStatus::Dead, None, SessionOrigin::Scanner, "2026-02-25T10:00:00Z")],
                }),
            ],
        }),
        TreeNode::Group(GroupNode {
            id: 4,
            name: "Ungrouped".to_string(),
            icon: GroupIcon::Root,
            children: vec![session("e5f6a7b8-c9d0-1234-efab-345678901234", "quick-question", "/Users/dev", "2026-02-20T08:00:00Z", false, SessionStatus::Dead, None, SessionOrigin::Scanner, "2026-02-20T08:00:00Z")],
        }),
    ]
}

#[test]
fn test_open_flattens_all_sessions() {
    let tree = mock_tree();
    let mut state = FinderState::new();
    state.open(&tree, true);
    // mock_tree has 5 sessions total
    assert_eq!(state.entries.len(), 5);
}

#[test]
fn test_open_excludes_dead_when_show_dead_false() {
    let tree = mock_tree();
    let mut state = FinderState::new();
    state.open(&tree, false);
    // 5 total, 2 dead (api-auth-endpoints + quick-question)
    assert_eq!(state.entries.len(), 3);
}

#[test]
fn test_empty_query_shows_all_sorted_by_last_active() {
    let tree = mock_tree();
    let mut state = FinderState::new();
    state.open(&tree, true);
    let results = state.results();
    // Verify sorted by last_active descending
    for window in results.windows(2) {
        assert!(window[0].last_active >= window[1].last_active);
    }
}

#[test]
fn test_filter_by_name_prefix() {
    let tree = mock_tree();
    let mut state = FinderState::new();
    state.open(&tree, true);
    state.update_query("feat".to_string());
    let results = state.results();
    assert_eq!(results.len(), 1);
    assert_eq!(results[0].display_name, "feat/scanner");
}

#[test]
fn test_filter_by_name_substring() {
    let tree = mock_tree();
    let mut state = FinderState::new();
    state.open(&tree, true);
    state.update_query("render".to_string());
    let results = state.results();
    assert_eq!(results.len(), 1);
    assert_eq!(results[0].display_name, "fix/render-tick");
}

#[test]
fn test_filter_by_group_name() {
    let tree = mock_tree();
    let mut state = FinderState::new();
    state.open(&tree, true);
    state.update_query("api-work".to_string());
    let results = state.results();
    // "api-work" group has 1 session
    assert_eq!(results.len(), 1);
    assert_eq!(results[0].group_name, "api-work");
}

#[test]
fn test_filter_by_cwd() {
    let tree = mock_tree();
    let mut state = FinderState::new();
    state.open(&tree, true);
    state.update_query("/Users/dev/Code/website".to_string());
    let results = state.results();
    // 2 sessions with cwd containing "website"
    assert_eq!(results.len(), 2);
}

#[test]
fn test_filter_case_insensitive() {
    let tree = mock_tree();
    let mut state = FinderState::new();
    state.open(&tree, true);
    state.update_query("FEAT".to_string());
    let results = state.results();
    assert_eq!(results.len(), 1);
    assert_eq!(results[0].display_name, "feat/scanner");
}

#[test]
fn test_no_match_returns_empty() {
    let tree = mock_tree();
    let mut state = FinderState::new();
    state.open(&tree, true);
    state.update_query("zzzznotfound".to_string());
    assert_eq!(state.result_count(), 0);
    assert!(state.selected().is_none());
}

#[test]
fn finder_state_test_cursor_navigation() {
    let tree = mock_tree();
    let mut state = FinderState::new();
    state.open(&tree, true);
    assert_eq!(state.cursor, 0);

    state.cursor_down();
    assert_eq!(state.cursor, 1);

    state.cursor_up();
    assert_eq!(state.cursor, 0);

    // Wrap up from 0
    state.cursor_up();
    assert_eq!(state.cursor, state.result_count() - 1);

    // Wrap down from last
    state.cursor_down();
    assert_eq!(state.cursor, 0);
}

#[test]
fn test_cursor_on_empty_results() {
    let tree = mock_tree();
    let mut state = FinderState::new();
    state.open(&tree, true);
    state.update_query("zzzznotfound".to_string());
    // Should not panic
    state.cursor_up();
    state.cursor_down();
    assert_eq!(state.cursor, 0);
}

#[test]
fn test_scoring_priority() {
    let entry = FinderEntry {
        session_id: "1".to_string(),
        display_name: "auth-refactor".to_string(),
        group_name: "work".to_string(),
        cwd: "/home/user/code".to_string(),
        status: SessionStatus::Active,
        last_active: "2026-01-01".to_string(),
    };

    assert_eq!(FinderState::score(&entry, "auth"), 100); // name prefix
    assert_eq!(FinderState::score(&entry, "refactor"), 80); // name substring
    assert_eq!(FinderState::score(&entry, "work"), 60); // group prefix
    assert_eq!(FinderState::score(&entry, "code"), 20); // CWD match
    assert_eq!(FinderState::score(&entry, "zzz"), 0); // no match
}

#[test]
fn test_group_name_populated() {
    let tree = mock_tree();
    let mut state = FinderState::new();
    state.open(&tree, true);
    // feat/scanner is in "nexus" group
    let scanner = state.entries.iter().find(|e| e.display_name == "feat/scanner").unwrap();
    assert_eq!(scanner.group_name, "nexus");

    // api-auth-endpoints is in "api-work" subgroup
    let api = state.entries.iter().find(|e| e.display_name == "api-auth-endpoints").unwrap();
    assert_eq!(api.group_name, "api-work");
}

#[test]
fn test_query_reset_on_open() {
    let tree = mock_tree();
    let mut state = FinderState::new();
    state.open(&tree, true);
    state.update_query("test".to_string());
    state.cursor = 2;

    // Re-open should reset
    state.open(&tree, true);
    assert!(state.query.is_empty());
    assert_eq!(state.cursor, 0);
}

#[test]
fn results_rank_by_score_then_recency() {
    let tree = mock_tree();
    let mut state = FinderState::new();
    state.open(&tree, true);
    // "redesign-landing" starts with the query (100), "fix/render-tick" contains it (80).
    state.update_query("re".to_string());
    let names: Vec<&str> = state.results().iter().map(|e| e.display_name.as_str()).collect();
    assert_eq!(names, vec!["redesign-landing", "fix/render-tick"]);
    assert_eq!(state.selected().unwrap().display_name, "redesign-landing");
}

#[test]
fn group_substring_scores_forty() {
    let entry = FinderEntry {
        session_id: "1".to_string(),
        display_name: "x".to_string(),
        group_name: "my-work".to_string(),
        cwd: "".to_string(),
        status: SessionStatus::Active,
        last_active: "".to_string(),
    };
    assert_eq!(FinderState::score(&entry, "work"), 40);
}
