use nexus::types::{GroupIcon, GroupNode, SessionOrigin, SessionStatus, SessionSummary, TreeNode};
use nexus::widgets::radar_state::{
    hash_to_angle, recency_of_age, small_hash_jitter, small_hash_radius_jitter, RadarState, Recency,
};

fn session(id: &str, name: &str, cwd: &str, last: &str, active: bool, status: SessionStatus, tmux: Option<&str>, origin: SessionOrigin, created: &str) -> TreeNode {
    TreeNode::Session(SessionSummary {
        session_id: id.to_string(),
        display_name: name.to_string(),
        cwd: Some(cwd.to_string()),
        last_active: last.to_string(),
        is_active: active,
        status,
        tmux_name: tmux.map(|t| t.to_string()),
        created_by: origin,
        created_at: created.to_string(),
        claude_session_id: None,
        worktree: None,
        jsonl_path: None,
    })
}

fn mock_tree() -> Vec<TreeNode> {
    vec![
        TreeNode::Group(GroupNode {
            id: 1,
            name: "nexus".to_string(),
            icon: GroupIcon::Root,
            children: vec![
                session("a1b2c3d4-e5f6-7890-abcd-ef1234567890", "feat/scanner", "/Users/dev/Code/nexus", "2026-02-28T15:30:00Z", true, SessionStatus::Active, Some("a1b2c3d4-e5f6-7890-abcd-ef1234567890"), SessionOrigin::Nexus, "2026-02-28T10:00:00Z"),
                session("b2c3d4e5-f6a7-8901-bcde-f12345678901", "fix/render-tick", "/Users/dev/Code/nexus", "2026-02-27T09:15:00Z", false, SessionStatus::Detached, Some("b2c3d4e5-f6a7-8901-bcde-f12345678901"), SessionOrigin::Nexus, "2026-02-27T08:00:00Z"),
            ],
        }),
        TreeNode::Group(GroupNode {
            id: 2,
            name: "website".to_string(),
            icon: GroupIcon::Root,
            children: vec![
                session("c3d4e5f6-a7b8-9012-cdef-123456789012", "redesign-landing", "/Users/dev/Code/website", "2026-02-28T14:00:00Z", true, SessionStatus::Active, Some("c3d4e5f6-a7b8-9012-cdef-123456789012"), SessionOrigin::Nexus, "2026-02-28T12:00:00Z"),
                TreeNode::Group(GroupNode {
                    id: 3,
                    name: "api-work".to_string(),
                    icon: GroupIcon::SubGroup,
                    children: vec![session("d4e5f6a7-b8c9-0123-defa-234567890123", "api-auth-endpoints", "/Users/dev/Code/website", "2026-02-25T11:30:00Z", false, SessionStatus::Dead, None, SessionOrigin::Scanner, "2026-02-25T10:00:00Z")],
                }),
            ],
        }),
        TreeNode::Group(GroupNode {
            id: 4,
            name: "Ungrouped".to_string(),
            icon: GroupIcon::Root,
            children: vec![session("e5f6a7b8-c9d0-1234-efab-345678901234", "quick-question", "/Users/dev", "2026-02-20T08:00:00Z", false, SessionStatus::Dead, None, SessionOrigin::Scanner, "2026-02-20T08:00:00Z")],
        }),
    ]
}


/// 2026-02-28T16:00:00Z
const NOW: i64 = 1772294400;

fn radar() -> RadarState {
    let mut state = RadarState::new();
    state.compute_blips(&mock_tree(), NOW);
    state
}

#[test]
fn test_compute_blips() {
    let state = radar();
    // 5 sessions in the mock tree
    assert_eq!(state.blips.len(), 5);
    let groups: Vec<&str> = state.blips.iter().map(|b| b.group_name.as_str()).collect();
    assert_eq!(groups, vec!["nexus", "nexus", "website", "api-work", "Ungrouped"]);
    let recency: Vec<Recency> = state.blips.iter().map(|b| b.recency).collect();
    assert_eq!(recency, vec![Recency::Today, Recency::ThisWeek, Recency::Today, Recency::ThisWeek, Recency::ThisMonth]);
    assert_eq!(state.blips[0].angle_deg, 263);
    assert_eq!(state.blips[0].jitter_deg, -14);
    assert_eq!(state.blips[0].radius_jitter, 3);
}

#[test]
fn test_blip_positions_within_bounds() {
    for blip in &radar().blips {
        assert!(blip.angle_deg < 360);
        assert!((-15..=15).contains(&blip.jitter_deg));
        assert!((-3..=3).contains(&blip.radius_jitter));
    }
}

#[test]
fn radar_state_test_cursor_navigation() {
    let mut state = radar();

    assert_eq!(state.cursor_blip, None);

    state.move_cursor_next();
    assert_eq!(state.cursor_blip, Some(0));

    state.move_cursor_next();
    assert_eq!(state.cursor_blip, Some(1));

    // Wrap around forward
    for _ in 0..state.blips.len() {
        state.move_cursor_next();
    }
    assert_eq!(state.cursor_blip, Some(1)); // back to 1 after wrapping

    // Prev
    state.cursor_blip = Some(0);
    state.move_cursor_prev();
    assert_eq!(state.cursor_blip, Some(state.blips.len() - 1));
}

#[test]
fn test_select_by_session_id() {
    let mut state = radar();
    state.select_by_session_id("a1b2c3d4-e5f6-7890-abcd-ef1234567890");
    assert!(state.cursor_blip.is_some());
    assert_eq!(state.selected_session(), Some("a1b2c3d4-e5f6-7890-abcd-ef1234567890"));
}

#[test]
fn test_select_by_session_id_not_found() {
    let mut state = radar();
    state.select_by_session_id("nonexistent");
    assert_eq!(state.cursor_blip, None);
    assert_eq!(state.selected_session(), None);
}

#[test]
fn test_empty_blips_cursor() {
    let mut state = RadarState::new();
    state.move_cursor_next();
    assert_eq!(state.cursor_blip, None);
    state.move_cursor_prev();
    assert_eq!(state.cursor_blip, None);
}

#[test]
fn test_hash_to_angle_deterministic() {
    let a1 = hash_to_angle("nexus");
    let a2 = hash_to_angle("nexus");
    assert_eq!(a1, a2);
}

#[test]
fn test_hash_to_angle_different_names() {
    let a1 = hash_to_angle("nexus");
    let a2 = hash_to_angle("website");
    assert_ne!(a1, a2);
}

#[test]
fn test_active_blip_flagged() {
    let state = radar();
    let active_count = state.blips.iter().filter(|b| b.is_active).count();
    assert_eq!(active_count, 2); // feat/scanner and redesign-landing
}

#[test]
fn cursor_next_then_prev_comes_back_and_survives_recompute() {
    let mut state = radar();
    state.cursor_blip = Some(3);
    state.move_cursor_next();
    state.move_cursor_prev();
    assert_eq!(state.cursor_blip, Some(3));
    state.cursor_blip = Some(4);
    state.compute_blips(&mock_tree()[..1], NOW);
    assert_eq!(state.blips.len(), 2);
    assert_eq!(state.cursor_blip, Some(0));
    state.compute_blips(&[], NOW);
    assert_eq!(state.cursor_blip, None);
}

#[test]
fn recency_bands_follow_the_relative_time() {
    assert_eq!(recency_of_age(None), Recency::Older);
    assert_eq!(recency_of_age(Some(-5)), Recency::Older);
    assert_eq!(recency_of_age(Some(0)), Recency::Today);
    assert_eq!(recency_of_age(Some(86_399)), Recency::Today);
    assert_eq!(recency_of_age(Some(7 * 86_400 + 5)), Recency::ThisWeek);
    assert_eq!(recency_of_age(Some(8 * 86_400)), Recency::ThisMonth);
    assert_eq!(recency_of_age(Some(359 * 86_400)), Recency::ThisMonth);
    assert_eq!(recency_of_age(Some(360 * 86_400)), Recency::Older);
    assert_eq!(small_hash_jitter("a1b2c3d4-e5f6-7890-abcd-ef1234567890"), -14);
    assert_eq!(small_hash_radius_jitter("a1b2c3d4-e5f6-7890-abcd-ef1234567890"), 3);
}
