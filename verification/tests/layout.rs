use nexus::types::{GroupIcon, InputContext, SessionStatus, ThemeElement, WorktreeInfo};
use nexus::widgets::layout::{
    centered_rect, clicked_node, confirm_message, finder_scroll, finder_size, finder_status_icon, group_row_look, highlight_cols,
    panel_foot, picker_height, picker_title, prompt_label, scroll_marks, session_row_look, suggestion_window,
    too_small, tree_viewport, finder_cwd, CwdShown, PanelFoot, TreeViewport,
};

#[test]
fn viewport_without_scrolling() {
    let v = tree_viewport(5, 10, 0);
    assert_eq!(v, TreeViewport { more_above: false, first: 0, end: 5, more_below: false });
}

#[test]
fn viewport_reserves_marker_lines() {
    // 20 rows, 10 fit, scrolled by 4: marker, rows 5..13, marker
    let v = tree_viewport(20, 10, 4);
    assert_eq!(v, TreeViewport { more_above: true, first: 5, end: 13, more_below: true });
    // at the bottom only the top marker is needed
    let v = tree_viewport(20, 10, 12);
    assert_eq!(v, TreeViewport { more_above: true, first: 13, end: 20, more_below: false });
}

#[test]
fn row_looks() {
    let g = group_row_look(GroupIcon::Root, true, true, false);
    assert_eq!(g.icon, "\u{25B6}");
    assert_eq!(g.icon_color, ThemeElement::Hazard);
    assert_eq!(g.text_color, ThemeElement::Dim);
    let g = group_row_look(GroupIcon::SubGroup, false, true, true);
    assert_eq!(g.icon, "\u{2B21}");
    assert_eq!(g.icon_color, ThemeElement::Primary);
    assert_eq!(g.text_color, ThemeElement::Text);
    let s = session_row_look(true, SessionStatus::Active, false);
    assert_eq!(s.icon, "\u{25C9}");
    let s = session_row_look(false, SessionStatus::Detached, true);
    assert_eq!((s.icon, s.icon_color), ("\u{25CB}", ThemeElement::Dim));
    let s = session_row_look(false, SessionStatus::Active, false);
    assert_eq!((s.icon, s.text_color), ("\u{25CF}", ThemeElement::Secondary));
}

#[test]
fn left_panel_foot() {
    assert!(too_small(79, 30));
    assert!(!too_small(80, 24));
    assert_eq!(panel_foot(40, 10), PanelFoot::Logo(10));
    assert_eq!(panel_foot(8, 10), PanelFoot::Indicator); // half is 4, 4 + 5 > 8
    assert_eq!(panel_foot(12, 10), PanelFoot::Logo(6));
    assert_eq!(panel_foot(40, 2), PanelFoot::Indicator);
    assert_eq!(panel_foot(1, 0), PanelFoot::Nothing);
}

#[test]
fn selection_highlight_columns() {
    // selection from (3,2) to (5,4) inside x 1..=20, y 1..=10
    assert_eq!(highlight_cols((3, 2), (5, 4), 1, 1, 20, 10, 2), Some((3, 20)));
    assert_eq!(highlight_cols((3, 2), (5, 4), 1, 1, 20, 10, 3), Some((1, 20)));
    assert_eq!(highlight_cols((3, 2), (5, 4), 1, 1, 20, 10, 4), Some((1, 5)));
    assert_eq!(highlight_cols((3, 2), (5, 4), 1, 1, 20, 10, 5), None);
    assert_eq!(highlight_cols((0, 0), (40, 0), 1, 1, 20, 10, 0), None);
}

#[test]
fn centered_overlay() {
    assert_eq!(centered_rect(10, 4, 0, 0, 30, 10), (10, 3, 10, 4));
    assert_eq!(centered_rect(50, 40, 2, 1, 30, 10), (2, 1, 30, 10));
}

#[test]
fn suggestion_window_follows_cursor() {
    assert_eq!(suggestion_window(3, 2), (3, 0));
    assert_eq!(suggestion_window(10, 0), (5, 0));
    assert_eq!(suggestion_window(10, 6), (5, 4));
    assert_eq!(suggestion_window(10, 9), (5, 5));
    assert_eq!(scroll_marks(0, 5, 10), " \u{25BC} ");
    assert_eq!(scroll_marks(5, 5, 10), " \u{25B2} ");
    assert_eq!(scroll_marks(2, 5, 10), " \u{25B2}\u{25BC} ");
    assert_eq!(scroll_marks(0, 3, 3), "");
}

#[test]
fn dialog_texts() {
    assert_eq!(prompt_label(&Some(InputContext::NewSessionName)), "Session name");
    assert_eq!(prompt_label(&Some(InputContext::NewSessionCwd { name: "x".to_string() })), "Working directory");
    assert_eq!(prompt_label(&None), "Input");
    let wt = WorktreeInfo { branch: "b".to_string(), repo_root: "/r".to_string() };
    assert_eq!(
        confirm_message(&Some(InputContext::ConfirmDeleteSession { session_id: "s".to_string(), tmux_name: None, worktree: Some(wt) })),
        "Delete session AND worktree? (y/n/s=session only)"
    );
    assert_eq!(confirm_message(&Some(InputContext::ConfirmDeleteGroup { group_id: 1 })), "Delete this group? (y/n)");
    assert_eq!(picker_title(&Some(InputContext::MoveSession { session_id: "s".to_string() })), " Move to group ");
    assert_eq!(picker_height(3, 40), 5);
    assert_eq!(picker_height(50, 20), 20);
}

#[test]
fn finder_geometry() {
    // 100x30: 40% of 30 is 12 rows; 60 columns wide; 3 results -> 7 rows
    assert_eq!(finder_size(100, 30, 3), (12, 60, 7));
    assert_eq!(finder_size(50, 10, 100), (5, 40, 9));
    assert_eq!(finder_scroll(3, 5), 0);
    assert_eq!(finder_scroll(7, 5), 3);
    assert_eq!(finder_status_icon(SessionStatus::Dead), "\u{00D7}");
}

#[test]
fn clicks_map_to_nodes() {
    // five nodes, the second a worktree session (two lines), all in view
    let tall = vec![false, true, false, false, false];
    assert_eq!(clicked_node(&tall, 10, 0, 0), Some(0));
    assert_eq!(clicked_node(&tall, 10, 0, 1), Some(1));
    assert_eq!(clicked_node(&tall, 10, 0, 2), Some(1));
    assert_eq!(clicked_node(&tall, 10, 0, 3), Some(2));
    assert_eq!(clicked_node(&tall, 10, 0, 9), None);
    // scrolled by two in a four-line view: marker, then nodes 2, 3, 4
    assert_eq!(clicked_node(&tall, 4, 2, 0), None);
    assert_eq!(clicked_node(&tall, 4, 2, 1), Some(2));
    assert_eq!(clicked_node(&tall, 4, 2, 2), Some(3));
    assert_eq!(clicked_node(&tall, 4, 2, 3), Some(4));
    // scrolled by one in a three-line view: marker, node 1 (one line only), marker
    assert_eq!(clicked_node(&tall, 3, 1, 0), None);
    assert_eq!(clicked_node(&tall, 3, 1, 1), Some(1));
    assert_eq!(clicked_node(&tall, 3, 1, 2), None);
    assert_eq!(clicked_node(&Vec::new(), 4, 0, 0), None);
}

#[test]
fn finder_rows_shorten_long_directories() {
    assert_eq!(finder_cwd(60, 4, 10, 8, 0), CwdShown::Hidden);
    assert_eq!(finder_cwd(24, 4, 10, 4, 20), CwdShown::Hidden);
    assert_eq!(finder_cwd(60, 4, 10, 8, 20), CwdShown::Whole);
    // 38 columns left, 36 for the directory: its last 33 bytes after "..."
    assert_eq!(finder_cwd(60, 4, 10, 8, 50), CwdShown::Tail { from_byte: 17 });
}
