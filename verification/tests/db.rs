use nexus::db::{build_tree, next_unique_tmux_name, summary_from_row, SessionRow};
use nexus::types::{GroupIcon, SessionOrigin, SessionStatus, SessionSummary, TreeNode};

fn names(v: &[&str]) -> Vec<String> {
    v.iter().map(|s| s.to_string()).collect()
}

#[test]
fn test_next_unique_tmux_name() {
    // First use of "foo" should be free.
    assert_eq!(next_unique_tmux_name("foo", &names(&[]), None), "foo");
    // A session with tmux_name "foo".
    assert_eq!(next_unique_tmux_name("foo", &names(&["foo"]), None), "foo-2");
    // And "foo-2".
    assert_eq!(next_unique_tmux_name("foo", &names(&["foo", "foo-2"]), None), "foo-3");
    // Unrelated name is unaffected.
    assert_eq!(next_unique_tmux_name("bar", &names(&["foo", "foo-2"]), None), "bar");
}

#[test]
fn test_next_unique_tmux_name_exclude_self() {
    // Without exclude: "foo" is taken.
    assert_eq!(next_unique_tmux_name("foo", &names(&["foo"]), None), "foo-2");
    // With exclude (the session's own tmux name): renaming to own name is fine.
    assert_eq!(next_unique_tmux_name("foo", &names(&["foo"]), Some("foo")), "foo");
}

#[test]
fn unique_name_skips_gaps_in_order() {
    assert_eq!(next_unique_tmux_name("a", &names(&["a", "a-3", "a-2", "a-5"]), None), "a-4");
}

fn row(id: &str, status: &str, branch: Option<&str>, repo: Option<&str>) -> SessionRow {
    SessionRow {
        session_id: id.to_string(),
        display_name: format!("name-{id}"),
        cwd: Some("/tmp".to_string()),
        last_active: "2026-02-28T10:00:00Z".to_string(),
        is_active: 1,
        tmux_name: None,
        status: status.to_string(),
        created_by: "nexus".to_string(),
        created_at: "2026-02-28T09:00:00Z".to_string(),
        claude_session_id: None,
        worktree_branch: branch.map(|s| s.to_string()),
        worktree_repo_root: repo.map(|s| s.to_string()),
    }
}

#[test]
fn test_worktree_roundtrip() {
    let sess = summary_from_row(row("wt-test", "active", Some("nexus/my-feature"), Some("/home/user/repo")));
    assert!(sess.worktree.is_some());
    let wt_read = sess.worktree.as_ref().unwrap();
    assert_eq!(wt_read.branch, "nexus/my-feature");
    assert_eq!(wt_read.repo_root, "/home/user/repo");
}

#[test]
fn test_worktree_none_roundtrip() {
    let sess = summary_from_row(row("plain", "active", None, None));
    assert!(sess.worktree.is_none());
}

#[test]
fn row_columns_map_to_summary() {
    let s = summary_from_row(row("s1", "detached", Some("b"), None));
    // all-or-nothing: one worktree column alone is no worktree
    assert!(s.worktree.is_none());
    assert_eq!(s.status, SessionStatus::Detached);
    assert_eq!(s.created_by, SessionOrigin::Nexus);
    assert!(s.is_active);
    assert!(s.jsonl_path.is_none());
}

fn summary(id: &str) -> SessionSummary {
    summary_from_row(row(id, "active", None, None))
}

fn child_ids(node: &TreeNode) -> Vec<String> {
    match node {
        TreeNode::Group(g) => g
            .children
            .iter()
            .map(|c| match c {
                TreeNode::Session(s) => s.session_id.clone(),
                TreeNode::Group(_) => String::from("group"),
            })
            .collect(),
        TreeNode::Session(_) => panic!("expected a group"),
    }
}

fn group_name(node: &TreeNode) -> String {
    match node {
        TreeNode::Group(g) => g.name.clone(),
        TreeNode::Session(_) => panic!("Expected group node"),
    }
}

#[test]
fn test_get_tree_with_groups_and_ungrouped() {
    let groups = vec![(1, "Work".to_string())];
    let tree = build_tree(&groups, &vec![(1, summary("aaa"))], &vec![summary("bbb"), summary("ccc")]);
    // Should have 2 nodes: "Work" group + "Ungrouped"
    assert_eq!(tree.len(), 2);
    assert_eq!(group_name(&tree[0]), "Work");
    assert_eq!(child_ids(&tree[0]).len(), 1);
    assert_eq!(group_name(&tree[1]), "Ungrouped");
    assert_eq!(child_ids(&tree[1]).len(), 2);
}

#[test]
fn test_get_tree_no_ungrouped_when_all_assigned() {
    let groups = vec![(1, "Work".to_string())];
    let tree = build_tree(&groups, &vec![(1, summary("aaa"))], &vec![]);
    assert_eq!(tree.len(), 1);
    assert_eq!(group_name(&tree[0]), "Work");
    assert_eq!(child_ids(&tree[0]).len(), 1);
}

#[test]
fn test_get_tree_empty() {
    assert!(build_tree(&vec![], &vec![], &vec![]).is_empty());
}

#[test]
fn tree_keeps_row_order_per_group() {
    let groups = vec![(1, "Work".to_string()), (2, "Personal".to_string()), (1, "Again".to_string())];
    let grouped = vec![(1, summary("s1")), (2, summary("s2")), (1, summary("s3")), (9, summary("s9"))];
    let tree = build_tree(&groups, &grouped, &vec![summary("s4")]);
    assert_eq!(tree.len(), 4);
    assert_eq!(child_ids(&tree[0]), vec!["s1", "s3"]);
    assert_eq!(child_ids(&tree[1]), vec!["s2"]);
    // a later group with an id already used gets no sessions
    assert!(child_ids(&tree[2]).is_empty());
    match &tree[3] {
        TreeNode::Group(g) => {
            assert_eq!(g.id, 0);
            assert_eq!(g.icon, GroupIcon::Root);
        }
        TreeNode::Session(_) => panic!("expected the ungrouped group"),
    }
    match &tree[0] {
        TreeNode::Group(g) => assert_eq!(g.icon, GroupIcon::SubGroup),
        TreeNode::Session(_) => panic!("expected a group"),
    }
}
