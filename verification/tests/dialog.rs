use nexus::dialog::{hovered_group, picker_index, DialogAction, DialogState};
use nexus::keys::{KeyCode, KeyEvent};
use nexus::types::{
    GroupIcon, GroupNode, InputContext, InputMode, SelectionTarget, SessionOrigin, SessionStatus, SessionSummary,
    TreeNode, WorktreeInfo,
};
use nexus::widgets::finder_state::FinderState;

fn key(code: KeyCode) -> KeyEvent {
    KeyEvent::plain(code)
}

fn typed(state: &mut DialogState, text: &str) {
    for c in text.chars() {
        state.text_input_key(key(KeyCode::Char(c)), Some("/home/u"), "/work");
    }
}

fn session(id: &str) -> TreeNode {
    TreeNode::Session(SessionSummary {
        session_id: id.to_string(),
        display_name: id.to_string(),
        cwd: None,
        last_active: "2026-02-28T10:00:00Z".to_string(),
        is_active: false,
        status: SessionStatus::Detached,
        tmux_name: None,
        created_by: SessionOrigin::Nexus,
        created_at: "2026-02-28T10:00:00Z".to_string(),
        claude_session_id: None,
        worktree: None,
        jsonl_path: None,
    })
}

#[test]
fn new_session_flow_asks_name_then_directory() {
    let mut d = DialogState::new();
    d.start_new_session();
    assert_eq!(d.mode, InputMode::TextInput);
    typed(&mut d, "api");
    assert_eq!(d.buffer, "api");
    let a = d.text_input_key(key(KeyCode::Enter), Some("/home/u"), "/work");
    assert!(matches!(a, DialogAction::RefreshSuggestions));
    assert_eq!(d.buffer, "/work");
    assert!(matches!(&d.context, Some(InputContext::NewSessionCwd { name }) if name == "api"));
    assert_eq!(d.mode, InputMode::TextInput);
}

#[test]
fn entered_directory_expands_tilde_and_checks_repo() {
    let mut d = DialogState::new();
    d.open_prompt(InputContext::NewSessionCwd { name: "api".to_string() }, "~/code".to_string());
    let a = d.text_input_key(key(KeyCode::Enter), Some("/home/u"), "/work");
    match a {
        DialogAction::CheckRepo { name, cwd } => {
            assert_eq!(name, "api");
            assert_eq!(cwd, "/home/u/code");
        }
        other => panic!("unexpected {other:?}"),
    }
    assert!(d.context.is_none());
}

#[test]
fn blank_entry_does_nothing() {
    let mut d = DialogState::new();
    d.open_prompt(InputContext::NewGroupName, "   ".to_string());
    let a = d.text_input_key(key(KeyCode::Enter), None, "/work");
    assert!(matches!(a, DialogAction::Nothing));
    assert_eq!(d.mode, InputMode::TextInput);
    assert_eq!(d.buffer, "   ");
}

#[test]
fn escape_closes_the_prompt() {
    let mut d = DialogState::new();
    d.open_prompt(InputContext::NewSessionCwd { name: "x".to_string() }, "/tm".to_string());
    d.set_suggestions(vec!["/tmp".to_string()]);
    d.text_input_key(key(KeyCode::Esc), None, "/");
    assert_eq!(d.mode, InputMode::Normal);
    assert!(d.context.is_none());
    assert!(d.buffer.is_empty());
    assert!(d.suggestions.is_empty());
    assert_eq!(d.suggestion_cursor, 0);
}

#[test]
fn suggestions_navigate_and_accept() {
    let mut d = DialogState::new();
    d.open_prompt(InputContext::NewSessionCwd { name: "x".to_string() }, "/t".to_string());
    d.set_suggestions(vec!["/tmp".to_string(), "/tools".to_string(), "/tv".to_string()]);
    d.text_input_key(key(KeyCode::Up), None, "/");
    assert_eq!(d.suggestion_cursor, 2);
    d.text_input_key(key(KeyCode::Char('j')), None, "/");
    assert_eq!(d.suggestion_cursor, 0);
    d.text_input_key(key(KeyCode::Down), None, "/");
    assert_eq!(d.suggestion_cursor, 1);
    let a = d.text_input_key(key(KeyCode::Tab), None, "/");
    assert!(matches!(a, DialogAction::AcceptSuggestion));
    assert_eq!(d.buffer, "/tools");
    d.complete_directory(true);
    assert_eq!(d.buffer, "/tools/");
    d.complete_directory(true);
    assert_eq!(d.buffer, "/tools/");
}

#[test]
fn j_and_k_are_typed_without_suggestions() {
    let mut d = DialogState::new();
    d.open_prompt(InputContext::NewSessionCwd { name: "x".to_string() }, String::new());
    let a = d.text_input_key(key(KeyCode::Char('k')), None, "/");
    assert!(matches!(a, DialogAction::RefreshSuggestions));
    assert_eq!(d.buffer, "k");
}

#[test]
fn backspace_removes_the_last_character() {
    let mut d = DialogState::new();
    d.open_prompt(InputContext::NewGroupName, "héllo".to_string());
    d.text_input_key(key(KeyCode::Backspace), None, "/");
    assert_eq!(d.buffer, "héll");
    let mut e = DialogState::new();
    e.open_prompt(InputContext::NewGroupName, String::new());
    e.text_input_key(key(KeyCode::Backspace), None, "/");
    assert_eq!(e.buffer, "");
}

#[test]
fn rename_and_group_submissions() {
    let mut d = DialogState::new();
    d.open_prompt(InputContext::RenameSession { session_id: "s1".to_string() }, "new".to_string());
    match d.text_input_key(key(KeyCode::Enter), None, "/") {
        DialogAction::RenameSession { session_id, name } => {
            assert_eq!(session_id, "s1");
            assert_eq!(name, "new");
        }
        other => panic!("unexpected {other:?}"),
    }
    assert_eq!(d.mode, InputMode::Normal);
    assert!(d.buffer.is_empty());

    d.start_new_group();
    typed(&mut d, "Work");
    assert!(matches!(d.text_input_key(key(KeyCode::Enter), None, "/"), DialogAction::CreateGroup { name } if name == "Work"));
}

#[test]
fn repo_prompt_then_picker() {
    let mut d = DialogState::new();
    let a = d.repo_checked("api".to_string(), "/r".to_string(), true);
    assert!(matches!(a, DialogAction::Nothing));
    assert_eq!(d.mode, InputMode::Confirm);
    match d.confirm_key(key(KeyCode::Char('y'))) {
        DialogAction::LoadGroups { name, cwd, worktree } => {
            assert_eq!((name.as_str(), cwd.as_str(), worktree), ("api", "/r", true));
        }
        other => panic!("unexpected {other:?}"),
    }
    let groups = vec![(3, "Work".to_string()), (7, "Home".to_string())];
    d.groups_loaded("api".to_string(), "/r".to_string(), true, groups, Some(7));
    assert_eq!(d.mode, InputMode::GroupPicker);
    assert_eq!(d.picker.len(), 3);
    assert_eq!(d.picker[0], (0, "Ungrouped".to_string()));
    assert_eq!(d.picker_cursor, 2);
    d.group_picker_key(key(KeyCode::Down));
    assert_eq!(d.picker_cursor, 0);
    match d.group_picker_key(key(KeyCode::Enter)) {
        DialogAction::CreateSession { name, cwd, group, worktree } => {
            assert_eq!(name, "api");
            assert_eq!(cwd, "/r");
            assert_eq!(group, None);
            assert!(worktree);
        }
        other => panic!("unexpected {other:?}"),
    }
    assert_eq!(d.mode, InputMode::Normal);
    assert!(d.picker.is_empty());
}

#[test]
fn no_groups_creates_right_away() {
    let mut d = DialogState::new();
    let a = d.repo_checked("api".to_string(), "/plain".to_string(), false);
    assert!(matches!(a, DialogAction::LoadGroups { worktree: false, .. }));
    let a = d.groups_loaded("api".to_string(), "/plain".to_string(), false, vec![], None);
    assert!(matches!(a, DialogAction::CreateSession { group: None, worktree: false, .. }));
    assert_eq!(d.mode, InputMode::Normal);
}

#[test]
fn delete_confirmations() {
    let wt = WorktreeInfo { branch: "b".to_string(), repo_root: "/r".to_string() };
    let mut d = DialogState::new();
    d.open_confirm(InputContext::ConfirmDeleteSession {
        session_id: "s1".to_string(),
        tmux_name: Some("t1".to_string()),
        worktree: Some(wt),
    });
    match d.confirm_key(key(KeyCode::Char('s'))) {
        DialogAction::DeleteSession { session_id, tmux_name, worktree } => {
            assert_eq!(session_id, "s1");
            assert_eq!(tmux_name.as_deref(), Some("t1"));
            assert!(worktree.is_none());
        }
        other => panic!("unexpected {other:?}"),
    }

    // 's' means nothing without a worktree
    d.open_confirm(InputContext::ConfirmDeleteSession { session_id: "s2".to_string(), tmux_name: None, worktree: None });
    assert!(matches!(d.confirm_key(key(KeyCode::Char('s'))), DialogAction::Nothing));
    assert_eq!(d.mode, InputMode::Confirm);
    assert!(matches!(d.confirm_key(key(KeyCode::Char('n'))), DialogAction::Nothing));
    assert_eq!(d.mode, InputMode::Normal);
    assert!(d.context.is_none());

    d.start_delete_group(0);
    assert_eq!(d.mode, InputMode::Normal);
    d.start_delete_group(4);
    assert!(matches!(d.confirm_key(key(KeyCode::Char('Y'))), DialogAction::DeleteGroup { group_id: 4 }));
}

#[test]
fn move_session_picker() {
    let mut d = DialogState::new();
    assert!(!d.start_move_session("s1".to_string(), vec![]));
    assert_eq!(d.mode, InputMode::Normal);
    assert!(d.start_move_session("s1".to_string(), vec![(5, "A".to_string()), (6, "B".to_string())]));
    d.group_picker_key(key(KeyCode::Char('k')));
    assert_eq!(d.picker_cursor, 1);
    assert!(matches!(d.group_picker_key(key(KeyCode::Enter)), DialogAction::MoveSession { group_id: 6, .. }));
}

#[test]
fn hovered_group_finds_the_parent() {
    let tree = vec![
        TreeNode::Group(GroupNode { id: 1, name: "a".to_string(), icon: GroupIcon::Root, children: vec![session("x")] }),
        TreeNode::Group(GroupNode { id: 2, name: "b".to_string(), icon: GroupIcon::Root, children: vec![session("y")] }),
        session("z"),
    ];
    assert_eq!(hovered_group(&tree, &Some(SelectionTarget::Session("y".to_string()))), Some(2));
    assert_eq!(hovered_group(&tree, &Some(SelectionTarget::Session("z".to_string()))), None);
    assert_eq!(hovered_group(&tree, &Some(SelectionTarget::Group(9))), Some(9));
    assert_eq!(hovered_group(&tree, &None), None);
    let picker = vec![(0, "Ungrouped".to_string()), (1, "a".to_string()), (2, "b".to_string())];
    assert_eq!(picker_index(&picker, Some(2)), 2);
    assert_eq!(picker_index(&picker, Some(42)), 0);
}

#[test]
fn finder_keys_edit_the_query() {
    let mut d = DialogState::new();
    d.mode = InputMode::Finder;
    let mut f = FinderState::new();
    d.finder_key(&mut f, key(KeyCode::Char('a')));
    d.finder_key(&mut f, key(KeyCode::Char('b')));
    assert_eq!(f.query, "ab");
    d.finder_key(&mut f, key(KeyCode::Backspace));
    assert_eq!(f.query, "a");
    assert!(matches!(d.finder_key(&mut f, key(KeyCode::Enter)), DialogAction::Nothing));
    assert_eq!(d.mode, InputMode::Finder);
    d.finder_key(&mut f, key(KeyCode::Esc));
    assert_eq!(d.mode, InputMode::Normal);
}
