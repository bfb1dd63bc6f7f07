use nexus::keys::{KeyCode, KeyEvent, KeyModifiers};
use nexus::tmux::{
    key_event_to_send_args, parse_list_sessions_output, sanitize_tmux_name, SendKeysArgs, TargetError, TmuxManager,
};
use nexus::types::TmuxSessionStatus;

#[test]
fn test_parse_single_line() {
    let output = "my-session:bash:1:vim\n";
    let windows = parse_list_sessions_output(output);
    assert_eq!(windows.len(), 1);
    assert_eq!(windows[0].session_id, "my-session");
    assert_eq!(windows[0].window_name, "bash");
    assert!(windows[0].is_active);
    assert_eq!(windows[0].status, TmuxSessionStatus::Running);
}

#[test]
fn test_parse_detached_idle() {
    let output = "nexus-001:zsh:0:\n";
    let windows = parse_list_sessions_output(output);
    assert_eq!(windows.len(), 1);
    assert!(!windows[0].is_active);
    assert_eq!(windows[0].status, TmuxSessionStatus::Idle);
}

#[test]
fn test_parse_multiple_lines() {
    let output = "\
session-a:win1:1:agent\n\
session-b:win2:0:vim\n\
session-c:win3:0:\n";

    let windows = parse_list_sessions_output(output);
    assert_eq!(windows.len(), 3);

    assert_eq!(windows[0].session_id, "session-a");
    assert!(windows[0].is_active);
    assert_eq!(windows[0].status, TmuxSessionStatus::Running);

    assert_eq!(windows[1].session_id, "session-b");
    assert!(!windows[1].is_active);
    assert_eq!(windows[1].status, TmuxSessionStatus::Running);

    assert_eq!(windows[2].session_id, "session-c");
    assert!(!windows[2].is_active);
    assert_eq!(windows[2].status, TmuxSessionStatus::Idle);
}

#[test]
fn test_parse_empty_output() {
    let windows = parse_list_sessions_output("");
    assert!(windows.is_empty());
}

#[test]
fn test_parse_malformed_line_skipped() {
    let output = "only-one-part\nsession:win:0:cmd\n";
    let windows = parse_list_sessions_output(output);
    // First line has no colons -> skipped, second line is valid
    assert_eq!(windows.len(), 1);
    assert_eq!(windows[0].session_id, "session");
}

#[test]
fn test_parse_non_numeric_attached() {
    let output = "sess:win:abc:cmd\n";
    let windows = parse_list_sessions_output(output);
    assert_eq!(windows.len(), 1);
    // Non-numeric falls back to 0 -> not active
    assert!(!windows[0].is_active);
}

#[test]
fn test_parse_command_with_colons() {
    // If the command itself contains colons, splitn(4, ':') keeps them
    let output = "sess:win:1:python:3.11:script.py\n";
    let windows = parse_list_sessions_output(output);
    assert_eq!(windows.len(), 1);
    assert_eq!(windows[0].session_id, "sess");
    assert_eq!(windows[0].window_name, "win");
    assert!(windows[0].is_active);
    assert_eq!(windows[0].status, TmuxSessionStatus::Running);
}

#[test]
fn parse_line_without_command_field() {
    // Three fields only: the command is empty, so the session is idle.
    let windows = parse_list_sessions_output("a:b: 2 ");
    assert_eq!(windows.len(), 1);
    assert!(windows[0].is_active);
    assert_eq!(windows[0].status, TmuxSessionStatus::Idle);
    // Two fields: no attached count, skipped.
    assert!(parse_list_sessions_output("a:b\n").is_empty());
    // An overflowing attached count does not parse.
    assert!(!parse_list_sessions_output("a:b:4294967296:x")[0].is_active);
    assert!(parse_list_sessions_output("a:b:+3:x\r\n")[0].is_active);
}

#[test]
fn test_validate_target_valid() {
    assert!(TmuxManager::validate_target("my-session").is_ok());
    assert!(TmuxManager::validate_target("test_123").is_ok());
    assert!(TmuxManager::validate_target("ABC-xyz").is_ok());
}

#[test]
fn test_validate_target_rejects_dot() {
    assert!(TmuxManager::validate_target("session.name").is_err());
}

#[test]
fn test_validate_target_rejects_spaces() {
    assert!(TmuxManager::validate_target("my session").is_err());
}

#[test]
fn test_validate_target_rejects_empty() {
    assert!(TmuxManager::validate_target("").is_err());
}

#[test]
fn test_validate_target_rejects_injection() {
    assert!(TmuxManager::validate_target("sess;rm -rf /").is_err());
    assert!(TmuxManager::validate_target("sess:window").is_err());
}

#[test]
fn validate_target_error_kinds() {
    assert_eq!(TmuxManager::validate_target(""), Err(TargetError::Empty));
    assert_eq!(TmuxManager::validate_target("a.b"), Err(TargetError::InvalidChar));
}

#[test]
fn manager_keeps_socket_name() {
    assert_eq!(TmuxManager::new("nexus-test").socket_name, "nexus-test");
}

#[test]
fn test_sanitize_tmux_name() {
    assert_eq!(sanitize_tmux_name("hello-world"), "hello-world");
    assert_eq!(sanitize_tmux_name("foo.bar/baz"), "foo-bar-baz");
    assert_eq!(sanitize_tmux_name("a b c"), "a-b-c");
}

#[test]
fn sanitize_tmux_name_keeps_only_ascii_letters_digits_and_dashes() {
    assert_eq!(sanitize_tmux_name("café_1"), "caf--1");
    assert_eq!(TmuxManager::validate_target(&sanitize_tmux_name("é")), Ok(()));
    assert_eq!(sanitize_tmux_name(&sanitize_tmux_name("x.y z")), "x-y-z");
}

#[test]
fn test_send_keys_args_variants() {
    let lit = SendKeysArgs::Literal("hello".to_string());
    let named = SendKeysArgs::Named("Enter");
    assert_ne!(lit, named);
    assert_eq!(lit, SendKeysArgs::Literal("hello".to_string()));
    assert_eq!(named, SendKeysArgs::Named("Enter"));
}

fn make_key(code: KeyCode, modifiers: KeyModifiers) -> KeyEvent {
    KeyEvent::new(code, modifiers)
}

fn none() -> KeyModifiers {
    KeyModifiers { shift: false, control: false, alt: false }
}

fn shift() -> KeyModifiers {
    KeyModifiers { shift: true, control: false, alt: false }
}

fn control() -> KeyModifiers {
    KeyModifiers { shift: false, control: true, alt: false }
}

fn alt() -> KeyModifiers {
    KeyModifiers { shift: false, control: false, alt: true }
}

#[test]
fn test_key_mapping_printable_chars() {
    let result = key_event_to_send_args(&make_key(KeyCode::Char('a'), none()));
    assert_eq!(result, Some(SendKeysArgs::Literal("a".to_string())));

    let result = key_event_to_send_args(&make_key(KeyCode::Char('Z'), shift()));
    assert_eq!(result, Some(SendKeysArgs::Literal("Z".to_string())));
}

#[test]
fn test_key_mapping_unicode() {
    let result = key_event_to_send_args(&make_key(KeyCode::Char('ñ'), none()));
    assert_eq!(result, Some(SendKeysArgs::Literal("ñ".to_string())));

    let result = key_event_to_send_args(&make_key(KeyCode::Char('日'), none()));
    assert_eq!(result, Some(SendKeysArgs::Literal("日".to_string())));
}

#[test]
fn test_key_mapping_special_keys() {
    assert_eq!(key_event_to_send_args(&make_key(KeyCode::Enter, none())), Some(SendKeysArgs::Named("Enter")));
    assert_eq!(key_event_to_send_args(&make_key(KeyCode::Backspace, none())), Some(SendKeysArgs::Named("BSpace")));
    assert_eq!(key_event_to_send_args(&make_key(KeyCode::Tab, none())), Some(SendKeysArgs::Named("Tab")));
    assert_eq!(key_event_to_send_args(&make_key(KeyCode::Esc, none())), Some(SendKeysArgs::Named("Escape")));
    assert_eq!(key_event_to_send_args(&make_key(KeyCode::Delete, none())), Some(SendKeysArgs::Named("DC")));
    assert_eq!(key_event_to_send_args(&make_key(KeyCode::Insert, none())), Some(SendKeysArgs::Named("IC")));
}

#[test]
fn test_key_mapping_arrows() {
    assert_eq!(key_event_to_send_args(&make_key(KeyCode::Up, none())), Some(SendKeysArgs::Named("Up")));
    assert_eq!(key_event_to_send_args(&make_key(KeyCode::Down, none())), Some(SendKeysArgs::Named("Down")));
    assert_eq!(key_event_to_send_args(&make_key(KeyCode::Left, none())), Some(SendKeysArgs::Named("Left")));
    assert_eq!(key_event_to_send_args(&make_key(KeyCode::Right, none())), Some(SendKeysArgs::Named("Right")));
}

#[test]
fn test_key_mapping_nav_keys() {
    assert_eq!(key_event_to_send_args(&make_key(KeyCode::Home, none())), Some(SendKeysArgs::Named("Home")));
    assert_eq!(key_event_to_send_args(&make_key(KeyCode::End, none())), Some(SendKeysArgs::Named("End")));
    assert_eq!(key_event_to_send_args(&make_key(KeyCode::PageUp, none())), Some(SendKeysArgs::Named("PageUp")));
    assert_eq!(key_event_to_send_args(&make_key(KeyCode::PageDown, none())), Some(SendKeysArgs::Named("PageDown")));
}

#[test]
fn test_key_mapping_ctrl_keys() {
    assert_eq!(key_event_to_send_args(&make_key(KeyCode::Char('c'), control())), Some(SendKeysArgs::Named("C-c")));
    assert_eq!(key_event_to_send_args(&make_key(KeyCode::Char('a'), control())), Some(SendKeysArgs::Named("C-a")));
    assert_eq!(key_event_to_send_args(&make_key(KeyCode::Char('z'), control())), Some(SendKeysArgs::Named("C-z")));
    // Uppercase Ctrl+key should map to same lowercase
    assert_eq!(key_event_to_send_args(&make_key(KeyCode::Char('C'), control())), Some(SendKeysArgs::Named("C-c")));
}

#[test]
fn ctrl_with_non_letter_is_not_forwarded() {
    assert_eq!(key_event_to_send_args(&make_key(KeyCode::Char('1'), control())), None);
    // Ctrl with a key that is no character falls through to the key's own name.
    assert_eq!(key_event_to_send_args(&make_key(KeyCode::Enter, control())), Some(SendKeysArgs::Named("Enter")));
}

#[test]
fn test_key_mapping_function_keys() {
    assert_eq!(key_event_to_send_args(&make_key(KeyCode::F(1), none())), Some(SendKeysArgs::Named("F1")));
    assert_eq!(key_event_to_send_args(&make_key(KeyCode::F(12), none())), Some(SendKeysArgs::Named("F12")));
    // F13+ should be ignored
    assert_eq!(key_event_to_send_args(&make_key(KeyCode::F(13), none())), None);
}

#[test]
fn test_key_mapping_alt_returns_none() {
    // Alt+key is reserved for nexus commands
    assert_eq!(key_event_to_send_args(&make_key(KeyCode::Char('j'), alt())), None);
    assert_eq!(key_event_to_send_args(&make_key(KeyCode::Char('q'), alt())), None);
}

// -- command lines --------------------------------------------------------------

fn strs(v: &[String]) -> Vec<&str> {
    v.iter().map(|s| s.as_str()).collect()
}

#[test]
fn launch_and_resume_command_lines() {
    let m = TmuxManager::new("nexus");
    let a = m.launch_claude_session("agent", "api", "/work", None).unwrap();
    assert_eq!(strs(&a), vec!["-L", "nexus", "new-session", "-d", "-s", "api", "-c", "/work", "agent"]);
    let a = m.launch_claude_session("agent", "api", "/work", Some("abc")).unwrap();
    assert_eq!(strs(&a)[9..], ["--resume", "abc"]);
    assert_eq!(m.launch_claude_session("agent", "a.b", "/work", None).unwrap_err(), TargetError::InvalidChar);
    assert_eq!(strs(&m.resume_session("api", true).unwrap()), vec!["-L", "nexus", "switch-client", "-t", "api"]);
    assert_eq!(strs(&m.resume_session("api", false).unwrap()), vec!["-L", "nexus", "attach-session", "-t", "api"]);
    assert_eq!(m.resume_session("", false).unwrap_err(), TargetError::Empty);
}

#[test]
fn session_command_lines() {
    let m = TmuxManager::new("s");
    assert_eq!(
        strs(&m.list_sessions()),
        vec!["-L", "s", "list-sessions", "-F", "#{session_name}:#{window_name}:#{session_attached}:#{pane_current_command}"]
    );
    assert_eq!(strs(&m.rename_session("a", "b").unwrap()), vec!["-L", "s", "rename-session", "-t", "a", "b"]);
    assert_eq!(m.rename_session("a", "b c").unwrap_err(), TargetError::InvalidChar);
    assert_eq!(m.rename_session("", "b c").unwrap_err(), TargetError::Empty);
    assert_eq!(strs(&m.kill_session("a").unwrap()), vec!["-L", "s", "kill-session", "-t", "a"]);
    assert_eq!(
        strs(&m.capture_pane("a").unwrap()),
        vec!["-L", "s", "capture-pane", "-t", "a", "-p", "-e", "-N", "-S", "-500"]
    );
    let setup = m.configure_server();
    assert_eq!(setup.len(), 5);
    assert_eq!(strs(&setup[4]), vec!["-L", "s", "bind-key", "-n", "C-q", "detach-client"]);
    assert_eq!(strs(&setup[3]), vec!["-L", "s", "set-option", "-g", "history-limit", "2000"]);
}

#[test]
fn keys_resize_and_paste_command_lines() {
    let m = TmuxManager::new("s");
    let lit = m.send_keys("a", &SendKeysArgs::Literal("x y".to_string())).unwrap();
    assert_eq!(strs(&lit), vec!["-L", "s", "send-keys", "-t", "a", "-l", "x y"]);
    let named = m.send_keys("a", &SendKeysArgs::Named("Enter")).unwrap();
    assert_eq!(strs(&named), vec!["-L", "s", "send-keys", "-t", "a", "Enter"]);
    let (window, pane) = m.resize_pane("a", 120, 40).unwrap();
    assert_eq!(strs(&window), vec!["-L", "s", "resize-window", "-t", "a", "-x", "120", "-y", "40"]);
    assert_eq!(strs(&pane), vec!["-L", "s", "resize-pane", "-t", "a", "-x", "120", "-y", "40"]);
    let (load, paste) = m.load_buffer_and_paste("a").unwrap();
    assert_eq!(strs(&load), vec!["-L", "s", "load-buffer", "-b", "nexus-paste", "-"]);
    assert_eq!(strs(&paste), vec!["-L", "s", "paste-buffer", "-b", "nexus-paste", "-t", "a", "-d"]);
    assert!(m.resize_pane("a:b", 1, 1).is_err());
}
