use nexus::types::{ConversationTurn, Role};
use nexus::widgets::interactor_state::{transcript_lines, TranscriptLine};
use nexus::keys::{KeyCode, KeyEvent, KeyModifiers};
use nexus::tmux::SendKeysArgs;
use nexus::types::{NexusCommand, RouteResult};
use nexus::types::{SessionOrigin, SessionStatus, SessionSummary};
use nexus::widgets::interactor_state::{
    needs_resize, CaptureOrder, ContentKind, Forward, InputEvent, InteractorState, PaneResize, ScrollOffsets,
};

fn key(code: KeyCode, shift: bool, alt: bool) -> InputEvent {
    InputEvent::Key { event: KeyEvent::new(code, KeyModifiers { shift, control: false, alt }), press: true }
}

fn at(live: u16, log: u16) -> ScrollOffsets {
    ScrollOffsets { live, log }
}

/// What routing an event through a panel showing `content` gives.
struct Routed {
    result: RouteResult,
    offsets: ScrollOffsets,
    forward: Forward,
}

fn panel(content: ContentKind, offsets: ScrollOffsets) -> InteractorState {
    let mut s = InteractorState::new();
    s.content = content;
    s.offsets = offsets;
    s
}

fn route_event(content: ContentKind, offsets: ScrollOffsets, event: &InputEvent, has_tmux: bool) -> Routed {
    let mut s = panel(content, offsets);
    let (result, forward) = s.route_event(event, has_tmux);
    Routed { result, offsets: s.offsets, forward }
}

fn handle_mouse_scroll(content: ContentKind, offsets: ScrollOffsets, up: bool) -> ScrollOffsets {
    let mut s = panel(content, offsets);
    s.handle_mouse_scroll(up);
    s.offsets
}

#[test]
fn alt_keys_are_nexus_commands() {
    let r = route_event(ContentKind::Live, at(0, 0), &key(KeyCode::Char('j'), false, true), true);
    assert_eq!(r.result, RouteResult::NexusCommand(NexusCommand::CursorDown));
    let r = route_event(ContentKind::Live, at(0, 0), &key(KeyCode::Enter, false, true), true);
    assert_eq!(r.result, RouteResult::NexusCommand(NexusCommand::ToggleExpand));
    let r = route_event(ContentKind::Live, at(0, 0), &key(KeyCode::Char('m'), false, true), true);
    assert_eq!(r.result, RouteResult::NexusCommand(NexusCommand::MoveSession));
    let r = route_event(ContentKind::Live, at(0, 0), &key(KeyCode::Backspace, false, true), false);
    assert_eq!(r.result, RouteResult::NexusCommand(NexusCommand::ToggleHelp));
    let r = route_event(ContentKind::Live, at(0, 0), &key(KeyCode::Char('z'), false, true), true);
    assert_eq!(r.result, RouteResult::Ignored);
}

#[test]
fn keys_go_to_the_pane_and_snap_to_bottom() {
    let r = route_event(ContentKind::Live, at(7, 2), &key(KeyCode::Char('a'), false, false), true);
    assert_eq!(r.result, RouteResult::Handled);
    assert_eq!(r.offsets, at(0, 2));
    match r.forward {
        Forward::Keys(args) => assert_eq!(args, SendKeysArgs::Literal("a".to_string())),
        _ => panic!("expected keys"),
    }
}

#[test]
fn shift_arrows_scroll_the_live_view() {
    let r = route_event(ContentKind::Live, at(0, 0), &key(KeyCode::PageUp, true, false), true);
    assert_eq!((r.result, r.offsets), (RouteResult::Handled, at(10, 0)));
    let r = route_event(ContentKind::Live, at(3, 0), &key(KeyCode::Down, true, false), true);
    assert_eq!(r.offsets, at(2, 0));
    let r = route_event(ContentKind::Live, at(u16::MAX, 0), &key(KeyCode::Up, true, false), true);
    assert_eq!(r.offsets, at(u16::MAX, 0));
}

#[test]
fn arrows_scroll_a_conversation_log_without_pane() {
    let r = route_event(ContentKind::ConversationLog, at(0, 5), &key(KeyCode::PageDown, false, false), false);
    assert_eq!((r.result, r.offsets), (RouteResult::Handled, at(0, 0)));
    let r = route_event(ContentKind::ConversationLog, at(0, 5), &key(KeyCode::Up, false, false), false);
    assert_eq!(r.offsets, at(0, 6));
    let r = route_event(ContentKind::Nothing, at(0, 5), &key(KeyCode::Char('x'), false, false), false);
    assert_eq!(r.result, RouteResult::Ignored);
}

#[test]
fn pastes_go_to_the_pane_up_to_the_limit() {
    let r = route_event(ContentKind::Live, at(0, 0), &InputEvent::Paste("text".to_string()), true);
    assert_eq!(r.result, RouteResult::Handled);
    assert!(matches!(r.forward, Forward::Paste(ref t) if t == "text"));
    let big = "x".repeat(1_048_577);
    assert_eq!(route_event(ContentKind::Live, at(0, 0), &InputEvent::Paste(big), true).result, RouteResult::Ignored);
    assert_eq!(route_event(ContentKind::Live, at(0, 0), &InputEvent::Paste("t".to_string()), false).result, RouteResult::Ignored);
}

#[test]
fn releases_and_other_events_are_ignored() {
    let release = InputEvent::Key { event: KeyEvent::from(KeyCode::Char('a')), press: false };
    assert_eq!(route_event(ContentKind::Live, at(0, 0), &release, true).result, RouteResult::Ignored);
    assert_eq!(route_event(ContentKind::Live, at(0, 0), &InputEvent::Other, true).result, RouteResult::Ignored);
}

#[test]
fn mouse_scroll_and_resize() {
    assert_eq!(handle_mouse_scroll(ContentKind::Live, at(1, 1), true), at(4, 1));
    assert_eq!(handle_mouse_scroll(ContentKind::ConversationLog, at(1, 1), true), at(1, 0));
    assert_eq!(handle_mouse_scroll(ContentKind::ConversationLog, at(1, 1), false), at(1, 4));
    assert_eq!(handle_mouse_scroll(ContentKind::Nothing, at(1, 1), false), at(1, 1));
    assert!(needs_resize((0, 0), 80, 24));
    assert!(!needs_resize((80, 24), 80, 24));
    assert!(!needs_resize((0, 0), 0, 24));
}

#[test]
fn transcript_lays_out_turns() {
    let turns = vec![
        ConversationTurn { role: Role::Human, content: "hi\nthere\n".to_string() },
        ConversationTurn { role: Role::Assistant, content: "ok".to_string() },
    ];
    let lines = transcript_lines(&turns);
    assert_eq!(lines.len(), 7);
    assert!(matches!(lines[0], TranscriptLine::Header(Role::Human)));
    assert!(matches!(&lines[1], TranscriptLine::Text(t) if t == "hi"));
    assert!(matches!(&lines[2], TranscriptLine::Text(t) if t == "there"));
    assert!(matches!(lines[3], TranscriptLine::Blank));
    assert!(matches!(lines[4], TranscriptLine::Header(Role::Assistant)));
    assert!(matches!(&lines[5], TranscriptLine::Text(t) if t == "ok"));
    assert!(matches!(lines[6], TranscriptLine::Blank));
}

fn summary(status: SessionStatus, tmux_name: Option<&str>) -> SessionSummary {
    SessionSummary {
        session_id: "s1".to_string(),
        display_name: "api work".to_string(),
        cwd: None,
        last_active: String::new(),
        is_active: status == SessionStatus::Active,
        status,
        tmux_name: tmux_name.map(|t| t.to_string()),
        created_by: SessionOrigin::Nexus,
        created_at: String::new(),
        claude_session_id: None,
        worktree: None,
        jsonl_path: None,
    }
}

#[test]
fn switching_sessions_orders_the_capture_worker() {
    let mut s = panel(ContentKind::Live, at(5, 6));
    s.last_resize = (80, 24);
    let order = s.switch_session(&summary(SessionStatus::Active, Some("api-work")));
    assert_eq!(order, CaptureOrder::Capture("api-work".to_string()));
    assert_eq!(s.offsets, at(0, 0));
    assert_eq!(s.last_resize, (0, 0));
    assert_eq!(s.current_session_name.as_deref(), Some("api work"));
    assert_eq!(s.current_tmux_name.as_deref(), Some("api-work"));

    let order = s.switch_session(&summary(SessionStatus::Dead, None));
    assert_eq!(order, CaptureOrder::Stop);
    assert_eq!(s.content, ContentKind::ConversationLog);
    assert!(s.current_tmux_name.is_none());

    let order = s.switch_session(&summary(SessionStatus::Active, None));
    assert_eq!(order, CaptureOrder::Keep);
}

#[test]
fn clearing_and_polling_the_panel() {
    let mut s = panel(ContentKind::Live, at(2, 2));
    s.current_session_name = Some("x".to_string());
    assert_eq!(s.clear(), CaptureOrder::Stop);
    assert_eq!(s.content, ContentKind::Nothing);
    assert_eq!(s.offsets, at(0, 0));
    assert!(s.current_session_name.is_none());

    assert!(!s.poll_content(&vec![]));
    assert_eq!(s.content, ContentKind::Nothing);
    assert!(s.poll_content(&vec![false, true]));
    assert_eq!(s.content, ContentKind::Live);
    assert!(s.poll_content(&vec![true, false]));
    assert_eq!(s.content, ContentKind::Nothing);
}

#[test]
fn the_pane_is_resized_once_per_size() {
    let mut s = InteractorState::new();
    s.current_tmux_name = Some("api".to_string());
    assert_eq!(s.resize_if_needed(80, 24), Some(PaneResize { tmux_name: "api".to_string(), cols: 80, rows: 24 }));
    assert_eq!(s.resize_if_needed(80, 24), None);
    assert_eq!(s.resize_if_needed(0, 24), None);
    assert_eq!(s.last_resize, (80, 24));
    s.current_tmux_name = None;
    assert_eq!(s.resize_if_needed(100, 30), None);
    assert_eq!(s.last_resize, (100, 30));
    let mut s2 = InteractorState::new();
    s2.scroll_down(4);
    s2.scroll_up(1);
    assert_eq!(s2.offsets, at(0, 3));
}
