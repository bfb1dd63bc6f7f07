use nexus::keys::KeyCode;
use nexus::main_loop::{
    event_route, fallback_command, logo_area, poll_timeout_ms, redraws_after, should_draw, tick_plan, EventClass,
    EventRoute, TickPlan,
};
use nexus::types::NexusCommand;

#[test]
fn things_fall_due_on_their_intervals() {
    let plan = tick_plan(10_000, 8_000, 9_800, Some(5_000), true);
    assert_eq!(plan, TickPlan { poll_tmux: true, advance_logo: false, expire_status: true });
    let plan = tick_plan(10_000, 8_001, 9_700, Some(5_001), true);
    assert_eq!(plan, TickPlan { poll_tmux: false, advance_logo: true, expire_status: false });
    assert!(!tick_plan(10_000, 0, 0, None, false).poll_tmux);
    assert!(!tick_plan(10_000, 0, 0, None, false).expire_status);
    // a time later than now counts as no time passed
    assert!(!tick_plan(10, 20, 20, Some(20), true).advance_logo);
}

#[test]
fn drawing_and_waiting() {
    assert!(should_draw(true, true, false));
    assert!(should_draw(false, false, false));
    assert!(should_draw(false, true, true));
    assert!(!should_draw(false, true, false));
    assert_eq!(poll_timeout_ms(true, true, true, 0), 16);
    assert_eq!(poll_timeout_ms(true, false, true, 0), 50);
    assert_eq!(poll_timeout_ms(true, false, false, 0), 100);
    assert_eq!(poll_timeout_ms(false, false, false, 10), 6);
    assert_eq!(poll_timeout_ms(false, false, false, 30), 1);
    assert_eq!(logo_area(100, 20, 10), (18, 8));
    assert_eq!(logo_area(5, 20, 1), (0, 0));
}

#[test]
fn events_are_routed_in_order() {
    assert_eq!(event_route(EventClass::Mouse, true, true), (EventRoute::Pointer, false));
    assert_eq!(event_route(EventClass::KeyPress, true, true), (EventRoute::Dialog, true));
    assert_eq!(event_route(EventClass::Paste, true, false), (EventRoute::Ignore, false));
    assert_eq!(event_route(EventClass::KeyPress, false, true), (EventRoute::DismissHelp, true));
    assert_eq!(event_route(EventClass::Resize, false, false), (EventRoute::Resize, false));
    assert_eq!(event_route(EventClass::Paste, false, false), (EventRoute::Interactor, false));
    assert_eq!(event_route(EventClass::KeyPress, false, false), (EventRoute::Interactor, true));
    assert!(!redraws_after(EventClass::MouseMotion));
    assert!(redraws_after(EventClass::KeyOther));
}

#[test]
fn fallback_keys() {
    assert_eq!(fallback_command(KeyCode::Char('Q')), Some(NexusCommand::Quit));
    assert_eq!(fallback_command(KeyCode::Char('?')), Some(NexusCommand::ToggleHelp));
    assert_eq!(fallback_command(KeyCode::Char('h')), Some(NexusCommand::ToggleDeadSessions));
    assert_eq!(fallback_command(KeyCode::Char('G')), Some(NexusCommand::NewGroup));
    assert_eq!(fallback_command(KeyCode::Char('p')), Some(NexusCommand::OpenFinder));
    assert_eq!(fallback_command(KeyCode::Char('j')), None);
    assert_eq!(fallback_command(KeyCode::Enter), None);
}
