//! The decisions of the TUI's main loop: what is due on a pass (polling tmux, the next logo
//! frame, dropping an old status message), whether to draw, how long to wait for input,
//! where an input event goes, and what a key does when nothing else takes it. The app
//! keeps the clock, the terminal and the channels, and does what is decided here.

use vstd::prelude::*;
use crate::keys::KeyCode;
use crate::types::NexusCommand;

verus! {

/// The frame interval while something is to be drawn, in milliseconds.
pub const TICK_RATE_MS: u64 = 16;

/// The frame interval while a session waits for the user's attention (its row glows).
pub const ATTENTION_TICK_MS: u64 = 50;

/// How long to wait for input when nothing changes.
pub const IDLE_TICK_MS: u64 = 100;

/// How often the tmux sessions are listed and reconciled.
pub const TMUX_POLL_INTERVAL_MS: u64 = 2000;

/// How often the logo advances a frame.
pub const LOGO_FRAME_INTERVAL_MS: u64 = 300;

/// How long a status message stays.
pub const STATUS_MESSAGE_MS: u64 = 5000;

/// `a - b`, or 0 when `b` is later (`Instant::duration_since`).
pub open spec fn since(a: int, b: int) -> int {
    if a >= b { a - b } else { 0 }
}

/// What is due on a pass of the loop.
#[derive(Debug, Clone, Copy, PartialEq, Eq)]
pub struct TickPlan {
    /// List the tmux sessions and reconcile the tree.
    pub poll_tmux: bool,
    /// Advance the logo by a frame.
    pub advance_logo: bool,
    /// Drop the status message.
    pub expire_status: bool,
}

/// What is due at `now_ms`, given when tmux was last polled, when the logo last advanced
/// and when the status message (if any) was set: tmux every TMUX_POLL_INTERVAL_MS when it
/// is available, the logo every LOGO_FRAME_INTERVAL_MS, the status message after
/// STATUS_MESSAGE_MS. Every change makes the screen dirty.
pub fn tick_plan(now_ms: u64, last_tmux_poll_ms: u64, logo_last_ms: u64, status_since_ms: Option<u64>, tmux_available: bool) -> (r: TickPlan)
    ensures
        r.poll_tmux == (tmux_available && since(now_ms as int, last_tmux_poll_ms as int) >= TMUX_POLL_INTERVAL_MS),
        r.advance_logo == (since(now_ms as int, logo_last_ms as int) >= LOGO_FRAME_INTERVAL_MS),
        r.expire_status == match status_since_ms {
            Some(t) => since(now_ms as int, t as int) >= STATUS_MESSAGE_MS,
            None => false,
        },
{
    let tmux_age = if now_ms >= last_tmux_poll_ms { now_ms - last_tmux_poll_ms } else { 0 };
    let logo_age = if now_ms >= logo_last_ms { now_ms - logo_last_ms } else { 0 };
    let expire_status = match status_since_ms {
        Some(t) => (if now_ms >= t { now_ms - t } else { 0 }) >= STATUS_MESSAGE_MS,
        None => false,
    };
    TickPlan {
        poll_tmux: tmux_available && tmux_age >= TMUX_POLL_INTERVAL_MS,
        advance_logo: logo_age >= LOGO_FRAME_INTERVAL_MS,
        expire_status,
    }
}

/// Whether to draw on this pass: something changed, the boot animation still runs, or a
/// session waits for the user's attention (its glow moves).
pub fn should_draw(dirty: bool, boot_done: bool, attention: bool) -> (r: bool)
    ensures
        r == (dirty || !boot_done || attention),
{
    dirty || !boot_done || attention
}

/// How long to wait for input, in milliseconds: after the boot animation, a frame interval
/// when something is to be drawn, the attention interval while a session waits for the
/// user, the idle interval otherwise; during the boot animation, what is left of the frame
/// interval since the pass began (`pass_ms`), at least a millisecond.
pub fn poll_timeout_ms(boot_done: bool, dirty: bool, attention: bool, pass_ms: u64) -> (r: u64)
    ensures
        r == if boot_done {
            if dirty { TICK_RATE_MS } else if attention { ATTENTION_TICK_MS } else { IDLE_TICK_MS }
        } else if pass_ms >= TICK_RATE_MS {
            1
        } else {
            (TICK_RATE_MS - pass_ms) as u64
        },
        r >= 1,
{
    if boot_done {
        if dirty {
            TICK_RATE_MS
        } else if attention {
            ATTENTION_TICK_MS
        } else {
            IDLE_TICK_MS
        }
    } else if pass_ms >= TICK_RATE_MS {
        1
    } else {
        TICK_RATE_MS - pass_ms
    }
}

/// The size of the logo, in columns and rows: the tree panel's share of the terminal's
/// width (as a `u16`) less its border, and the logo rows less the border.
pub fn logo_area(term_width: u16, tree_width_pct: u16, logo_rows: u16) -> (r: (usize, usize))
    ensures
        r.0 == since((term_width * tree_width_pct / 100) % 0x10000, 2),
        r.1 == since(logo_rows as int, 2),
{
    assert((term_width as int) * (tree_width_pct as int) <= 0xffff * 0xffff) by (nonlinear_arith)
        requires
            term_width <= 0xffff,
            tree_width_pct <= 0xffff,
    ;
    let share: u64 = (term_width as u64) * (tree_width_pct as u64) / 100;
    let w: u64 = share % 0x10000;
    let cols: usize = if w >= 2 { (w - 2) as usize } else { 0 };
    let rows: usize = if logo_rows >= 2 { (logo_rows - 2) as usize } else { 0 };
    (cols, rows)
}

/// A kind of input event, as the loop tells them apart.
#[derive(Debug, Clone, Copy, PartialEq, Eq, Structural)]
pub enum EventClass {
    /// A mouse event that matters: a scroll, a press of any button, a left drag or a left
    /// release.
    Mouse,
    /// Any other mouse event (a move, a right drag, ...).
    MouseMotion,
    /// A key press.
    KeyPress,
    /// A key release or repeat.
    KeyOther,
    Resize,
    Paste,
    /// Anything else (focus).
    Other,
}

/// Whether an event makes the screen dirty: every event but mouse motion.
pub fn redraws_after(class: EventClass) -> (r: bool)
    ensures
        r == (class != EventClass::MouseMotion),
{
    match class {
        EventClass::MouseMotion => false,
        _ => true,
    }
}

/// Where an input event goes.
#[derive(Debug, Clone, Copy, PartialEq, Eq, Structural)]
pub enum EventRoute {
    /// The mouse handling (see `pointer`).
    Pointer,
    /// The open dialog's key handling.
    Dialog,
    /// Close the help.
    DismissHelp,
    /// Resize the session pane to the panel.
    Resize,
    /// The session panel's routing, then, for a key press it did not take, `fallback_command`.
    Interactor,
    Ignore,
}

/// Where an event goes, and whether it drops the text selection: mouse events go to the
/// mouse handling whatever is open; a key press drops the selection; with a dialog open,
/// key presses go to it and nothing else does; with the help shown, a key press closes it;
/// a resize resizes the pane; anything else goes to the session panel.
pub fn event_route(class: EventClass, dialog_open: bool, help_shown: bool) -> (r: (EventRoute, bool))
    ensures
        r.1 == (class == EventClass::KeyPress),
        r.0 == if class == EventClass::Mouse || class == EventClass::MouseMotion {
            EventRoute::Pointer
        } else if dialog_open {
            if class == EventClass::KeyPress { EventRoute::Dialog } else { EventRoute::Ignore }
        } else if help_shown {
            if class == EventClass::KeyPress { EventRoute::DismissHelp } else { EventRoute::Ignore }
        } else if class == EventClass::Resize {
            EventRoute::Resize
        } else {
            EventRoute::Interactor
        },
{
    let clears = class == EventClass::KeyPress;
    let route = if class == EventClass::Mouse || class == EventClass::MouseMotion {
        EventRoute::Pointer
    } else if dialog_open {
        if clears { EventRoute::Dialog } else { EventRoute::Ignore }
    } else if help_shown {
        if clears { EventRoute::DismissHelp } else { EventRoute::Ignore }
    } else if class == EventClass::Resize {
        EventRoute::Resize
    } else {
        EventRoute::Interactor
    };
    (route, clears)
}

/// What a plain key does when the session panel does not take it (no tmux pane, or a key
/// it ignores): `q`/`Q` quit, `?` toggles the help, `h` the dead sessions, `n` a new
/// session, `G` a new group, `r` rename, `m` move, `d` delete, `x` kill the tmux session,
/// `t`/`T` the next/previous theme, `p` the finder. Any other key goes to the tree.
pub open spec fn fallback_for(code: KeyCode) -> Option<NexusCommand> {
    match code {
        KeyCode::Char(c) => if c == 'q' || c == 'Q' {
            Some(NexusCommand::Quit)
        } else if c == '?' {
            Some(NexusCommand::ToggleHelp)
        } else if c == 'h' {
            Some(NexusCommand::ToggleDeadSessions)
        } else if c == 'n' {
            Some(NexusCommand::NewSession)
        } else if c == 'G' {
            Some(NexusCommand::NewGroup)
        } else if c == 'r' {
            Some(NexusCommand::RenameSelected)
        } else if c == 'm' {
            Some(NexusCommand::MoveSession)
        } else if c == 'd' {
            Some(NexusCommand::DeleteSelected)
        } else if c == 'x' {
            Some(NexusCommand::KillTmux)
        } else if c == 't' {
            Some(NexusCommand::NextTheme)
        } else if c == 'T' {
            Some(NexusCommand::PrevTheme)
        } else if c == 'p' {
            Some(NexusCommand::OpenFinder)
        } else {
            None
        },
        _ => None,
    }
}

/// The command of a key that nothing else took (see `fallback_for`); `None`: the tree's.
pub fn fallback_command(code: KeyCode) -> (r: Option<NexusCommand>)
    ensures
        r == fallback_for(code),
{
    match code {
        KeyCode::Char('q') | KeyCode::Char('Q') => Some(NexusCommand::Quit),
        KeyCode::Char('?') => Some(NexusCommand::ToggleHelp),
        KeyCode::Char('h') => Some(NexusCommand::ToggleDeadSessions),
        KeyCode::Char('n') => Some(NexusCommand::NewSession),
        KeyCode::Char('G') => Some(NexusCommand::NewGroup),
        KeyCode::Char('r') => Some(NexusCommand::RenameSelected),
        KeyCode::Char('m') => Some(NexusCommand::MoveSession),
        KeyCode::Char('d') => Some(NexusCommand::DeleteSelected),
        KeyCode::Char('x') => Some(NexusCommand::KillTmux),
        KeyCode::Char('t') => Some(NexusCommand::NextTheme),
        KeyCode::Char('T') => Some(NexusCommand::PrevTheme),
        KeyCode::Char('p') => Some(NexusCommand::OpenFinder),
        _ => None,
    }
}

} // verus!
