//! The decisions of the session interactor panel: where an input event goes (a nexus
//! command, a scroll of the panel, keys or a paste for the tmux pane), and how the panel's
//! scroll offsets move. Sending to tmux is left to the caller.

use vstd::prelude::*;
use vstd::utf8::encode_utf8;
use crate::keys::{KeyCode, KeyEvent};
use crate::tmux::{SendKeysArgs, SendKeysView, key_event_to_send_args, send_args_for};
use crate::types::{clone_opt_string, ConversationTurn, NexusCommand, Role, RouteResult, SessionStatus, SessionSummary};
use crate::textscan::{char_rows, lines_of, str_lines};
use crate::strutil::string_from_chars;

verus! {

broadcast use vstd::string::group_string_axioms;

/// Largest paste, in bytes, forwarded to tmux.
pub const MAX_PASTE_BYTES: u64 = 1_048_576;

/// Which content the interactor panel shows.
#[derive(Debug, Clone, Copy, PartialEq, Eq, Structural)]
pub enum ContentKind {
    Nothing,
    /// Live terminal content of a tmux pane.
    Live,
    /// The conversation log of a session without a tmux pane.
    ConversationLog,
}

/// An input event, as the panel sees it.
#[derive(Debug, Clone)]
pub enum InputEvent {
    /// A key event; `press` is false for releases and repeats.
    Key { event: KeyEvent, press: bool },
    /// Pasted text.
    Paste(String),
    /// Anything else (mouse, focus, resize).
    Other,
}

/// The panel's scroll offsets: lines scrolled back in the live view and in the log.
#[derive(Debug, Clone, Copy, PartialEq, Eq, Structural)]
pub struct ScrollOffsets {
    pub live: u16,
    pub log: u16,
}

/// What is to be sent to the tmux pane.
#[derive(Debug, Clone)]
pub enum Forward {
    Nothing,
    Keys(SendKeysArgs),
    Paste(String),
}

pub enum ForwardView {
    Nothing,
    Keys(SendKeysView),
    Paste(Seq<char>),
}

impl View for Forward {
    type V = ForwardView;

    open spec fn view(&self) -> ForwardView {
        match self {
            Forward::Nothing => ForwardView::Nothing,
            Forward::Keys(a) => ForwardView::Keys(a@),
            Forward::Paste(s) => ForwardView::Paste(s@),
        }
    }
}

/// The outcome of routing an event: what the app is told, the new offsets, and what goes to
/// the tmux pane (after which the capture worker is to be nudged).
#[derive(Debug)]
pub struct Routing {
    pub result: RouteResult,
    pub offsets: ScrollOffsets,
    pub forward: Forward,
}

pub open spec fn sat_add(a: int, b: int) -> int {
    if a + b > u16::MAX { u16::MAX as int } else { a + b }
}

pub open spec fn sat_sub(a: int, b: int) -> int {
    if a - b < 0 { 0 } else { a - b }
}

/// The nexus command bound to Alt with a key. Alt+Enter, like Alt+e, toggles the selected
/// group; Ctrl+Alt+H arrives as Alt+Backspace on legacy terminals, so that maps like `h`.
pub open spec fn alt_command(code: KeyCode) -> Option<NexusCommand> {
    match code {
        KeyCode::Char(c) => if c == 'j' {
            Some(NexusCommand::CursorDown)
        } else if c == 'k' {
            Some(NexusCommand::CursorUp)
        } else if c == 'e' {
            Some(NexusCommand::ToggleExpand)
        } else if c == 'n' {
            Some(NexusCommand::NewSession)
        } else if c == 'd' {
            Some(NexusCommand::DeleteSelected)
        } else if c == 'r' {
            Some(NexusCommand::RenameSelected)
        } else if c == 'm' {
            Some(NexusCommand::MoveSession)
        } else if c == 'g' {
            Some(NexusCommand::NewGroup)
        } else if c == 'x' {
            Some(NexusCommand::KillTmux)
        } else if c == 'f' {
            Some(NexusCommand::FullscreenAttach)
        } else if c == 'h' || c == '?' {
            Some(NexusCommand::ToggleHelp)
        } else if c == 'q' {
            Some(NexusCommand::Quit)
        } else if c == 'H' {
            Some(NexusCommand::ToggleDeadSessions)
        } else if c == 't' {
            Some(NexusCommand::NextTheme)
        } else if c == 'T' {
            Some(NexusCommand::PrevTheme)
        } else if c == 'l' {
            Some(NexusCommand::OpenLazygit)
        } else if c == 'v' {
            Some(NexusCommand::OpenEditor)
        } else if c == 'p' {
            Some(NexusCommand::OpenFinder)
        } else {
            None
        },
        KeyCode::Enter => Some(NexusCommand::ToggleExpand),
        KeyCode::Backspace => Some(NexusCommand::ToggleHelp),
        _ => None,
    }
}

/// Two keys that name one Alt binding: the same key, or two documented aliases of it
/// (Enter and `e`; `h`, `?` and Backspace).
pub open spec fn same_alt_binding(a: KeyCode, b: KeyCode) -> bool {
    let expand = |k: KeyCode| k == KeyCode::Char('e') || k == KeyCode::Enter;
    let help = |k: KeyCode| k == KeyCode::Char('h') || k == KeyCode::Char('?') || k == KeyCode::Backspace;
    a == b || (expand(a) && expand(b)) || (help(a) && help(b))
}

/// Law: the Alt keymap as documented. Each key names its own command.
pub proof fn lemma_alt_keymap()
    ensures
        alt_command(KeyCode::Char('q')) == Some(NexusCommand::Quit),
        alt_command(KeyCode::Char('h')) == Some(NexusCommand::ToggleHelp),
        alt_command(KeyCode::Char('?')) == Some(NexusCommand::ToggleHelp),
        alt_command(KeyCode::Backspace) == Some(NexusCommand::ToggleHelp),
        alt_command(KeyCode::Char('j')) == Some(NexusCommand::CursorDown),
        alt_command(KeyCode::Char('k')) == Some(NexusCommand::CursorUp),
        alt_command(KeyCode::Enter) == Some(NexusCommand::ToggleExpand),
        alt_command(KeyCode::Char('e')) == Some(NexusCommand::ToggleExpand),
        alt_command(KeyCode::Char('n')) == Some(NexusCommand::NewSession),
        alt_command(KeyCode::Char('g')) == Some(NexusCommand::NewGroup),
        alt_command(KeyCode::Char('r')) == Some(NexusCommand::RenameSelected),
        alt_command(KeyCode::Char('m')) == Some(NexusCommand::MoveSession),
        alt_command(KeyCode::Char('d')) == Some(NexusCommand::DeleteSelected),
        alt_command(KeyCode::Char('x')) == Some(NexusCommand::KillTmux),
        alt_command(KeyCode::Char('f')) == Some(NexusCommand::FullscreenAttach),
        alt_command(KeyCode::Char('H')) == Some(NexusCommand::ToggleDeadSessions),
        alt_command(KeyCode::Char('t')) == Some(NexusCommand::NextTheme),
        alt_command(KeyCode::Char('T')) == Some(NexusCommand::PrevTheme),
        alt_command(KeyCode::Char('l')) == Some(NexusCommand::OpenLazygit),
        alt_command(KeyCode::Char('v')) == Some(NexusCommand::OpenEditor),
        alt_command(KeyCode::Char('p')) == Some(NexusCommand::OpenFinder),
{
}

/// Law: distinct Alt bindings give distinct commands: two keys that give the same command
/// are the same key or documented aliases of each other.
pub proof fn lemma_alt_bindings_distinct(a: KeyCode, b: KeyCode)
    requires
        alt_command(a) is Some,
        alt_command(a) == alt_command(b),
    ensures
        same_alt_binding(a, b),
{
}

fn alt_command_exec(code: KeyCode) -> (r: Option<NexusCommand>)
    ensures
        r == alt_command(code),
{
    match code {
        KeyCode::Char('j') => Some(NexusCommand::CursorDown),
        KeyCode::Char('k') => Some(NexusCommand::CursorUp),
        KeyCode::Char('e') | KeyCode::Enter => Some(NexusCommand::ToggleExpand),
        KeyCode::Char('n') => Some(NexusCommand::NewSession),
        KeyCode::Char('d') => Some(NexusCommand::DeleteSelected),
        KeyCode::Char('r') => Some(NexusCommand::RenameSelected),
        KeyCode::Char('m') => Some(NexusCommand::MoveSession),
        KeyCode::Char('g') => Some(NexusCommand::NewGroup),
        KeyCode::Char('x') => Some(NexusCommand::KillTmux),
        KeyCode::Char('f') => Some(NexusCommand::FullscreenAttach),
        KeyCode::Char('h') | KeyCode::Char('?') | KeyCode::Backspace => Some(NexusCommand::ToggleHelp),
        KeyCode::Char('q') => Some(NexusCommand::Quit),
        KeyCode::Char('H') => Some(NexusCommand::ToggleDeadSessions),
        KeyCode::Char('t') => Some(NexusCommand::NextTheme),
        KeyCode::Char('T') => Some(NexusCommand::PrevTheme),
        KeyCode::Char('l') => Some(NexusCommand::OpenLazygit),
        KeyCode::Char('v') => Some(NexusCommand::OpenEditor),
        KeyCode::Char('p') => Some(NexusCommand::OpenFinder),
        _ => None,
    }
}

/// How far Up, Down, PageUp and PageDown scroll: one line, or ten; positive moves back.
pub open spec fn scroll_step(code: KeyCode) -> Option<int> {
    match code {
        KeyCode::Up => Some(1),
        KeyCode::Down => Some(-1),
        KeyCode::PageUp => Some(10),
        KeyCode::PageDown => Some(-10),
        _ => None,
    }
}

/// An offset moved by a step, saturating at 0 and at `u16::MAX`.
pub open spec fn stepped(offset: int, step: int) -> int {
    if step >= 0 { sat_add(offset, step) } else { sat_sub(offset, -step) }
}

/// The routing of an event, as `(result, new offsets, forward)`.
///
/// - Alt+key: the bound nexus command, or ignored.
/// - With a tmux pane showing live content, Shift with Up/Down/PageUp/PageDown scrolls the
///   live view (1 or 10 lines).
/// - With a tmux pane, a key that maps to send-keys arguments goes to the pane and the
///   live view snaps back to the bottom.
/// - Showing a conversation log, Up/Down/PageUp/PageDown scroll it.
/// - A paste of at most MAX_PASTE_BYTES bytes goes to the pane, when there is one.
/// - Anything else is ignored.
pub open spec fn routed(content: ContentKind, offsets: ScrollOffsets, event: InputEvent, has_tmux: bool) -> (RouteResult, (int, int), ForwardView) {
    let live = offsets.live as int;
    let log = offsets.log as int;
    let unchanged = (live, log);
    match event {
        InputEvent::Key { event: key, press } => if !press {
            (RouteResult::Ignored, unchanged, ForwardView::Nothing)
        } else if key.modifiers.alt {
            match alt_command(key.code) {
                Some(c) => (RouteResult::NexusCommand(c), unchanged, ForwardView::Nothing),
                None => (RouteResult::Ignored, unchanged, ForwardView::Nothing),
            }
        } else if has_tmux && content == ContentKind::Live && key.modifiers.shift && scroll_step(key.code) is Some {
            (RouteResult::Handled, (stepped(live, scroll_step(key.code)->0), log), ForwardView::Nothing)
        } else if has_tmux && send_args_for(key) is Some {
            (RouteResult::Handled, (0, log), ForwardView::Keys(send_args_for(key)->0))
        } else if content == ContentKind::ConversationLog && scroll_step(key.code) is Some {
            (RouteResult::Handled, (live, stepped(log, scroll_step(key.code)->0)), ForwardView::Nothing)
        } else {
            (RouteResult::Ignored, unchanged, ForwardView::Nothing)
        },
        InputEvent::Paste(text) => if has_tmux && encode_utf8(text@).len() <= MAX_PASTE_BYTES {
            (RouteResult::Handled, unchanged, ForwardView::Paste(text@))
        } else {
            (RouteResult::Ignored, unchanged, ForwardView::Nothing)
        },
        InputEvent::Other => (RouteResult::Ignored, unchanged, ForwardView::Nothing),
    }
}

fn scroll_step_exec(code: KeyCode) -> (r: Option<(bool, u16)>)
    ensures
        match r {
            Some((back, n)) => scroll_step(code) == Some(if back { n as int } else { -(n as int) }),
            None => scroll_step(code) is None,
        },
{
    match code {
        KeyCode::Up => Some((true, 1)),
        KeyCode::Down => Some((false, 1)),
        KeyCode::PageUp => Some((true, 10)),
        KeyCode::PageDown => Some((false, 10)),
        _ => None,
    }
}

fn step_offset(offset: u16, back: bool, n: u16) -> (r: u16)
    ensures
        r == stepped(offset as int, if back { n as int } else { -(n as int) }),
{
    if back { offset.saturating_add(n) } else { offset.saturating_sub(n) }
}

/// Route an input event (see `routed`).
fn route(content: ContentKind, offsets: ScrollOffsets, event: &InputEvent, has_tmux: bool) -> (r: Routing)
    ensures
        routed(content, offsets, *event, has_tmux) == (r.result, (r.offsets.live as int, r.offsets.log as int), r.forward@),
{
    match event {
        InputEvent::Key { event: key, press } => {
            if !*press {
                return Routing { result: RouteResult::Ignored, offsets, forward: Forward::Nothing };
            }
            // Alt+key -> NexusCommand
            if key.modifiers.alt {
                return match alt_command_exec(key.code) {
                    Some(c) => Routing { result: RouteResult::NexusCommand(c), offsets, forward: Forward::Nothing },
                    None => Routing { result: RouteResult::Ignored, offsets, forward: Forward::Nothing },
                };
            }
            // Shift+Arrow/Page -> scroll the live view instead of forwarding to tmux
            if has_tmux && content == ContentKind::Live && key.modifiers.shift {
                if let Some((back, n)) = scroll_step_exec(key.code) {
                    let live = step_offset(offsets.live, back, n);
                    return Routing { result: RouteResult::Handled, offsets: ScrollOffsets { live, log: offsets.log }, forward: Forward::Nothing };
                }
            }
            // Non-Alt key -> forward to tmux if we have an active pane, snapping to the bottom
            if has_tmux {
                if let Some(args) = key_event_to_send_args(key) {
                    return Routing { result: RouteResult::Handled, offsets: ScrollOffsets { live: 0, log: offsets.log }, forward: Forward::Keys(args) };
                }
            }
            // No active tmux pane: scroll the conversation log
            if content == ContentKind::ConversationLog {
                if let Some((back, n)) = scroll_step_exec(key.code) {
                    let log = step_offset(offsets.log, back, n);
                    return Routing { result: RouteResult::Handled, offsets: ScrollOffsets { live: offsets.live, log }, forward: Forward::Nothing };
                }
            }
            Routing { result: RouteResult::Ignored, offsets, forward: Forward::Nothing }
        },
        InputEvent::Paste(text) => {
            // Paste -> load-buffer + paste-buffer (with 1MB limit)
            if has_tmux && text.as_str().as_bytes().len() as u64 <= MAX_PASTE_BYTES {
                let t = text.as_str().to_owned();
                return Routing { result: RouteResult::Handled, offsets, forward: Forward::Paste(t) };
            }
            Routing { result: RouteResult::Ignored, offsets, forward: Forward::Nothing }
        },
        InputEvent::Other => Routing { result: RouteResult::Ignored, offsets, forward: Forward::Nothing },
    }
}

/// The offsets after a mouse scroll: three lines, on the live view (up moves back) or on
/// the conversation log (up moves toward the top), none when the panel is empty.
pub open spec fn mouse_scrolled(content: ContentKind, offsets: ScrollOffsets, up: bool) -> ScrollOffsets {
    match content {
        ContentKind::Live => ScrollOffsets {
            live: (if up { sat_add(offsets.live as int, 3) } else { sat_sub(offsets.live as int, 3) }) as u16,
            log: offsets.log,
        },
        ContentKind::ConversationLog => ScrollOffsets {
            live: offsets.live,
            log: (if up { sat_sub(offsets.log as int, 3) } else { sat_add(offsets.log as int, 3) }) as u16,
        },
        ContentKind::Nothing => offsets,
    }
}

/// Whether the tmux pane is to be resized to `(cols, rows)`: the size changed and neither
/// dimension is zero.
pub fn needs_resize(last: (u16, u16), cols: u16, rows: u16) -> (r: bool)
    ensures
        r == ((cols, rows) != last && cols > 0 && rows > 0),
{
    (cols != last.0 || rows != last.1) && cols > 0 && rows > 0
}

// ---------------------------------------------------------------------------
// The panel's state
// ---------------------------------------------------------------------------

/// What the capture worker is told when the panel changes session.
#[derive(Debug, Clone, PartialEq, Eq)]
pub enum CaptureOrder {
    /// Capture this tmux session.
    Capture(String),
    /// Stop capturing.
    Stop,
    /// Leave the worker as it is.
    Keep,
}

/// A resize of a tmux pane to `cols` by `rows`.
#[derive(Debug, Clone, PartialEq, Eq)]
pub struct PaneResize {
    pub tmux_name: String,
    pub cols: u16,
    pub rows: u16,
}

/// The state of the session interactor panel: what it shows (the content itself is the
/// caller's), the session it shows, its scroll offsets, and the pane size last asked for.
#[derive(Debug)]
pub struct InteractorState {
    pub content: ContentKind,
    pub offsets: ScrollOffsets,
    pub current_session_name: Option<String>,
    /// The tmux session of the session shown (sanitized), used to resize and send keys.
    pub current_tmux_name: Option<String>,
    pub last_resize: (u16, u16),
}

pub open spec fn opt_name(o: Option<String>) -> Option<Seq<char>> {
    match o {
        Some(s) => Some(s@),
        None => None,
    }
}

impl InteractorState {
    /// An empty panel.
    pub fn new() -> (r: Self)
        ensures
            r.content == ContentKind::Nothing,
            r.offsets == (ScrollOffsets { live: 0, log: 0 }),
            r.current_session_name is None,
            r.current_tmux_name is None,
            r.last_resize == (0u16, 0u16),
    {
        InteractorState {
            content: ContentKind::Nothing,
            offsets: ScrollOffsets { live: 0, log: 0 },
            current_session_name: None,
            current_tmux_name: None,
            last_resize: (0, 0),
        }
    }

    /// Take in the messages of the capture worker since the last poll: each is new pane
    /// content (`true`) or word that the session is gone (`false`). The latest decides what
    /// the panel shows; the result tells whether anything came.
    pub fn poll_content(&mut self, received: &Vec<bool>) -> (r: bool)
        ensures
            r == (received@.len() > 0),
            final(self).content == if received@.len() == 0 {
                old(self).content
            } else if received@.last() {
                ContentKind::Live
            } else {
                ContentKind::Nothing
            },
            final(self).offsets == old(self).offsets,
            opt_name(final(self).current_session_name) == opt_name(old(self).current_session_name),
            opt_name(final(self).current_tmux_name) == opt_name(old(self).current_tmux_name),
            final(self).last_resize == old(self).last_resize,
    {
        let n = received.len();
        if n == 0 {
            return false;
        }
        self.content = if received[n - 1] { ContentKind::Live } else { ContentKind::Nothing };
        true
    }

    /// Switch to a session: scroll offsets and the last pane size are reset; an active
    /// session's pane is captured (when it has one), any other session shows its
    /// conversation log and capturing stops.
    pub fn switch_session(&mut self, session: &SessionSummary) -> (r: CaptureOrder)
        ensures
            final(self).offsets == (ScrollOffsets { live: 0, log: 0 }),
            opt_name(final(self).current_session_name) == Some(session.display_name@),
            opt_name(final(self).current_tmux_name) == opt_name(session.tmux_name),
            final(self).last_resize == (0u16, 0u16),
            session.status == SessionStatus::Active ==> final(self).content == old(self).content && match session.tmux_name {
                Some(t) => r == CaptureOrder::Capture(t),
                None => r == CaptureOrder::Keep,
            },
            session.status != SessionStatus::Active ==> final(self).content == ContentKind::ConversationLog
                && r == CaptureOrder::Stop,
    {
        self.offsets = ScrollOffsets { live: 0, log: 0 };
        self.current_session_name = Some(session.display_name.as_str().to_owned());
        self.current_tmux_name = clone_opt_string(&session.tmux_name);
        // the next resize_if_needed call resizes the new session's pane
        self.last_resize = (0, 0);
        match session.status {
            SessionStatus::Active => match &session.tmux_name {
                Some(t) => CaptureOrder::Capture(t.clone()),
                None => CaptureOrder::Keep,
            },
            _ => {
                self.content = ContentKind::ConversationLog;
                CaptureOrder::Stop
            },
        }
    }

    /// Clear the panel (a group is selected): nothing shown, offsets reset, capturing stops.
    pub fn clear(&mut self) -> (r: CaptureOrder)
        ensures
            r == CaptureOrder::Stop,
            final(self).content == ContentKind::Nothing,
            final(self).offsets == (ScrollOffsets { live: 0, log: 0 }),
            final(self).current_session_name is None,
            final(self).current_tmux_name is None,
            final(self).last_resize == old(self).last_resize,
    {
        self.content = ContentKind::Nothing;
        self.current_session_name = None;
        self.current_tmux_name = None;
        self.offsets = ScrollOffsets { live: 0, log: 0 };
        CaptureOrder::Stop
    }

    /// Resize the pane to the panel's size when it changed and is not empty: the new size is
    /// remembered, and the resize is asked for when a pane is shown.
    pub fn resize_if_needed(&mut self, cols: u16, rows: u16) -> (r: Option<PaneResize>)
        ensures
            ({
                let changes = (cols, rows) != old(self).last_resize && cols > 0 && rows > 0;
                &&& final(self).last_resize == if changes { (cols, rows) } else { old(self).last_resize }
                &&& match r {
                    Some(p) => changes && opt_name(old(self).current_tmux_name) == Some(p.tmux_name@) && p.cols == cols
                        && p.rows == rows,
                    None => !changes || old(self).current_tmux_name is None,
                }
            }),
            final(self).content == old(self).content,
            final(self).offsets == old(self).offsets,
            opt_name(final(self).current_session_name) == opt_name(old(self).current_session_name),
            opt_name(final(self).current_tmux_name) == opt_name(old(self).current_tmux_name),
    {
        if needs_resize(self.last_resize, cols, rows) {
            let order = match &self.current_tmux_name {
                Some(name) => Some(PaneResize { tmux_name: name.clone(), cols, rows }),
                None => None,
            };
            self.last_resize = (cols, rows);
            order
        } else {
            None
        }
    }

    /// Scroll the conversation log up.
    pub fn scroll_up(&mut self, amount: u16)
        ensures
            final(self).offsets.live == old(self).offsets.live,
            final(self).offsets.log == sat_sub(old(self).offsets.log as int, amount as int),
            final(self).content == old(self).content,
            final(self).last_resize == old(self).last_resize,
    {
        self.offsets = ScrollOffsets { live: self.offsets.live, log: self.offsets.log.saturating_sub(amount) };
    }

    /// Scroll the conversation log down.
    pub fn scroll_down(&mut self, amount: u16)
        ensures
            final(self).offsets.live == old(self).offsets.live,
            final(self).offsets.log == sat_add(old(self).offsets.log as int, amount as int),
            final(self).content == old(self).content,
            final(self).last_resize == old(self).last_resize,
    {
        self.offsets = ScrollOffsets { live: self.offsets.live, log: self.offsets.log.saturating_add(amount) };
    }

    /// A mouse scroll (see `mouse_scrolled`).
    pub fn handle_mouse_scroll(&mut self, up: bool)
        ensures
            final(self).offsets == mouse_scrolled(old(self).content, old(self).offsets, up),
            final(self).content == old(self).content,
            final(self).last_resize == old(self).last_resize,
    {
        let delta: u16 = 3;
        match self.content {
            ContentKind::Live => {
                if up {
                    self.offsets.live = self.offsets.live.saturating_add(delta);
                } else {
                    self.offsets.live = self.offsets.live.saturating_sub(delta);
                }
            },
            ContentKind::ConversationLog => {
                if up {
                    self.scroll_up(delta);
                } else {
                    self.scroll_down(delta);
                }
            },
            ContentKind::Nothing => {},
        }
    }

    /// Route an input event: Alt->NexusCommand, forward->tmux, or ignored (see `routed`).
    /// `has_tmux` tells whether there is a tmux pane to forward keys to; without one,
    /// non-Alt keys only scroll a conversation log. What goes to the pane comes back, to be
    /// sent by the caller (who then nudges the capture worker).
    pub fn route_event(&mut self, event: &InputEvent, has_tmux: bool) -> (r: (RouteResult, Forward))
        ensures
            routed(old(self).content, old(self).offsets, *event, has_tmux)
                == (r.0, (final(self).offsets.live as int, final(self).offsets.log as int), r.1@),
            final(self).content == old(self).content,
            final(self).last_resize == old(self).last_resize,
            opt_name(final(self).current_session_name) == opt_name(old(self).current_session_name),
            opt_name(final(self).current_tmux_name) == opt_name(old(self).current_tmux_name),
    {
        let routing = route(self.content, self.offsets, event, has_tmux);
        self.offsets = routing.offsets;
        (routing.result, routing.forward)
    }
}

/// A line of the conversation log as the panel shows it: a turn's header (who speaks), a
/// line of what was said, or the blank line after a turn.
#[derive(Debug)]
pub enum TranscriptLine {
    Header(Role),
    Text(String),
    Blank,
}

pub enum TranscriptView {
    Header(Role),
    Text(Seq<char>),
    Blank,
}

impl View for TranscriptLine {
    type V = TranscriptView;

    open spec fn view(&self) -> TranscriptView {
        match self {
            TranscriptLine::Header(r) => TranscriptView::Header(*r),
            TranscriptLine::Text(t) => TranscriptView::Text(t@),
            TranscriptLine::Blank => TranscriptView::Blank,
        }
    }
}

/// The lines of one turn: its header, each line of its text, a blank line.
pub open spec fn turn_lines(t: ConversationTurn) -> Seq<TranscriptView> {
    seq![TranscriptView::Header(t.role)] + str_lines(t.content@).map_values(|l: Seq<char>| TranscriptView::Text(l))
        + seq![TranscriptView::Blank]
}

/// The lines of a conversation, turn after turn.
pub open spec fn transcript(turns: Seq<ConversationTurn>) -> Seq<TranscriptView>
    decreases turns.len(),
{
    if turns.len() == 0 {
        Seq::empty()
    } else {
        transcript(turns.drop_last()) + turn_lines(turns.last())
    }
}

pub open spec fn transcript_views(v: Seq<TranscriptLine>) -> Seq<TranscriptView> {
    v.map_values(|l: TranscriptLine| l@)
}

/// The conversation log laid out as lines.
pub fn transcript_lines(turns: &[ConversationTurn]) -> (r: Vec<TranscriptLine>)
    ensures
        transcript_views(r@) == transcript(turns@),
{
    let mut out: Vec<TranscriptLine> = Vec::new();
    let mut i: usize = 0;
    assert(turns@.take(0) =~= Seq::<ConversationTurn>::empty());
    while i < turns.len()
        invariant
            i <= turns@.len(),
            transcript_views(out@) == transcript(turns@.take(i as int)),
        decreases turns@.len() - i,
    {
        proof {
            assert(turns@.take(i + 1).drop_last() =~= turns@.take(i as int));
            assert(turns@.take(i + 1).last() == turns@[i as int]);
        }
        let ghost before = transcript_views(out@);
        let ghost first = out@;
        out.push(TranscriptLine::Header(turns[i].role));
        assert(transcript_views(out@) =~= transcript_views(first).push(TranscriptView::Header(turns@[i as int].role)));
        let lines = lines_of(turns[i].content.as_str());
        let ghost t = turns@[i as int];
        let ghost texts = str_lines(t.content@);
        let mut j: usize = 0;
        while j < lines.len()
            invariant
                j <= lines@.len(),
                char_rows(lines@) == texts,
                transcript_views(out@) == before + seq![TranscriptView::Header(t.role)]
                    + texts.take(j as int).map_values(|l: Seq<char>| TranscriptView::Text(l)),
            decreases lines@.len() - j,
        {
            assert(char_rows(lines@)[j as int] == lines@[j as int]@);
            let ghost prev = out@;
            let text = string_from_chars(lines[j].as_slice());
            out.push(TranscriptLine::Text(text));
            assert(transcript_views(out@) =~= transcript_views(prev).push(TranscriptView::Text(texts[j as int])));
            j += 1;
            assert(texts.take(j as int).map_values(|l: Seq<char>| TranscriptView::Text(l)) =~= texts.take(j - 1).map_values(|l: Seq<char>| TranscriptView::Text(l)).push(TranscriptView::Text(texts[j - 1])));
            assert(transcript_views(out@) =~= before + seq![TranscriptView::Header(t.role)]
                + texts.take(j as int).map_values(|l: Seq<char>| TranscriptView::Text(l)));
        }
        let ghost prev = out@;
        out.push(TranscriptLine::Blank);
        proof {
            assert(transcript_views(out@) =~= transcript_views(prev).push(TranscriptView::Blank));
            assert(texts.take(j as int) =~= texts);
            assert(transcript_views(out@) =~= before + turn_lines(t));
        }
        i += 1;
    }
    assert(turns@.take(i as int) =~= turns@);
    out
}

} // verus!
