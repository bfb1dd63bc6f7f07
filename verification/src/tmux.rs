use vstd::prelude::*;
use crate::keys::{KeyCode, KeyEvent};
use crate::numfmt::decimal;
use crate::strutil::{is_ascii_alnum, is_ascii_alnum_exec, push_char, str_chars, string_from_chars};
use crate::time_utils::{trim_chars, trimmed};
use crate::textscan::{char_rows, find_from, first_index, lemma_first_index, lines_of, parse_unsigned, parsed_unsigned, str_lines, sub_chars_of};
use crate::types::{TmuxInfoView, TmuxSessionInfo, TmuxSessionStatus};

verus! {

broadcast use vstd::string::group_string_axioms;

// ---------------------------------------------------------------------------
// SendKeysArgs: type-safe tmux send-keys arguments
// ---------------------------------------------------------------------------

/// Type-safe tmux send-keys arguments: prevents command injection by construction.
#[derive(Debug, Clone, PartialEq, Eq)]
pub enum SendKeysArgs {
    /// Literal text: always sent with `-l` flag. Safe for any user input.
    Literal(String),
    /// Named tmux key: a constant from the key mapping below, so injection-safe.
    Named(&'static str),
}

/// Send-keys arguments as plain text.
pub enum SendKeysView {
    Literal(Seq<char>),
    Named(Seq<char>),
}

impl View for SendKeysArgs {
    type V = SendKeysView;

    open spec fn view(&self) -> SendKeysView {
        match self {
            SendKeysArgs::Literal(s) => SendKeysView::Literal(s@),
            SendKeysArgs::Named(n) => SendKeysView::Named(n@),
        }
    }
}

/// The view of an optional send-keys argument.
pub open spec fn opt_args_view(o: Option<SendKeysArgs>) -> Option<SendKeysView> {
    match o {
        Some(a) => Some(a@),
        None => None,
    }
}

// ---------------------------------------------------------------------------
// TmuxManager
// ---------------------------------------------------------------------------

/// Why a name cannot be used as a tmux target.
#[derive(Debug, Clone, Copy, PartialEq, Eq, Structural)]
pub enum TargetError {
    /// The name is empty.
    Empty,
    /// The name holds a character outside `[a-zA-Z0-9_-]`.
    InvalidChar,
}

/// A character allowed in a tmux target: `[a-zA-Z0-9_-]` (no `.`, the tmux separator).
pub open spec fn is_target_char(c: char) -> bool {
    is_ascii_alnum(c) || c == '-' || c == '_'
}

/// The outcome of validating a tmux target name.
pub open spec fn target_check(name: Seq<char>) -> Result<(), TargetError> {
    if name.len() == 0 {
        Err(TargetError::Empty)
    } else if forall|i: int| 0 <= i < name.len() ==> is_target_char(#[trigger] name[i]) {
        Ok(())
    } else {
        Err(TargetError::InvalidChar)
    }
}

#[derive(Clone)]
pub struct TmuxManager {
    pub socket_name: String,
}

impl TmuxManager {
    pub fn new(socket_name: &str) -> (r: Self)
        ensures
            r.socket_name@ == socket_name@,
    {
        TmuxManager { socket_name: string_from_chars(str_chars(socket_name).as_slice()) }
    }

    /// Validate that a session name is safe to use as a tmux target.
    ///
    /// Rejects names containing `.` (tmux target separator for session:window.pane)
    /// or any characters outside `[a-zA-Z0-9_-]`.
    pub fn validate_target(name: &str) -> (r: Result<(), TargetError>)
        ensures
            r == target_check(name@),
    {
        let chars = str_chars(name);
        if chars.len() == 0 {
            return Err(TargetError::Empty);
        }
        let mut i: usize = 0;
        while i < chars.len()
            invariant
                chars@ == name@,
                i <= chars@.len(),
                forall|j: int| 0 <= j < i ==> is_target_char(#[trigger] chars@[j]),
            decreases chars@.len() - i,
        {
            let c = chars[i];
            if !(is_ascii_alnum_exec(c) || c == '-' || c == '_') {
                assert(!is_target_char(name@[i as int]));
                return Err(TargetError::InvalidChar);
            }
            i += 1;
        }
        Ok(())
    }
}

// ---------------------------------------------------------------------------
// The tmux command lines
// ---------------------------------------------------------------------------

/// Arguments as plain text.
pub open spec fn args_view(v: Seq<String>) -> Seq<Seq<char>> {
    v.map_values(|a: String| a@)
}

/// An argument list that tmux is run with, after a validated target: the arguments when
/// `name` may be a target, the reason it may not otherwise.
pub open spec fn checked_args(r: Result<Vec<String>, TargetError>, name: Seq<char>, args: Seq<Seq<char>>) -> bool {
    match r {
        Ok(a) => target_check(name) is Ok && args_view(a@) == args,
        Err(e) => target_check(name) == Err::<(), TargetError>(e),
    }
}

fn push_arg(v: &mut Vec<String>, a: &str)
    ensures
        args_view(final(v)@) == args_view(old(v)@).push(a@),
{
    let ghost before = v@;
    v.push(a.to_owned());
    assert(args_view(v@) =~= args_view(before).push(a@));
}

fn decimal_string(n: u16) -> (r: String)
    ensures
        r@ == decimal(n as nat),
{
    let mut s = String::new();
    crate::numfmt::push_padded_decimal(&mut s, n as u64, 0);
    s
}

impl TmuxManager {
    /// `args` on this manager's socket: `-L <socket>` first.
    pub open spec fn on_socket(&self, args: Seq<Seq<char>>) -> Seq<Seq<char>> {
        seq!["-L"@, self.socket_name@] + args
    }

    fn socket_args(&self) -> (r: Vec<String>)
        ensures
            args_view(r@) == self.on_socket(Seq::empty()),
    {
        let mut v: Vec<String> = Vec::new();
        push_arg(&mut v, "-L");
        push_arg(&mut v, self.socket_name.as_str());
        assert(args_view(v@) =~= self.on_socket(Seq::empty()));
        v
    }

    /// The arguments that start a detached session `name` in `cwd` running the coding agent
    /// `agent`, resuming the agent's session `resume_id` when given.
    pub fn launch_claude_session(&self, agent: &str, name: &str, cwd: &str, resume_id: Option<&str>) -> (r: Result<Vec<String>, TargetError>)
        ensures
            checked_args(
                r,
                name@,
                self.on_socket(seq!["new-session"@, "-d"@, "-s"@, name@, "-c"@, cwd@, agent@] + match resume_id {
                    Some(id) => seq!["--resume"@, id@],
                    None => Seq::empty(),
                }),
            ),
    {
        if let Err(e) = Self::validate_target(name) {
            return Err(e);
        }
        let mut v = self.socket_args();
        let ghost base = args_view(v@);
        push_arg(&mut v, "new-session");
        push_arg(&mut v, "-d");
        push_arg(&mut v, "-s");
        push_arg(&mut v, name);
        push_arg(&mut v, "-c");
        push_arg(&mut v, cwd);
        push_arg(&mut v, agent);
        assert(args_view(v@) =~= base + seq!["new-session"@, "-d"@, "-s"@, name@, "-c"@, cwd@, agent@]);
        if let Some(id) = resume_id {
            push_arg(&mut v, "--resume");
            push_arg(&mut v, id);
        }
        assert(args_view(v@) =~= self.on_socket(seq!["new-session"@, "-d"@, "-s"@, name@, "-c"@, cwd@, agent@] + match resume_id {
            Some(id) => seq!["--resume"@, id@],
            None => Seq::empty(),
        }));
        Ok(v)
    }

    /// The arguments that bring session `name` to the front: `switch-client` from inside
    /// tmux, `attach-session` otherwise.
    pub fn resume_session(&self, name: &str, inside_tmux: bool) -> (r: Result<Vec<String>, TargetError>)
        ensures
            checked_args(r, name@, self.on_socket(seq![if inside_tmux { "switch-client"@ } else { "attach-session"@ }, "-t"@, name@])),
    {
        if let Err(e) = Self::validate_target(name) {
            return Err(e);
        }
        let mut v = self.socket_args();
        if inside_tmux {
            push_arg(&mut v, "switch-client");
        } else {
            push_arg(&mut v, "attach-session");
        }
        push_arg(&mut v, "-t");
        push_arg(&mut v, name);
        assert(args_view(v@) =~= self.on_socket(seq![if inside_tmux { "switch-client"@ } else { "attach-session"@ }, "-t"@, name@]));
        Ok(v)
    }

    /// The arguments that list the sessions on the socket, one line each: name, window
    /// name, attached count and current command, `:`-separated.
    pub fn list_sessions(&self) -> (r: Vec<String>)
        ensures
            args_view(r@) == self.on_socket(
                seq!["list-sessions"@, "-F"@, "#{session_name}:#{window_name}:#{session_attached}:#{pane_current_command}"@],
            ),
    {
        let mut v = self.socket_args();
        push_arg(&mut v, "list-sessions");
        push_arg(&mut v, "-F");
        push_arg(&mut v, "#{session_name}:#{window_name}:#{session_attached}:#{pane_current_command}");
        assert(args_view(v@) =~= self.on_socket(
            seq!["list-sessions"@, "-F"@, "#{session_name}:#{window_name}:#{session_attached}:#{pane_current_command}"@],
        ));
        v
    }

    /// The arguments that rename session `old_name` to `new_name`; both must be targets.
    pub fn rename_session(&self, old_name: &str, new_name: &str) -> (r: Result<Vec<String>, TargetError>)
        ensures
            match target_check(old_name@) {
                Err(e) => r == Err::<Vec<String>, TargetError>(e),
                Ok(_) => checked_args(r, new_name@, self.on_socket(seq!["rename-session"@, "-t"@, old_name@, new_name@])),
            },
    {
        if let Err(e) = Self::validate_target(old_name) {
            return Err(e);
        }
        if let Err(e) = Self::validate_target(new_name) {
            return Err(e);
        }
        let mut v = self.socket_args();
        push_arg(&mut v, "rename-session");
        push_arg(&mut v, "-t");
        push_arg(&mut v, old_name);
        push_arg(&mut v, new_name);
        assert(args_view(v@) =~= self.on_socket(seq!["rename-session"@, "-t"@, old_name@, new_name@]));
        Ok(v)
    }

    /// The arguments that kill session `name`.
    pub fn kill_session(&self, name: &str) -> (r: Result<Vec<String>, TargetError>)
        ensures
            checked_args(r, name@, self.on_socket(seq!["kill-session"@, "-t"@, name@])),
    {
        if let Err(e) = Self::validate_target(name) {
            return Err(e);
        }
        let mut v = self.socket_args();
        push_arg(&mut v, "kill-session");
        push_arg(&mut v, "-t");
        push_arg(&mut v, name);
        assert(args_view(v@) =~= self.on_socket(seq!["kill-session"@, "-t"@, name@]));
        Ok(v)
    }

    /// The commands that set up the server, in order: a 256-color terminal type, true
    /// color passthrough, `COLORTERM=truecolor` in panes, 2000 lines of scrollback, and
    /// Ctrl+Q to detach. Only the last one's failure is an error.
    pub fn configure_server(&self) -> (r: Vec<Vec<String>>)
        ensures
            r@.len() == 5,
            args_view(r@[0]@) == self.on_socket(seq!["set-option"@, "-g"@, "default-terminal"@, "tmux-256color"@]),
            args_view(r@[1]@) == self.on_socket(seq!["set-option"@, "-sa"@, "terminal-overrides"@, ",*:Tc"@]),
            args_view(r@[2]@) == self.on_socket(seq!["set-environment"@, "-g"@, "COLORTERM"@, "truecolor"@]),
            args_view(r@[3]@) == self.on_socket(seq!["set-option"@, "-g"@, "history-limit"@, "2000"@]),
            args_view(r@[4]@) == self.on_socket(seq!["bind-key"@, "-n"@, "C-q"@, "detach-client"@]),
    {
        let mut a = self.socket_args();
        push_arg(&mut a, "set-option");
        push_arg(&mut a, "-g");
        push_arg(&mut a, "default-terminal");
        push_arg(&mut a, "tmux-256color");
        assert(args_view(a@) =~= self.on_socket(seq!["set-option"@, "-g"@, "default-terminal"@, "tmux-256color"@]));
        let mut b = self.socket_args();
        push_arg(&mut b, "set-option");
        push_arg(&mut b, "-sa");
        push_arg(&mut b, "terminal-overrides");
        push_arg(&mut b, ",*:Tc");
        assert(args_view(b@) =~= self.on_socket(seq!["set-option"@, "-sa"@, "terminal-overrides"@, ",*:Tc"@]));
        let mut c = self.socket_args();
        push_arg(&mut c, "set-environment");
        push_arg(&mut c, "-g");
        push_arg(&mut c, "COLORTERM");
        push_arg(&mut c, "truecolor");
        assert(args_view(c@) =~= self.on_socket(seq!["set-environment"@, "-g"@, "COLORTERM"@, "truecolor"@]));
        let mut d = self.socket_args();
        push_arg(&mut d, "set-option");
        push_arg(&mut d, "-g");
        push_arg(&mut d, "history-limit");
        push_arg(&mut d, "2000");
        assert(args_view(d@) =~= self.on_socket(seq!["set-option"@, "-g"@, "history-limit"@, "2000"@]));
        let mut e = self.socket_args();
        push_arg(&mut e, "bind-key");
        push_arg(&mut e, "-n");
        push_arg(&mut e, "C-q");
        push_arg(&mut e, "detach-client");
        assert(args_view(e@) =~= self.on_socket(seq!["bind-key"@, "-n"@, "C-q"@, "detach-client"@]));
        let mut all: Vec<Vec<String>> = Vec::new();
        all.push(a);
        all.push(b);
        all.push(c);
        all.push(d);
        all.push(e);
        all
    }

    /// The arguments that print the pane of session `name` with its escape sequences (the
    /// alternate screen kept), from 500 lines of scrollback on.
    pub fn capture_pane(&self, session_name: &str) -> (r: Result<Vec<String>, TargetError>)
        ensures
            checked_args(r, session_name@, self.on_socket(seq!["capture-pane"@, "-t"@, session_name@, "-p"@, "-e"@, "-N"@, "-S"@, "-500"@])),
    {
        if let Err(e) = Self::validate_target(session_name) {
            return Err(e);
        }
        let mut v = self.socket_args();
        push_arg(&mut v, "capture-pane");
        push_arg(&mut v, "-t");
        push_arg(&mut v, session_name);
        push_arg(&mut v, "-p");
        push_arg(&mut v, "-e");
        push_arg(&mut v, "-N");
        push_arg(&mut v, "-S");
        push_arg(&mut v, "-500");
        assert(args_view(v@) =~= self.on_socket(seq!["capture-pane"@, "-t"@, session_name@, "-p"@, "-e"@, "-N"@, "-S"@, "-500"@]));
        Ok(v)
    }

    /// The arguments that send keys to session `name`: literal text after `-l`, a named
    /// key as it is.
    pub fn send_keys(&self, session_name: &str, args: &SendKeysArgs) -> (r: Result<Vec<String>, TargetError>)
        ensures
            checked_args(r, session_name@, self.on_socket(seq!["send-keys"@, "-t"@, session_name@] + match args@ {
                SendKeysView::Literal(text) => seq!["-l"@, text],
                SendKeysView::Named(key) => seq![key],
            })),
    {
        if let Err(e) = Self::validate_target(session_name) {
            return Err(e);
        }
        let mut v = self.socket_args();
        push_arg(&mut v, "send-keys");
        push_arg(&mut v, "-t");
        push_arg(&mut v, session_name);
        match args {
            SendKeysArgs::Literal(text) => {
                push_arg(&mut v, "-l");
                push_arg(&mut v, text.as_str());
            },
            SendKeysArgs::Named(key_name) => {
                push_arg(&mut v, key_name);
            },
        }
        assert(args_view(v@) =~= self.on_socket(seq!["send-keys"@, "-t"@, session_name@] + match args@ {
            SendKeysView::Literal(text) => seq!["-l"@, text],
            SendKeysView::Named(key) => seq![key],
        }));
        Ok(v)
    }

    /// The arguments that resize session `name`, its window first (a detached session's
    /// window bounds its pane), then its pane, to `cols` by `rows`. Only the second one's
    /// failure is an error.
    pub fn resize_pane(&self, session_name: &str, cols: u16, rows: u16) -> (r: Result<(Vec<String>, Vec<String>), TargetError>)
        ensures
            match r {
                Ok((window, pane)) => {
                    &&& target_check(session_name@) is Ok
                    &&& args_view(window@) == self.on_socket(
                        seq!["resize-window"@, "-t"@, session_name@, "-x"@, decimal(cols as nat), "-y"@, decimal(rows as nat)],
                    )
                    &&& args_view(pane@) == self.on_socket(
                        seq!["resize-pane"@, "-t"@, session_name@, "-x"@, decimal(cols as nat), "-y"@, decimal(rows as nat)],
                    )
                },
                Err(e) => target_check(session_name@) == Err::<(), TargetError>(e),
            },
    {
        if let Err(e) = Self::validate_target(session_name) {
            return Err(e);
        }
        let cols_str = decimal_string(cols);
        let rows_str = decimal_string(rows);
        let mut window = self.socket_args();
        push_arg(&mut window, "resize-window");
        push_arg(&mut window, "-t");
        push_arg(&mut window, session_name);
        push_arg(&mut window, "-x");
        push_arg(&mut window, cols_str.as_str());
        push_arg(&mut window, "-y");
        push_arg(&mut window, rows_str.as_str());
        assert(args_view(window@) =~= self.on_socket(
            seq!["resize-window"@, "-t"@, session_name@, "-x"@, decimal(cols as nat), "-y"@, decimal(rows as nat)],
        ));
        let mut pane = self.socket_args();
        push_arg(&mut pane, "resize-pane");
        push_arg(&mut pane, "-t");
        push_arg(&mut pane, session_name);
        push_arg(&mut pane, "-x");
        push_arg(&mut pane, cols_str.as_str());
        push_arg(&mut pane, "-y");
        push_arg(&mut pane, rows_str.as_str());
        assert(args_view(pane@) =~= self.on_socket(
            seq!["resize-pane"@, "-t"@, session_name@, "-x"@, decimal(cols as nat), "-y"@, decimal(rows as nat)],
        ));
        Ok((window, pane))
    }

    /// The arguments that paste into session `name`: first load the text, given on
    /// standard input, into the buffer `nexus-paste`; then paste that buffer into the
    /// session and delete it.
    pub fn load_buffer_and_paste(&self, session_name: &str) -> (r: Result<(Vec<String>, Vec<String>), TargetError>)
        ensures
            match r {
                Ok((load, paste)) => {
                    &&& target_check(session_name@) is Ok
                    &&& args_view(load@) == self.on_socket(seq!["load-buffer"@, "-b"@, "nexus-paste"@, "-"@])
                    &&& args_view(paste@) == self.on_socket(seq!["paste-buffer"@, "-b"@, "nexus-paste"@, "-t"@, session_name@, "-d"@])
                },
                Err(e) => target_check(session_name@) == Err::<(), TargetError>(e),
            },
    {
        if let Err(e) = Self::validate_target(session_name) {
            return Err(e);
        }
        let mut load = self.socket_args();
        push_arg(&mut load, "load-buffer");
        push_arg(&mut load, "-b");
        push_arg(&mut load, "nexus-paste");
        push_arg(&mut load, "-");
        assert(args_view(load@) =~= self.on_socket(seq!["load-buffer"@, "-b"@, "nexus-paste"@, "-"@]));
        let mut paste = self.socket_args();
        push_arg(&mut paste, "paste-buffer");
        push_arg(&mut paste, "-b");
        push_arg(&mut paste, "nexus-paste");
        push_arg(&mut paste, "-t");
        push_arg(&mut paste, session_name);
        push_arg(&mut paste, "-d");
        assert(args_view(paste@) =~= self.on_socket(seq!["paste-buffer"@, "-b"@, "nexus-paste"@, "-t"@, session_name@, "-d"@]));
        Ok((load, paste))
    }
}

// ---------------------------------------------------------------------------
// Public helpers
// ---------------------------------------------------------------------------

/// The character kept in a tmux name: `[a-zA-Z0-9-]` stay, anything else becomes `-`.
pub open spec fn tmux_name_char(c: char) -> char {
    if is_ascii_alnum(c) || c == '-' { c } else { '-' }
}

/// A string made usable as a tmux session name, character by character.
pub open spec fn sanitized_tmux_name(s: Seq<char>) -> Seq<char> {
    s.map_values(|c: char| tmux_name_char(c))
}

/// Sanitize a string for use as a tmux session name.
///
/// Replaces any character outside `[a-zA-Z0-9-]` with `-`.
pub fn sanitize_tmux_name(s: &str) -> (r: String)
    ensures
        r@ == sanitized_tmux_name(s@),
{
    let mut out = String::new();
    for c in iter: s.chars()
        invariant
            iter.seq() == s@,
            out@ == sanitized_tmux_name(iter.seq().take(iter.index() as int)),
    {
        let ghost k = iter.index();
        let kept = if is_ascii_alnum_exec(c) || c == '-' { c } else { '-' };
        push_char(&mut out, kept);
        proof {
            assert(iter.seq().take(k + 1) =~= iter.seq().take(k as int).push(c));
            assert(sanitized_tmux_name(iter.seq().take(k + 1)) =~= sanitized_tmux_name(iter.seq().take(k as int)).push(kept));
        }
    }
    proof {
        assert(s@.take(s@.len() as int) =~= s@);
    }
    out
}

/// Sanitizing twice changes nothing: the result of sanitizing only holds characters that
/// sanitizing keeps.
pub proof fn lemma_sanitize_tmux_name_idempotent(s: Seq<char>)
    ensures
        sanitized_tmux_name(sanitized_tmux_name(s)) == sanitized_tmux_name(s),
{
    assert(sanitized_tmux_name(sanitized_tmux_name(s)) =~= sanitized_tmux_name(s));
}

/// A sanitized name that is not empty is a valid tmux target.
pub proof fn lemma_sanitized_name_is_target(s: Seq<char>)
    requires
        s.len() > 0,
    ensures
        target_check(sanitized_tmux_name(s)) == Ok::<(), TargetError>(()),
{
    let t = sanitized_tmux_name(s);
    assert forall|i: int| 0 <= i < t.len() implies is_target_char(#[trigger] t[i]) by {
        assert(t[i] == tmux_name_char(s[i]));
    }
}

// ---------------------------------------------------------------------------
// Key mapping: KeyEvent -> tmux SendKeysArgs
// ---------------------------------------------------------------------------

/// An ASCII letter.
pub open spec fn is_ascii_alpha(c: char) -> bool {
    ('a' <= c && c <= 'z') || ('A' <= c && c <= 'Z')
}

/// The lowercase of an ASCII letter.
pub open spec fn ascii_lower(c: char) -> char {
    if 'A' <= c && c <= 'Z' { ((c as u32) + 32) as char } else { c }
}

/// The tmux name of a key without modifiers, for the keys that have one.
pub open spec fn tmux_key_name(code: KeyCode) -> Option<Seq<char>> {
    match code {
        KeyCode::Enter => Some("Enter"@),
        KeyCode::Backspace => Some("BSpace"@),
        KeyCode::Tab => Some("Tab"@),
        KeyCode::Esc => Some("Escape"@),
        KeyCode::Up => Some("Up"@),
        KeyCode::Down => Some("Down"@),
        KeyCode::Left => Some("Left"@),
        KeyCode::Right => Some("Right"@),
        KeyCode::Home => Some("Home"@),
        KeyCode::End => Some("End"@),
        KeyCode::PageUp => Some("PageUp"@),
        KeyCode::PageDown => Some("PageDown"@),
        KeyCode::Delete => Some("DC"@),
        KeyCode::Insert => Some("IC"@),
        KeyCode::BackTab => Some("BTab"@),
        KeyCode::F(n) => if 1 <= n <= 12 { Some(seq!['F'] + decimal(n as nat)) } else { None },
        _ => None,
    }
}

/// What is sent to tmux for a key press: nothing for Alt combinations (reserved for nexus
/// commands); `C-<letter>` for Ctrl with a letter, nothing for Ctrl with another character;
/// the character itself as literal text; the tmux name of a special key.
pub open spec fn send_args_for(e: KeyEvent) -> Option<SendKeysView> {
    if e.modifiers.alt {
        None
    } else if e.modifiers.control && e.code is Char {
        let c = e.code->Char_0;
        if is_ascii_alpha(c) {
            Some(SendKeysView::Named(seq!['C', '-', ascii_lower(c)]))
        } else {
            None
        }
    } else {
        match e.code {
            KeyCode::Char(c) => Some(SendKeysView::Literal(seq![c])),
            _ => match tmux_key_name(e.code) {
                Some(n) => Some(SendKeysView::Named(n)),
                None => None,
            },
        }
    }
}

proof fn lemma_function_key_names()
    ensures
        "F1"@ == seq!['F'] + decimal(1), "F2"@ == seq!['F'] + decimal(2), "F3"@ == seq!['F'] + decimal(3),
        "F4"@ == seq!['F'] + decimal(4), "F5"@ == seq!['F'] + decimal(5), "F6"@ == seq!['F'] + decimal(6),
        "F7"@ == seq!['F'] + decimal(7), "F8"@ == seq!['F'] + decimal(8), "F9"@ == seq!['F'] + decimal(9),
        "F10"@ == seq!['F'] + decimal(10), "F11"@ == seq!['F'] + decimal(11), "F12"@ == seq!['F'] + decimal(12),
{
    reveal_strlit("F1");
    reveal_strlit("F2");
    reveal_strlit("F3");
    reveal_strlit("F4");
    reveal_strlit("F5");
    reveal_strlit("F6");
    reveal_strlit("F7");
    reveal_strlit("F8");
    reveal_strlit("F9");
    reveal_strlit("F10");
    reveal_strlit("F11");
    reveal_strlit("F12");
    reveal_with_fuel(decimal, 2);
    assert("F1"@ =~= seq!['F'] + decimal(1));
    assert("F2"@ =~= seq!['F'] + decimal(2));
    assert("F3"@ =~= seq!['F'] + decimal(3));
    assert("F4"@ =~= seq!['F'] + decimal(4));
    assert("F5"@ =~= seq!['F'] + decimal(5));
    assert("F6"@ =~= seq!['F'] + decimal(6));
    assert("F7"@ =~= seq!['F'] + decimal(7));
    assert("F8"@ =~= seq!['F'] + decimal(8));
    assert("F9"@ =~= seq!['F'] + decimal(9));
    assert("F10"@ =~= seq!['F'] + decimal(10));
    assert("F11"@ =~= seq!['F'] + decimal(11));
    assert("F12"@ =~= seq!['F'] + decimal(12));
}

/// The tmux name of Ctrl with a letter.
fn ctrl_key_name(c: char) -> (r: Option<&'static str>)
    ensures
        match r {
            Some(n) => is_ascii_alpha(c) && n@ == seq!['C', '-', ascii_lower(c)],
            None => !is_ascii_alpha(c),
        },
{
    let r: Option<&'static str> = match c {
        'a' | 'A' => Some("C-a"),
        'b' | 'B' => Some("C-b"),
        'c' | 'C' => Some("C-c"),
        'd' | 'D' => Some("C-d"),
        'e' | 'E' => Some("C-e"),
        'f' | 'F' => Some("C-f"),
        'g' | 'G' => Some("C-g"),
        'h' | 'H' => Some("C-h"),
        'i' | 'I' => Some("C-i"),
        'j' | 'J' => Some("C-j"),
        'k' | 'K' => Some("C-k"),
        'l' | 'L' => Some("C-l"),
        'm' | 'M' => Some("C-m"),
        'n' | 'N' => Some("C-n"),
        'o' | 'O' => Some("C-o"),
        'p' | 'P' => Some("C-p"),
        'q' | 'Q' => Some("C-q"),
        'r' | 'R' => Some("C-r"),
        's' | 'S' => Some("C-s"),
        't' | 'T' => Some("C-t"),
        'u' | 'U' => Some("C-u"),
        'v' | 'V' => Some("C-v"),
        'w' | 'W' => Some("C-w"),
        'x' | 'X' => Some("C-x"),
        'y' | 'Y' => Some("C-y"),
        'z' | 'Z' => Some("C-z"),
        _ => None,
    };
    proof {
        lemma_ctrl_names();
    }
    r
}

proof fn lemma_ctrl_names()
    ensures
        "C-a"@ == seq!['C', '-', 'a'], "C-b"@ == seq!['C', '-', 'b'], "C-c"@ == seq!['C', '-', 'c'],
        "C-d"@ == seq!['C', '-', 'd'], "C-e"@ == seq!['C', '-', 'e'], "C-f"@ == seq!['C', '-', 'f'],
        "C-g"@ == seq!['C', '-', 'g'], "C-h"@ == seq!['C', '-', 'h'], "C-i"@ == seq!['C', '-', 'i'],
        "C-j"@ == seq!['C', '-', 'j'], "C-k"@ == seq!['C', '-', 'k'], "C-l"@ == seq!['C', '-', 'l'],
        "C-m"@ == seq!['C', '-', 'm'], "C-n"@ == seq!['C', '-', 'n'], "C-o"@ == seq!['C', '-', 'o'],
        "C-p"@ == seq!['C', '-', 'p'], "C-q"@ == seq!['C', '-', 'q'], "C-r"@ == seq!['C', '-', 'r'],
        "C-s"@ == seq!['C', '-', 's'], "C-t"@ == seq!['C', '-', 't'], "C-u"@ == seq!['C', '-', 'u'],
        "C-v"@ == seq!['C', '-', 'v'], "C-w"@ == seq!['C', '-', 'w'], "C-x"@ == seq!['C', '-', 'x'],
        "C-y"@ == seq!['C', '-', 'y'], "C-z"@ == seq!['C', '-', 'z'],
{
    reveal_strlit("C-a");
    reveal_strlit("C-b");
    reveal_strlit("C-c");
    reveal_strlit("C-d");
    reveal_strlit("C-e");
    reveal_strlit("C-f");
    reveal_strlit("C-g");
    reveal_strlit("C-h");
    reveal_strlit("C-i");
    reveal_strlit("C-j");
    reveal_strlit("C-k");
    reveal_strlit("C-l");
    reveal_strlit("C-m");
    reveal_strlit("C-n");
    reveal_strlit("C-o");
    reveal_strlit("C-p");
    reveal_strlit("C-q");
    reveal_strlit("C-r");
    reveal_strlit("C-s");
    reveal_strlit("C-t");
    reveal_strlit("C-u");
    reveal_strlit("C-v");
    reveal_strlit("C-w");
    reveal_strlit("C-x");
    reveal_strlit("C-y");
    reveal_strlit("C-z");
    assert("C-a"@ =~= seq!['C', '-', 'a']);
    assert("C-b"@ =~= seq!['C', '-', 'b']);
    assert("C-c"@ =~= seq!['C', '-', 'c']);
    assert("C-d"@ =~= seq!['C', '-', 'd']);
    assert("C-e"@ =~= seq!['C', '-', 'e']);
    assert("C-f"@ =~= seq!['C', '-', 'f']);
    assert("C-g"@ =~= seq!['C', '-', 'g']);
    assert("C-h"@ =~= seq!['C', '-', 'h']);
    assert("C-i"@ =~= seq!['C', '-', 'i']);
    assert("C-j"@ =~= seq!['C', '-', 'j']);
    assert("C-k"@ =~= seq!['C', '-', 'k']);
    assert("C-l"@ =~= seq!['C', '-', 'l']);
    assert("C-m"@ =~= seq!['C', '-', 'm']);
    assert("C-n"@ =~= seq!['C', '-', 'n']);
    assert("C-o"@ =~= seq!['C', '-', 'o']);
    assert("C-p"@ =~= seq!['C', '-', 'p']);
    assert("C-q"@ =~= seq!['C', '-', 'q']);
    assert("C-r"@ =~= seq!['C', '-', 'r']);
    assert("C-s"@ =~= seq!['C', '-', 's']);
    assert("C-t"@ =~= seq!['C', '-', 't']);
    assert("C-u"@ =~= seq!['C', '-', 'u']);
    assert("C-v"@ =~= seq!['C', '-', 'v']);
    assert("C-w"@ =~= seq!['C', '-', 'w']);
    assert("C-x"@ =~= seq!['C', '-', 'x']);
    assert("C-y"@ =~= seq!['C', '-', 'y']);
    assert("C-z"@ =~= seq!['C', '-', 'z']);
}

/// Map a key event to tmux `SendKeysArgs`.
///
/// Returns `None` for key events that should not be forwarded (e.g., Alt+key
/// combos that are reserved for nexus commands).
pub fn key_event_to_send_args(event: &KeyEvent) -> (r: Option<SendKeysArgs>)
    ensures
        opt_args_view(r) == send_args_for(*event),
{
    // Alt+key is reserved for nexus commands: never forward
    if event.modifiers.alt {
        return None;
    }
    // Ctrl+key combos
    if event.modifiers.control {
        if let KeyCode::Char(c) = event.code {
            return match ctrl_key_name(c) {
                Some(n) => Some(SendKeysArgs::Named(n)),
                None => None,
            };
        }
    }
    proof {
        lemma_function_key_names();
    }
    match event.code {
        // Printable characters -> Literal (safe for any text)
        KeyCode::Char(c) => {
            let mut s = String::new();
            push_char(&mut s, c);
            assert(s@ =~= seq![c]);
            Some(SendKeysArgs::Literal(s))
        },
        // Special keys -> Named tmux key names
        KeyCode::Enter => Some(SendKeysArgs::Named("Enter")),
        KeyCode::Backspace => Some(SendKeysArgs::Named("BSpace")),
        KeyCode::Tab => Some(SendKeysArgs::Named("Tab")),
        KeyCode::Esc => Some(SendKeysArgs::Named("Escape")),
        KeyCode::Up => Some(SendKeysArgs::Named("Up")),
        KeyCode::Down => Some(SendKeysArgs::Named("Down")),
        KeyCode::Left => Some(SendKeysArgs::Named("Left")),
        KeyCode::Right => Some(SendKeysArgs::Named("Right")),
        KeyCode::Home => Some(SendKeysArgs::Named("Home")),
        KeyCode::End => Some(SendKeysArgs::Named("End")),
        KeyCode::PageUp => Some(SendKeysArgs::Named("PageUp")),
        KeyCode::PageDown => Some(SendKeysArgs::Named("PageDown")),
        KeyCode::Delete => Some(SendKeysArgs::Named("DC")),
        KeyCode::Insert => Some(SendKeysArgs::Named("IC")),
        KeyCode::BackTab => Some(SendKeysArgs::Named("BTab")),
        // Function keys F1-F12
        KeyCode::F(n) => match n {
            1 => Some(SendKeysArgs::Named("F1")),
            2 => Some(SendKeysArgs::Named("F2")),
            3 => Some(SendKeysArgs::Named("F3")),
            4 => Some(SendKeysArgs::Named("F4")),
            5 => Some(SendKeysArgs::Named("F5")),
            6 => Some(SendKeysArgs::Named("F6")),
            7 => Some(SendKeysArgs::Named("F7")),
            8 => Some(SendKeysArgs::Named("F8")),
            9 => Some(SendKeysArgs::Named("F9")),
            10 => Some(SendKeysArgs::Named("F10")),
            11 => Some(SendKeysArgs::Named("F11")),
            12 => Some(SendKeysArgs::Named("F12")),
            _ => None,
        },
        // Unhandled key codes (Null, CapsLock, etc.): ignore
        _ => None,
    }
}

// ---------------------------------------------------------------------------
// Parsing `tmux list-sessions` output
// ---------------------------------------------------------------------------

/// The session described by one line `session_name:window_name:session_attached:pane_current_command`,
/// split at the first three colons (the command keeps any further colons); `None` when the line
/// has fewer than two colons. The session is active when the attached count parses to a
/// positive number, and running when the command holds more than whitespace.
pub open spec fn parse_line_spec(line: Seq<char>) -> Option<TmuxInfoView> {
    match first_index(line, ':') {
        None => None,
        Some(c1) => {
            let rest1 = line.skip(c1 + 1);
            match first_index(rest1, ':') {
                None => None,
                Some(c2) => {
                    let rest2 = rest1.skip(c2 + 1);
                    let attached = match first_index(rest2, ':') {
                        Some(c3) => rest2.take(c3),
                        None => rest2,
                    };
                    let command = match first_index(rest2, ':') {
                        Some(c3) => rest2.skip(c3 + 1),
                        None => Seq::empty(),
                    };
                    Some(TmuxInfoView {
                        session_id: line.take(c1),
                        window_name: rest1.take(c2),
                        is_active: match parsed_unsigned(trimmed(attached), u32::MAX as nat) {
                            Some(v) => v > 0,
                            None => false,
                        },
                        status: if trimmed(command).len() == 0 {
                            TmuxSessionStatus::Idle
                        } else {
                            TmuxSessionStatus::Running
                        },
                    })
                },
            }
        },
    }
}

/// The sessions parsed from a sequence of lines, lines that do not parse left out.
pub open spec fn parse_lines(lines: Seq<Seq<char>>) -> Seq<TmuxInfoView>
    decreases lines.len(),
{
    if lines.len() == 0 {
        Seq::empty()
    } else {
        parse_lines(lines.drop_last()) + match parse_line_spec(lines.last()) {
            Some(x) => seq![x],
            None => Seq::empty(),
        }
    }
}

/// The sessions listed in the output of `tmux list-sessions`: one per line (`str::lines`)
/// that parses.
pub open spec fn sessions_in_output(output: Seq<char>) -> Seq<TmuxInfoView> {
    parse_lines(str_lines(output))
}

pub open spec fn info_views(v: Seq<TmuxSessionInfo>) -> Seq<TmuxInfoView> {
    v.map_values(|t: TmuxSessionInfo| t@)
}

/// Parse one line of `tmux list-sessions` output.
fn parse_session_line(line: &Vec<char>) -> (r: Option<TmuxSessionInfo>)
    ensures
        match r {
            Some(t) => parse_line_spec(line@) == Some(t@),
            None => parse_line_spec(line@) is None,
        },
{
    let n = line.len();
    let c1 = find_from(line, ':', 0);
    proof {
        lemma_first_index(line@, ':', c1 as int);
    }
    if c1 == n {
        return None;
    }
    let ghost rest1 = line@.skip(c1 + 1);
    let c2 = find_from(line, ':', c1 + 1);
    proof {
        assert forall|j: int| 0 <= j < c2 - (c1 + 1) implies rest1[j] != ':' by {
            assert(rest1[j] == line@[j + c1 + 1]);
        }
        lemma_first_index(rest1, ':', c2 - (c1 + 1));
    }
    if c2 == n {
        return None;
    }
    let ghost rest2 = rest1.skip(c2 - c1);
    let c3 = find_from(line, ':', c2 + 1);
    proof {
        assert(rest2 =~= line@.skip(c2 + 1));
        assert forall|j: int| 0 <= j < c3 - (c2 + 1) implies rest2[j] != ':' by {
            assert(rest2[j] == line@[j + c2 + 1]);
        }
        lemma_first_index(rest2, ':', c3 - (c2 + 1));
    }
    let session_name = string_from_chars(sub_chars_of(line, 0, c1).as_slice());
    let window_name = string_from_chars(sub_chars_of(line, c1 + 1, c2).as_slice());
    let attached_chars = sub_chars_of(line, c2 + 1, c3);
    let command_chars = if c3 < n { sub_chars_of(line, c3 + 1, n) } else { Vec::new() };
    proof {
        assert(line@.subrange(0, c1 as int) =~= line@.take(c1 as int));
        assert(line@.subrange(c1 + 1, c2 as int) =~= rest1.take(c2 - (c1 + 1)));
        if c3 < n {
            assert(line@.subrange(c2 + 1, c3 as int) =~= rest2.take(c3 - (c2 + 1)));
            assert(line@.subrange(c3 + 1, n as int) =~= rest2.skip(c3 - (c2 + 1) + 1));
        } else {
            assert(line@.subrange(c2 + 1, c3 as int) =~= rest2);
            assert(command_chars@ =~= Seq::<char>::empty());
        }
    }
    let attached = parse_unsigned(&trim_chars(&attached_chars), u32::MAX as u64);
    let is_active = match attached {
        Some(v) => v > 0,
        None => false,
    };
    let status = if trim_chars(&command_chars).len() == 0 {
        TmuxSessionStatus::Idle
    } else {
        TmuxSessionStatus::Running
    };
    Some(TmuxSessionInfo { session_id: session_name, window_name, is_active, status })
}

/// Parse the raw output from `tmux list-sessions -F '...'` into structured session info.
///
/// Expected format per line:
/// `session_name:window_name:session_attached:pane_current_command`
///
/// - `session_attached > 0` -> `is_active = true`
/// - `pane_current_command` non-empty -> `Running`, otherwise `Idle`
pub fn parse_list_sessions_output(output: &str) -> (r: Vec<TmuxSessionInfo>)
    ensures
        info_views(r@) == sessions_in_output(output@),
{
    let lines = lines_of(output);
    let ghost ls = char_rows(lines@);
    let mut out: Vec<TmuxSessionInfo> = Vec::new();
    let mut i: usize = 0;
    assert(ls.take(0) =~= Seq::<Seq<char>>::empty());
    while i < lines.len()
        invariant
            ls == char_rows(lines@),
            ls == str_lines(output@),
            i <= lines@.len(),
            info_views(out@) == parse_lines(ls.take(i as int)),
        decreases lines@.len() - i,
    {
        assert(ls.take(i + 1).drop_last() =~= ls.take(i as int));
        assert(ls.take(i + 1).last() == lines@[i as int]@);
        if lines[i].len() > 0 {
            match parse_session_line(&lines[i]) {
                Some(t) => out.push(t),
                None => {},
            }
        } else {
            proof {
                lemma_first_index(lines@[i as int]@, ':', 0);
            }
        }
        assert(info_views(out@) =~= parse_lines(ls.take(i + 1)));
        i += 1;
    }
    assert(ls.take(i as int) =~= ls);
    out
}

} // verus!
