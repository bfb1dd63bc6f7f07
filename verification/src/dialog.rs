//! The modal dialogs over the session tree: the text prompt, the yes/no confirmation, the
//! group picker and the session finder. A key moves a dialog to its next state and names
//! the work that the caller does outside (the database, tmux, git, the file system); the
//! caller hands the results back through the functions that take them.

use vstd::prelude::*;
use crate::keys::{KeyCode, KeyEvent};
use crate::path_complete::{expand_tilde, opt_view, tilde_expanded};
use crate::scanner::str_eq;
use crate::strutil::{push_char, str_chars, string_from_chars, sub_chars};
use crate::time_utils::{trim_chars, trimmed};
use crate::types::{GroupId, GroupNode, InputContext, InputMode, SelectionTarget, TreeNode, WorktreeInfo};
use crate::widgets::finder_state::FinderState;

verus! {

broadcast use vstd::string::group_string_axioms;

/// The work that a dialog asks of its caller.
#[derive(Debug)]
pub enum DialogAction {
    /// Nothing to do.
    Nothing,
    /// Recompute the path completions of the prompt's text and hand them to
    /// `set_suggestions`.
    RefreshSuggestions,
    /// The prompt now holds the accepted completion: tell `complete_directory` whether it
    /// names a directory, then refresh the completions.
    AcceptSuggestion,
    /// Find out whether `cwd` lies in a git repository and hand the answer to `repo_checked`.
    CheckRepo { name: String, cwd: String },
    /// Load the groups (and the group under the tree cursor) and hand them to
    /// `groups_loaded`.
    LoadGroups { name: String, cwd: String, worktree: bool },
    /// Create a session, in a worktree of its own when `worktree` is set.
    CreateSession { name: String, cwd: String, group: Option<GroupId>, worktree: bool },
    /// Give a session a new display name (and its tmux session a name made from it).
    RenameSession { session_id: String, name: String },
    RenameGroup { group_id: GroupId, name: String },
    CreateGroup { name: String },
    /// Delete a session: kill its tmux session if it has one and tear its worktree down if
    /// one is given.
    DeleteSession { session_id: String, tmux_name: Option<String>, worktree: Option<WorktreeInfo> },
    DeleteGroup { group_id: GroupId },
    MoveSession { session_id: String, group_id: GroupId },
    /// Reload the tree from the database.
    RefreshTree,
    /// Move the tree cursor to the session and select it.
    JumpToSession { session_id: String },
}

/// The state of the dialogs: which one is open, what it is about, the prompt's text, the
/// path completions offered under it and the groups offered by the picker.
pub struct DialogState {
    pub mode: InputMode,
    pub context: Option<InputContext>,
    pub buffer: String,
    pub suggestions: Vec<String>,
    pub suggestion_cursor: usize,
    pub picker: Vec<(GroupId, String)>,
    pub picker_cursor: usize,
}

/// The prompt asks for the working directory of a new session.
pub open spec fn asks_cwd(ctx: Option<InputContext>) -> bool {
    ctx matches Some(InputContext::NewSessionCwd { .. })
}

/// One step up a list of `len` entries, wrapping from the first to the last.
pub open spec fn wrap_up(cursor: int, len: int) -> int {
    if cursor == 0 { len - 1 } else { cursor - 1 }
}

/// One step down a list of `len` entries, wrapping from the last to the first.
pub open spec fn wrap_down(cursor: int, len: int) -> int {
    (cursor + 1) % len
}

/// The first position from `k` on that holds the group `g`; 0 when there is none.
pub open spec fn position_from(picker: Seq<(GroupId, String)>, g: GroupId, k: int) -> int
    decreases picker.len() - k,
{
    if k < 0 || k >= picker.len() {
        0
    } else if picker[k].0 == g {
        k
    } else {
        position_from(picker, g, k + 1)
    }
}

/// The position of the group `id` in the picker; the first entry when it is not there.
pub open spec fn picker_position(picker: Seq<(GroupId, String)>, id: Option<GroupId>) -> int {
    match id {
        Some(g) => position_from(picker, g, 0),
        None => 0,
    }
}

/// `n` is the session `id`.
pub open spec fn is_session_with_id(n: TreeNode, id: Seq<char>) -> bool {
    match n {
        TreeNode::Session(s) => s.session_id@ == id,
        TreeNode::Group(_) => false,
    }
}

/// `children` holds, directly, the session `id`.
pub open spec fn holds_session(children: Seq<TreeNode>, id: Seq<char>) -> bool {
    exists|j: int| 0 <= j < children.len() && is_session_with_id(#[trigger] children[j], id)
}

/// The first top-level group that holds the session `id` directly.
pub open spec fn parent_group(nodes: Seq<TreeNode>, id: Seq<char>) -> Option<GroupId>
    decreases nodes.len(),
{
    if nodes.len() == 0 {
        None
    } else {
        match nodes[0] {
            TreeNode::Group(g) => if holds_session(g.children@, id) {
                Some(g.id)
            } else {
                parent_group(nodes.drop_first(), id)
            },
            TreeNode::Session(_) => parent_group(nodes.drop_first(), id),
        }
    }
}

/// The group that the tree cursor is in: the group itself, or the group that holds the
/// session under the cursor.
pub open spec fn hovered_group_of(tree: Seq<TreeNode>, target: Option<SelectionTarget>) -> Option<GroupId> {
    match target {
        Some(SelectionTarget::Group(g)) => Some(g),
        Some(SelectionTarget::Session(sid)) => parent_group(tree, sid@),
        None => None,
    }
}

/// `post` is `pre` with the given text in the prompt.
pub open spec fn with_buffer(pre: DialogState, post: DialogState, text: Seq<char>) -> bool {
    &&& post.buffer@ == text
    &&& post == DialogState { buffer: post.buffer, ..pre }
}

/// `post` is `pre` back in normal mode with nothing in hand: no context, an empty prompt.
pub open spec fn closed(pre: DialogState, post: DialogState) -> bool {
    &&& post.mode == InputMode::Normal
    &&& post.context is None
    &&& post.buffer@.len() == 0
    &&& post.suggestions == pre.suggestions
    &&& post.suggestion_cursor == pre.suggestion_cursor
    &&& post.picker == pre.picker
    &&& post.picker_cursor == pre.picker_cursor
}

/// What the entered text `text` does, the completions having been cleared (`pre`).
pub open spec fn submit_effect(pre: DialogState, post: DialogState, text: Seq<char>, current_dir: Seq<char>, r: DialogAction) -> bool {
    match pre.context {
        None => post == DialogState { mode: InputMode::Normal, ..pre } && r is Nothing,
        Some(InputContext::NewSessionName) => {
            &&& post.context matches Some(InputContext::NewSessionCwd { name }) && name@ == text
            &&& post.buffer@ == current_dir
            &&& post.mode == pre.mode
            &&& post.suggestions == pre.suggestions && post.suggestion_cursor == pre.suggestion_cursor
            &&& post.picker == pre.picker && post.picker_cursor == pre.picker_cursor
            &&& r is RefreshSuggestions
        },
        Some(InputContext::NewSessionCwd { name }) => {
            &&& post == DialogState { context: None, ..pre }
            &&& r matches DialogAction::CheckRepo { name: n, cwd } && n == name && cwd@ == text
        },
        Some(InputContext::RenameSession { session_id }) => {
            &&& closed(pre, post)
            &&& r matches DialogAction::RenameSession { session_id: s, name } && s == session_id && name@ == text
        },
        Some(InputContext::RenameGroup { group_id }) => {
            &&& closed(pre, post)
            &&& r matches DialogAction::RenameGroup { group_id: g, name } && g == group_id && name@ == text
        },
        Some(InputContext::NewGroupName) => {
            &&& closed(pre, post)
            &&& r matches DialogAction::CreateGroup { name } && name@ == text
        },
        Some(_) => closed(pre, post) && r is Nothing,
    }
}

/// What a key does to the text prompt.
pub open spec fn text_key_effect(pre: DialogState, post: DialogState, code: KeyCode, home: Option<Seq<char>>, current_dir: Seq<char>, r: DialogAction) -> bool {
    let cwd = asks_cwd(pre.context);
    let offered = cwd && pre.suggestions@.len() > 0;
    if code == KeyCode::Esc {
        &&& post.mode == InputMode::Normal
        &&& post.context is None
        &&& post.buffer@.len() == 0
        &&& post.suggestions@.len() == 0
        &&& post.suggestion_cursor == 0
        &&& post.picker == pre.picker && post.picker_cursor == pre.picker_cursor
        &&& r is Nothing
    } else if code == KeyCode::Tab && offered {
        &&& post == DialogState { buffer: pre.suggestions@[pre.suggestion_cursor as int], ..pre }
        &&& r is AcceptSuggestion
    } else if (code == KeyCode::Up || code == KeyCode::Char('k')) && offered {
        &&& post == DialogState { suggestion_cursor: wrap_up(pre.suggestion_cursor as int, pre.suggestions@.len() as int) as usize, ..pre }
        &&& r is Nothing
    } else if (code == KeyCode::Down || code == KeyCode::Char('j')) && offered {
        &&& post == DialogState { suggestion_cursor: wrap_down(pre.suggestion_cursor as int, pre.suggestions@.len() as int) as usize, ..pre }
        &&& r is Nothing
    } else if code == KeyCode::Backspace {
        &&& with_buffer(pre, post, if pre.buffer@.len() > 0 { pre.buffer@.drop_last() } else { pre.buffer@ })
        &&& if cwd { r is RefreshSuggestions } else { r is Nothing }
    } else if code == KeyCode::Enter {
        if trimmed(pre.buffer@).len() == 0 {
            post == pre && r is Nothing
        } else {
            let text = if cwd { tilde_expanded(pre.buffer@, home).0 } else { pre.buffer@ };
            let cleared = DialogState { suggestions: post.suggestions, suggestion_cursor: 0, ..pre };
            &&& post.suggestions@.len() == 0
            &&& submit_effect(cleared, post, text, current_dir, r)
        }
    } else {
        match code {
            KeyCode::Char(c) => {
                &&& with_buffer(pre, post, pre.buffer@.push(c))
                &&& if cwd { r is RefreshSuggestions } else { r is Nothing }
            },
            _ => post == pre && r is Nothing,
        }
    }
}

/// What a key does to the yes/no confirmation.
pub open spec fn confirm_key_effect(pre: DialogState, post: DialogState, code: KeyCode, r: DialogAction) -> bool {
    let yes = code == KeyCode::Char('y') || code == KeyCode::Char('Y');
    let no = code == KeyCode::Char('n') || code == KeyCode::Char('N');
    let closed_keep = post == DialogState { mode: InputMode::Normal, context: None, ..pre };
    match pre.context {
        Some(InputContext::NewSessionWorktree { name, cwd }) => if yes || no {
            &&& closed_keep
            &&& r matches DialogAction::LoadGroups { name: n, cwd: c, worktree } && n == name && c == cwd && worktree == yes
        } else if code == KeyCode::Esc {
            closed_keep && r is Nothing
        } else {
            post == pre && r is Nothing
        },
        Some(InputContext::ConfirmDeleteSession { session_id, tmux_name, worktree }) => if (code == KeyCode::Char('s') || code == KeyCode::Char('S')) && worktree is Some {
            &&& closed_keep
            &&& r matches DialogAction::DeleteSession { session_id: s, tmux_name: t, worktree: w } && s == session_id && t == tmux_name && w is None
        } else if yes {
            &&& closed_keep
            &&& r matches DialogAction::DeleteSession { session_id: s, tmux_name: t, worktree: w } && s == session_id && t == tmux_name && w == worktree
        } else if no || code == KeyCode::Esc {
            closed_keep && r is Nothing
        } else {
            post == pre && r is Nothing
        },
        Some(InputContext::ConfirmDeleteGroup { group_id }) => if yes {
            closed_keep && r == DialogAction::DeleteGroup { group_id }
        } else if no || code == KeyCode::Esc {
            closed_keep && r is Nothing
        } else {
            post == pre && r is Nothing
        },
        _ => if yes || no || code == KeyCode::Esc {
            closed_keep && r is Nothing
        } else {
            post == pre && r is Nothing
        },
    }
}

/// What a key does to the group picker.
pub open spec fn picker_key_effect(pre: DialogState, post: DialogState, code: KeyCode, r: DialogAction) -> bool {
    let n = pre.picker@.len();
    match code {
        KeyCode::Esc => {
            &&& post.mode == InputMode::Normal && post.context is None && post.picker@.len() == 0
            &&& post == DialogState { mode: post.mode, context: None, picker: post.picker, ..pre }
            &&& r is Nothing
        },
        KeyCode::Char('j') | KeyCode::Down => {
            &&& post == DialogState { picker_cursor: if n > 0 { wrap_down(pre.picker_cursor as int, n as int) as usize } else { pre.picker_cursor }, ..pre }
            &&& r is Nothing
        },
        KeyCode::Char('k') | KeyCode::Up => {
            &&& post == DialogState { picker_cursor: if n > 0 { wrap_up(pre.picker_cursor as int, n as int) as usize } else { pre.picker_cursor }, ..pre }
            &&& r is Nothing
        },
        KeyCode::Enter => {
            let gid = if pre.picker_cursor < n { Some(pre.picker@[pre.picker_cursor as int].0) } else { None };
            &&& post.mode == InputMode::Normal && post.context is None && post.picker@.len() == 0
            &&& post == DialogState { mode: post.mode, context: None, picker: post.picker, ..pre }
            &&& match pre.context {
                Some(InputContext::MoveSession { session_id }) => match gid {
                    Some(g) => r matches DialogAction::MoveSession { session_id: s, group_id } && s == session_id && group_id == g,
                    None => r is RefreshTree,
                },
                Some(InputContext::NewSessionGroup { name, cwd, worktree }) =>
                    r matches DialogAction::CreateSession { name: nm, cwd: c, group, worktree: w }
                        && nm == name && c == cwd && w == worktree
                        && group == (match gid { Some(g) => if g != 0 { Some(g) } else { None }, None => None }),
                _ => r is RefreshTree,
            }
        },
        _ => post == pre && r is Nothing,
    }
}

impl DialogState {
    /// Both cursors point into their lists while the lists are not empty.
    pub open spec fn wf(&self) -> bool {
        &&& (self.suggestions@.len() == 0 || self.suggestion_cursor < self.suggestions@.len())
        &&& (self.picker@.len() == 0 || self.picker_cursor < self.picker@.len())
    }

    /// No dialog open.
    pub fn new() -> (s: Self)
        ensures
            s.mode == InputMode::Normal,
            s.context is None,
            s.buffer@.len() == 0,
            s.suggestions@.len() == 0 && s.suggestion_cursor == 0,
            s.picker@.len() == 0 && s.picker_cursor == 0,
            s.wf(),
    {
        DialogState {
            mode: InputMode::Normal,
            context: None,
            buffer: String::new(),
            suggestions: Vec::new(),
            suggestion_cursor: 0,
            picker: Vec::new(),
            picker_cursor: 0,
        }
    }

    /// Open the text prompt for `ctx`, holding `text`.
    pub fn open_prompt(&mut self, ctx: InputContext, text: String)
        ensures
            final(self).mode == InputMode::TextInput,
            final(self).context == Some(ctx),
            final(self).buffer == text,
            final(self).suggestions == old(self).suggestions,
            final(self).suggestion_cursor == old(self).suggestion_cursor,
            final(self).picker == old(self).picker,
            final(self).picker_cursor == old(self).picker_cursor,
    {
        self.mode = InputMode::TextInput;
        self.context = Some(ctx);
        self.buffer = text;
    }

    /// Ask the user to confirm what `ctx` describes.
    pub fn open_confirm(&mut self, ctx: InputContext)
        ensures
            *final(self) == (DialogState { mode: InputMode::Confirm, context: Some(ctx), ..*old(self) }),
    {
        self.mode = InputMode::Confirm;
        self.context = Some(ctx);
    }

    /// Ask for the name of a new session.
    pub fn start_new_session(&mut self)
        ensures
            final(self).mode == InputMode::TextInput,
            final(self).context == Some(InputContext::NewSessionName),
            final(self).buffer@.len() == 0,
            final(self).suggestions == old(self).suggestions,
            final(self).suggestion_cursor == old(self).suggestion_cursor,
            final(self).picker == old(self).picker,
            final(self).picker_cursor == old(self).picker_cursor,
    {
        self.open_prompt(InputContext::NewSessionName, String::new());
    }

    /// Ask for the name of a new group.
    pub fn start_new_group(&mut self)
        ensures
            final(self).mode == InputMode::TextInput,
            final(self).context == Some(InputContext::NewGroupName),
            final(self).buffer@.len() == 0,
            final(self).suggestions == old(self).suggestions,
            final(self).suggestion_cursor == old(self).suggestion_cursor,
            final(self).picker == old(self).picker,
            final(self).picker_cursor == old(self).picker_cursor,
    {
        self.open_prompt(InputContext::NewGroupName, String::new());
    }

    /// Ask to delete the group `group_id`; the "Ungrouped" placeholder (id 0) cannot be
    /// deleted, and nothing opens for it.
    pub fn start_delete_group(&mut self, group_id: GroupId)
        ensures
            group_id == 0 ==> *final(self) == *old(self),
            group_id != 0 ==> *final(self) == (DialogState { mode: InputMode::Confirm, context: Some(InputContext::ConfirmDeleteGroup { group_id }), ..*old(self) }),
    {
        if group_id == 0 {
            return;
        }
        self.open_confirm(InputContext::ConfirmDeleteGroup { group_id });
    }

    /// Open the picker to move the session `session_id` into one of `groups`; with no
    /// groups, nothing opens (`false`).
    pub fn start_move_session(&mut self, session_id: String, groups: Vec<(GroupId, String)>) -> (r: bool)
        requires
            old(self).wf(),
        ensures
            r == (groups@.len() > 0),
            final(self).wf(),
            r ==> *final(self) == (DialogState {
                mode: InputMode::GroupPicker,
                context: Some(InputContext::MoveSession { session_id }),
                picker: groups,
                picker_cursor: 0,
                ..*old(self)
            }),
            !r ==> *final(self) == *old(self),
    {
        if groups.len() == 0 {
            return false;
        }
        self.picker = groups;
        self.picker_cursor = 0;
        self.mode = InputMode::GroupPicker;
        self.context = Some(InputContext::MoveSession { session_id });
        true
    }

    /// Take the path completions of the prompt's text; the highlight goes back to the first
    /// when it would fall past the end.
    pub fn set_suggestions(&mut self, suggestions: Vec<String>)
        ensures
            *final(self) == (DialogState {
                suggestions,
                suggestion_cursor: if old(self).suggestion_cursor < suggestions@.len() { old(self).suggestion_cursor } else { 0 },
                ..*old(self)
            }),
            old(self).wf() ==> final(self).wf(),
    {
        if self.suggestion_cursor >= suggestions.len() {
            self.suggestion_cursor = 0;
        }
        self.suggestions = suggestions;
    }

    /// After a completion was accepted: a directory gets its trailing `/`.
    pub fn complete_directory(&mut self, is_dir: bool)
        ensures
            with_buffer(*old(self), *final(self),
                if is_dir && !(old(self).buffer@.len() > 0 && old(self).buffer@.last() == '/') {
                    old(self).buffer@.push('/')
                } else {
                    old(self).buffer@
                }),
    {
        let chars = str_chars(self.buffer.as_str());
        let ends_with_slash = chars.len() > 0 && chars[chars.len() - 1] == '/';
        if is_dir && !ends_with_slash {
            push_char(&mut self.buffer, '/');
        }
    }

    /// Handle a key in the text prompt. `home` is the user's home directory and
    /// `current_dir` the working directory: the one expands a `~` in an entered directory,
    /// the other is offered as the new session's directory once its name is in.
    pub fn text_input_key(&mut self, key: KeyEvent, home: Option<&str>, current_dir: &str) -> (r: DialogAction)
        requires
            old(self).wf(),
        ensures
            final(self).wf(),
            text_key_effect(*old(self), *final(self), key.code, opt_view(home), current_dir@, r),
    {
        let is_cwd = matches!(self.context, Some(InputContext::NewSessionCwd { .. }));
        let offered = is_cwd && self.suggestions.len() > 0;
        let code = key.code;
        if code == KeyCode::Esc {
            self.mode = InputMode::Normal;
            self.buffer = String::new();
            self.context = None;
            self.suggestions = Vec::new();
            self.suggestion_cursor = 0;
            DialogAction::Nothing
        } else if code == KeyCode::Tab && offered {
            self.buffer = self.suggestions[self.suggestion_cursor].clone();
            DialogAction::AcceptSuggestion
        } else if (code == KeyCode::Up || code == KeyCode::Char('k')) && offered {
            if self.suggestion_cursor == 0 {
                self.suggestion_cursor = self.suggestions.len() - 1;
            } else {
                self.suggestion_cursor -= 1;
            }
            DialogAction::Nothing
        } else if (code == KeyCode::Down || code == KeyCode::Char('j')) && offered {
            self.suggestion_cursor = (self.suggestion_cursor + 1) % self.suggestions.len();
            DialogAction::Nothing
        } else if code == KeyCode::Backspace {
            self.buffer = without_last(self.buffer.as_str());
            if is_cwd { DialogAction::RefreshSuggestions } else { DialogAction::Nothing }
        } else if code == KeyCode::Enter {
            let blank = trim_chars(&str_chars(self.buffer.as_str())).len() == 0;
            if blank {
                return DialogAction::Nothing;
            }
            let text = if is_cwd {
                expand_tilde(self.buffer.as_str(), home).0
            } else {
                self.buffer.clone()
            };
            self.suggestions = Vec::new();
            self.suggestion_cursor = 0;
            self.submit(text, current_dir)
        } else {
            match code {
                KeyCode::Char(c) => {
                    push_char(&mut self.buffer, c);
                    if is_cwd { DialogAction::RefreshSuggestions } else { DialogAction::Nothing }
                },
                _ => DialogAction::Nothing,
            }
        }
    }

    /// Act on the text entered in the prompt.
    fn submit(&mut self, text: String, current_dir: &str) -> (r: DialogAction)
        requires
            old(self).wf(),
        ensures
            final(self).wf(),
            submit_effect(*old(self), *final(self), text@, current_dir@, r),
    {
        let ctx = self.context.take();
        match ctx {
            None => {
                self.mode = InputMode::Normal;
                DialogAction::Nothing
            },
            Some(InputContext::NewSessionName) => {
                self.buffer = current_dir.to_owned();
                self.context = Some(InputContext::NewSessionCwd { name: text });
                DialogAction::RefreshSuggestions
            },
            Some(InputContext::NewSessionCwd { name }) => {
                DialogAction::CheckRepo { name, cwd: text }
            },
            Some(InputContext::RenameSession { session_id }) => {
                self.mode = InputMode::Normal;
                self.buffer = String::new();
                DialogAction::RenameSession { session_id, name: text }
            },
            Some(InputContext::RenameGroup { group_id }) => {
                self.mode = InputMode::Normal;
                self.buffer = String::new();
                DialogAction::RenameGroup { group_id, name: text }
            },
            Some(InputContext::NewGroupName) => {
                self.mode = InputMode::Normal;
                self.buffer = String::new();
                DialogAction::CreateGroup { name: text }
            },
            Some(_) => {
                self.mode = InputMode::Normal;
                self.buffer = String::new();
                DialogAction::Nothing
            },
        }
    }

    /// The entered directory was looked at: in a git repository the user is asked whether
    /// the session gets a worktree of its own; otherwise it goes on without one.
    pub fn repo_checked(&mut self, name: String, cwd: String, is_repo: bool) -> (r: DialogAction)
        ensures
            is_repo ==> *final(self) == (DialogState { mode: InputMode::Confirm, context: Some(InputContext::NewSessionWorktree { name, cwd }), ..*old(self) }),
            is_repo ==> r is Nothing,
            !is_repo ==> *final(self) == *old(self),
            !is_repo ==> (r matches DialogAction::LoadGroups { name: n, cwd: c, worktree } && n == name && c == cwd && !worktree),
    {
        if is_repo {
            self.mode = InputMode::Confirm;
            self.context = Some(InputContext::NewSessionWorktree { name, cwd });
            DialogAction::Nothing
        } else {
            DialogAction::LoadGroups { name, cwd, worktree: false }
        }
    }

    /// The groups are in: with any, the picker opens on the hovered group (after an
    /// "Ungrouped" entry with id 0); with none, the session is created outside any group.
    pub fn groups_loaded(&mut self, name: String, cwd: String, worktree: bool, groups: Vec<(GroupId, String)>, hovered: Option<GroupId>) -> (r: DialogAction)
        requires
            old(self).wf(),
        ensures
            final(self).wf(),
            groups@.len() > 0 ==> {
                &&& final(self).mode == InputMode::GroupPicker
                &&& final(self).context == Some(InputContext::NewSessionGroup { name, cwd, worktree })
                &&& final(self).picker@.len() == groups@.len() + 1
                &&& final(self).picker@[0].0 == 0 && final(self).picker@[0].1@ == "Ungrouped"@
                &&& final(self).picker@.drop_first() == groups@
                &&& final(self).picker_cursor == picker_position(final(self).picker@, hovered)
                &&& final(self).buffer == old(self).buffer
                &&& final(self).suggestions == old(self).suggestions
                &&& final(self).suggestion_cursor == old(self).suggestion_cursor
                &&& r is Nothing
            },
            groups@.len() == 0 ==> {
                &&& final(self).mode == InputMode::Normal
                &&& final(self).buffer@.len() == 0
                &&& *final(self) == (DialogState { mode: final(self).mode, buffer: final(self).buffer, ..*old(self) })
                &&& r matches DialogAction::CreateSession { name: n, cwd: c, group, worktree: w } && n == name && c == cwd && group is None && w == worktree
            },
    {
        if groups.len() == 0 {
            self.mode = InputMode::Normal;
            self.buffer = String::new();
            return DialogAction::CreateSession { name, cwd, group: None, worktree };
        }
        let mut picker: Vec<(GroupId, String)> = Vec::new();
        picker.push((0, "Ungrouped".to_owned()));
        let mut i: usize = 0;
        while i < groups.len()
            invariant
                i <= groups@.len(),
                picker@.len() == i + 1,
                picker@[0].0 == 0 && picker@[0].1@ == "Ungrouped"@,
                picker@.drop_first() == groups@.take(i as int),
            decreases groups@.len() - i,
        {
            let (g, n) = (groups[i].0, groups[i].1.clone());
            picker.push((g, n));
            i += 1;
            proof {
                assert(picker@.drop_first() =~= groups@.take(i as int));
            }
        }
        assert(groups@.take(groups@.len() as int) =~= groups@);
        self.picker_cursor = picker_index(&picker, hovered);
        self.picker = picker;
        self.mode = InputMode::GroupPicker;
        self.context = Some(InputContext::NewSessionGroup { name, cwd, worktree });
        DialogAction::Nothing
    }

    /// Handle a key in the yes/no confirmation.
    pub fn confirm_key(&mut self, key: KeyEvent) -> (r: DialogAction)
        ensures
            confirm_key_effect(*old(self), *final(self), key.code, r),
    {
        let code = key.code;
        let yes = code == KeyCode::Char('y') || code == KeyCode::Char('Y');
        let no = code == KeyCode::Char('n') || code == KeyCode::Char('N');
        let strip = code == KeyCode::Char('s') || code == KeyCode::Char('S');
        let is_esc = code == KeyCode::Esc;
        let worktree_prompt = matches!(self.context, Some(InputContext::NewSessionWorktree { .. }));
        let delete_with_worktree = matches!(self.context, Some(InputContext::ConfirmDeleteSession { worktree: Some(_), .. }));
        if worktree_prompt {
            if yes || no {
                if let Some(InputContext::NewSessionWorktree { name, cwd }) = self.context.take() {
                    self.mode = InputMode::Normal;
                    return DialogAction::LoadGroups { name, cwd, worktree: yes };
                }
                return DialogAction::Nothing;
            }
            if is_esc {
                self.mode = InputMode::Normal;
                self.context = None;
            }
            return DialogAction::Nothing;
        }
        if strip && delete_with_worktree {
            if let Some(InputContext::ConfirmDeleteSession { session_id, tmux_name, .. }) = self.context.take() {
                self.mode = InputMode::Normal;
                return DialogAction::DeleteSession { session_id, tmux_name, worktree: None };
            }
            return DialogAction::Nothing;
        }
        if yes {
            let ctx = self.context.take();
            self.mode = InputMode::Normal;
            match ctx {
                Some(InputContext::ConfirmDeleteSession { session_id, tmux_name, worktree }) =>
                    DialogAction::DeleteSession { session_id, tmux_name, worktree },
                Some(InputContext::ConfirmDeleteGroup { group_id }) => DialogAction::DeleteGroup { group_id },
                _ => DialogAction::Nothing,
            }
        } else if no || is_esc {
            self.mode = InputMode::Normal;
            self.context = None;
            DialogAction::Nothing
        } else {
            DialogAction::Nothing
        }
    }

    /// Handle a key in the group picker.
    pub fn group_picker_key(&mut self, key: KeyEvent) -> (r: DialogAction)
        requires
            old(self).wf(),
        ensures
            final(self).wf(),
            picker_key_effect(*old(self), *final(self), key.code, r),
    {
        match key.code {
            KeyCode::Esc => {
                self.mode = InputMode::Normal;
                self.context = None;
                self.picker = Vec::new();
                DialogAction::Nothing
            },
            KeyCode::Char('j') | KeyCode::Down => {
                if self.picker.len() > 0 {
                    self.picker_cursor = (self.picker_cursor + 1) % self.picker.len();
                }
                DialogAction::Nothing
            },
            KeyCode::Char('k') | KeyCode::Up => {
                if self.picker.len() > 0 {
                    if self.picker_cursor == 0 {
                        self.picker_cursor = self.picker.len() - 1;
                    } else {
                        self.picker_cursor -= 1;
                    }
                }
                DialogAction::Nothing
            },
            KeyCode::Enter => {
                let gid: Option<GroupId> = if self.picker_cursor < self.picker.len() {
                    Some(self.picker[self.picker_cursor].0)
                } else {
                    None
                };
                let ctx = self.context.take();
                self.mode = InputMode::Normal;
                self.picker = Vec::new();
                match ctx {
                    Some(InputContext::MoveSession { session_id }) => match gid {
                        Some(g) => DialogAction::MoveSession { session_id, group_id: g },
                        None => DialogAction::RefreshTree,
                    },
                    Some(InputContext::NewSessionGroup { name, cwd, worktree }) => {
                        let group = match gid {
                            Some(g) => if g != 0 { Some(g) } else { None },
                            None => None,
                        };
                        DialogAction::CreateSession { name, cwd, group, worktree }
                    },
                    _ => DialogAction::RefreshTree,
                }
            },
            _ => DialogAction::Nothing,
        }
    }

    /// Handle a key in the session finder: arrows move, typing filters, Enter jumps to the
    /// highlighted session, Esc closes.
    pub fn finder_key(&mut self, finder: &mut FinderState, key: KeyEvent) -> (r: DialogAction)
        requires
            old(finder).wf(),
        ensures
            final(finder).wf(),
            final(self).context == old(self).context,
            final(self).buffer == old(self).buffer,
            final(self).picker == old(self).picker,
            key.code == KeyCode::Esc ==> final(self).mode == InputMode::Normal && *final(finder) == *old(finder) && r is Nothing,
            key.code == KeyCode::Up ==> final(self).mode == old(self).mode && final(finder).cursor == (if old(finder).filtered@.len() == 0 {
                old(finder).cursor as int
            } else {
                wrap_up(old(finder).cursor as int, old(finder).filtered@.len() as int)
            }) && final(finder).filtered@ == old(finder).filtered@ && r is Nothing,
            key.code == KeyCode::Down ==> final(self).mode == old(self).mode && final(finder).cursor == (if old(finder).filtered@.len() == 0 {
                old(finder).cursor as int
            } else {
                wrap_down(old(finder).cursor as int, old(finder).filtered@.len() as int)
            }) && final(finder).filtered@ == old(finder).filtered@ && r is Nothing,
            key.code == KeyCode::Enter ==> *final(finder) == *old(finder) && if old(finder).cursor < old(finder).filtered@.len() {
                &&& final(self).mode == InputMode::Normal
                &&& r matches DialogAction::JumpToSession { session_id }
                    && session_id == old(finder).entries@[old(finder).filtered@[old(finder).cursor as int] as int].session_id
            } else {
                final(self).mode == old(self).mode && r is Nothing
            },
            key.code == KeyCode::Backspace ==> final(self).mode == old(self).mode && r is Nothing && final(finder).results_ordered()
                && final(finder).query@ == (if old(finder).query@.len() > 0 { old(finder).query@.drop_last() } else { old(finder).query@ }),
            forall|c: char| key.code == KeyCode::Char(c) ==> final(self).mode == old(self).mode && r is Nothing
                && final(finder).results_ordered() && final(finder).query@ == old(finder).query@.push(c),
    {
        match key.code {
            KeyCode::Esc => {
                self.mode = InputMode::Normal;
                DialogAction::Nothing
            },
            KeyCode::Up => {
                finder.cursor_up();
                DialogAction::Nothing
            },
            KeyCode::Down => {
                finder.cursor_down();
                DialogAction::Nothing
            },
            KeyCode::Enter => {
                match finder.selected() {
                    Some(entry) => {
                        let session_id = entry.session_id.clone();
                        self.mode = InputMode::Normal;
                        DialogAction::JumpToSession { session_id }
                    },
                    None => DialogAction::Nothing,
                }
            },
            KeyCode::Backspace => {
                let q = without_last(finder.query.as_str());
                finder.update_query(q);
                DialogAction::Nothing
            },
            KeyCode::Char(c) => {
                let mut q = finder.query.clone();
                push_char(&mut q, c);
                finder.update_query(q);
                DialogAction::Nothing
            },
            _ => DialogAction::Nothing,
        }
    }
}

/// `s` without its last character (`String::pop`); an empty `s` stays empty.
fn without_last(s: &str) -> (r: String)
    ensures
        r@ == if s@.len() > 0 { s@.drop_last() } else { s@ },
{
    let chars = str_chars(s);
    if chars.len() == 0 {
        return string_from_chars(chars.as_slice());
    }
    let kept = sub_chars(&chars, 0, chars.len() - 1);
    assert(kept@ =~= s@.drop_last());
    string_from_chars(kept.as_slice())
}

/// The position of the group `id` in the picker, or 0.
pub fn picker_index(picker: &Vec<(GroupId, String)>, id: Option<GroupId>) -> (r: usize)
    ensures
        r == picker_position(picker@, id),
        picker@.len() > 0 ==> r < picker@.len(),
{
    let g = match id {
        Some(g) => g,
        None => return 0,
    };
    assert(picker_position(picker@, id) == position_from(picker@, g, 0));
    let mut k: usize = 0;
    while k < picker.len()
        invariant
            k <= picker@.len(),
            picker_position(picker@, id) == position_from(picker@, g, k as int),
        decreases picker@.len() - k,
    {
        if picker[k].0 == g {
            return k;
        }
        k += 1;
    }
    0
}

/// The group that the tree cursor is in (see `hovered_group_of`).
pub fn hovered_group(tree: &[TreeNode], target: &Option<SelectionTarget>) -> (r: Option<GroupId>)
    ensures
        r == hovered_group_of(tree@, *target),
{
    match target {
        Some(SelectionTarget::Group(g)) => Some(*g),
        Some(SelectionTarget::Session(sid)) => {
            let mut i: usize = 0;
            assert(hovered_group_of(tree@, *target) == parent_group(tree@, sid@));
            assert(tree@.skip(0) =~= tree@);
            while i < tree.len()
                invariant
                    i <= tree@.len(),
                    hovered_group_of(tree@, *target) == parent_group(tree@.skip(i as int), sid@),
                decreases tree@.len() - i,
            {
                assert(tree@.skip(i as int).drop_first() =~= tree@.skip(i + 1));
                assert(tree@.skip(i as int)[0] == tree@[i as int]);
                match &tree[i] {
                    TreeNode::Group(g) => {
                        if group_holds(g, sid.as_str()) {
                            return Some(g.id);
                        }
                    },
                    TreeNode::Session(_) => {},
                }
                i += 1;
            }
            assert(tree@.skip(i as int).len() == 0);
            None
        },
        None => None,
    }
}

/// `g` holds the session `id` among its direct children.
fn group_holds(g: &GroupNode, id: &str) -> (r: bool)
    ensures
        r == holds_session(g.children@, id@),
{
    let mut j: usize = 0;
    while j < g.children.len()
        invariant
            j <= g.children@.len(),
            forall|k: int| 0 <= k < j ==> !is_session_with_id(#[trigger] g.children@[k], id@),
        decreases g.children@.len() - j,
    {
        match &g.children[j] {
            TreeNode::Session(s) => {
                if str_eq(s.session_id.as_str(), id) {
                    assert(is_session_with_id(g.children@[j as int], id@));
                    return true;
                }
            },
            TreeNode::Group(_) => {},
        }
        j += 1;
    }
    false
}

} // verus!
