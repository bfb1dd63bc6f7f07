use vstd::prelude::*;
use vstd::std_specs::cmp::PartialEqSpecImpl;

verus! {

broadcast use vstd::string::group_string_axioms;

/// Worktree metadata for isolated sessions. All-or-nothing: if present, all fields are set.
#[derive(Debug, Clone)]
pub struct WorktreeInfo {
    pub branch: String,
    pub repo_root: String,
}

impl View for WorktreeInfo {
    type V = (Seq<char>, Seq<char>);

    open spec fn view(&self) -> (Seq<char>, Seq<char>) {
        (self.branch@, self.repo_root@)
    }
}

impl WorktreeInfo {
    pub fn duplicate(&self) -> (r: Self)
        ensures
            r@ == self@,
    {
        WorktreeInfo { branch: self.branch.clone(), repo_root: self.repo_root.clone() }
    }
}

/// The text of an optional string.
pub open spec fn opt_text(o: Option<String>) -> Option<Seq<char>> {
    match o {
        Some(s) => Some(s@),
        None => None,
    }
}

pub fn clone_opt_string(o: &Option<String>) -> (r: Option<String>)
    ensures
        opt_text(r) == opt_text(*o),
{
    match o {
        Some(s) => Some(s.clone()),
        None => None,
    }
}

pub type SessionId = String;

pub type GroupId = i64;

/// What the tree cursor points at.
#[derive(Debug, Clone)]
pub enum SelectionTarget {
    Session(SessionId),
    Group(GroupId),
}

/// The abstract content of a selection target.
pub enum TargetView {
    Session(Seq<char>),
    Group(GroupId),
}

impl View for SelectionTarget {
    type V = TargetView;

    open spec fn view(&self) -> TargetView {
        match self {
            SelectionTarget::Session(s) => TargetView::Session(s@),
            SelectionTarget::Group(g) => TargetView::Group(*g),
        }
    }
}

impl PartialEq for SelectionTarget {
    fn eq(&self, other: &Self) -> (r: bool) {
        match (self, other) {
            (SelectionTarget::Session(a), SelectionTarget::Session(b)) => a.eq(b),
            (SelectionTarget::Group(a), SelectionTarget::Group(b)) => *a == *b,
            _ => false,
        }
    }
}

impl PartialEqSpecImpl for SelectionTarget {
    open spec fn obeys_eq_spec() -> bool {
        true
    }

    open spec fn eq_spec(&self, other: &Self) -> bool {
        match (self, other) {
            (SelectionTarget::Session(a), SelectionTarget::Session(b)) => a@ == b@,
            (SelectionTarget::Group(a), SelectionTarget::Group(b)) => a == b,
            _ => false,
        }
    }
}

#[derive(Debug)]
pub struct SelectionState {
    pub selected: Option<SelectionTarget>,
}

#[derive(Debug)]
pub struct GroupNode {
    pub id: GroupId,
    pub name: String,
    pub icon: GroupIcon,
    pub children: Vec<TreeNode>,
}

#[derive(Debug)]
pub enum TreeNode {
    Group(GroupNode),
    Session(SessionSummary),
}

#[derive(Debug, Clone, Copy, PartialEq, Eq, Structural)]
pub enum SessionStatus {
    Active,
    Detached,
    Dead,
}

/// The stored text of a session status.
pub open spec fn status_text(s: SessionStatus) -> Seq<char> {
    match s {
        SessionStatus::Active => "active"@,
        SessionStatus::Detached => "detached"@,
        SessionStatus::Dead => "dead"@,
    }
}

/// The status that a stored text stands for: anything unknown is `Dead`.
pub open spec fn status_from_text(s: Seq<char>) -> SessionStatus {
    if s == "active"@ {
        SessionStatus::Active
    } else if s == "detached"@ {
        SessionStatus::Detached
    } else {
        SessionStatus::Dead
    }
}

impl SessionStatus {
    pub fn as_str(&self) -> (r: &'static str)
        ensures
            r@ == status_text(*self),
    {
        match self {
            SessionStatus::Active => "active",
            SessionStatus::Detached => "detached",
            SessionStatus::Dead => "dead",
        }
    }

    pub fn from_str(s: &str) -> (r: Self)
        ensures
            r == status_from_text(s@),
    {
        let t = s.to_owned();
        if t == "active".to_owned() {
            SessionStatus::Active
        } else if t == "detached".to_owned() {
            SessionStatus::Detached
        } else {
            SessionStatus::Dead
        }
    }
}

/// Law: a status read back from its stored text is the status that was stored.
pub proof fn lemma_status_text_roundtrip(s: SessionStatus)
    ensures
        status_from_text(status_text(s)) == s,
{
    reveal_strlit("active");
    reveal_strlit("detached");
    reveal_strlit("dead");
    assert("active"@ != "detached"@) by {
        assert("active"@[0] != "detached"@[0]);
    }
    assert("dead"@ != "active"@) by {
        assert("dead"@[0] != "active"@[0]);
    }
    assert("dead"@ != "detached"@) by {
        assert("dead"@.len() != "detached"@.len());
    }
}

#[derive(Debug, Clone, Copy, PartialEq, Eq, Structural)]
pub enum SessionOrigin {
    Nexus,
    Scanner,
}

/// The stored text of a session origin.
pub open spec fn origin_text(o: SessionOrigin) -> Seq<char> {
    match o {
        SessionOrigin::Nexus => "nexus"@,
        SessionOrigin::Scanner => "scanner"@,
    }
}

/// The origin that a stored text stands for: anything but `nexus` is `Scanner`.
pub open spec fn origin_from_text(s: Seq<char>) -> SessionOrigin {
    if s == "nexus"@ {
        SessionOrigin::Nexus
    } else {
        SessionOrigin::Scanner
    }
}

impl SessionOrigin {
    pub fn as_str(&self) -> (r: &'static str)
        ensures
            r@ == origin_text(*self),
    {
        match self {
            SessionOrigin::Nexus => "nexus",
            SessionOrigin::Scanner => "scanner",
        }
    }

    pub fn from_str(s: &str) -> (r: Self)
        ensures
            r == origin_from_text(s@),
    {
        let t = s.to_owned();
        if t == "nexus".to_owned() {
            SessionOrigin::Nexus
        } else {
            SessionOrigin::Scanner
        }
    }
}

/// Law: an origin read back from its stored text is the origin that was stored.
pub proof fn lemma_origin_text_roundtrip(o: SessionOrigin)
    ensures
        origin_from_text(origin_text(o)) == o,
{
    reveal_strlit("nexus");
    reveal_strlit("scanner");
    assert("nexus"@ != "scanner"@) by {
        assert("nexus"@[0] != "scanner"@[0]);
    }
}

#[derive(Debug, Clone, Copy, PartialEq, Eq, Structural)]
pub enum InputMode {
    Normal,
    TextInput,
    Confirm,
    GroupPicker,
    Finder,
}

#[derive(Debug, Clone)]
pub enum InputContext {
    NewSessionName,
    NewSessionCwd { name: String },
    RenameSession { session_id: String },
    RenameGroup { group_id: GroupId },
    NewGroupName,
    NewSessionWorktree { name: String, cwd: String },
    ConfirmDeleteSession {
        session_id: String,
        tmux_name: Option<String>,
        worktree: Option<WorktreeInfo>,
    },
    ConfirmDeleteGroup { group_id: GroupId },
    MoveSession { session_id: String },
    NewSessionGroup { name: String, cwd: String, worktree: bool },
}

/// Nexus commands triggered by Alt+key in the interactor.
#[derive(Debug, Clone, Copy, PartialEq, Eq, Structural)]
pub enum NexusCommand {
    CursorDown,
    CursorUp,
    ToggleExpand,
    NewSession,
    DeleteSelected,
    RenameSelected,
    MoveSession,
    NewGroup,
    KillTmux,
    FullscreenAttach,
    ToggleHelp,
    Quit,
    ToggleDeadSessions,
    NextTheme,
    PrevTheme,
    OpenLazygit,
    OpenEditor,
    OpenFinder,
}

/// Result from routing an event through the interactor.
#[derive(Debug, Clone, Copy, PartialEq, Eq, Structural)]
pub enum RouteResult {
    /// Event was handled locally (scroll, tmux forward, paste).
    Handled,
    /// Event is a nexus command that App should dispatch.
    NexusCommand(NexusCommand),
    /// Event was ignored (modal overlay active, unrecognized key).
    Ignored,
}

#[derive(Debug, Clone)]
pub struct SessionSummary {
    pub session_id: SessionId,
    pub display_name: String,
    pub cwd: Option<String>,
    pub last_active: String,
    pub is_active: bool,
    pub status: SessionStatus,
    pub tmux_name: Option<String>,
    pub created_by: SessionOrigin,
    pub created_at: String,
    pub claude_session_id: Option<String>,
    pub worktree: Option<WorktreeInfo>,
    pub jsonl_path: Option<String>,
}

/// The abstract content of a session summary: its fields, texts by their characters.
pub struct SessionSummaryView {
    pub session_id: Seq<char>,
    pub display_name: Seq<char>,
    pub cwd: Option<Seq<char>>,
    pub last_active: Seq<char>,
    pub is_active: bool,
    pub status: SessionStatus,
    pub tmux_name: Option<Seq<char>>,
    pub created_by: SessionOrigin,
    pub created_at: Seq<char>,
    pub claude_session_id: Option<Seq<char>>,
    pub worktree: Option<(Seq<char>, Seq<char>)>,
    pub jsonl_path: Option<Seq<char>>,
}

impl View for SessionSummary {
    type V = SessionSummaryView;

    open spec fn view(&self) -> SessionSummaryView {
        SessionSummaryView {
            session_id: self.session_id@,
            display_name: self.display_name@,
            cwd: opt_text(self.cwd),
            last_active: self.last_active@,
            is_active: self.is_active,
            status: self.status,
            tmux_name: opt_text(self.tmux_name),
            created_by: self.created_by,
            created_at: self.created_at@,
            claude_session_id: opt_text(self.claude_session_id),
            worktree: match self.worktree {
                Some(w) => Some(w@),
                None => None,
            },
            jsonl_path: opt_text(self.jsonl_path),
        }
    }
}

impl SessionSummary {
    /// A copy with the same content.
    pub fn duplicate(&self) -> (r: Self)
        ensures
            r@ == self@,
    {
        SessionSummary {
            session_id: self.session_id.clone(),
            display_name: self.display_name.clone(),
            cwd: clone_opt_string(&self.cwd),
            last_active: self.last_active.clone(),
            is_active: self.is_active,
            status: self.status,
            tmux_name: clone_opt_string(&self.tmux_name),
            created_by: self.created_by,
            created_at: self.created_at.clone(),
            claude_session_id: clone_opt_string(&self.claude_session_id),
            worktree: match &self.worktree {
                Some(w) => Some(w.duplicate()),
                None => None,
            },
            jsonl_path: clone_opt_string(&self.jsonl_path),
        }
    }
}

#[derive(Debug, Clone, Copy, PartialEq, Eq, Structural)]
pub enum GroupIcon {
    Root,
    SubGroup,
}

#[derive(Debug, Clone)]
pub struct TmuxSessionInfo {
    pub session_id: SessionId,
    pub window_name: String,
    pub is_active: bool,
    pub status: TmuxSessionStatus,
}

#[derive(Debug, Clone, Copy, PartialEq, Eq, Structural)]
pub enum TmuxSessionStatus {
    Running,
    Idle,
}

/// A tmux session as plain values.
pub struct TmuxInfoView {
    pub session_id: Seq<char>,
    pub window_name: Seq<char>,
    pub is_active: bool,
    pub status: TmuxSessionStatus,
}

impl View for TmuxSessionInfo {
    type V = TmuxInfoView;

    open spec fn view(&self) -> TmuxInfoView {
        TmuxInfoView {
            session_id: self.session_id@,
            window_name: self.window_name@,
            is_active: self.is_active,
            status: self.status,
        }
    }
}

/// A single conversation turn from the JSONL log.
#[derive(Debug, Clone)]
pub struct ConversationTurn {
    pub role: Role,
    pub content: String,
}

/// Role in a conversation turn.
#[derive(Debug, Clone, Copy, PartialEq, Eq, Structural)]
pub enum Role {
    Human,
    Assistant,
}

#[derive(Debug, Clone, Copy, PartialEq, Eq, Structural, Hash)]
pub enum ThemeElement {
    Background,
    Surface,
    Text,
    Dim,
    Primary,
    Secondary,
    Hazard,
    Accent,
    Border,
    ActiveSession,
    IdleSession,
    SelectedItem,
    FocusedBorder,
    UnfocusedBorder,
    TreeIndent,
    TopBarLabel,
    TopBarValue,
    InteractorTitle,
    ConversationHuman,
    ConversationAssistant,
    LogoAgent,
    LogoNexus,
}

#[derive(Debug, Clone, Copy, PartialEq, Eq, Structural, Hash)]
pub enum PanelType {
    TopBar,
    SessionTree,
    SessionInteractor,
    Logo,
}

/// `(col, row)` comes no later than `(col2, row2)` in reading order.
pub open spec fn reading_le(a: (u16, u16), b: (u16, u16)) -> bool {
    a.1 < b.1 || (a.1 == b.1 && a.0 <= b.0)
}

/// Mouse text selection state for the interactor panel.
/// Coordinates are absolute screen positions (col, row).
#[derive(Debug, Clone, Copy)]
pub struct TextSelection {
    pub anchor: (u16, u16),
    pub end: (u16, u16),
}

impl TextSelection {
    /// Return (start, end) with start <= end in reading order.
    pub fn normalized(&self) -> (r: ((u16, u16), (u16, u16)))
        ensures
            r == (if reading_le(self.anchor, self.end) {
                (self.anchor, self.end)
            } else {
                (self.end, self.anchor)
            }),
            reading_le(r.0, r.1),
    {
        if self.anchor.1 < self.end.1 || (self.anchor.1 == self.end.1 && self.anchor.0 <= self.end.0) {
            (self.anchor, self.end)
        } else {
            (self.end, self.anchor)
        }
    }

    /// True if the selection spans at least one character.
    pub fn is_nonempty(&self) -> (r: bool)
        ensures
            r == (self.anchor != self.end),
    {
        !(self.anchor.0 == self.end.0 && self.anchor.1 == self.end.1)
    }
}

// ---------------------------------------------------------------------------
// Tree model
// ---------------------------------------------------------------------------

/// The sessions of a forest, depth first, in order.
pub open spec fn seq_sessions(nodes: Seq<TreeNode>) -> Seq<SessionSummary>
    decreases nodes,
{
    if nodes.len() == 0 {
        Seq::empty()
    } else {
        seq_sessions(nodes.drop_last()) + node_sessions(nodes.last())
    }
}

/// The groups of a forest, depth first (a group before its descendants), in order.
pub open spec fn seq_groups(nodes: Seq<TreeNode>) -> Seq<GroupNode>
    decreases nodes,
{
    if nodes.len() == 0 {
        Seq::empty()
    } else {
        seq_groups(nodes.drop_last()) + node_groups(nodes.last())
    }
}

/// The groups under one node, itself first if it is a group.
pub open spec fn node_groups(n: TreeNode) -> Seq<GroupNode>
    decreases n,
{
    match n {
        TreeNode::Session(s) => Seq::empty(),
        TreeNode::Group(g) => seq![g] + seq_groups(g.children@),
    }
}

/// Sessions of a concatenated forest are those of its parts, in order.
pub proof fn lemma_seq_sessions_append(a: Seq<TreeNode>, b: Seq<TreeNode>)
    ensures
        seq_sessions(a + b) == seq_sessions(a) + seq_sessions(b),
    decreases b.len(),
{
    if b.len() == 0 {
        assert(a + b =~= a);
        assert(seq_sessions(a) + seq_sessions(b) =~= seq_sessions(a));
    } else {
        lemma_seq_sessions_append(a, b.drop_last());
        assert((a + b).drop_last() =~= a + b.drop_last());
        assert((a + b).last() == b.last());
        assert(seq_sessions(a + b) =~= seq_sessions(a) + seq_sessions(b));
    }
}

/// Groups of a concatenated forest are those of its parts, in order.
pub proof fn lemma_seq_groups_append(a: Seq<TreeNode>, b: Seq<TreeNode>)
    ensures
        seq_groups(a + b) == seq_groups(a) + seq_groups(b),
    decreases b.len(),
{
    if b.len() == 0 {
        assert(a + b =~= a);
        assert(seq_groups(a) + seq_groups(b) =~= seq_groups(a));
    } else {
        lemma_seq_groups_append(a, b.drop_last());
        assert((a + b).drop_last() =~= a + b.drop_last());
        assert((a + b).last() == b.last());
        assert(seq_groups(a + b) =~= seq_groups(a) + seq_groups(b));
    }
}

/// Sessions of a prefix extended by one node.
pub proof fn lemma_seq_sessions_step(nodes: Seq<TreeNode>, i: int)
    requires
        0 <= i < nodes.len(),
    ensures
        seq_sessions(nodes.take(i + 1)) == seq_sessions(nodes.take(i)) + node_sessions(nodes[i]),
        seq_groups(nodes.take(i + 1)) == seq_groups(nodes.take(i)) + node_groups(nodes[i]),
{
    assert(nodes.take(i + 1).drop_last() =~= nodes.take(i));
    assert(nodes.take(i + 1).last() == nodes[i]);
}

/// The sessions under one node, depth first, in order.
pub open spec fn node_sessions(n: TreeNode) -> Seq<SessionSummary>
    decreases n,
{
    match n {
        TreeNode::Session(s) => seq![s],
        TreeNode::Group(g) => seq_sessions(g.children@),
    }
}

} // verus!
