//! What the screen shows where: the window of tree rows in view, how a row looks, the
//! split of the left panel, the geometry of the overlays and what their texts say. The
//! drawing itself is done by the terminal front end from these.

use vstd::prelude::*;
use crate::types::{GroupIcon, InputContext, SessionStatus, ThemeElement};

verus! {

// ---------------------------------------------------------------------------
// Session tree
// ---------------------------------------------------------------------------

/// The rows of the flattened tree that are drawn in a viewport: a "more above" line when
/// the view is scrolled, the node rows `first..end`, and a "more below" line when rows
/// below are cut off.
#[derive(Debug, Clone, Copy, PartialEq, Eq, Structural)]
pub struct TreeViewport {
    pub more_above: bool,
    pub first: usize,
    pub end: usize,
    pub more_below: bool,
}

impl TreeViewport {
    /// The number of screen lines drawn: the two markers and the node rows.
    pub open spec fn lines(self) -> int {
        (if self.more_above { 1int } else { 0 }) + (if self.first < self.end { self.end - self.first } else { 0 })
            + (if self.more_below { 1int } else { 0 })
    }
}

pub open spec fn min_int(a: int, b: int) -> int {
    if a < b { a } else { b }
}

/// The viewport over `len` rows of which `height` fit, scrolled down by `offset`.
pub open spec fn viewport_of(len: int, height: int, offset: int) -> TreeViewport {
    let visible_end = min_int(offset + height, len);
    let above: int = if offset > 0 { 1 } else { 0 };
    let below: int = if visible_end < len { 1 } else { 0 };
    let slots = if height > above + below { height - above - below } else { 0 };
    TreeViewport {
        more_above: offset > 0,
        first: (offset + above) as usize,
        end: min_int(offset + above + slots, len) as usize,
        more_below: visible_end < len,
    }
}

/// Which rows of the tree are drawn (see `viewport_of`).
pub fn tree_viewport(len: usize, height: usize, offset: usize) -> (r: TreeViewport)
    requires
        offset + height + 1 <= usize::MAX,
    ensures
        r == viewport_of(len as int, height as int, offset as int),
{
    let visible_end = if offset + height < len { offset + height } else { len };
    let above: usize = if offset > 0 { 1 } else { 0 };
    let below: usize = if visible_end < len { 1 } else { 0 };
    let slots = if height > above + below { height - above - below } else { 0 };
    let end = if offset + above + slots < len { offset + above + slots } else { len };
    TreeViewport { more_above: offset > 0, first: offset + above, end, more_below: visible_end < len }
}

/// The tree never draws more lines than the viewport holds, once it holds the two markers.
pub proof fn lemma_viewport_fits(len: int, height: int, offset: int)
    requires
        0 <= len <= usize::MAX,
        2 <= height,
        0 <= offset,
        offset + height + 1 <= usize::MAX,
    ensures
        viewport_of(len, height, offset).lines() <= height,
{
}

/// Every node row that is drawn exists.
pub proof fn lemma_viewport_rows_exist(len: int, height: int, offset: int)
    requires
        0 <= len <= usize::MAX,
        0 <= height,
        0 <= offset,
        offset + height + 1 <= usize::MAX,
    ensures
        viewport_of(len, height, offset).end <= len,
{
}


/// The node drawn on display line `click` of the node rows, walking from node `i` drawn at
/// line `line`: a session with a worktree (`tall`) takes two lines when both fit in the
/// `slots` lines, every other node one.
pub open spec fn node_at_line(tall: Seq<bool>, slots: int, click: int, i: int, line: int) -> Option<int>
    decreases tall.len() - i,
{
    if i < 0 || i >= tall.len() || line >= slots {
        None
    } else {
        let h = if tall[i] && line + 1 < slots { 2int } else { 1int };
        if click >= line && click < line + h {
            Some(i)
        } else {
            node_at_line(tall, slots, click, i + 1, line + h)
        }
    }
}

/// The node under a click on row `row` of the tree's viewport (0 = its first line), or
/// `None` for the scroll markers and the space below the last node. `tall` tells, for each
/// visible node, whether it is a session with a worktree.
pub open spec fn clicked_node_of(tall: Seq<bool>, height: int, offset: int, row: int) -> Option<int> {
    let len = tall.len() as int;
    let visible_end = min_int(offset + height, len);
    let above: int = if offset > 0 { 1 } else { 0 };
    let below: int = if visible_end < len { 1 } else { 0 };
    let slots = if height > above + below { height - above - below } else { 0 };
    if len == 0 || (offset > 0 && row < above) || (visible_end < len && row >= above + slots) {
        None
    } else {
        node_at_line(tall, slots, row - above, offset, 0)
    }
}

pub fn clicked_node(tall: &Vec<bool>, height: usize, offset: usize, row: usize) -> (r: Option<usize>)
    requires
        offset + height + 1 <= usize::MAX,
    ensures
        match r {
            Some(i) => clicked_node_of(tall@, height as int, offset as int, row as int) == Some(i as int),
            None => clicked_node_of(tall@, height as int, offset as int, row as int) is None,
        },
{
    let len = tall.len();
    if len == 0 {
        return None;
    }
    let visible_end = if offset + height < len { offset + height } else { len };
    let above: usize = if offset > 0 { 1 } else { 0 };
    let below: usize = if visible_end < len { 1 } else { 0 };
    let slots = if height > above + below { height - above - below } else { 0 };
    if offset > 0 && row < above {
        return None;
    }
    if visible_end < len && row >= above + slots {
        return None;
    }
    let click = row - above;
    let mut i = offset;
    let mut line: usize = 0;
    while i < len && line < slots
        invariant
            offset <= i,
            line <= slots,
            slots <= height,
            len == tall@.len(),
            click + above == row,
            clicked_node_of(tall@, height as int, offset as int, row as int) == node_at_line(tall@, slots as int, click as int, i as int, line as int),
        decreases len - i,
    {
        let h: usize = if tall[i] && line + 1 < slots { 2 } else { 1 };
        if click >= line && click < line + h {
            return Some(i);
        }
        line += h;
        i += 1;
    }
    None
}

/// How a row of the tree looks: its icon and the colors of the icon and of the text.
#[derive(Debug, Clone, Copy)]
pub struct RowLook {
    pub icon: &'static str,
    pub icon_color: ThemeElement,
    pub text_color: ThemeElement,
}

/// Which icon a row gets.
#[derive(Debug, Clone, Copy, PartialEq, Eq, Structural)]
pub enum RowIcon {
    Root,
    SubGroup,
    Collapsed,
    Active,
    Detached,
    Dead,
    Attention,
}

pub open spec fn icon_text(i: RowIcon) -> Seq<char> {
    match i {
        RowIcon::Root => seq!['\u{25C8}'],
        RowIcon::SubGroup => seq!['\u{2B21}'],
        RowIcon::Collapsed => seq!['\u{25B6}'],
        RowIcon::Active => seq!['\u{25CF}'],
        RowIcon::Detached => seq!['\u{25CB}'],
        RowIcon::Dead => seq!['\u{25CC}'],
        RowIcon::Attention => seq!['\u{25C9}'],
    }
}

fn icon_str(i: RowIcon) -> (r: &'static str)
    ensures
        r@ == icon_text(i),
{
    proof {
        reveal_strlit("\u{25C8}");
        reveal_strlit("\u{2B21}");
        reveal_strlit("\u{25B6}");
        reveal_strlit("\u{25CF}");
        reveal_strlit("\u{25CB}");
        reveal_strlit("\u{25CC}");
        reveal_strlit("\u{25C9}");
    }
    match i {
        RowIcon::Root => "\u{25C8}",
        RowIcon::SubGroup => "\u{2B21}",
        RowIcon::Collapsed => "\u{25B6}",
        RowIcon::Active => "\u{25CF}",
        RowIcon::Detached => "\u{25CB}",
        RowIcon::Dead => "\u{25CC}",
        RowIcon::Attention => "\u{25C9}",
    }
}

/// The icon and colors of a group row: a collapsed group shows the collapsed arrow, hazard
/// colored when a session inside needs attention; the selected row's name is in text color.
pub open spec fn group_look(icon: GroupIcon, collapsed: bool, attention_inside: bool, selected: bool) -> (RowIcon, ThemeElement, ThemeElement) {
    (
        if collapsed { RowIcon::Collapsed } else { match icon { GroupIcon::Root => RowIcon::Root, GroupIcon::SubGroup => RowIcon::SubGroup } },
        if collapsed && attention_inside { ThemeElement::Hazard } else { ThemeElement::Primary },
        if selected { ThemeElement::Text } else { ThemeElement::Dim },
    )
}

pub fn group_row_look(icon: GroupIcon, collapsed: bool, attention_inside: bool, selected: bool) -> (r: RowLook)
    ensures
        (r.icon_color, r.text_color) == (group_look(icon, collapsed, attention_inside, selected).1, group_look(icon, collapsed, attention_inside, selected).2),
        r.icon@ == icon_text(group_look(icon, collapsed, attention_inside, selected).0),
{
    let which = if collapsed {
        RowIcon::Collapsed
    } else {
        match icon {
            GroupIcon::Root => RowIcon::Root,
            GroupIcon::SubGroup => RowIcon::SubGroup,
        }
    };
    RowLook {
        icon: icon_str(which),
        icon_color: if collapsed && attention_inside { ThemeElement::Hazard } else { ThemeElement::Primary },
        text_color: if selected { ThemeElement::Text } else { ThemeElement::Dim },
    }
}

/// The icon and colors of a session row: a session that needs attention is drawn dim under
/// the attention mark (the pulse runs over it); otherwise by status, a detached session that
/// has been idle for a week dimmed.
pub open spec fn session_look(attention: bool, status: SessionStatus, stale: bool) -> (RowIcon, ThemeElement, ThemeElement) {
    if attention {
        (RowIcon::Attention, ThemeElement::Dim, ThemeElement::Dim)
    } else {
        match status {
            SessionStatus::Active => (RowIcon::Active, ThemeElement::Secondary, ThemeElement::Secondary),
            SessionStatus::Detached => if stale {
                (RowIcon::Detached, ThemeElement::Dim, ThemeElement::Dim)
            } else {
                (RowIcon::Detached, ThemeElement::Text, ThemeElement::Text)
            },
            SessionStatus::Dead => (RowIcon::Dead, ThemeElement::Dim, ThemeElement::Dim),
        }
    }
}

/// A week: a detached session idle for longer is drawn dim.
pub const STALE_AFTER_SECS: u64 = 604800;

pub fn session_row_look(attention: bool, status: SessionStatus, stale: bool) -> (r: RowLook)
    ensures
        (r.icon_color, r.text_color) == (session_look(attention, status, stale).1, session_look(attention, status, stale).2),
        r.icon@ == icon_text(session_look(attention, status, stale).0),
{
    let (which, icon_color, text_color) = if attention {
        (RowIcon::Attention, ThemeElement::Dim, ThemeElement::Dim)
    } else {
        match status {
            SessionStatus::Active => (RowIcon::Active, ThemeElement::Secondary, ThemeElement::Secondary),
            SessionStatus::Detached => if stale {
                (RowIcon::Detached, ThemeElement::Dim, ThemeElement::Dim)
            } else {
                (RowIcon::Detached, ThemeElement::Text, ThemeElement::Text)
            },
            SessionStatus::Dead => (RowIcon::Dead, ThemeElement::Dim, ThemeElement::Dim),
        }
    };
    RowLook { icon: icon_str(which), icon_color, text_color }
}

// ---------------------------------------------------------------------------
// Main layout
// ---------------------------------------------------------------------------

/// The terminal is too small for the layout (under 80 columns or 24 rows).
pub fn too_small(width: u16, height: u16) -> (r: bool)
    ensures
        r == (width < 80 || height < 24),
{
    width < 80 || height < 24
}

/// What the bottom of the left panel holds under the tree.
#[derive(Debug, Clone, Copy, PartialEq, Eq, Structural)]
pub enum PanelFoot {
    /// The animated logo, this many rows high.
    Logo(u16),
    /// A one-row bar that stands in for the hidden logo (and is its drag handle).
    Indicator,
    /// Nothing: the tree takes the whole panel.
    Nothing,
}

/// The foot of a left panel `height` rows high when the logo asks for `logo_rows` rows: the
/// logo gets at most half the panel, and shows only when it is over two rows and leaves
/// five for the tree; otherwise a one-row indicator when there is room for it.
pub open spec fn foot_of(height: int, logo_rows: int) -> PanelFoot {
    let h = min_int(logo_rows, height / 2);
    if h > 2 && height >= h + 5 {
        PanelFoot::Logo(h as u16)
    } else if height > 1 {
        PanelFoot::Indicator
    } else {
        PanelFoot::Nothing
    }
}

pub fn panel_foot(height: u16, logo_rows: u16) -> (r: PanelFoot)
    ensures
        r == foot_of(height as int, logo_rows as int),
{
    let h = if logo_rows < height / 2 { logo_rows } else { height / 2 };
    if h > 2 && height as u32 >= h as u32 + 5 {
        PanelFoot::Logo(h)
    } else if height > 1 {
        PanelFoot::Indicator
    } else {
        PanelFoot::Nothing
    }
}

/// The columns of screen row `y` that a selection from `start` to `end` (in reading order)
/// covers inside the area at `(x, y0)` of size `w` by `h`; `None` for rows outside it.
pub open spec fn highlight_of(start: (u16, u16), end: (u16, u16), x: int, y0: int, w: int, h: int, y: int) -> Option<(int, int)> {
    let last_col = x + if w > 0 { w - 1 } else { 0 };
    let last_row = y0 + if h > 0 { h - 1 } else { 0 };
    if y < start.1 || y < y0 || y > end.1 || y > last_row {
        None
    } else {
        let from = if y == start.1 { if start.0 > x { start.0 as int } else { x } } else { x };
        let to = if y == end.1 { if end.0 < last_col { end.0 as int } else { last_col } } else { last_col };
        Some((from, to))
    }
}

/// The columns to highlight on row `y` (inclusive), as `highlight_of` gives them.
pub fn highlight_cols(start: (u16, u16), end: (u16, u16), x: u16, y0: u16, w: u16, h: u16, y: u16) -> (r: Option<(u16, u16)>)
    requires
        x + w <= u16::MAX,
        y0 + h <= u16::MAX,
    ensures
        match r {
            Some((a, b)) => highlight_of(start, end, x as int, y0 as int, w as int, h as int, y as int) == Some((a as int, b as int)),
            None => highlight_of(start, end, x as int, y0 as int, w as int, h as int, y as int) is None,
        },
{
    let last_col = x + if w > 0 { w - 1 } else { 0 };
    let last_row = y0 + if h > 0 { h - 1 } else { 0 };
    if y < start.1 || y < y0 || y > end.1 || y > last_row {
        return None;
    }
    let from = if y == start.1 { if start.0 > x { start.0 } else { x } } else { x };
    let to = if y == end.1 { if end.0 < last_col { end.0 } else { last_col } } else { last_col };
    Some((from, to))
}

/// An overlay of `width` by `height` centered in the area at `(x, y)` of `area_w` by
/// `area_h`, cut down to the area: `(x, y, width, height)`.
pub open spec fn centered_of(width: int, height: int, x: int, y: int, area_w: int, area_h: int) -> (int, int, int, int) {
    (
        x + (if area_w > width { area_w - width } else { 0 }) / 2,
        y + (if area_h > height { area_h - height } else { 0 }) / 2,
        min_int(width, area_w),
        min_int(height, area_h),
    )
}

pub fn centered_rect(width: u16, height: u16, x: u16, y: u16, area_w: u16, area_h: u16) -> (r: (u16, u16, u16, u16))
    requires
        x + area_w <= u16::MAX,
        y + area_h <= u16::MAX,
    ensures
        (r.0 as int, r.1 as int, r.2 as int, r.3 as int) == centered_of(width as int, height as int, x as int, y as int, area_w as int, area_h as int),
{
    let dx = if area_w > width { area_w - width } else { 0 };
    let dy = if area_h > height { area_h - height } else { 0 };
    (
        x + dx / 2,
        y + dy / 2,
        if width < area_w { width } else { area_w },
        if height < area_h { height } else { area_h },
    )
}

// ---------------------------------------------------------------------------
// Overlays
// ---------------------------------------------------------------------------

/// At most this many path completions show under the prompt.
pub const SUGGESTIONS_SHOWN: usize = 5;

/// The completions in view: how many, and the first; the highlighted one is kept near the
/// middle once the list is longer than the view.
pub open spec fn suggestion_window_of(total: int, cursor: int) -> (int, int) {
    let shown = SUGGESTIONS_SHOWN as int;
    (
        min_int(total, shown),
        if total <= shown {
            0
        } else {
            min_int(if cursor > shown / 2 { cursor - shown / 2 } else { 0 }, total - shown)
        },
    )
}

pub fn suggestion_window(total: usize, cursor: usize) -> (r: (usize, usize))
    ensures
        (r.0 as int, r.1 as int) == suggestion_window_of(total as int, cursor as int),
        r.1 + r.0 <= total,
{
    let shown = SUGGESTIONS_SHOWN;
    let count = if total < shown { total } else { shown };
    let offset = if total <= shown {
        0
    } else {
        let back = if cursor > shown / 2 { cursor - shown / 2 } else { 0 };
        if back < total - shown { back } else { total - shown }
    };
    (count, offset)
}

/// The arrows that show whether the completions go on above and below the view.
pub open spec fn scroll_marks_of(up: bool, down: bool) -> Seq<char> {
    if up && down {
        seq![' ', '\u{25B2}', '\u{25BC}', ' ']
    } else if up {
        seq![' ', '\u{25B2}', ' ']
    } else if down {
        seq![' ', '\u{25BC}', ' ']
    } else {
        Seq::empty()
    }
}

pub fn scroll_marks(offset: usize, shown: usize, total: usize) -> (r: &'static str)
    ensures
        r@ == scroll_marks_of(offset > 0, offset + shown < total),
{
    proof {
        reveal_strlit(" \u{25B2}\u{25BC} ");
        reveal_strlit(" \u{25B2} ");
        reveal_strlit(" \u{25BC} ");
        reveal_strlit("");
    }
    let up = offset > 0;
    let down = (offset as u128) + (shown as u128) < total as u128;
    if up && down {
        " \u{25B2}\u{25BC} "
    } else if up {
        " \u{25B2} "
    } else if down {
        " \u{25BC} "
    } else {
        ""
    }
}

/// The label of the text prompt.
pub open spec fn prompt_label_of(ctx: Option<InputContext>) -> Seq<char> {
    match ctx {
        Some(InputContext::NewSessionName) => "Session name"@,
        Some(InputContext::NewSessionCwd { .. }) => "Working directory"@,
        Some(InputContext::RenameSession { .. }) => "New name"@,
        Some(InputContext::RenameGroup { .. }) => "New name"@,
        Some(InputContext::NewGroupName) => "Group name"@,
        _ => "Input"@,
    }
}

pub fn prompt_label(ctx: &Option<InputContext>) -> (r: &'static str)
    ensures
        r@ == prompt_label_of(*ctx),
{
    match ctx {
        Some(InputContext::NewSessionName) => "Session name",
        Some(InputContext::NewSessionCwd { .. }) => "Working directory",
        Some(InputContext::RenameSession { .. }) => "New name",
        Some(InputContext::RenameGroup { .. }) => "New name",
        Some(InputContext::NewGroupName) => "Group name",
        _ => "Input",
    }
}

/// The question that the confirmation asks.
pub open spec fn confirm_message_of(ctx: Option<InputContext>) -> Seq<char> {
    match ctx {
        Some(InputContext::ConfirmDeleteSession { worktree, .. }) => if worktree is Some {
            "Delete session AND worktree? (y/n/s=session only)"@
        } else {
            "Delete this session? (y/n)"@
        },
        Some(InputContext::ConfirmDeleteGroup { .. }) => "Delete this group? (y/n)"@,
        Some(InputContext::NewSessionWorktree { .. }) => "Isolate in git worktree? (y/n)"@,
        _ => "Confirm? (y/n)"@,
    }
}

pub fn confirm_message(ctx: &Option<InputContext>) -> (r: &'static str)
    ensures
        r@ == confirm_message_of(*ctx),
{
    match ctx {
        Some(InputContext::ConfirmDeleteSession { worktree: Some(_), .. }) => "Delete session AND worktree? (y/n/s=session only)",
        Some(InputContext::ConfirmDeleteSession { .. }) => "Delete this session? (y/n)",
        Some(InputContext::ConfirmDeleteGroup { .. }) => "Delete this group? (y/n)",
        Some(InputContext::NewSessionWorktree { .. }) => "Isolate in git worktree? (y/n)",
        _ => "Confirm? (y/n)",
    }
}

/// The title of the group picker: choosing the group of a new session, or a move.
pub fn picker_title(ctx: &Option<InputContext>) -> (r: &'static str)
    ensures
        r@ == (if *ctx matches Some(InputContext::NewSessionGroup { .. }) { " Select group "@ } else { " Move to group "@ }),
{
    match ctx {
        Some(InputContext::NewSessionGroup { .. }) => " Select group ",
        _ => " Move to group ",
    }
}

/// The rows of the group picker: one per group and two for the border, at most the panel.
pub fn picker_height(groups: usize, panel_height: u16) -> (r: u16)
    requires
        groups % 0x10000 + 2 <= u16::MAX,
    ensures
        r as int == min_int(groups % 0x10000 + 2, panel_height as int),
{
    let rows = (groups % 0x10000) as u16 + 2;
    if rows < panel_height { rows } else { panel_height }
}

/// The size of the finder overlay in an area of `width` by `height` with `results`
/// matches: `(rows of results shown at most, overlay width, overlay height)`. At most 40% of
/// the rows (and at least five) go to results; the overlay is 60% of the width, at least 40
/// columns, and four rows more than the results it shows.
pub open spec fn finder_size_of(width: int, height: int, results: int) -> (int, int, int) {
    let max_visible = if height * 40 / 100 > 5 { height * 40 / 100 } else { 5 };
    let shown = min_int(results, max_visible);
    (
        max_visible,
        min_int(if width * 60 / 100 > 40 { width * 60 / 100 } else { 40 }, width),
        min_int(shown + 4, height),
    )
}

pub fn finder_size(width: u16, height: u16, results: usize) -> (r: (usize, u16, u16))
    requires
        height * 40 <= u16::MAX,
        width * 60 <= u16::MAX,
    ensures
        (r.0 as int, r.1 as int, r.2 as int) == finder_size_of(width as int, height as int, results as int),
{
    let h40 = (height as u32) * 40 / 100;
    let max_visible: u32 = if h40 > 5 { h40 } else { 5 };
    let shown: u32 = if (results as u64) < max_visible as u64 { results as u32 } else { max_visible };
    let w60 = (width as u32) * 60 / 100;
    let w: u32 = if w60 > 40 { w60 } else { 40 };
    let w: u32 = if w < width as u32 { w } else { width as u32 };
    let h: u32 = if shown + 4 < height as u32 { shown + 4 } else { height as u32 };
    (max_visible as usize, w as u16, h as u16)
}

/// The first result row in view: the cursor's row stays the last one shown.
pub fn finder_scroll(cursor: usize, max_visible: usize) -> (r: usize)
    requires
        max_visible > 0,
    ensures
        r == (if cursor >= max_visible { cursor - max_visible + 1 } else { 0 }),
{
    if cursor >= max_visible { cursor - max_visible + 1 } else { 0 }
}

/// The mark of a session's status in the finder.
pub fn finder_status_icon(status: SessionStatus) -> (r: &'static str)
    ensures
        r@ == (match status {
            SessionStatus::Active => seq!['\u{25CF}'],
            SessionStatus::Detached => seq!['\u{25CB}'],
            SessionStatus::Dead => seq!['\u{00D7}'],
        }),
{
    proof {
        reveal_strlit("\u{25CF}");
        reveal_strlit("\u{25CB}");
        reveal_strlit("\u{00D7}");
    }
    match status {
        SessionStatus::Active => "\u{25CF}",
        SessionStatus::Detached => "\u{25CB}",
        SessionStatus::Dead => "\u{00D7}",
    }
}

/// How a finder row shows a session's working directory.
#[derive(Debug, Clone, Copy, PartialEq, Eq)]
pub enum CwdShown {
    /// Not at all: there is none, or fewer than seven columns are left.
    Hidden,
    /// Whole, after two spaces.
    Whole,
    /// As `...` and its end, from this byte on (the first character boundary there or
    /// later).
    Tail { from_byte: usize },
}

/// How the working directory (`cwd_len` bytes) is shown on a finder row `inner_width`
/// wide, after the status prefix, the name and the group (lengths in bytes): hidden when
/// there is none or at most six columns are left; whole when it fits in what is left less
/// the two spaces before it; otherwise its end, cut so that `...` and the end fit.
pub fn finder_cwd(inner_width: usize, prefix_len: usize, name_len: usize, group_len: usize, cwd_len: usize) -> (r: CwdShown)
    requires
        prefix_len + name_len + group_len <= usize::MAX,
    ensures
        ({
            let used = prefix_len + name_len + group_len;
            let remaining = if inner_width >= used { inner_width - used } else { 0 };
            if cwd_len == 0 || remaining <= 6 {
                r == CwdShown::Hidden
            } else if cwd_len > remaining - 2 {
                r == CwdShown::Tail { from_byte: (cwd_len - (remaining - 2) + 3) as usize }
            } else {
                r == CwdShown::Whole
            }
        }),
{
    let used = prefix_len + name_len + group_len;
    let remaining = if inner_width >= used { inner_width - used } else { 0 };
    if cwd_len == 0 || remaining <= 6 {
        return CwdShown::Hidden;
    }
    let max_cwd = remaining - 2;
    if cwd_len > max_cwd {
        CwdShown::Tail { from_byte: cwd_len - max_cwd + 3 }
    } else {
        CwdShown::Whole
    }
}

} // verus!
