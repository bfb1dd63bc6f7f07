//! What the mouse does in the main view: dragging the border between the session tree and
//! the session panel, selecting text in the panel, scrolling and clicking. The app reads
//! the terminal's events and performs the action that comes back.

use vstd::prelude::*;
use crate::types::TextSelection;

verus! {

/// The narrowest the tree panel can be made, in percent of the terminal's width.
pub const TREE_WIDTH_PCT_MIN: u16 = 15;

/// The widest the tree panel can be made, in percent of the terminal's width.
pub const TREE_WIDTH_PCT_MAX: u16 = 40;

/// The tree panel's width until the user drags the border.
pub const TREE_WIDTH_PCT_DEFAULT: u16 = 20;

/// A mouse event, as far as the main view tells them apart.
#[derive(Debug, Clone, Copy, PartialEq, Eq)]
pub enum MouseInput {
    ScrollUp,
    ScrollDown,
    LeftDown,
    LeftDrag,
    LeftUp,
    Other,
}

/// Where things are on screen when a mouse event comes.
#[derive(Debug, Clone, Copy)]
pub struct PointerGeometry {
    /// The column of the border between the tree and the session panel.
    pub border_x: u16,
    /// The inside of the session panel: x, y, width, height.
    pub inner: (u16, u16, u16, u16),
    /// Neither a dialog nor the help is shown.
    pub plain_view: bool,
    /// The width of the terminal, when it is known.
    pub term_cols: Option<u16>,
}

/// What the mouse handling keeps between events.
#[derive(Debug, Clone, Copy)]
pub struct PointerState {
    /// The border is being dragged.
    pub dragging_border: bool,
    /// The text selection in the session panel, if any.
    pub selection: Option<TextSelection>,
    /// The tree panel's width, in percent of the terminal's width.
    pub tree_width_pct: u16,
}

/// What the app does after a mouse event.
#[derive(Debug, Clone, Copy, PartialEq, Eq)]
pub enum PointerAction {
    Nothing,
    /// Scroll the session panel.
    Scroll { up: bool },
    /// A click outside the selectable area, at this place.
    Click { col: u16, row: u16 },
    /// The border was let go: store the tree width.
    SaveTreeWidth,
    /// Copy the selected text.
    CopySelection,
}

pub open spec fn clamp_int(v: int, lo: int, hi: int) -> int {
    if v < lo { lo } else if v > hi { hi } else { v }
}

/// `a.saturating_sub(b)`.
pub open spec fn sat_sub(a: int, b: int) -> int {
    if a >= b { a - b } else { 0 }
}

/// The place is on the border (one column either side) below the top bar.
pub open spec fn on_border(col: int, row: int, g: PointerGeometry) -> bool {
    col >= sat_sub(g.border_x as int, 1) && col <= g.border_x + 1 && row >= 3
}

/// The place is inside the session panel, where a selection can start.
pub open spec fn in_panel(col: int, row: int, g: PointerGeometry) -> bool {
    let (x, y, w, h) = g.inner;
    w > 0 && x <= col < x + w && y <= row < y + h
}

/// The tree width, in percent, that dragging the border to column `col` gives: the column's
/// share of the terminal's width (as a `u16`), kept between the narrowest and the widest.
pub open spec fn dragged_width(col: int, term_cols: int) -> int {
    clamp_int((col * 100 / term_cols) % 0x10000, TREE_WIDTH_PCT_MIN as int, TREE_WIDTH_PCT_MAX as int)
}

/// A selection's end while dragging: the place, kept inside the session panel.
pub open spec fn clamped_end(col: int, row: int, g: PointerGeometry) -> (u16, u16) {
    let (x, y, w, h) = g.inner;
    (
        (if col < x { x as int } else if col > x + sat_sub(w as int, 1) { x + sat_sub(w as int, 1) } else { col }) as u16,
        (if row < y { y as int } else if row > y + sat_sub(h as int, 1) { y + sat_sub(h as int, 1) } else { row }) as u16,
    )
}

/// What a mouse event at `(col, row)` does to the state, and what the app does then.
///
/// - A scroll drops the selection and scrolls the panel.
/// - A left press on the border starts dragging it; inside the panel, with nothing over
///   the view, it starts a selection there; elsewhere it drops the selection and clicks.
/// - A left drag moves the border (when the terminal's width is known), or else moves the
///   end of the selection, kept inside the panel.
/// - Letting go of the border stores the width; letting go of a selection copies it, or
///   drops it when it is empty.
pub open spec fn pointer_effect(s: PointerState, input: MouseInput, col: u16, row: u16, g: PointerGeometry) -> (PointerState, PointerAction) {
    match input {
        MouseInput::ScrollUp => (PointerState { selection: None, ..s }, PointerAction::Scroll { up: true }),
        MouseInput::ScrollDown => (PointerState { selection: None, ..s }, PointerAction::Scroll { up: false }),
        MouseInput::LeftDown => if on_border(col as int, row as int, g) {
            (PointerState { dragging_border: true, ..s }, PointerAction::Nothing)
        } else if g.plain_view && in_panel(col as int, row as int, g) {
            (PointerState { selection: Some(TextSelection { anchor: (col, row), end: (col, row) }), ..s }, PointerAction::Nothing)
        } else {
            (PointerState { selection: None, ..s }, PointerAction::Click { col, row })
        },
        MouseInput::LeftDrag => if s.dragging_border {
            match g.term_cols {
                Some(c) => if c > 0 {
                    (PointerState { tree_width_pct: dragged_width(col as int, c as int) as u16, ..s }, PointerAction::Nothing)
                } else {
                    (s, PointerAction::Nothing)
                },
                None => (s, PointerAction::Nothing),
            }
        } else {
            match s.selection {
                Some(sel) => (
                    PointerState { selection: Some(TextSelection { anchor: sel.anchor, end: clamped_end(col as int, row as int, g) }), ..s },
                    PointerAction::Nothing,
                ),
                None => (s, PointerAction::Nothing),
            }
        },
        MouseInput::LeftUp => if s.dragging_border {
            (PointerState { dragging_border: false, ..s }, PointerAction::SaveTreeWidth)
        } else {
            match s.selection {
                Some(sel) => if sel.anchor != sel.end {
                    (s, PointerAction::CopySelection)
                } else {
                    (PointerState { selection: None, ..s }, PointerAction::Nothing)
                },
                None => (s, PointerAction::Nothing),
            }
        },
        MouseInput::Other => (s, PointerAction::Nothing),
    }
}

/// `v` kept between `lo` and `hi` (`lo <= hi`).
fn clamp_u32(v: u32, lo: u32, hi: u32) -> (r: u32)
    requires
        lo <= hi,
    ensures
        r == clamp_int(v as int, lo as int, hi as int),
{
    if v < lo {
        lo
    } else if v > hi {
        hi
    } else {
        v
    }
}

/// Handle a mouse event at `(col, row)`: the new state, and what the app does next.
pub fn handle_pointer(s: &PointerState, input: MouseInput, col: u16, row: u16, g: &PointerGeometry) -> (r: (PointerState, PointerAction))
    ensures
        r == pointer_effect(*s, input, col, row, *g),
{
    let (x, y, w, h) = g.inner;
    match input {
        MouseInput::ScrollUp => (PointerState { selection: None, ..*s }, PointerAction::Scroll { up: true }),
        MouseInput::ScrollDown => (PointerState { selection: None, ..*s }, PointerAction::Scroll { up: false }),
        MouseInput::LeftDown => {
            let left = if g.border_x >= 1 { g.border_x - 1 } else { 0 };
            if col >= left && (col as u32) <= (g.border_x as u32) + 1 && row >= 3 {
                (PointerState { dragging_border: true, ..*s }, PointerAction::Nothing)
            } else if g.plain_view && w > 0 && col >= x && (col as u32) < (x as u32) + (w as u32) && row >= y
                && (row as u32) < (y as u32) + (h as u32) {
                (PointerState { selection: Some(TextSelection { anchor: (col, row), end: (col, row) }), ..*s }, PointerAction::Nothing)
            } else {
                (PointerState { selection: None, ..*s }, PointerAction::Click { col, row })
            }
        },
        MouseInput::LeftDrag => {
            if s.dragging_border {
                match g.term_cols {
                    Some(c) => {
                        if c > 0 {
                            let share: u32 = (col as u32) * 100 / (c as u32);
                            let truncated: u32 = share % 0x10000;
                            let pct = clamp_u32(truncated, TREE_WIDTH_PCT_MIN as u32, TREE_WIDTH_PCT_MAX as u32);
                            (PointerState { tree_width_pct: pct as u16, ..*s }, PointerAction::Nothing)
                        } else {
                            (*s, PointerAction::Nothing)
                        }
                    },
                    None => (*s, PointerAction::Nothing),
                }
            } else {
                match s.selection {
                    Some(sel) => {
                        let right: u32 = (x as u32) + (if w >= 1 { w - 1 } else { 0 }) as u32;
                        let bottom: u32 = (y as u32) + (if h >= 1 { h - 1 } else { 0 }) as u32;
                        let end_col: u16 = if col < x { x } else if (col as u32) > right { right as u16 } else { col };
                        let end_row: u16 = if row < y { y } else if (row as u32) > bottom { bottom as u16 } else { row };
                        (PointerState { selection: Some(TextSelection { anchor: sel.anchor, end: (end_col, end_row) }), ..*s }, PointerAction::Nothing)
                    },
                    None => (*s, PointerAction::Nothing),
                }
            }
        },
        MouseInput::LeftUp => {
            if s.dragging_border {
                (PointerState { dragging_border: false, ..*s }, PointerAction::SaveTreeWidth)
            } else {
                match s.selection {
                    Some(sel) => {
                        if sel.is_nonempty() {
                            (*s, PointerAction::CopySelection)
                        } else {
                            (PointerState { selection: None, ..*s }, PointerAction::Nothing)
                        }
                    },
                    None => (*s, PointerAction::Nothing),
                }
            }
        },
        MouseInput::Other => (*s, PointerAction::Nothing),
    }
}

/// The tree panel's width never leaves the range the border can be dragged in.
pub proof fn lemma_tree_width_in_range(s: PointerState, input: MouseInput, col: u16, row: u16, g: PointerGeometry)
    requires
        TREE_WIDTH_PCT_MIN <= s.tree_width_pct <= TREE_WIDTH_PCT_MAX,
    ensures
        TREE_WIDTH_PCT_MIN <= pointer_effect(s, input, col, row, g).0.tree_width_pct <= TREE_WIDTH_PCT_MAX,
{
}

/// Dragging a selection keeps its end inside the session panel, wherever the mouse goes.
pub proof fn lemma_selection_end_in_panel(s: PointerState, col: u16, row: u16, g: PointerGeometry)
    requires
        !s.dragging_border,
        s.selection is Some,
        g.inner.2 > 0,
        g.inner.3 > 0,
    ensures
        ({
            let end = pointer_effect(s, MouseInput::LeftDrag, col, row, g).0.selection->0.end;
            in_panel(end.0 as int, end.1 as int, g)
        }),
{
}

} // verus!
