use nexus::pointer::{
    handle_pointer, MouseInput, PointerAction, PointerGeometry, PointerState, TREE_WIDTH_PCT_DEFAULT, TREE_WIDTH_PCT_MAX,
    TREE_WIDTH_PCT_MIN,
};
use nexus::types::TextSelection;

fn geometry() -> PointerGeometry {
    // tree border at column 20; panel inside from (22, 4), 50 wide and 10 high
    PointerGeometry { border_x: 20, inner: (22, 4, 50, 10), plain_view: true, term_cols: Some(100) }
}

fn idle() -> PointerState {
    PointerState { dragging_border: false, selection: None, tree_width_pct: TREE_WIDTH_PCT_DEFAULT }
}

#[test]
fn pressing_on_the_border_starts_a_drag_and_moves_it() {
    let g = geometry();
    let (s, a) = handle_pointer(&idle(), MouseInput::LeftDown, 21, 5, &g);
    assert!(s.dragging_border);
    assert_eq!(a, PointerAction::Nothing);
    let (s, _) = handle_pointer(&s, MouseInput::LeftDrag, 33, 5, &g);
    assert_eq!(s.tree_width_pct, 33);
    let (s, _) = handle_pointer(&s, MouseInput::LeftDrag, 90, 5, &g);
    assert_eq!(s.tree_width_pct, TREE_WIDTH_PCT_MAX);
    let (s, _) = handle_pointer(&s, MouseInput::LeftDrag, 2, 5, &g);
    assert_eq!(s.tree_width_pct, TREE_WIDTH_PCT_MIN);
    let (s, a) = handle_pointer(&s, MouseInput::LeftUp, 2, 5, &g);
    assert!(!s.dragging_border);
    assert_eq!(a, PointerAction::SaveTreeWidth);
}

#[test]
fn the_top_bar_is_no_border() {
    let (s, a) = handle_pointer(&idle(), MouseInput::LeftDown, 20, 2, &geometry());
    assert!(!s.dragging_border);
    assert_eq!(a, PointerAction::Click { col: 20, row: 2 });
}

#[test]
fn unknown_terminal_width_leaves_the_tree_width() {
    let mut g = geometry();
    g.term_cols = None;
    let dragging = PointerState { dragging_border: true, ..idle() };
    let (s, _) = handle_pointer(&dragging, MouseInput::LeftDrag, 35, 5, &g);
    assert_eq!(s.tree_width_pct, TREE_WIDTH_PCT_DEFAULT);
}

#[test]
fn selection_is_made_inside_the_panel_and_copied() {
    let g = geometry();
    let (s, a) = handle_pointer(&idle(), MouseInput::LeftDown, 30, 6, &g);
    assert_eq!(a, PointerAction::Nothing);
    let sel = s.selection.unwrap();
    assert_eq!((sel.anchor, sel.end), ((30, 6), (30, 6)));
    // dragging past the panel keeps the end inside it
    let (s, _) = handle_pointer(&s, MouseInput::LeftDrag, 99, 30, &g);
    assert_eq!(s.selection.unwrap().end, (71, 13));
    let (s, _) = handle_pointer(&s, MouseInput::LeftDrag, 0, 0, &g);
    assert_eq!(s.selection.unwrap().end, (22, 4));
    let (s, a) = handle_pointer(&s, MouseInput::LeftUp, 0, 0, &g);
    assert_eq!(a, PointerAction::CopySelection);
    assert!(s.selection.is_some());
}

#[test]
fn an_empty_selection_is_dropped_on_release() {
    let g = geometry();
    let (s, _) = handle_pointer(&idle(), MouseInput::LeftDown, 30, 6, &g);
    let (s, a) = handle_pointer(&s, MouseInput::LeftUp, 30, 6, &g);
    assert_eq!(a, PointerAction::Nothing);
    assert!(s.selection.is_none());
}

#[test]
fn clicks_outside_the_panel_or_under_a_dialog_drop_the_selection() {
    let selecting = PointerState { selection: Some(TextSelection { anchor: (30, 6), end: (40, 7) }), ..idle() };
    let (s, a) = handle_pointer(&selecting, MouseInput::LeftDown, 5, 8, &geometry());
    assert!(s.selection.is_none());
    assert_eq!(a, PointerAction::Click { col: 5, row: 8 });
    let mut g = geometry();
    g.plain_view = false;
    let (s, a) = handle_pointer(&idle(), MouseInput::LeftDown, 30, 6, &g);
    assert!(s.selection.is_none());
    assert_eq!(a, PointerAction::Click { col: 30, row: 6 });
}

#[test]
fn scrolling_drops_the_selection() {
    let selecting = PointerState { selection: Some(TextSelection { anchor: (30, 6), end: (40, 7) }), ..idle() };
    let (s, a) = handle_pointer(&selecting, MouseInput::ScrollUp, 30, 6, &geometry());
    assert!(s.selection.is_none());
    assert_eq!(a, PointerAction::Scroll { up: true });
    let (_, a) = handle_pointer(&idle(), MouseInput::ScrollDown, 30, 6, &geometry());
    assert_eq!(a, PointerAction::Scroll { up: false });
    let (s, a) = handle_pointer(&selecting, MouseInput::Other, 30, 6, &geometry());
    assert!(s.selection.is_some());
    assert_eq!(a, PointerAction::Nothing);
}
