use nexus::selection::{extract_selection_text, osc52_copy};
use nexus::types::TextSelection;

fn cells(rows: &[&str]) -> Vec<Vec<String>> {
    rows.iter().map(|r| r.chars().map(|c| c.to_string()).collect()).collect()
}

#[test]
fn no_selection_gives_nothing() {
    let c = cells(&["hello"]);
    assert_eq!(extract_selection_text(None, 0, 0, &c), "");
}

#[test]
fn single_row_selection_takes_the_columns_inclusive() {
    let c = cells(&["hello world"]);
    let sel = TextSelection { anchor: (10, 5), end: (14, 5) };
    // inner area starts at column 10, row 5
    assert_eq!(extract_selection_text(Some(&sel), 10, 5, &c), "hello");
}

#[test]
fn backwards_selection_is_normalized() {
    let c = cells(&["hello world"]);
    let sel = TextSelection { anchor: (10, 0), end: (6, 0) };
    assert_eq!(extract_selection_text(Some(&sel), 0, 0, &c), "world");
}

#[test]
fn multi_row_selection_trims_and_joins_rows() {
    let c = cells(&["abc   ", "def   ", "ghi   "]);
    let sel = TextSelection { anchor: (1, 0), end: (1, 2) };
    assert_eq!(extract_selection_text(Some(&sel), 0, 0, &c), "bc\ndef\ngh");
}

#[test]
fn rows_beyond_the_rendered_cells_are_skipped() {
    let c = cells(&["one", "two"]);
    let sel = TextSelection { anchor: (0, 1), end: (2, 3) };
    assert_eq!(extract_selection_text(Some(&sel), 0, 0, &c), "two\n");
}

#[test]
fn end_column_past_the_row_is_clamped() {
    let c = cells(&["ab"]);
    let sel = TextSelection { anchor: (0, 0), end: (40, 0) };
    assert_eq!(extract_selection_text(Some(&sel), 0, 0, &c), "ab");
}

#[test]
fn wide_cells_are_concatenated() {
    let c = vec![vec!["日".to_string(), "".to_string(), "本".to_string(), "".to_string()]];
    let sel = TextSelection { anchor: (0, 0), end: (3, 0) };
    assert_eq!(extract_selection_text(Some(&sel), 0, 0, &c), "日本");
}

#[test]
fn copying_frames_the_text_in_base64() {
    assert_eq!(osc52_copy(""), "\x1b]52;c;\x07");
    assert_eq!(osc52_copy("hello world~"), "\x1b]52;c;aGVsbG8gd29ybGR+\x07");
    assert_eq!(osc52_copy("a"), "\x1b]52;c;YQ==\x07");
    assert_eq!(osc52_copy("ab"), "\x1b]52;c;YWI=\x07");
    assert_eq!(osc52_copy("é?>"), "\x1b]52;c;w6k/Pg==\x07");
}
