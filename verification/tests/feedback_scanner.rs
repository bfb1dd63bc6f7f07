use nexus::feedback_scanner::has_halt_pattern;

#[test]
fn detects_permission_prompt() {
    let text = "  ○ Read src/main.rs\n\n  Allow? (Y)es | (N)o | (A)lways\n";
    assert!(has_halt_pattern(text));
}

#[test]
fn detects_yes_no_always_line() {
    let text = "Some output\n  (Y)es | (N)o | (A)lways allow\n";
    assert!(has_halt_pattern(text));
}

#[test]
fn detects_proceed_prompt() {
    let text = "Warning: this will delete files\nDo you want to proceed? (y/n)\n";
    assert!(has_halt_pattern(text));
}

#[test]
fn ignores_normal_output() {
    let text = "Building project...\n✓ All tests passed\n> ";
    assert!(!has_halt_pattern(text));
}

#[test]
fn ignores_empty() {
    assert!(!has_halt_pattern(""));
    assert!(!has_halt_pattern("\n\n\n"));
}

#[test]
fn ignores_claude_idle_prompt() {
    // The normal "ready for next message" state should NOT trigger
    let text = "\n> \n";
    assert!(!has_halt_pattern(text));
}

#[test]
fn detects_ask_user_question() {
    let text = "Which option?\n\n❯ 1. Option A\n  2. Option B\n\nEnter to select · ↑/↓ to navigate · Esc to cancel\n";
    assert!(has_halt_pattern(text));
}

#[test]
fn detects_with_surrounding_content() {
    let text = "line 1\nline 2\nline 3\nline 4\nline 5\n\
                line 6\nline 7\nline 8\n\
                Allow? (Y)es | (N)o | (A)lways\nline 10\n";
    assert!(has_halt_pattern(text));
}

#[test]
fn pattern_split_across_lines_is_no_match() {
    assert!(!has_halt_pattern("(Y)\nes"));
    assert!(has_halt_pattern("x\r\n(Y)es\r\n"));
}
