//! Halt-state detection for coding-agent sessions: the captured tail of a pane is
//! pattern-matched line by line for known halt signatures (permission prompts,
//! MCP confirmations, interactive selections).

use vstd::prelude::*;
use crate::strutil::{contains_exec, contains_seq, str_chars};
use crate::textscan::{char_rows, lines_of, str_lines};

verus! {

broadcast use vstd::string::group_string_axioms;

/// Lines polled from the end of each pane.
pub const CAPTURE_LINES: u32 = 20;

/// Known halt patterns, matched as substrings of each captured line: tool permission
/// prompts (`Allow? (Y)es | (N)o | (A)lways`), MCP / destructive action confirmations,
/// and AskUserQuestion selection prompts.
pub open spec fn halt_patterns() -> Seq<Seq<char>> {
    seq!["(Y)es"@, "Do you want to proceed?"@, "Enter to select"@]
}

/// Some line of `text` contains one of the halt patterns.
pub open spec fn shows_halt(text: Seq<char>) -> bool {
    exists|i: int, k: int|
        0 <= i < str_lines(text).len() && 0 <= k < halt_patterns().len()
            && contains_seq(#[trigger] str_lines(text)[i], #[trigger] halt_patterns()[k])
}

fn halt_pattern_list() -> (r: Vec<Vec<char>>)
    ensures
        char_rows(r@) == halt_patterns(),
{
    let mut r: Vec<Vec<char>> = Vec::new();
    r.push(str_chars("(Y)es"));
    r.push(str_chars("Do you want to proceed?"));
    r.push(str_chars("Enter to select"));
    assert(char_rows(r@) =~= halt_patterns());
    r
}

/// Check if any line in the captured text contains a known halt pattern.
pub fn has_halt_pattern(text: &str) -> (r: bool)
    ensures
        r == shows_halt(text@),
{
    let lines = lines_of(text);
    let patterns = halt_pattern_list();
    let ghost ls = char_rows(lines@);
    let mut i: usize = 0;
    while i < lines.len()
        invariant
            ls == char_rows(lines@),
            ls == str_lines(text@),
            char_rows(patterns@) == halt_patterns(),
            i <= lines@.len(),
            forall|a: int, k: int| 0 <= a < i && 0 <= k < halt_patterns().len() ==> !contains_seq(#[trigger] ls[a], #[trigger] halt_patterns()[k]),
        decreases lines@.len() - i,
    {
        let mut k: usize = 0;
        while k < patterns.len()
            invariant
                ls == char_rows(lines@),
                ls == str_lines(text@),
                char_rows(patterns@) == halt_patterns(),
                i < lines@.len(),
                k <= patterns@.len(),
                forall|a: int, k2: int| 0 <= a < i && 0 <= k2 < halt_patterns().len() ==> !contains_seq(#[trigger] ls[a], #[trigger] halt_patterns()[k2]),
                forall|k2: int| 0 <= k2 < k ==> !contains_seq(ls[i as int], #[trigger] halt_patterns()[k2]),
            decreases patterns@.len() - k,
        {
            assert(ls[i as int] == lines@[i as int]@);
            assert(halt_patterns()[k as int] == patterns@[k as int]@);
            if contains_exec(&lines[i], &patterns[k]) {
                return true;
            }
            k += 1;
        }
        i += 1;
    }
    false
}

} // verus!
