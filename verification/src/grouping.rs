use vstd::prelude::*;
use crate::strutil::str_chars;

verus! {

/// `*` in a glob pattern.
pub open spec fn star() -> char {
    '*'
}

/// `?` in a glob pattern.
pub open spec fn qmark() -> char {
    '?'
}

/// Glob semantics: `p[i..]` matches `t[j..]`, where `*` matches any run of characters
/// (the empty one included), `?` matches exactly one character, and every other character
/// matches itself.
pub open spec fn glob_matches_from(p: Seq<char>, t: Seq<char>, i: int, j: int) -> bool
    decreases p.len() - i + t.len() - j,
{
    if i < 0 || j < 0 || i > p.len() || j > t.len() {
        false
    } else if i == p.len() {
        j == t.len()
    } else if p[i] == star() {
        glob_matches_from(p, t, i + 1, j) || (j < t.len() && glob_matches_from(p, t, i, j + 1))
    } else {
        j < t.len() && (p[i] == qmark() || p[i] == t[j]) && glob_matches_from(p, t, i + 1, j + 1)
    }
}

/// The whole text matches the whole pattern.
pub open spec fn glob_matches(p: Seq<char>, t: Seq<char>) -> bool {
    glob_matches_from(p, t, 0, 0)
}

/// No character of `s` is `*`.
pub open spec fn no_star(s: Seq<char>) -> bool {
    forall|k: int| 0 <= k < s.len() ==> #[trigger] s[k] != star()
}

/// Every character of `p` from `i` on is `*`.
pub open spec fn all_stars_from(p: Seq<char>, i: int) -> bool {
    forall|k: int| i <= k < p.len() ==> #[trigger] p[k] == star()
}

/// The matching procedure that `glob_match` runs: one step per text character, with a single
/// saved backtracking point `(sp, st)` at the most recent star (`sp < 0`: none yet).
pub open spec fn glob_run(p: Seq<char>, t: Seq<char>, pi: int, ti: int, sp: int, st: int) -> bool
    decreases t.len() - st, p.len() - pi + t.len() - ti,
{
    if !(0 <= pi <= p.len() && 0 <= st <= ti <= t.len() && sp < pi) {
        false
    } else if ti == t.len() {
        all_stars_from(p, pi)
    } else if pi < p.len() && (p[pi] == qmark() || p[pi] == t[ti]) {
        glob_run(p, t, pi + 1, ti + 1, sp, st)
    } else if pi < p.len() && p[pi] == star() {
        glob_run(p, t, pi + 1, ti, pi, ti)
    } else if sp >= 0 {
        glob_run(p, t, sp + 1, st + 1, sp, st + 1)
    } else {
        false
    }
}

/// Simple fnmatch-style glob matching.
///
/// Supports:
/// - `*` matches zero or more of any character
/// - `?` matches exactly one character
/// - all other characters match literally
pub fn glob_match(pattern: &str, text: &str) -> (r: bool)
    ensures
        r == glob_run(pattern@, text@, 0, 0, -1, 0),
{
    glob_match_inner(&str_chars(pattern), &str_chars(text))
}

fn glob_match_inner(pattern: &Vec<char>, text: &Vec<char>) -> (r: bool)
    ensures
        r == glob_run(pattern@, text@, 0, 0, -1, 0),
{
    let ghost p = pattern@;
    let ghost t = text@;
    let mut pi: usize = 0;
    let mut ti: usize = 0;
    let mut star_pi: Option<usize> = None;
    let mut star_ti: usize = 0;

    while ti < text.len()
        invariant
            p == pattern@,
            t == text@,
            0 <= pi <= p.len(),
            0 <= star_ti <= ti <= t.len(),
            match star_pi {
                Some(sp) => sp < pi,
                None => star_ti == 0,
            },
            glob_run(p, t, 0, 0, -1, 0) == glob_run(
                p,
                t,
                pi as int,
                ti as int,
                match star_pi {
                    Some(sp) => sp as int,
                    None => -1,
                },
                star_ti as int,
            ),
        decreases t.len() - star_ti, p.len() - pi + t.len() - ti,
    {
        if pi < pattern.len() && (pattern[pi] == '?' || pattern[pi] == text[ti]) {
            pi += 1;
            ti += 1;
        } else if pi < pattern.len() && pattern[pi] == '*' {
            star_pi = Some(pi);
            star_ti = ti;
            pi += 1;
        } else if let Some(sp) = star_pi {
            pi = sp + 1;
            star_ti += 1;
            ti = star_ti;
        } else {
            return false;
        }
    }
    let ghost at_end_pi = pi;
    while pi < pattern.len() && pattern[pi] == '*'
        invariant
            p == pattern@,
            at_end_pi <= pi <= p.len(),
            forall|k: int| at_end_pi <= k < pi ==> #[trigger] p[k] == star(),
        decreases p.len() - pi,
    {
        pi += 1;
    }
    proof {
        if pi < p.len() {
            assert(!all_stars_from(p, at_end_pi as int)) by {
                assert(p[pi as int] != star());
            }
        }
    }
    pi == pattern.len()
}

// ---------------------------------------------------------------------------
// Law: where the text or the pattern has no `*`, the procedure decides glob semantics.
// ---------------------------------------------------------------------------

/// `p[i..i+len]` holds no `*` and matches `t[j..j+len]` character for character.
pub open spec fn segment_matches(p: Seq<char>, t: Seq<char>, i: int, j: int, len: int) -> bool {
    &&& 0 <= i && i + len <= p.len()
    &&& 0 <= j && j + len <= t.len()
    &&& len >= 0
    &&& forall|k: int|
        0 <= k < len ==> #[trigger] p[i + k] != star() && (p[i + k] == qmark() || p[i + k] == t[j + k])
}

proof fn lemma_match_at_text_end(p: Seq<char>, t: Seq<char>, i: int)
    requires
        0 <= i <= p.len(),
    ensures
        glob_matches_from(p, t, i, t.len() as int) == all_stars_from(p, i),
    decreases p.len() - i,
{
    if i < p.len() {
        lemma_match_at_text_end(p, t, i + 1);
    }
}

proof fn lemma_segment(p: Seq<char>, t: Seq<char>, i: int, j: int, len: int)
    requires
        segment_matches(p, t, i, j, len),
    ensures
        glob_matches_from(p, t, i, j) == glob_matches_from(p, t, i + len, j + len),
    decreases len,
{
    if len > 0 {
        assert(p[i + 0] != star());
        assert(segment_matches(p, t, i + 1, j + 1, len - 1)) by {
            assert forall|k: int| 0 <= k < len - 1 implies #[trigger] p[i + 1 + k] != star() && (
            p[i + 1 + k] == qmark() || p[i + 1 + k] == t[j + 1 + k]) by {
                assert(p[i + (k + 1)] != star());
            }
        }
        lemma_segment(p, t, i + 1, j + 1, len - 1);
    }
}

/// A star-free stretch of `len` pattern characters consumes exactly `len` text characters.
proof fn lemma_star_free_forward(p: Seq<char>, t: Seq<char>, i: int, j: int, len: int)
    requires
        0 <= len,
        0 <= i,
        i + len <= p.len(),
        forall|k: int| 0 <= k < len ==> #[trigger] p[i + k] != star(),
        glob_matches_from(p, t, i, j),
    ensures
        j + len <= t.len(),
        glob_matches_from(p, t, i + len, j + len),
        segment_matches(p, t, i, j, len),
    decreases len,
{
    if len > 0 {
        assert(p[i + 0] != star());
        assert forall|k: int| 0 <= k < len - 1 implies #[trigger] p[i + 1 + k] != star() by {
            assert(p[i + (k + 1)] != star());
        }
        lemma_star_free_forward(p, t, i + 1, j + 1, len - 1);
        assert forall|k: int|
            0 <= k < len implies #[trigger] p[i + k] != star() && (p[i + k] == qmark() || p[i + k]
                == t[j + k]) by {
            if k > 0 {
                assert(p[i + 1 + (k - 1)] == p[i + k]);
            }
        }
    } else {
        assert(0 <= j <= t.len());
    }
}

/// A star at `s` that matches from `b` can hand over to the rest of the pattern at some `k >= b`.
proof fn lemma_star_unroll(p: Seq<char>, t: Seq<char>, s: int, b: int)
    requires
        0 <= s < p.len(),
        p[s] == star(),
        glob_matches_from(p, t, s, b),
    ensures
        exists|k: int| b <= k <= t.len() && #[trigger] glob_matches_from(p, t, s + 1, k),
    decreases t.len() - b,
{
    if glob_matches_from(p, t, s + 1, b) {
        assert(glob_matches_from(p, t, s + 1, b));
    } else {
        lemma_star_unroll(p, t, s, b + 1);
        let k = choose|k: int| b + 1 <= k <= t.len() && #[trigger] glob_matches_from(p, t, s + 1, k);
        assert(glob_matches_from(p, t, s + 1, k));
    }
}

/// A star that matches from `a` also matches from any earlier `b`.
proof fn lemma_star_monotone(p: Seq<char>, t: Seq<char>, s: int, a: int, b: int)
    requires
        0 <= s < p.len(),
        p[s] == star(),
        0 <= b <= a,
        glob_matches_from(p, t, s, a),
    ensures
        glob_matches_from(p, t, s, b),
    decreases a - b,
{
    if b < a {
        lemma_star_monotone(p, t, s, a, b + 1);
    }
}

/// Between two stars, the first occurrence of the star-free stretch is as good as any later one.
proof fn lemma_next_star(p: Seq<char>, t: Seq<char>, sp: int, st: int, pi: int, ti: int)
    requires
        0 <= sp < pi < p.len(),
        p[sp] == star(),
        p[pi] == star(),
        segment_matches(p, t, sp + 1, st, pi - (sp + 1)),
        ti == st + (pi - (sp + 1)),
    ensures
        glob_matches_from(p, t, sp, st) == glob_matches_from(p, t, pi, ti),
{
    let len = pi - (sp + 1);
    lemma_segment(p, t, sp + 1, st, len);
    if glob_matches_from(p, t, sp, st) {
        lemma_star_unroll(p, t, sp, st);
        let k = choose|k: int| st <= k <= t.len() && #[trigger] glob_matches_from(p, t, sp + 1, k);
        assert forall|m: int| 0 <= m < len implies #[trigger] p[sp + 1 + m] != star() by {
            assert(p[sp + 1 + m] != star());
        }
        lemma_star_free_forward(p, t, sp + 1, k, len);
        lemma_star_monotone(p, t, pi, k + len, ti);
    }
}

proof fn lemma_no_step_fails(p: Seq<char>, t: Seq<char>, pi: int, ti: int)
    requires
        0 <= pi <= p.len(),
        0 <= ti < t.len(),
        !(pi < p.len() && (p[pi] == qmark() || p[pi] == t[ti])),
        !(pi < p.len() && p[pi] == star()),
    ensures
        !glob_matches_from(p, t, pi, ti),
{
}

proof fn lemma_run_decides(p: Seq<char>, t: Seq<char>, pi: int, ti: int, sp: int, st: int)
    requires
        no_star(t) || no_star(p),
        0 <= pi <= p.len(),
        0 <= st <= ti <= t.len(),
        sp < pi,
        sp < 0 ==> glob_matches(p, t) == glob_matches_from(p, t, pi, ti),
        sp >= 0 ==> {
            &&& p[sp] == star()
            &&& segment_matches(p, t, sp + 1, st, pi - (sp + 1))
            &&& ti == st + (pi - (sp + 1))
            &&& glob_matches(p, t) == glob_matches_from(p, t, sp, st)
        },
    ensures
        glob_run(p, t, pi, ti, sp, st) == glob_matches(p, t),
    decreases t.len() - st, p.len() - pi + t.len() - ti,
{
    if ti == t.len() {
        lemma_match_at_text_end(p, t, pi);
        if sp >= 0 {
            let len = pi - (sp + 1);
            lemma_segment(p, t, sp + 1, st, len);
            if glob_matches_from(p, t, sp, st) {
                lemma_star_unroll(p, t, sp, st);
                let k = choose|k: int| st <= k <= t.len() && #[trigger] glob_matches_from(p, t, sp + 1, k);
                assert forall|m: int| 0 <= m < len implies #[trigger] p[sp + 1 + m] != star() by {
                    assert(p[sp + 1 + m] != star());
                }
                lemma_star_free_forward(p, t, sp + 1, k, len);
            }
        }
    } else if pi < p.len() && (p[pi] == qmark() || p[pi] == t[ti]) {
        assert(p[pi] != star()) by {
            if no_star(t) {
                assert(t[ti] != star());
            }
        }
        if sp >= 0 {
            let len = pi - (sp + 1);
            assert(segment_matches(p, t, sp + 1, st, len + 1)) by {
                assert forall|k: int|
                    0 <= k < len + 1 implies #[trigger] p[sp + 1 + k] != star() && (p[sp + 1 + k]
                        == qmark() || p[sp + 1 + k] == t[st + k]) by {
                    if k < len {
                        assert(p[sp + 1 + k] != star());
                    }
                }
            }
        }
        lemma_run_decides(p, t, pi + 1, ti + 1, sp, st);
    } else if pi < p.len() && p[pi] == star() {
        if sp >= 0 {
            lemma_next_star(p, t, sp, st, pi, ti);
        }
        lemma_run_decides(p, t, pi + 1, ti, pi, ti);
    } else if sp >= 0 {
        let len = pi - (sp + 1);
        lemma_segment(p, t, sp + 1, st, len);
        lemma_no_step_fails(p, t, pi, ti);
        lemma_run_decides(p, t, sp + 1, st + 1, sp, st + 1);
    } else {
        lemma_no_step_fails(p, t, pi, ti);
    }
}

/// Law: where the text or the pattern holds no `*`, `glob_match` decides exactly the glob
/// semantics (`*` any run, `?` any one character, others literal).
pub proof fn lemma_glob_match_is_glob_semantics(p: Seq<char>, t: Seq<char>)
    requires
        no_star(t) || no_star(p),
    ensures
        glob_run(p, t, 0, 0, -1, 0) == glob_matches(p, t),
{
    lemma_run_decides(p, t, 0, 0, -1, 0);
}

/// An auto-group rule: sessions whose working directory matches `pattern` go to `group`.
#[derive(Debug, Clone)]
pub struct AutoGroupRule {
    pub pattern: String,
    pub group: String,
}

/// The first rule whose pattern matches the directory wins.
pub open spec fn first_match(rules: Seq<AutoGroupRule>, cwd: Seq<char>) -> Option<int> {
    if exists|i: int| 0 <= i < rules.len() && #[trigger] glob_run(rules[i].pattern@, cwd, 0, 0, -1, 0) {
        Some(choose|i: int| 0 <= i < rules.len() && #[trigger] glob_run(rules[i].pattern@, cwd, 0, 0, -1, 0)
            && forall|j: int| 0 <= j < i ==> !#[trigger] glob_run(rules[j].pattern@, cwd, 0, 0, -1, 0))
    } else {
        None
    }
}

/// The index of the rule that assigns a session with working directory `cwd`: the first
/// matching rule, if any.
pub fn matching_rule(rules: &Vec<AutoGroupRule>, cwd: &str) -> (r: Option<usize>)
    ensures
        match r {
            Some(i) => first_match(rules@, cwd@) == Some(i as int),
            None => first_match(rules@, cwd@) is None,
        },
{
    let mut i: usize = 0;
    while i < rules.len()
        invariant
            i <= rules@.len(),
            forall|j: int| 0 <= j < i ==> !#[trigger] glob_run(rules@[j].pattern@, cwd@, 0, 0, -1, 0),
        decreases rules@.len() - i,
    {
        if glob_match(rules[i].pattern.as_str(), cwd) {
            proof {
                let k = choose|k: int| 0 <= k < rules@.len() && #[trigger] glob_run(rules@[k].pattern@, cwd@, 0, 0, -1, 0)
                    && forall|j: int| 0 <= j < k ==> !#[trigger] glob_run(rules@[j].pattern@, cwd@, 0, 0, -1, 0);
                assert(glob_run(rules@[i as int].pattern@, cwd@, 0, 0, -1, 0));
                if k < i {
                    assert(!glob_run(rules@[k].pattern@, cwd@, 0, 0, -1, 0));
                } else if k > i {
                    assert(!glob_run(rules@[i as int].pattern@, cwd@, 0, 0, -1, 0));
                }
            }
            return Some(i);
        }
        i += 1;
    }
    None
}

/// What the rules do to the sessions that are in no group yet, given as `(id, cwd)`: each
/// session with a working directory that some rule matches, in order, with the index of the
/// first rule that matches it. Sessions without a directory, or that no rule matches, stay
/// where they are.
pub open spec fn rule_assignments(rules: Seq<AutoGroupRule>, sessions: Seq<(String, Option<String>)>) -> Seq<(Seq<char>, int)>
    decreases sessions.len(),
{
    if sessions.len() == 0 {
        Seq::empty()
    } else {
        let before = rule_assignments(rules, sessions.drop_last());
        let (id, cwd) = sessions.last();
        match cwd {
            Some(c) => match first_match(rules, c@) {
                Some(k) => before.push((id@, k)),
                None => before,
            },
            None => before,
        }
    }
}

/// The assignments that the rules make, as `(session id, rule index)`; the group of an
/// assignment is the group of its rule, and their number is the number of sessions that
/// are newly assigned.
pub fn plan_rule_assignments(rules: &Vec<AutoGroupRule>, sessions: &Vec<(String, Option<String>)>) -> (r: Vec<(String, usize)>)
    ensures
        r@.map_values(|p: (String, usize)| (p.0@, p.1 as int)) == rule_assignments(rules@, sessions@),
{
    let mut out: Vec<(String, usize)> = Vec::new();
    let mut k: usize = 0;
    while k < sessions.len()
        invariant
            k <= sessions@.len(),
            out@.map_values(|p: (String, usize)| (p.0@, p.1 as int)) == rule_assignments(rules@, sessions@.take(k as int)),
        decreases sessions@.len() - k,
    {
        proof {
            assert(sessions@.take(k + 1).drop_last() =~= sessions@.take(k as int));
        }
        let ghost before = out@;
        match &sessions[k].1 {
            Some(cwd) => {
                match matching_rule(rules, cwd.as_str()) {
                    Some(i) => {
                        out.push((sessions[k].0.clone(), i));
                        assert(out@.map_values(|p: (String, usize)| (p.0@, p.1 as int)) =~= before.map_values(|p: (String, usize)| (p.0@, p.1 as int)).push((sessions@[k as int].0@, i as int)));
                    },
                    None => {},
                }
            },
            None => {},
        }
        k += 1;
    }
    assert(sessions@.take(sessions@.len() as int) =~= sessions@);
    out
}

} // verus!
