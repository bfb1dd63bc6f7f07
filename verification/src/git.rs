use vstd::prelude::*;
use crate::strutil::{is_ascii_alnum, is_ascii_alnum_exec, push_char, push_str, str_chars, string_from_chars, sub_chars};
use crate::time_utils::{trim_chars, trimmed};

verus! {

broadcast use vstd::string::group_string_axioms;

// ---------------------------------------------------------------------------
// Repository detection
// ---------------------------------------------------------------------------

/// A git work tree, by its root directory.
#[derive(Debug, Clone)]
pub struct RepoInfo {
    pub root: String,
}

/// Whether `git rev-parse --is-inside-work-tree` answered yes: it succeeded and printed
/// `true` (surrounding whitespace aside).
pub fn inside_work_tree(success: bool, stdout: &str) -> (r: bool)
    ensures
        r == (success && trimmed(stdout@) == "true"@),
{
    if !success {
        return false;
    }
    let t = trim_chars(&str_chars(stdout));
    let expected = str_chars("true");
    proof {
        reveal_strlit("true");
    }
    if t.len() != expected.len() {
        assert(t@.len() != "true"@.len());
        return false;
    }
    let mut i: usize = 0;
    while i < t.len()
        invariant
            t@ == trimmed(stdout@),
            expected@ == "true"@,
            t@.len() == expected@.len(),
            i <= t@.len(),
            forall|j: int| 0 <= j < i ==> t@[j] == expected@[j],
        decreases t@.len() - i,
    {
        if t[i] != expected[i] {
            assert(t@[i as int] != "true"@[i as int]);
            return false;
        }
        i += 1;
    }
    assert(t@ =~= "true"@);
    true
}

/// The repo whose root `git rev-parse --show-toplevel` printed: its output without
/// surrounding whitespace, when the command succeeded and printed something.
pub fn repo_from_toplevel(success: bool, stdout: &str) -> (r: Option<RepoInfo>)
    ensures
        match r {
            Some(info) => success && trimmed(stdout@).len() > 0 && info.root@ == trimmed(stdout@),
            None => !success || trimmed(stdout@).len() == 0,
        },
{
    if !success {
        return None;
    }
    let t = trim_chars(&str_chars(stdout));
    if t.len() == 0 {
        return None;
    }
    Some(RepoInfo { root: string_from_chars(t.as_slice()) })
}

/// A character that may stay in a git ref component as it is.
pub open spec fn is_ref_char(c: char) -> bool {
    is_ascii_alnum(c) || c == '.' || c == '_' || c == '/' || c == '-'
}

/// Every character outside the allowlist becomes `-`.
pub open spec fn map_ref_chars(s: Seq<char>) -> Seq<char> {
    Seq::new(s.len(), |i: int| if is_ref_char(s[i]) { s[i] } else { '-' })
}

/// Each run of `c` shrinks to a single `c`.
pub open spec fn collapse_runs(s: Seq<char>, c: char) -> Seq<char>
    decreases s.len(),
{
    if s.len() == 0 {
        s
    } else if s.len() >= 2 && s.last() == c && s[s.len() - 2] == c {
        collapse_runs(s.drop_last(), c)
    } else {
        collapse_runs(s.drop_last(), c).push(s.last())
    }
}

/// `s` without its leading `c`s.
pub open spec fn trim_start_char(s: Seq<char>, c: char) -> Seq<char>
    decreases s.len(),
{
    if s.len() > 0 && s[0] == c {
        trim_start_char(s.drop_first(), c)
    } else {
        s
    }
}

/// `s` without its trailing `c`s.
pub open spec fn trim_end_char(s: Seq<char>, c: char) -> Seq<char>
    decreases s.len(),
{
    if s.len() > 0 && s.last() == c {
        trim_end_char(s.drop_last(), c)
    } else {
        s
    }
}

/// `s` without its leading and trailing `c`s.
pub open spec fn trim_char(s: Seq<char>, c: char) -> Seq<char> {
    trim_end_char(trim_start_char(s, c), c)
}

pub open spec fn lock_suffix() -> Seq<char> {
    seq!['.', 'l', 'o', 'c', 'k']
}

/// `s` without a trailing `.lock`.
pub open spec fn strip_lock_suffix(s: Seq<char>) -> Seq<char> {
    if s.len() >= 5 && s.subrange(s.len() - 5, s.len() as int) == lock_suffix() {
        s.subrange(0, s.len() - 5)
    } else {
        s
    }
}

/// The ref component that `sanitize_ref_component` makes of `s`: allowlist filter,
/// runs of `-` collapsed and trimmed, runs of `.` collapsed and leading dots removed,
/// runs of `/` collapsed and trimmed, and a trailing `.lock` removed.
pub open spec fn sanitized_ref(s: Seq<char>) -> Seq<char> {
    let a = trim_char(collapse_runs(map_ref_chars(s), '-'), '-');
    let b = trim_start_char(collapse_runs(a, '.'), '.');
    let c = trim_char(collapse_runs(b, '/'), '/');
    strip_lock_suffix(c)
}

fn map_ref_chars_exec(v: &Vec<char>) -> (r: Vec<char>)
    ensures
        r@ == map_ref_chars(v@),
{
    let mut r: Vec<char> = Vec::new();
    let mut i: usize = 0;
    while i < v.len()
        invariant
            i <= v@.len(),
            r@ == map_ref_chars(v@.subrange(0, i as int)),
        decreases v@.len() - i,
    {
        let c = v[i];
        if is_ascii_alnum_exec(c) || c == '.' || c == '_' || c == '/' || c == '-' {
            r.push(c);
        } else {
            r.push('-');
        }
        i += 1;
        assert(r@ =~= map_ref_chars(v@.subrange(0, i as int)));
    }
    assert(v@.subrange(0, i as int) =~= v@);
    r
}

fn collapse_runs_exec(v: &Vec<char>, c: char) -> (r: Vec<char>)
    ensures
        r@ == collapse_runs(v@, c),
{
    let mut r: Vec<char> = Vec::new();
    let mut i: usize = 0;
    while i < v.len()
        invariant
            i <= v@.len(),
            r@ == collapse_runs(v@.subrange(0, i as int), c),
        decreases v@.len() - i,
    {
        let ghost pre = v@.subrange(0, i + 1);
        proof {
            assert(pre.drop_last() =~= v@.subrange(0, i as int));
            assert(pre.last() == v@[i as int]);
            if i >= 1 {
                assert(pre[pre.len() - 2] == v@[i - 1]);
            }
        }
        if !(i >= 1 && v[i] == c && v[i - 1] == c) {
            r.push(v[i]);
        }
        i += 1;
    }
    assert(v@.subrange(0, i as int) =~= v@);
    r
}

fn trim_start_exec(v: &Vec<char>, c: char) -> (r: Vec<char>)
    ensures
        r@ == trim_start_char(v@, c),
{
    let mut start: usize = 0;
    assert(v@.subrange(0, v@.len() as int) =~= v@);
    while start < v.len() && v[start] == c
        invariant
            start <= v@.len(),
            trim_start_char(v@, c) == trim_start_char(v@.subrange(start as int, v@.len() as int), c),
        decreases v@.len() - start,
    {
        proof {
            assert(v@.subrange(start as int, v@.len() as int).drop_first() =~= v@.subrange(start + 1, v@.len() as int));
        }
        start += 1;
    }
    let mut r: Vec<char> = Vec::new();
    let mut k = start;
    while k < v.len()
        invariant
            start <= k <= v@.len(),
            r@ == v@.subrange(start as int, k as int),
        decreases v@.len() - k,
    {
        r.push(v[k]);
        k += 1;
        assert(r@ =~= v@.subrange(start as int, k as int));
    }
    proof {
        let rest = v@.subrange(start as int, v@.len() as int);
        if rest.len() > 0 {
            assert(rest[0] == v@[start as int]);
        }
    }
    r
}

fn trim_end_exec(v: &Vec<char>, c: char) -> (r: Vec<char>)
    ensures
        r@ == trim_end_char(v@, c),
{
    let mut end: usize = v.len();
    assert(v@.subrange(0, v@.len() as int) =~= v@);
    while end > 0 && v[end - 1] == c
        invariant
            end <= v@.len(),
            trim_end_char(v@, c) == trim_end_char(v@.subrange(0, end as int), c),
        decreases end,
    {
        proof {
            assert(v@.subrange(0, end as int).drop_last() =~= v@.subrange(0, end - 1));
        }
        end -= 1;
    }
    let mut r: Vec<char> = Vec::new();
    let mut k: usize = 0;
    while k < end
        invariant
            k <= end <= v@.len(),
            r@ == v@.subrange(0, k as int),
        decreases end - k,
    {
        r.push(v[k]);
        k += 1;
        assert(r@ =~= v@.subrange(0, k as int));
    }
    r
}

fn strip_lock_exec(v: Vec<char>) -> (r: Vec<char>)
    ensures
        r@ == strip_lock_suffix(v@),
{
    let n = v.len();
    if n >= 5 && v[n - 5] == '.' && v[n - 4] == 'l' && v[n - 3] == 'o' && v[n - 2] == 'c' && v[n - 1] == 'k' {
        assert(v@.subrange(n - 5, n as int) =~= lock_suffix());
        let mut r: Vec<char> = Vec::new();
        let mut k: usize = 0;
        while k < n - 5
            invariant
                n == v@.len(),
                n >= 5,
                k <= n - 5,
                r@ == v@.subrange(0, k as int),
            decreases n - 5 - k,
        {
            r.push(v[k]);
            k += 1;
            assert(r@ =~= v@.subrange(0, k as int));
        }
        r
    } else {
        proof {
            if n >= 5 && v@.subrange(n - 5, n as int) == lock_suffix() {
                assert(v@[n - 5] == v@.subrange(n - 5, n as int)[0]);
                assert(v@[n - 4] == v@.subrange(n - 5, n as int)[1]);
                assert(v@[n - 3] == v@.subrange(n - 5, n as int)[2]);
                assert(v@[n - 2] == v@.subrange(n - 5, n as int)[3]);
                assert(v@[n - 1] == v@.subrange(n - 5, n as int)[4]);
            }
        }
        v
    }
}

/// Core sanitization: allowlist filter, collapse dashes/slashes, strip unsafe sequences.
fn sanitize_ref_component(input: &str) -> (r: Vec<char>)
    ensures
        r@ == sanitized_ref(input@),
{
    let chars = str_chars(input);
    let mapped = map_ref_chars_exec(&chars);
    let dashed = collapse_runs_exec(&mapped, '-');
    let a = trim_end_exec(&trim_start_exec(&dashed, '-'), '-');
    let dotted = collapse_runs_exec(&a, '.');
    let b = trim_start_exec(&dotted, '.');
    let slashed = collapse_runs_exec(&b, '/');
    let c = trim_end_exec(&trim_start_exec(&slashed, '/'), '/');
    strip_lock_exec(c)
}

// ---------------------------------------------------------------------------
// Law: what survives sanitization
// ---------------------------------------------------------------------------

/// Every character of `s` is in the ref allowlist.
pub open spec fn all_ref_chars(s: Seq<char>) -> bool {
    forall|i: int| 0 <= i < s.len() ==> is_ref_char(#[trigger] s[i])
}

/// No two neighbouring characters of `s` are both `c`.
pub open spec fn no_double(s: Seq<char>, c: char) -> bool {
    forall|i: int| 0 <= i < s.len() - 1 ==> !(#[trigger] s[i] == c && s[i + 1] == c)
}

/// `r` is `s[lo..hi]`.
pub open spec fn is_slice_of(r: Seq<char>, s: Seq<char>) -> bool {
    exists|lo: int, hi: int| 0 <= lo <= hi <= s.len() && r == s.subrange(lo, hi)
}

proof fn lemma_slice_keeps(r: Seq<char>, s: Seq<char>, c: char)
    requires
        is_slice_of(r, s),
    ensures
        all_ref_chars(s) ==> all_ref_chars(r),
        no_double(s, c) ==> no_double(r, c),
{
    let (lo, hi) = choose|lo: int, hi: int| 0 <= lo <= hi <= s.len() && r == s.subrange(lo, hi);
    if all_ref_chars(s) {
        assert forall|i: int| 0 <= i < r.len() implies is_ref_char(#[trigger] r[i]) by {
            assert(r[i] == s[lo + i]);
        }
    }
    if no_double(s, c) {
        assert forall|i: int| 0 <= i < r.len() - 1 implies !(#[trigger] r[i] == c && r[i + 1] == c) by {
            assert(r[i] == s[lo + i]);
            assert(r[i + 1] == s[lo + i + 1]);
        }
    }
}

proof fn lemma_trim_start_slice(s: Seq<char>, c: char)
    ensures
        is_slice_of(trim_start_char(s, c), s),
        trim_start_char(s, c).len() > 0 ==> trim_start_char(s, c)[0] != c,
    decreases s.len(),
{
    if s.len() > 0 && s[0] == c {
        lemma_trim_start_slice(s.drop_first(), c);
        let t = s.drop_first();
        let (lo, hi) = choose|lo: int, hi: int|
            0 <= lo <= hi <= t.len() && trim_start_char(t, c) == t.subrange(lo, hi);
        assert(t.subrange(lo, hi) =~= s.subrange(lo + 1, hi + 1));
    } else {
        assert(s.subrange(0, s.len() as int) =~= s);
    }
}

proof fn lemma_trim_end_slice(s: Seq<char>, c: char)
    ensures
        is_slice_of(trim_end_char(s, c), s),
        trim_end_char(s, c).len() > 0 && s.len() > 0 && s[0] != c ==> trim_end_char(s, c)[0] != c,
        trim_end_char(s, c).len() > 0 ==> trim_end_char(s, c).last() != c,
    decreases s.len(),
{
    if s.len() > 0 && s.last() == c {
        lemma_trim_end_slice(s.drop_last(), c);
        let t = s.drop_last();
        let (lo, hi) = choose|lo: int, hi: int|
            0 <= lo <= hi <= t.len() && trim_end_char(t, c) == t.subrange(lo, hi);
        assert(t.subrange(lo, hi) =~= s.subrange(lo, hi));
        if trim_end_char(s, c).len() > 0 && s[0] != c {
            assert(t[0] == s[0]);
        }
    } else {
        assert(s.subrange(0, s.len() as int) =~= s);
    }
}

proof fn lemma_strip_lock_slice(s: Seq<char>)
    ensures
        is_slice_of(strip_lock_suffix(s), s),
{
    if s.len() >= 5 && s.subrange(s.len() - 5, s.len() as int) == lock_suffix() {
    } else {
        assert(s.subrange(0, s.len() as int) =~= s);
    }
}

proof fn lemma_collapse(s: Seq<char>, c: char, d: char)
    ensures
        all_ref_chars(s) ==> all_ref_chars(collapse_runs(s, c)),
        no_double(collapse_runs(s, c), c),
        d != c && no_double(s, d) ==> no_double(collapse_runs(s, c), d),
        collapse_runs(s, c).len() == 0 <==> s.len() == 0,
        s.len() > 0 ==> collapse_runs(s, c).last() == s.last(),
        s.len() > 0 ==> collapse_runs(s, c)[0] == s[0],
    decreases s.len(),
{
    if s.len() > 0 {
        let t = s.drop_last();
        lemma_collapse(t, c, d);
        let r = collapse_runs(t, c);
        if all_ref_chars(s) {
            assert forall|i: int| 0 <= i < t.len() implies is_ref_char(#[trigger] t[i]) by {
                assert(t[i] == s[i]);
            }
        }
        if d != c && no_double(s, d) {
            assert forall|i: int| 0 <= i < t.len() - 1 implies !(#[trigger] t[i] == d && t[i + 1] == d) by {
                assert(t[i] == s[i]);
                assert(t[i + 1] == s[i + 1]);
            }
        }
        if s.len() >= 2 && s.last() == c && s[s.len() - 2] == c {
            assert(t.last() == s[s.len() - 2]);
        } else {
            let r2 = r.push(s.last());
            if t.len() > 0 {
                assert(t.last() == s[s.len() - 2]);
                assert(r[r.len() - 1] == t.last());
            }
            if all_ref_chars(s) {
                assert forall|i: int| 0 <= i < r2.len() implies is_ref_char(#[trigger] r2[i]) by {
                    if i == r.len() {
                        assert(r2[i] == s[s.len() - 1]);
                    }
                }
            }
            assert forall|i: int| 0 <= i < r2.len() - 1 implies !(#[trigger] r2[i] == c && r2[i + 1] == c) by {
                if i == r.len() - 1 {
                    assert(r2[i] == r[i]);
                    assert(r2[i + 1] == s.last());
                } else {
                    assert(r2[i] == r[i]);
                    assert(r2[i + 1] == r[i + 1]);
                }
            }
            if d != c && no_double(s, d) {
                assert forall|i: int| 0 <= i < r2.len() - 1 implies !(#[trigger] r2[i] == d && r2[i + 1] == d) by {
                    if i == r.len() - 1 {
                        assert(r2[i] == r[i]);
                        assert(r2[i + 1] == s.last());
                        assert(s[s.len() - 2] == t.last());
                    } else {
                        assert(r2[i] == r[i]);
                        assert(r2[i + 1] == r[i + 1]);
                    }
                }
            }
            if t.len() > 0 {
                assert(r2[0] == r[0]);
                assert(t[0] == s[0]);
            }
        }
        if t.len() > 0 {
            assert(t[0] == s[0]);
        }
    }
}

proof fn lemma_map_ref_chars(s: Seq<char>)
    ensures
        all_ref_chars(map_ref_chars(s)),
{
}

/// Law: a sanitized ref component holds only `[a-zA-Z0-9._/-]`, never `..` or `//`,
/// and never starts with `/`.
pub proof fn lemma_sanitized_ref_is_safe(s: Seq<char>)
    ensures
        all_ref_chars(sanitized_ref(s)),
        no_double(sanitized_ref(s), '.'),
        no_double(sanitized_ref(s), '/'),
        sanitized_ref(s).len() > 0 ==> sanitized_ref(s)[0] != '/',
{
    let m = map_ref_chars(s);
    lemma_map_ref_chars(s);
    let m1 = collapse_runs(m, '-');
    lemma_collapse(m, '-', '.');
    let m2 = trim_start_char(m1, '-');
    lemma_trim_start_slice(m1, '-');
    lemma_slice_keeps(m2, m1, '.');
    let a = trim_end_char(m2, '-');
    lemma_trim_end_slice(m2, '-');
    lemma_slice_keeps(a, m2, '.');
    let a1 = collapse_runs(a, '.');
    lemma_collapse(a, '.', '/');
    let b = trim_start_char(a1, '.');
    lemma_trim_start_slice(a1, '.');
    lemma_slice_keeps(b, a1, '.');
    let b1 = collapse_runs(b, '/');
    lemma_collapse(b, '/', '.');
    let b2 = trim_start_char(b1, '/');
    lemma_trim_start_slice(b1, '/');
    lemma_slice_keeps(b2, b1, '.');
    lemma_slice_keeps(b2, b1, '/');
    let c = trim_end_char(b2, '/');
    lemma_trim_end_slice(b2, '/');
    lemma_slice_keeps(c, b2, '.');
    lemma_slice_keeps(c, b2, '/');
    let r = strip_lock_suffix(c);
    lemma_strip_lock_slice(c);
    lemma_slice_keeps(r, c, '.');
    lemma_slice_keeps(r, c, '/');
    if r.len() > 0 {
        let (lo, hi) = choose|lo: int, hi: int| 0 <= lo <= hi <= c.len() && r == c.subrange(lo, hi);
        assert(r[0] == c[0]);
    }
}

/// The branch name that `sanitize_branch_name` makes.
pub open spec fn branch_name(session_name: Seq<char>, prefix: Seq<char>) -> Seq<char> {
    let s = sanitized_ref(session_name);
    if s.len() == 0 {
        if prefix.len() == 0 {
            "session"@
        } else {
            prefix + seq!['/'] + "session"@
        }
    } else if prefix.len() == 0 {
        s
    } else {
        prefix + seq!['/'] + s
    }
}

/// Sanitize a session name into a valid git branch name.
/// Allowlist: only `[a-zA-Z0-9._/-]` survive. Prefixed with `prefix` and `/`
/// unless the prefix is empty.
pub fn sanitize_branch_name(session_name: &str, prefix: &str) -> (r: String)
    ensures
        r@ == branch_name(session_name@, prefix@),
{
    let sanitized = sanitize_ref_component(session_name);
    let mut out = String::new();
    if !prefix.is_empty() {
        push_str(&mut out, prefix);
        push_char(&mut out, '/');
    }
    if sanitized.len() == 0 {
        push_str(&mut out, "session");
    } else {
        let s = string_from_chars(sanitized.as_slice());
        push_str(&mut out, s.as_str());
    }
    assert(out@ =~= branch_name(session_name@, prefix@));
    out
}

/// `.` and `_` become `-`.
pub open spec fn dots_to_dashes(s: Seq<char>) -> Seq<char> {
    Seq::new(s.len(), |i: int| if s[i] == '.' || s[i] == '_' { '-' } else { s[i] })
}

/// The prefix that `normalize_prefix` makes of `raw`.
pub open spec fn normalized_prefix(raw: Seq<char>) -> Seq<char> {
    if raw.len() == 0 {
        raw
    } else {
        sanitized_ref(dots_to_dashes(raw))
    }
}

/// Normalize a prefix string: replace dots/underscores with dashes, then sanitize.
pub fn normalize_prefix(raw: &str) -> (r: String)
    ensures
        r@ == normalized_prefix(raw@),
{
    let chars = str_chars(raw);
    if chars.len() == 0 {
        return String::new();
    }
    let mut replaced: Vec<char> = Vec::new();
    let mut i: usize = 0;
    while i < chars.len()
        invariant
            i <= chars@.len(),
            replaced@ == dots_to_dashes(chars@.subrange(0, i as int)),
        decreases chars@.len() - i,
    {
        if chars[i] == '.' || chars[i] == '_' {
            replaced.push('-');
        } else {
            replaced.push(chars[i]);
        }
        i += 1;
        assert(replaced@ =~= dots_to_dashes(chars@.subrange(0, i as int)));
    }
    assert(chars@.subrange(0, i as int) =~= chars@);
    let rs = string_from_chars(replaced.as_slice());
    let out = sanitize_ref_component(rs.as_str());
    string_from_chars(out.as_slice())
}

/// The prefix chosen from the per-repo setting, the global setting and the repo
/// directory's name, in that order of priority.
pub open spec fn chosen_branch_prefix(
    repo_prefix: Option<Seq<char>>,
    global_prefix: Option<Seq<char>>,
    dir_name: Option<Seq<char>>,
) -> Seq<char> {
    match repo_prefix {
        Some(p) => normalized_prefix(p),
        None => match global_prefix {
            Some(g) => normalized_prefix(g),
            None => match dir_name {
                Some(d) => normalized_prefix(d),
                None => normalized_prefix("session"@),
            },
        },
    }
}

/// Resolve the worktree branch prefix.
/// Priority: per-repo `.nexus.toml` `branch_prefix` > global config > repo directory name
/// (`session` when the repo root has no name).
pub fn resolve_branch_prefix(
    repo_prefix: Option<&str>,
    global_prefix: Option<&str>,
    dir_name: Option<&str>,
) -> (r: String)
    ensures
        r@ == chosen_branch_prefix(
            match repo_prefix { Some(p) => Some(p@), None => None },
            match global_prefix { Some(p) => Some(p@), None => None },
            match dir_name { Some(p) => Some(p@), None => None },
        ),
{
    if let Some(prefix) = repo_prefix {
        return normalize_prefix(prefix);
    }
    if let Some(prefix) = global_prefix {
        return normalize_prefix(prefix);
    }
    match dir_name {
        Some(d) => normalize_prefix(d),
        None => normalize_prefix("session"),
    }
}

// ---------------------------------------------------------------------------
// Hook resolution
// ---------------------------------------------------------------------------

/// `Path::join` on `/`-separated text: an absolute `rel` replaces `base`; otherwise a
/// separator is put between them when `base` is non-empty and does not end in one.
pub open spec fn path_join(base: Seq<char>, rel: Seq<char>) -> Seq<char> {
    if rel.len() > 0 && rel[0] == '/' {
        rel
    } else if base.len() > 0 && base.last() != '/' {
        base + seq!['/'] + rel
    } else {
        base + rel
    }
}

pub fn path_join_exec(base: &str, rel: &str) -> (r: String)
    ensures
        r@ == path_join(base@, rel@),
{
    let b = str_chars(base);
    let rl = str_chars(rel);
    if rl.len() > 0 && rl[0] == '/' {
        return rel.to_owned();
    }
    let mut out = base.to_owned();
    if b.len() > 0 && b[b.len() - 1] != '/' {
        push_char(&mut out, '/');
    }
    push_str(&mut out, rel);
    out
}

/// `s` has a `..` component (a `/`-separated piece equal to `..`).
pub open spec fn has_parent_component(s: Seq<char>) -> bool {
    exists|i: int|
        0 <= i && i + 2 <= s.len() && #[trigger] s[i] == '.' && s[i + 1] == '.' && (i == 0 || s[i - 1]
            == '/') && (i + 2 == s.len() || s[i + 2] == '/')
}

fn has_parent_component_exec(s: &str) -> (r: bool)
    ensures
        r == has_parent_component(s@),
{
    let v = str_chars(s);
    let n = v.len();
    let mut i: usize = 0;
    while i < n && n - i >= 2
        invariant
            n == v@.len(),
            i <= n,
            v@ == s@,
            forall|j: int|
                0 <= j < i ==> !(j + 2 <= v@.len() && #[trigger] v@[j] == '.' && v@[j + 1] == '.' && (j == 0
                    || v@[j - 1] == '/') && (j + 2 == v@.len() || v@[j + 2] == '/')),
        decreases n - i,
    {
        if v[i] == '.' && v[i + 1] == '.' && (i == 0 || v[i - 1] == '/') && (i + 2 == n || v[i + 2] == '/') {
            return true;
        }
        i += 1;
    }
    false
}

/// The tilde expansion of a configured hook path: a leading `~/` is replaced by the
/// home directory when it is known.
pub open spec fn expanded_hook_path(path: Seq<char>, home: Option<Seq<char>>) -> Seq<char> {
    if path.len() >= 2 && path[0] == '~' && path[1] == '/' && home is Some {
        path_join(home->0, path.skip(2))
    } else {
        path
    }
}

fn expand_tilde_hook(path: &str, home: Option<&str>) -> (r: String)
    ensures
        r@ == expanded_hook_path(path@, match home { Some(h) => Some(h@), None => None }),
{
    let v = str_chars(path);
    if v.len() >= 2 && v[0] == '~' && v[1] == '/' {
        if let Some(h) = home {
            let rest_chars = sub_chars(&v, 2, v.len());
            let rest = string_from_chars(rest_chars.as_slice());
            proof {
                assert(rest@ == path@.skip(2));
            }
            return path_join_exec(h, rest.as_str());
        }
    }
    path.to_owned()
}

/// The only path that hook resolution will consider, if any: the per-repo setting for
/// this hook (relative to the repo root; rejected when it has a `..` component), else
/// the global setting (tilde-expanded), else `{repo_root}/.nexus/{hook_name}`.
pub open spec fn hook_candidate(
    repo_root: Seq<char>,
    hook_name: Seq<char>,
    repo_on_create: Option<Seq<char>>,
    repo_on_teardown: Option<Seq<char>>,
    global_path: Option<Seq<char>>,
    home: Option<Seq<char>>,
) -> Option<Seq<char>> {
    let repo_path = if hook_name == "on-worktree-create"@ {
        repo_on_create
    } else if hook_name == "on-worktree-teardown"@ {
        repo_on_teardown
    } else {
        None
    };
    match repo_path {
        Some(rel) => if has_parent_component(rel) {
            None
        } else {
            Some(path_join(repo_root, rel))
        },
        None => match global_path {
            Some(g) => Some(expanded_hook_path(g, home)),
            None => Some(path_join(path_join(repo_root, ".nexus"@), hook_name)),
        },
    }
}

pub open spec fn opt_view(o: Option<&str>) -> Option<Seq<char>> {
    match o {
        Some(s) => Some(s@),
        None => None,
    }
}

/// Resolve a hook path using the config priority chain:
/// 1. Per-repo `.nexus.toml` path (resolved relative to repo root; a `..` component is rejected)
/// 2. Global `config.toml` path (tilde-expanded)
/// 3. Convention: `{repo_root}/.nexus/{hook_name}`
///
/// Only the first configured source is considered: when it names a file that `is_valid_hook`
/// rejects, the result is `None`, with no fall-through. `is_valid_hook` checks the file
/// (exists, regular file, not a symlink, executable).
pub fn resolve_hook_path<F: Fn(&str) -> bool>(
    repo_root: &str,
    hook_name: &str,
    repo_on_create: Option<&str>,
    repo_on_teardown: Option<&str>,
    global_config_path: Option<&str>,
    home: Option<&str>,
    is_valid_hook: F,
) -> (r: Option<String>)
    requires
        forall|p: &str| #[trigger] is_valid_hook.requires((p,)),
    ensures
        ({
            let cand = hook_candidate(
                repo_root@,
                hook_name@,
                opt_view(repo_on_create),
                opt_view(repo_on_teardown),
                opt_view(global_config_path),
                opt_view(home),
            );
            match r {
                Some(path) => cand == Some(path@) && exists|p: &str| p@ == path@ && #[trigger] is_valid_hook.ensures((p,), true),
                None => cand is None || exists|p: &str| p@ == cand->0 && #[trigger] is_valid_hook.ensures((p,), false),
            }
        }),
{
    let cand = hook_candidate_exec(repo_root, hook_name, repo_on_create, repo_on_teardown, global_config_path, home);
    match cand {
        Some(path) => {
            let ok = is_valid_hook(path.as_str());
            if ok {
                Some(path)
            } else {
                None
            }
        },
        None => None,
    }
}

fn hook_candidate_exec(
    repo_root: &str,
    hook_name: &str,
    repo_on_create: Option<&str>,
    repo_on_teardown: Option<&str>,
    global_path: Option<&str>,
    home: Option<&str>,
) -> (r: Option<String>)
    ensures
        match r {
            Some(s) => hook_candidate(repo_root@, hook_name@, opt_view(repo_on_create), opt_view(repo_on_teardown), opt_view(global_path), opt_view(home)) == Some(s@),
            None => hook_candidate(repo_root@, hook_name@, opt_view(repo_on_create), opt_view(repo_on_teardown), opt_view(global_path), opt_view(home)) is None,
        },
{
    let name = hook_name.to_owned();
    let create = "on-worktree-create".to_owned();
    let teardown = "on-worktree-teardown".to_owned();
    let repo_path = if name == create {
        repo_on_create
    } else if name == teardown {
        repo_on_teardown
    } else {
        None
    };
    match repo_path {
        Some(rel) => {
            if has_parent_component_exec(rel) {
                None
            } else {
                Some(path_join_exec(repo_root, rel))
            }
        },
        None => match global_path {
            Some(g) => Some(expand_tilde_hook(g, home)),
            None => {
                let dir = path_join_exec(repo_root, ".nexus");
                Some(path_join_exec(dir.as_str(), hook_name))
            },
        },
    }
}

/// The environment passed to a worktree hook.
pub fn hook_env_vars(
    repo_root: &str,
    worktree_path: &str,
    branch: &str,
    session_name: &str,
) -> (r: Vec<(String, String)>)
    ensures
        r@.len() == 4,
        r@[0].0@ == "NEXUS_WORKTREE_PATH"@ && r@[0].1@ == worktree_path@,
        r@[1].0@ == "NEXUS_BRANCH"@ && r@[1].1@ == branch@,
        r@[2].0@ == "NEXUS_SESSION_NAME"@ && r@[2].1@ == session_name@,
        r@[3].0@ == "NEXUS_REPO_ROOT"@ && r@[3].1@ == repo_root@,
{
    let mut v: Vec<(String, String)> = Vec::new();
    v.push(("NEXUS_WORKTREE_PATH".to_owned(), worktree_path.to_owned()));
    v.push(("NEXUS_BRANCH".to_owned(), branch.to_owned()));
    v.push(("NEXUS_SESSION_NAME".to_owned(), session_name.to_owned()));
    v.push(("NEXUS_REPO_ROOT".to_owned(), repo_root.to_owned()));
    v
}

} // verus!
