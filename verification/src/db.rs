//! The logic of the session database that does not touch SQLite: picking a unique tmux
//! name among the names in use, and assembling the session tree from query rows.

use vstd::prelude::*;
use crate::numfmt::{decimal, digit_char, u64_to_string};
use crate::scanner::str_eq;
use crate::strutil::push_str;
use crate::types::{
    GroupIcon, GroupId, GroupNode, SessionOrigin, SessionStatus, SessionSummary, SessionSummaryView, TreeNode, WorktreeInfo,
    opt_text, origin_from_text, status_from_text,
};

verus! {

broadcast use vstd::string::group_string_axioms;

// ---------------------------------------------------------------------------
// Tmux name uniqueness
// ---------------------------------------------------------------------------

/// A name is taken when some session uses it, unless it is the excluded session's own name.
pub open spec fn name_taken(name: Seq<char>, existing: Seq<Seq<char>>, excluded: Option<Seq<char>>) -> bool {
    excluded != Some(name) && existing.contains(name)
}

/// `base` with the suffix `-k`.
pub open spec fn suffixed(base: Seq<char>, k: nat) -> Seq<char> {
    base + seq!['-'] + decimal(k)
}

/// The first of `base`, `base-2`, `base-3`, ... that is not taken.
pub open spec fn unique_name(base: Seq<char>, existing: Seq<Seq<char>>, excluded: Option<Seq<char>>) -> Seq<char> {
    if !name_taken(base, existing, excluded) {
        base
    } else {
        let k = choose|k: nat| k >= 2 && !name_taken(suffixed(base, k), existing, excluded)
            && forall|j: nat| 2 <= j < k ==> #[trigger] name_taken(suffixed(base, j), existing, excluded);
        suffixed(base, k)
    }
}

pub open spec fn string_views(v: Seq<String>) -> Seq<Seq<char>> {
    v.map_values(|s: String| s@)
}

pub open spec fn opt_str_view(o: Option<&str>) -> Option<Seq<char>> {
    match o {
        Some(s) => Some(s@),
        None => None,
    }
}

proof fn lemma_decimal_len(n: nat)
    ensures
        decimal(n).len() >= 1,
        n >= 10 ==> decimal(n).len() >= 2,
    decreases n,
{
    if n >= 10 {
        lemma_decimal_len(n / 10);
    }
}

proof fn lemma_digit_char_injective(a: nat, b: nat)
    requires
        a < 10,
        b < 10,
        digit_char(a) == digit_char(b),
    ensures
        a == b,
{
}

/// Different numbers have different decimal forms.
proof fn lemma_decimal_injective(a: nat, b: nat)
    requires
        decimal(a) == decimal(b),
    ensures
        a == b,
    decreases a,
{
    lemma_decimal_len(a);
    lemma_decimal_len(b);
    if a < 10 && b < 10 {
        assert(decimal(a)[0] == digit_char(a));
        assert(decimal(b)[0] == digit_char(b));
        lemma_digit_char_injective(a, b);
    } else if a >= 10 && b >= 10 {
        let da = decimal(a);
        let db = decimal(b);
        assert(da.last() == digit_char(a % 10));
        assert(db.last() == digit_char(b % 10));
        lemma_digit_char_injective(a % 10, b % 10);
        assert(da.drop_last() =~= decimal(a / 10));
        assert(db.drop_last() =~= decimal(b / 10));
        lemma_decimal_injective(a / 10, b / 10);
    }
}

proof fn lemma_suffixed_injective(base: Seq<char>, a: nat, b: nat)
    requires
        suffixed(base, a) == suffixed(base, b),
    ensures
        a == b,
{
    let n: int = base.len() as int + 1;
    assert(suffixed(base, a).skip(n) =~= decimal(a));
    assert(suffixed(base, b).skip(n) =~= decimal(b));
    lemma_decimal_injective(a, b);
}

/// When `base-2` .. `base-(k-1)` are all taken, there are at least `k - 2` names in use.
proof fn lemma_taken_bound(base: Seq<char>, existing: Seq<Seq<char>>, excluded: Option<Seq<char>>, k: nat)
    requires
        k >= 2,
        forall|j: nat| 2 <= j < k ==> #[trigger] name_taken(suffixed(base, j), existing, excluded),
    ensures
        k - 2 <= existing.len(),
{
    let c = Seq::new((k - 2) as nat, |i: int| suffixed(base, (i + 2) as nat));
    assert(c.no_duplicates()) by {
        assert forall|i: int, j: int| 0 <= i < c.len() && 0 <= j < c.len() && i != j implies c[i] != c[j] by {
            if c[i] == c[j] {
                lemma_suffixed_injective(base, (i + 2) as nat, (j + 2) as nat);
            }
        }
    }
    c.unique_seq_to_set();
    assert(c.to_set().subset_of(existing.to_set())) by {
        assert forall|x: Seq<char>| c.to_set().contains(x) implies existing.to_set().contains(x) by {
            let i = choose|i: int| 0 <= i < c.len() && c[i] == x;
            assert(name_taken(suffixed(base, (i + 2) as nat), existing, excluded));
        }
    }
    vstd::set_lib::lemma_len_subset(c.to_set(), existing.to_set());
    existing.lemma_cardinality_of_set();
}

proof fn lemma_free_suffix_exists(base: Seq<char>, existing: Seq<Seq<char>>, excluded: Option<Seq<char>>, k: nat)
    requires
        k >= 2,
        forall|j: nat| 2 <= j < k ==> #[trigger] name_taken(suffixed(base, j), existing, excluded),
    ensures
        exists|m: nat| m >= 2 && !name_taken(suffixed(base, m), existing, excluded)
            && forall|j: nat| 2 <= j < m ==> #[trigger] name_taken(suffixed(base, j), existing, excluded),
    decreases existing.len() + 3 - k,
{
    lemma_taken_bound(base, existing, excluded, k);
    if !name_taken(suffixed(base, k), existing, excluded) {
        assert(k >= 2 && !name_taken(suffixed(base, k), existing, excluded)
            && forall|j: nat| 2 <= j < k ==> #[trigger] name_taken(suffixed(base, j), existing, excluded));
    } else {
        if k + 1 - 2 > existing.len() {
            lemma_taken_bound(base, existing, excluded, k + 1);
        }
        lemma_free_suffix_exists(base, existing, excluded, k + 1);
    }
}

/// The name picked is never in use: `base` when it is free, otherwise the first free
/// `base-k`, which always exists since only finitely many names are in use.
pub proof fn lemma_unique_name_is_free(base: Seq<char>, existing: Seq<Seq<char>>, excluded: Option<Seq<char>>)
    ensures
        !name_taken(unique_name(base, existing, excluded), existing, excluded),
{
    if name_taken(base, existing, excluded) {
        lemma_free_suffix_exists(base, existing, excluded, 2);
    }
}

/// Whether `name` is taken among `existing`, the excluded name aside.
fn is_taken(name: &str, existing: &Vec<String>, excluded: Option<&str>) -> (r: bool)
    ensures
        r == name_taken(name@, string_views(existing@), opt_str_view(excluded)),
{
    if let Some(exc) = excluded {
        if str_eq(name, exc) {
            return false;
        }
    }
    let mut i: usize = 0;
    while i < existing.len()
        invariant
            i <= existing@.len(),
            opt_str_view(excluded) != Some(name@),
            forall|j: int| 0 <= j < i ==> existing@[j]@ != name@,
        decreases existing@.len() - i,
    {
        if str_eq(existing[i].as_str(), name) {
            assert(string_views(existing@)[i as int] == name@);
            return true;
        }
        i += 1;
    }
    assert(!string_views(existing@).contains(name@)) by {
        if string_views(existing@).contains(name@) {
            let j = choose|j: int| 0 <= j < string_views(existing@).len() && string_views(existing@)[j] == name@;
            assert(existing@[j]@ == name@);
        }
    }
    false
}

/// Return a tmux name unique among the names in use (`existing`).
/// If `base` is free, returns it unchanged; otherwise appends `-2`, `-3`, ...
/// The excluded name (a session's own, when renaming it) does not count as taken.
pub fn next_unique_tmux_name(base: &str, existing: &Vec<String>, excluded: Option<&str>) -> (r: String)
    requires
        existing@.len() < u64::MAX - 2,
    ensures
        r@ == unique_name(base@, string_views(existing@), opt_str_view(excluded)),
{
    let ghost ex = string_views(existing@);
    let ghost exc = opt_str_view(excluded);
    if !is_taken(base, existing, excluded) {
        return base.to_owned();
    }
    let mut suffix: u64 = 2;
    loop
        invariant
            ex == string_views(existing@),
            exc == opt_str_view(excluded),
            name_taken(base@, ex, exc),
            2 <= suffix,
            suffix - 2 <= existing@.len(),
            existing@.len() < u64::MAX - 2,
            forall|j: nat| 2 <= j < suffix ==> #[trigger] name_taken(suffixed(base@, j), ex, exc),
        decreases existing@.len() + 2 - suffix,
    {
        let mut candidate = base.to_owned();
        push_str(&mut candidate, "-");
        let digits = u64_to_string(suffix);
        push_str(&mut candidate, digits.as_str());
        proof {
            reveal_strlit("-");
            assert(candidate@ =~= suffixed(base@, suffix as nat));
        }
        if !is_taken(candidate.as_str(), existing, excluded) {
            proof {
                let k = choose|k: nat| k >= 2 && !name_taken(suffixed(base@, k), ex, exc)
                    && forall|j: nat| 2 <= j < k ==> #[trigger] name_taken(suffixed(base@, j), ex, exc);
                assert(suffix >= 2 && !name_taken(suffixed(base@, suffix as nat), ex, exc)
                    && forall|j: nat| 2 <= j < suffix ==> #[trigger] name_taken(suffixed(base@, j), ex, exc));
                if k < suffix {
                    assert(name_taken(suffixed(base@, k), ex, exc));
                } else if k > suffix {
                    assert(name_taken(suffixed(base@, suffix as nat), ex, exc));
                }
            }
            return candidate;
        }
        proof {
            lemma_taken_bound(base@, ex, exc, (suffix + 1) as nat);
        }
        suffix += 1;
    }
}

// ---------------------------------------------------------------------------
// Tree building
// ---------------------------------------------------------------------------

/// The nodes are exactly sessions with the given summaries, in order.
pub open spec fn sessions_are(nodes: Seq<TreeNode>, summaries: Seq<SessionSummaryView>) -> bool {
    &&& nodes.len() == summaries.len()
    &&& forall|i: int| 0 <= i < nodes.len() ==> (#[trigger] nodes[i] matches TreeNode::Session(s) && s@ == summaries[i])
}

/// The summaries of the grouped rows that belong to group `gid`, in row order.
pub open spec fn rows_of_group(rows: Seq<(GroupId, SessionSummary)>, gid: GroupId) -> Seq<SessionSummaryView>
    decreases rows.len(),
{
    if rows.len() == 0 {
        Seq::empty()
    } else if rows.last().0 == gid {
        rows_of_group(rows.drop_last(), gid).push(rows.last().1@)
    } else {
        rows_of_group(rows.drop_last(), gid)
    }
}

/// Group `i` is the first group with its id (a later group with the same id gets no sessions).
pub open spec fn first_with_id(groups: Seq<(GroupId, String)>, i: int) -> bool {
    forall|j: int| 0 <= j < i ==> (#[trigger] groups[j]).0 != groups[i].0
}

/// The tree built from the query rows: one sub-group per group row, in order, holding the
/// grouped sessions of that group in row order; then, when there are ungrouped sessions, a
/// root group `Ungrouped` with id 0 holding them.
pub open spec fn tree_built(
    tree: Seq<TreeNode>,
    groups: Seq<(GroupId, String)>,
    grouped: Seq<(GroupId, SessionSummary)>,
    ungrouped: Seq<SessionSummaryView>,
) -> bool {
    &&& tree.len() == groups.len() + if ungrouped.len() > 0 { 1int } else { 0 }
    &&& forall|i: int| 0 <= i < groups.len() ==> (#[trigger] tree[i] matches TreeNode::Group(g) && g.id == groups[i].0
        && g.name@ == groups[i].1@ && g.icon == GroupIcon::SubGroup
        && sessions_are(g.children@, if first_with_id(groups, i) { rows_of_group(grouped, groups[i].0) } else { Seq::empty() }))
    &&& ungrouped.len() > 0 ==> (tree[groups.len() as int] matches TreeNode::Group(g) && g.id == 0 && g.name@ == "Ungrouped"@
        && g.icon == GroupIcon::Root && sessions_are(g.children@, ungrouped))
}

pub open spec fn summary_views(v: Seq<SessionSummary>) -> Seq<SessionSummaryView> {
    v.map_values(|s: SessionSummary| s@)
}

/// The sessions of the grouped rows that belong to `gid`, in row order.
fn sessions_of_group(grouped: &Vec<(GroupId, SessionSummary)>, gid: GroupId) -> (r: Vec<TreeNode>)
    ensures
        sessions_are(r@, rows_of_group(grouped@, gid)),
{
    let mut out: Vec<TreeNode> = Vec::new();
    let mut i: usize = 0;
    while i < grouped.len()
        invariant
            i <= grouped@.len(),
            sessions_are(out@, rows_of_group(grouped@.take(i as int), gid)),
        decreases grouped@.len() - i,
    {
        assert(grouped@.take(i + 1).drop_last() =~= grouped@.take(i as int));
        assert(grouped@.take(i + 1).last() == grouped@[i as int]);
        if grouped[i].0 == gid {
            let ghost before = out@;
            out.push(TreeNode::Session(grouped[i].1.duplicate()));
            assert(sessions_are(out@, rows_of_group(grouped@.take(i + 1), gid))) by {
                let want = rows_of_group(grouped@.take(i + 1), gid);
                assert forall|k: int| 0 <= k < out@.len() implies (#[trigger] out@[k] matches TreeNode::Session(s) && s@ == want[k]) by {
                    if k < before.len() {
                        assert(out@[k] == before[k]);
                    }
                }
            }
        }
        i += 1;
    }
    assert(grouped@.take(i as int) =~= grouped@);
    out
}

/// Build the session tree from the query rows: the groups in display order, the grouped
/// sessions with their group ids (each group's sessions in display order), and the
/// ungrouped sessions.
pub fn build_tree(groups: &Vec<(GroupId, String)>, grouped: &Vec<(GroupId, SessionSummary)>, ungrouped: &Vec<SessionSummary>) -> (r: Vec<TreeNode>)
    ensures
        tree_built(r@, groups@, grouped@, summary_views(ungrouped@)),
{
    let mut tree: Vec<TreeNode> = Vec::new();
    let mut i: usize = 0;
    while i < groups.len()
        invariant
            i <= groups@.len(),
            tree@.len() == i,
            forall|k: int| 0 <= k < i ==> (#[trigger] tree@[k] matches TreeNode::Group(g) && g.id == groups@[k].0
                && g.name@ == groups@[k].1@ && g.icon == GroupIcon::SubGroup
                && sessions_are(g.children@, if first_with_id(groups@, k) { rows_of_group(grouped@, groups@[k].0) } else { Seq::empty() })),
        decreases groups@.len() - i,
    {
        let gid = groups[i].0;
        // an earlier group with the same id already took the sessions
        let mut seen = false;
        let mut j: usize = 0;
        while j < i
            invariant
                i < groups@.len(),
                j <= i,
                gid == groups@[i as int].0,
                seen == exists|m: int| 0 <= m < j && (#[trigger] groups@[m]).0 == gid,
            decreases i - j,
        {
            if groups[j].0 == gid {
                seen = true;
            }
            j += 1;
        }
        let children = if seen { Vec::new() } else { sessions_of_group(grouped, gid) };
        proof {
            if seen {
                let m = choose|m: int| 0 <= m < i && (#[trigger] groups@[m]).0 == gid;
                assert(!first_with_id(groups@, i as int));
            } else {
                assert(first_with_id(groups@, i as int));
            }
        }
        let name = groups[i].1.as_str().to_owned();
        let ghost before = tree@;
        tree.push(TreeNode::Group(GroupNode { id: gid, name, icon: GroupIcon::SubGroup, children }));
        proof {
            assert forall|k: int| 0 <= k < i + 1 implies (#[trigger] tree@[k] matches TreeNode::Group(g) && g.id == groups@[k].0
                && g.name@ == groups@[k].1@ && g.icon == GroupIcon::SubGroup
                && sessions_are(g.children@, if first_with_id(groups@, k) { rows_of_group(grouped@, groups@[k].0) } else { Seq::empty() })) by {
                if k < i {
                    assert(tree@[k] == before[k]);
                }
            }
        }
        i += 1;
    }
    // Ungrouped sessions
    if ungrouped.len() > 0 {
        let mut children: Vec<TreeNode> = Vec::new();
        let mut k: usize = 0;
        while k < ungrouped.len()
            invariant
                k <= ungrouped@.len(),
                sessions_are(children@, summary_views(ungrouped@).take(k as int)),
            decreases ungrouped@.len() - k,
        {
            let ghost before = children@;
            children.push(TreeNode::Session(ungrouped[k].duplicate()));
            assert(sessions_are(children@, summary_views(ungrouped@).take(k + 1))) by {
                assert forall|m: int| 0 <= m < children@.len() implies (#[trigger] children@[m] matches TreeNode::Session(s) && s@ == summary_views(ungrouped@).take(k + 1)[m]) by {
                    if m < before.len() {
                        assert(children@[m] == before[m]);
                    }
                }
            }
            k += 1;
        }
        assert(summary_views(ungrouped@).take(k as int) =~= summary_views(ungrouped@));
        let ghost before = tree@;
        tree.push(TreeNode::Group(GroupNode { id: 0, name: "Ungrouped".to_owned(), icon: GroupIcon::Root, children }));
        proof {
            assert forall|m: int| 0 <= m < groups@.len() implies tree@[m] == before[m] by {}
        }
    }
    tree
}

// ---------------------------------------------------------------------------
// Rows
// ---------------------------------------------------------------------------

/// The columns of a session row, as read (absent or unreadable text columns read as empty).
#[derive(Debug)]
pub struct SessionRow {
    pub session_id: String,
    pub display_name: String,
    pub cwd: Option<String>,
    pub last_active: String,
    pub is_active: i32,
    pub tmux_name: Option<String>,
    pub status: String,
    pub created_by: String,
    pub created_at: String,
    pub claude_session_id: Option<String>,
    pub worktree_branch: Option<String>,
    pub worktree_repo_root: Option<String>,
}

/// The summary of a session row: active when the flag is non-zero, status and origin read
/// from their names, and a worktree only when both worktree columns are set.
pub open spec fn row_summary(row: SessionRow) -> SessionSummaryView {
    SessionSummaryView {
        session_id: row.session_id@,
        display_name: row.display_name@,
        cwd: opt_text(row.cwd),
        last_active: row.last_active@,
        is_active: row.is_active != 0,
        status: status_from_text(row.status@),
        tmux_name: opt_text(row.tmux_name),
        created_by: origin_from_text(row.created_by@),
        created_at: row.created_at@,
        claude_session_id: opt_text(row.claude_session_id),
        worktree: match (row.worktree_branch, row.worktree_repo_root) {
            (Some(b), Some(r)) => Some((b@, r@)),
            _ => None,
        },
        jsonl_path: None,
    }
}

/// Map the columns of a session row into a `SessionSummary`.
pub fn summary_from_row(row: SessionRow) -> (r: SessionSummary)
    ensures
        r@ == row_summary(row),
{
    let status = SessionStatus::from_str(row.status.as_str());
    let created_by = SessionOrigin::from_str(row.created_by.as_str());
    // Worktree: both columns must be present for a valid WorktreeInfo
    let worktree = match (row.worktree_branch, row.worktree_repo_root) {
        (Some(branch), Some(repo_root)) => Some(WorktreeInfo { branch, repo_root }),
        _ => None,
    };
    SessionSummary {
        session_id: row.session_id,
        display_name: row.display_name,
        cwd: row.cwd,
        last_active: row.last_active,
        is_active: row.is_active != 0,
        tmux_name: row.tmux_name,
        status,
        created_by,
        created_at: row.created_at,
        claude_session_id: row.claude_session_id,
        worktree,
        jsonl_path: None,
    }
}

} // verus!
