use vstd::prelude::*;
use crate::types::{GroupId, GroupNode, SessionStatus, SessionSummary, SessionSummaryView, TreeNode, seq_sessions, seq_groups, node_sessions, node_groups, lemma_seq_sessions_step, lemma_seq_sessions_append, lemma_seq_groups_append, opt_text};
use crate::scanner::str_eq;
use std::collections::HashSet;

verus! {

broadcast use vstd::string::group_string_axioms;

/// Index of the first session in `ss` whose id is `id`, if any.
pub open spec fn first_with_id(ss: Seq<SessionSummary>, id: Seq<char>, k: int) -> bool {
    &&& 0 <= k < ss.len()
    &&& ss[k].session_id@ == id
    &&& forall|j: int| 0 <= j < k ==> (#[trigger] ss[j]).session_id@ != id
}

/// Find the first session (depth first) with the given id.
pub fn find_session_in_tree<'a>(tree: &'a [TreeNode], session_id: &str) -> (r: Option<&'a SessionSummary>)
    ensures
        match r {
            Some(s) => exists|k: int| first_with_id(seq_sessions(tree@), session_id@, k) && seq_sessions(tree@)[k] == *s,
            None => forall|k: int| 0 <= k < seq_sessions(tree@).len() ==> (#[trigger] seq_sessions(tree@)[k]).session_id@ != session_id@,
        },
    decreases tree@,
{
    let id = session_id.to_owned();
    let mut i: usize = 0;
    while i < tree.len()
        invariant
            i <= tree@.len(),
            id@ == session_id@,
            forall|k: int| 0 <= k < seq_sessions(tree@.take(i as int)).len() ==> (#[trigger] seq_sessions(tree@.take(i as int))[k]).session_id@ != session_id@,
        decreases tree@.len() - i,
    {
        proof {
            lemma_seq_sessions_step(tree@, i as int);
            lemma_seq_sessions_append(tree@.take(i + 1), tree@.skip(i + 1));
            assert(tree@.take(i + 1) + tree@.skip(i + 1) =~= tree@);
        }
        let ghost pre = seq_sessions(tree@.take(i as int));
        let ghost whole = seq_sessions(tree@);
        match &tree[i] {
            TreeNode::Session(s) => {
                if s.session_id == id {
                    proof {
                        assert(whole[pre.len() as int] == *s);
                        assert forall|j: int| 0 <= j < pre.len() implies (#[trigger] whole[j]).session_id@ != session_id@ by {
                            assert(whole[j] == pre[j]);
                        }
                    }
                    return Some(s);
                }
            },
            TreeNode::Group(g) => {
                let found = find_session_in_tree(g.children.as_slice(), session_id);
                if let Some(s) = found {
                    proof {
                        let k = choose|k: int| first_with_id(seq_sessions(g.children@), session_id@, k) && seq_sessions(g.children@)[k] == *s;
                        assert(whole[pre.len() + k] == seq_sessions(g.children@)[k]);
                        assert forall|j: int| 0 <= j < pre.len() + k implies (#[trigger] whole[j]).session_id@ != session_id@ by {
                            if j < pre.len() {
                                assert(whole[j] == pre[j]);
                            } else {
                                assert(whole[j] == seq_sessions(g.children@)[j - pre.len()]);
                            }
                        }
                        assert(first_with_id(whole, session_id@, pre.len() + k));
                    }
                    return Some(s);
                }
            },
        }
        i += 1;
        proof {
            let now = seq_sessions(tree@.take(i as int));
            assert forall|k: int| 0 <= k < now.len() implies (#[trigger] now[k]).session_id@ != session_id@ by {
                if k < pre.len() {
                    assert(now[k] == pre[k]);
                }
            }
        }
    }
    assert(tree@.take(i as int) =~= tree@);
    None
}

/// Index of the first group in `gs` whose id is `id`.
pub open spec fn first_group_with_id(gs: Seq<GroupNode>, id: GroupId, k: int) -> bool {
    &&& 0 <= k < gs.len()
    &&& gs[k].id == id
    &&& forall|j: int| 0 <= j < k ==> (#[trigger] gs[j]).id != id
}

/// Find the first group (depth first, a group before its descendants) with the given id.
pub fn find_group_in_tree(tree: &[TreeNode], group_id: GroupId) -> (r: Option<&GroupNode>)
    ensures
        match r {
            Some(g) => exists|k: int| first_group_with_id(seq_groups(tree@), group_id, k) && seq_groups(tree@)[k] == *g,
            None => forall|k: int| 0 <= k < seq_groups(tree@).len() ==> (#[trigger] seq_groups(tree@)[k]).id != group_id,
        },
    decreases tree@,
{
    let mut i: usize = 0;
    while i < tree.len()
        invariant
            i <= tree@.len(),
            forall|k: int| 0 <= k < seq_groups(tree@.take(i as int)).len() ==> (#[trigger] seq_groups(tree@.take(i as int))[k]).id != group_id,
        decreases tree@.len() - i,
    {
        proof {
            lemma_seq_sessions_step(tree@, i as int);
            lemma_seq_groups_append(tree@.take(i + 1), tree@.skip(i + 1));
            assert(tree@.take(i + 1) + tree@.skip(i + 1) =~= tree@);
        }
        let ghost pre = seq_groups(tree@.take(i as int));
        let ghost whole = seq_groups(tree@);
        if let TreeNode::Group(g) = &tree[i] {
            let ghost ng = node_groups(tree@[i as int]);
            assert(ng == seq![*g] + seq_groups(g.children@));
            if g.id == group_id {
                proof {
                    assert(whole[pre.len() as int] == ng[0]);
                    assert forall|j: int| 0 <= j < pre.len() implies (#[trigger] whole[j]).id != group_id by {
                        assert(whole[j] == pre[j]);
                    }
                    assert(first_group_with_id(whole, group_id, pre.len() as int));
                }
                return Some(g);
            }
            let found = find_group_in_tree(g.children.as_slice(), group_id);
            if let Some(f) = found {
                proof {
                    let sub = seq_groups(g.children@);
                    let k = choose|k: int| first_group_with_id(sub, group_id, k) && sub[k] == *f;
                    assert(whole[pre.len() + 1 + k] == ng[1 + k]);
                    assert(ng[1 + k] == sub[k]);
                    assert forall|j: int| 0 <= j < pre.len() + 1 + k implies (#[trigger] whole[j]).id != group_id by {
                        if j < pre.len() {
                            assert(whole[j] == pre[j]);
                        } else if j == pre.len() {
                            assert(whole[j] == ng[0]);
                        } else {
                            assert(whole[j] == ng[j - pre.len()]);
                            assert(ng[j - pre.len()] == sub[j - pre.len() - 1]);
                        }
                    }
                    assert(first_group_with_id(whole, group_id, pre.len() + 1 + k));
                }
                return Some(f);
            }
            proof {
                let now = seq_groups(tree@.take(i + 1));
                assert forall|k: int| 0 <= k < now.len() implies (#[trigger] now[k]).id != group_id by {
                    if k < pre.len() {
                        assert(now[k] == pre[k]);
                    } else if k == pre.len() {
                        assert(now[k] == ng[0]);
                    } else {
                        assert(now[k] == ng[k - pre.len()]);
                        assert(ng[k - pre.len()] == seq_groups(g.children@)[k - pre.len() - 1]);
                    }
                }
            }
        } else {
            proof {
                let now = seq_groups(tree@.take(i + 1));
                assert(node_groups(tree@[i as int]) =~= Seq::<GroupNode>::empty());
                assert(now =~= pre);
            }
        }
        i += 1;
    }
    assert(tree@.take(i as int) =~= tree@);
    None
}

/// Number of active sessions among `ss`.
pub open spec fn count_active(ss: Seq<SessionSummary>) -> nat
    decreases ss.len(),
{
    if ss.len() == 0 {
        0
    } else {
        count_active(ss.drop_last()) + if ss.last().is_active { 1nat } else { 0nat }
    }
}

proof fn lemma_count_active_append(a: Seq<SessionSummary>, b: Seq<SessionSummary>)
    ensures
        count_active(a + b) == count_active(a) + count_active(b),
        count_active(a) <= a.len(),
    decreases b.len() + a.len(),
{
    if b.len() == 0 {
        assert(a + b =~= a);
        if a.len() > 0 {
            lemma_count_active_append(a.drop_last(), b);
        }
    } else {
        lemma_count_active_append(a, b.drop_last());
        assert((a + b).drop_last() =~= a + b.drop_last());
    }
}

/// Count `(total, active)` sessions in the tree.
pub fn count_sessions(tree: &[TreeNode]) -> (r: (usize, usize))
    requires
        seq_sessions(tree@).len() <= usize::MAX,
    ensures
        r.0 == seq_sessions(tree@).len(),
        r.1 == count_active(seq_sessions(tree@)),
    decreases tree@,
{
    let mut total: usize = 0;
    let mut active: usize = 0;
    let mut i: usize = 0;
    while i < tree.len()
        invariant
            i <= tree@.len(),
            total == seq_sessions(tree@.take(i as int)).len(),
            active == count_active(seq_sessions(tree@.take(i as int))),
            seq_sessions(tree@).len() <= usize::MAX,
        decreases tree@.len() - i,
    {
        proof {
            lemma_seq_sessions_step(tree@, i as int);
            lemma_seq_sessions_append(tree@.take(i + 1), tree@.skip(i + 1));
            assert(tree@.take(i + 1) + tree@.skip(i + 1) =~= tree@);
            lemma_count_active_append(seq_sessions(tree@.take(i as int)), node_sessions(tree@[i as int]));
            lemma_count_active_append(node_sessions(tree@[i as int]), Seq::empty());
        }
        match &tree[i] {
            TreeNode::Session(s) => {
                total += 1;
                if s.is_active {
                    active += 1;
                }
                proof {
                    let one = seq![*s];
                    assert(one.drop_last() =~= Seq::<SessionSummary>::empty());
                }
            },
            TreeNode::Group(g) => {
                let (t, a) = count_sessions(g.children.as_slice());
                total += t;
                active += a;
            },
        }
        i += 1;
    }
    assert(tree@.take(i as int) =~= tree@);
    (total, active)
}

/// `(session_id, cwd)` of the sessions among `ss` that are not dead, have a working
/// directory, and have no agent session id yet.
pub open spec fn needing_detection(ss: Seq<SessionSummary>) -> Seq<(Seq<char>, Seq<char>)>
    decreases ss.len(),
{
    if ss.len() == 0 {
        Seq::empty()
    } else {
        let s = ss.last();
        let rest = needing_detection(ss.drop_last());
        if s.claude_session_id is None && s.status != SessionStatus::Dead && s.cwd is Some {
            rest.push((s.session_id@, s.cwd->0@))
        } else {
            rest
        }
    }
}

proof fn lemma_needing_append(a: Seq<SessionSummary>, b: Seq<SessionSummary>)
    ensures
        needing_detection(a + b) == needing_detection(a) + needing_detection(b),
    decreases b.len(),
{
    if b.len() == 0 {
        assert(a + b =~= a);
        assert(needing_detection(a) + needing_detection(b) =~= needing_detection(a));
    } else {
        lemma_needing_append(a, b.drop_last());
        assert((a + b).drop_last() =~= a + b.drop_last());
        assert(needing_detection(a + b) =~= needing_detection(a) + needing_detection(b));
    }
}

pub open spec fn pair_texts(v: Seq<(String, String)>) -> Seq<(Seq<char>, Seq<char>)> {
    v.map_values(|p: (String, String)| (p.0@, p.1@))
}

/// Collect `(session_id, cwd)` pairs for live sessions that lack an agent session ID.
pub fn collect_sessions_needing_detection(tree: &[TreeNode]) -> (r: Vec<(String, String)>)
    ensures
        pair_texts(r@) == needing_detection(seq_sessions(tree@)),
    decreases tree@,
{
    let mut result: Vec<(String, String)> = Vec::new();
    let mut i: usize = 0;
    while i < tree.len()
        invariant
            i <= tree@.len(),
            pair_texts(result@) == needing_detection(seq_sessions(tree@.take(i as int))),
        decreases tree@.len() - i,
    {
        proof {
            lemma_seq_sessions_step(tree@, i as int);
            lemma_needing_append(seq_sessions(tree@.take(i as int)), node_sessions(tree@[i as int]));
        }
        let ghost before = result@;
        match &tree[i] {
            TreeNode::Session(s) => {
                proof {
                    assert(seq![*s].drop_last() =~= Seq::<SessionSummary>::empty());
                    assert(seq![*s].last() == *s);
                    assert(node_sessions(tree@[i as int]) == seq![*s]);
                    assert(needing_detection(Seq::<SessionSummary>::empty()) =~= Seq::empty());
                }
                if s.claude_session_id.is_none() && s.status != SessionStatus::Dead {
                    if let Some(cwd) = &s.cwd {
                        result.push((s.session_id.clone(), cwd.clone()));
                        assert(pair_texts(result@) =~= pair_texts(before).push((s.session_id@, cwd@)));
                    }
                }
            },
            TreeNode::Group(g) => {
                let sub = collect_sessions_needing_detection(g.children.as_slice());
                let mut k: usize = 0;
                while k < sub.len()
                    invariant
                        k <= sub@.len(),
                        pair_texts(result@) == pair_texts(before) + pair_texts(sub@).take(k as int),
                    decreases sub@.len() - k,
                {
                    let (a, b) = (sub[k].0.clone(), sub[k].1.clone());
                    let ghost prev = result@;
                    result.push((a, b));
                    proof {
                        assert(pair_texts(result@) =~= pair_texts(prev).push((a@, b@)));
                        assert(pair_texts(sub@).take(k + 1) =~= pair_texts(sub@).take(k as int).push(pair_texts(sub@)[k as int]));
                        assert(pair_texts(sub@)[k as int] == (sub@[k as int].0@, sub@[k as int].1@));
                        assert(pair_texts(result@)[result@.len() - 1] == (a@, b@));
                    }
                    k += 1;
                    assert(pair_texts(result@) =~= pair_texts(before) + pair_texts(sub@).take(k as int));
                }
                assert(pair_texts(sub@).take(k as int) =~= pair_texts(sub@));
            },
        }
        i += 1;
        assert(pair_texts(result@) =~= needing_detection(seq_sessions(tree@.take(i as int))));
    }
    assert(tree@.take(i as int) =~= tree@);
    result
}

/// The session runs in a tmux session whose name is in `attention`.
pub open spec fn needs_attention(s: SessionSummary, attention: Seq<String>) -> bool {
    s.tmux_name matches Some(n) && exists|k: int| 0 <= k < attention.len() && (#[trigger] attention[k])@ == n@
}

/// Some session among `ss` needs attention.
pub open spec fn any_attention(ss: Seq<SessionSummary>, attention: Seq<String>) -> bool {
    exists|j: int| 0 <= j < ss.len() && needs_attention(#[trigger] ss[j], attention)
}

/// Ids of the groups among `gs` with a session needing attention somewhere below them.
pub open spec fn attention_ids(gs: Seq<GroupNode>, attention: Seq<String>) -> Set<GroupId> {
    Set::new(|id: GroupId| exists|k: int| 0 <= k < gs.len() && (#[trigger] gs[k]).id == id
        && any_attention(seq_sessions(gs[k].children@), attention))
}

proof fn lemma_attention_ids_append(a: Seq<GroupNode>, b: Seq<GroupNode>, attention: Seq<String>)
    ensures
        attention_ids(a + b, attention) == attention_ids(a, attention).union(attention_ids(b, attention)),
{
    let ab = a + b;
    assert forall|id: GroupId| attention_ids(ab, attention).contains(id) implies attention_ids(a, attention).union(attention_ids(b, attention)).contains(id) by {
        let k = choose|k: int| 0 <= k < ab.len() && (#[trigger] ab[k]).id == id && any_attention(seq_sessions(ab[k].children@), attention);
        if k < a.len() {
            assert(a[k] == ab[k]);
        } else {
            assert(b[k - a.len()] == ab[k]);
        }
    }
    assert forall|id: GroupId| attention_ids(a, attention).union(attention_ids(b, attention)).contains(id) implies attention_ids(ab, attention).contains(id) by {
        if attention_ids(a, attention).contains(id) {
            let k = choose|k: int| 0 <= k < a.len() && (#[trigger] a[k]).id == id && any_attention(seq_sessions(a[k].children@), attention);
            assert(ab[k] == a[k]);
        } else {
            let k = choose|k: int| 0 <= k < b.len() && (#[trigger] b[k]).id == id && any_attention(seq_sessions(b[k].children@), attention);
            assert(ab[a.len() + k] == b[k]);
        }
    }
    assert(attention_ids(ab, attention) =~= attention_ids(a, attention).union(attention_ids(b, attention)));
}

proof fn lemma_any_attention_append(a: Seq<SessionSummary>, b: Seq<SessionSummary>, attention: Seq<String>)
    ensures
        any_attention(a + b, attention) == (any_attention(a, attention) || any_attention(b, attention)),
{
    let ab = a + b;
    if any_attention(ab, attention) {
        let j = choose|j: int| 0 <= j < ab.len() && needs_attention(#[trigger] ab[j], attention);
        if j < a.len() {
            assert(ab[j] == a[j]);
        } else {
            assert(ab[j] == b[j - a.len()]);
        }
    }
    if any_attention(a, attention) {
        let j = choose|j: int| 0 <= j < a.len() && needs_attention(#[trigger] a[j], attention);
        assert(ab[j] == a[j]);
    }
    if any_attention(b, attention) {
        let j = choose|j: int| 0 <= j < b.len() && needs_attention(#[trigger] b[j], attention);
        assert(ab[a.len() + j] == b[j]);
    }
}

fn in_attention(name: &String, attention: &[String]) -> (r: bool)
    ensures
        r == exists|k: int| 0 <= k < attention@.len() && (#[trigger] attention@[k])@ == name@,
{
    let mut i: usize = 0;
    while i < attention.len()
        invariant
            i <= attention@.len(),
            forall|k: int| 0 <= k < i ==> (#[trigger] attention@[k])@ != name@,
        decreases attention@.len() - i,
    {
        if attention[i].eq(name) {
            return true;
        }
        i += 1;
    }
    false
}

fn has_attention_inner(nodes: &[TreeNode], attention: &[String], result: &mut HashSet<GroupId>) -> (found: bool)
    ensures
        found == any_attention(seq_sessions(nodes@), attention@),
        final(result)@ == old(result)@.union(attention_ids(seq_groups(nodes@), attention@)),
    decreases nodes@,
{
    broadcast use vstd::std_specs::hash::group_hash_axioms;
    let ghost start = result@;
    let mut found = false;
    let mut i: usize = 0;
    assert(nodes@.take(0) =~= Seq::<TreeNode>::empty());
    assert(attention_ids(Seq::<GroupNode>::empty(), attention@) =~= Set::<GroupId>::empty());
    assert(start.union(Set::<GroupId>::empty()) =~= start);
    while i < nodes.len()
        invariant
            i <= nodes@.len(),
            found == any_attention(seq_sessions(nodes@.take(i as int)), attention@),
            result@ == start.union(attention_ids(seq_groups(nodes@.take(i as int)), attention@)),
        decreases nodes@.len() - i,
    {
        proof {
            lemma_seq_sessions_step(nodes@, i as int);
            lemma_any_attention_append(seq_sessions(nodes@.take(i as int)), node_sessions(nodes@[i as int]), attention@);
            lemma_attention_ids_append(seq_groups(nodes@.take(i as int)), node_groups(nodes@[i as int]), attention@);
        }
        let ghost before = result@;
        match &nodes[i] {
            TreeNode::Session(s) => {
                proof {
                    let one = seq![*s];
                    assert(node_sessions(nodes@[i as int]) == one);
                    assert(node_groups(nodes@[i as int]) =~= Seq::<GroupNode>::empty());
                    assert(attention_ids(Seq::<GroupNode>::empty(), attention@) =~= Set::<GroupId>::empty());
                    assert(before.union(Set::<GroupId>::empty()) =~= before);
                    if any_attention(one, attention@) {
                        let j = choose|j: int| 0 <= j < one.len() && needs_attention(#[trigger] one[j], attention@);
                        assert(one[j] == *s);
                    }
                    if needs_attention(*s, attention@) {
                        assert(one[0] == *s);
                    }
                }
                if let Some(n) = &s.tmux_name {
                    if in_attention(n, attention) {
                        found = true;
                    }
                }
            },
            TreeNode::Group(g) => {
                let ghost mid_start = result@;
                let sub = has_attention_inner(g.children.as_slice(), attention, result);
                let ghost gs = seq![*g] + seq_groups(g.children@);
                proof {
                    assert(node_groups(nodes@[i as int]) == gs);
                    lemma_attention_ids_append(seq![*g], seq_groups(g.children@), attention@);
                }
                if sub {
                    result.insert(g.id);
                    found = true;
                    proof {
                        let one = seq![*g];
                        assert(one[0] == *g);
                        assert(attention_ids(one, attention@).contains(g.id));
                        assert(attention_ids(one, attention@) =~= set![g.id]);
                    }
                } else {
                    proof {
                        assert(attention_ids(seq![*g], attention@) =~= Set::<GroupId>::empty());
                    }
                }
                proof {
                    assert(result@ =~= before.union(attention_ids(gs, attention@)));
                }
            },
        }
        i += 1;
        proof {
            assert(result@ =~= start.union(attention_ids(seq_groups(nodes@.take(i as int)), attention@)));
        }
    }
    assert(nodes@.take(i as int) =~= nodes@);
    found
}

/// Collect group IDs that contain (recursively) at least one session needing attention.
pub fn groups_with_attention(tree: &[TreeNode], attention: &[String]) -> (r: HashSet<GroupId>)
    ensures
        r@ == attention_ids(seq_groups(tree@), attention@),
{
    let mut result: HashSet<GroupId> = HashSet::new();
    has_attention_inner(tree, attention, &mut result);
    assert(Set::<GroupId>::empty().union(attention_ids(seq_groups(tree@), attention@)) =~= attention_ids(seq_groups(tree@), attention@));
    result
}

/// Compute the exact inner dimensions of the interactor panel: below a 3-row top bar, the
/// columns right of a `tree_pct`% tree panel, each minus 2 for borders (saturating).
pub fn interactor_inner_size(term_cols: u16, term_rows: u16, tree_pct: u16) -> (r: (u16, u16))
    requires
        tree_pct <= 100,
        term_cols * (100 - tree_pct) <= u16::MAX,
    ensures
        r.0 == (if term_cols * (100 - tree_pct) / 100 >= 2 { term_cols * (100 - tree_pct) / 100 - 2 } else { 0 }),
        r.1 == (if term_rows >= 5 { term_rows - 5 } else { 0 }),
{
    let main_height = term_rows.saturating_sub(3);
    let right_width = term_cols * (100 - tree_pct) / 100;
    let inner_cols = right_width.saturating_sub(2);
    let inner_rows = main_height.saturating_sub(2);
    (inner_cols, inner_rows)
}

// ---------------------------------------------------------------------------
// Reconciling session status with the live tmux sessions
// ---------------------------------------------------------------------------

/// The session's tmux pane is alive: it has a non-empty tmux name among the live ones.
pub open spec fn pane_alive(s: SessionSummary, active: Seq<String>) -> bool {
    s.tmux_name matches Some(n) && n@.len() > 0 && exists|k: int| 0 <= k < active.len() && (#[trigger] active[k])@ == n@
}

/// The status a session takes: Active when its pane is alive, Detached when an Active
/// session's pane is gone, unchanged otherwise.
pub open spec fn reconciled_status(status: SessionStatus, alive: bool) -> SessionStatus {
    if alive && status != SessionStatus::Active {
        SessionStatus::Active
    } else if !alive && status == SessionStatus::Active {
        SessionStatus::Detached
    } else {
        status
    }
}

/// Reconciling again changes nothing: a reconciled status is its own reconciliation, so a
/// second pass with the same live sessions stores no change.
pub proof fn lemma_reconcile_idempotent(status: SessionStatus, alive: bool)
    ensures
        reconciled_status(reconciled_status(status, alive), alive) == reconciled_status(status, alive),
        alive ==> reconciled_status(status, alive) == SessionStatus::Active,
        !alive ==> reconciled_status(status, alive) != SessionStatus::Active,
{
}

/// A session after reconciliation: its status as above, active exactly when its pane is alive.
pub open spec fn reconciled_summary(v: SessionSummaryView, alive: bool) -> SessionSummaryView {
    SessionSummaryView { status: reconciled_status(v.status, alive), is_active: alive, ..v }
}

/// `new` is the forest `old` with every session reconciled and the groups kept.
pub open spec fn reconciled_forest(old: Seq<TreeNode>, new: Seq<TreeNode>, active: Seq<String>) -> bool
    decreases old,
{
    &&& old.len() == new.len()
    &&& old.len() > 0 ==> {
        &&& reconciled_forest(old.drop_last(), new.drop_last(), active)
        &&& reconciled_node(old.last(), new.last(), active)
    }
}

pub open spec fn reconciled_node(old: TreeNode, new: TreeNode, active: Seq<String>) -> bool
    decreases old,
{
    match old {
        TreeNode::Session(s) => new matches TreeNode::Session(t) && t@ == reconciled_summary(s@, pane_alive(s, active)),
        TreeNode::Group(g) => new matches TreeNode::Group(h) && h.id == g.id && h.name@ == g.name@ && h.icon == g.icon
            && reconciled_forest(g.children@, h.children@, active),
    }
}

/// The status changes to store, in tree order: the sessions whose status reconciliation
/// changes, with their new status.
pub open spec fn status_changes(ss: Seq<SessionSummary>, active: Seq<String>) -> Seq<(Seq<char>, SessionStatus)>
    decreases ss.len(),
{
    if ss.len() == 0 {
        Seq::empty()
    } else {
        let s = ss.last();
        let st = reconciled_status(s.status, pane_alive(s, active));
        let rest = status_changes(ss.drop_last(), active);
        if st != s.status { rest.push((s.session_id@, st)) } else { rest }
    }
}

proof fn lemma_status_changes_append(a: Seq<SessionSummary>, b: Seq<SessionSummary>, active: Seq<String>)
    ensures
        status_changes(a + b, active) == status_changes(a, active) + status_changes(b, active),
    decreases b.len(),
{
    if b.len() == 0 {
        assert(a + b =~= a);
        assert(status_changes(a, active) + status_changes(b, active) =~= status_changes(a, active));
    } else {
        lemma_status_changes_append(a, b.drop_last(), active);
        assert((a + b).drop_last() =~= a + b.drop_last());
        assert(status_changes(a + b, active) =~= status_changes(a, active) + status_changes(b, active));
    }
}

pub open spec fn change_views(v: Seq<(String, SessionStatus)>) -> Seq<(Seq<char>, SessionStatus)> {
    v.map_values(|p: (String, SessionStatus)| (p.0@, p.1))
}

fn pane_is_alive(s: &SessionSummary, active: &[String]) -> (r: bool)
    ensures
        r == pane_alive(*s, active@),
{
    match &s.tmux_name {
        Some(n) => {
            if crate::strutil::str_chars(n.as_str()).len() == 0 {
                return false;
            }
            let mut k: usize = 0;
            while k < active.len()
                invariant
                    k <= active@.len(),
                    n@.len() > 0,
                    s.tmux_name == Some(*n),
                    forall|j: int| 0 <= j < k ==> active@[j]@ != n@,
                decreases active@.len() - k,
            {
                if str_eq(active[k].as_str(), n.as_str()) {
                    assert(active@[k as int]@ == n@);
                    return true;
                }
                k += 1;
            }
            false
        },
        None => false,
    }
}

proof fn lemma_reconciled_step(old: Seq<TreeNode>, new: Seq<TreeNode>, active: Seq<String>, i: int, n: TreeNode)
    requires
        0 <= i < old.len(),
        reconciled_forest(old.take(i), new, active),
        reconciled_node(old[i], n, active),
    ensures
        reconciled_forest(old.take(i + 1), new.push(n), active),
{
    assert(old.take(i + 1).drop_last() =~= old.take(i));
    assert(new.push(n).drop_last() =~= new);
}

/// Reconcile the statuses in the tree with the live tmux sessions (`active`: their names).
/// Returns the updated tree and the status changes to store.
pub fn reconcile_tree(tree: &[TreeNode], active: &[String]) -> (r: (Vec<TreeNode>, Vec<(String, SessionStatus)>))
    ensures
        reconciled_forest(tree@, r.0@, active@),
        change_views(r.1@) == status_changes(seq_sessions(tree@), active@),
    decreases tree@,
{
    let mut out: Vec<TreeNode> = Vec::new();
    let mut changes: Vec<(String, SessionStatus)> = Vec::new();
    let mut i: usize = 0;
    assert(tree@.take(0) =~= Seq::<TreeNode>::empty());
    while i < tree.len()
        invariant
            i <= tree@.len(),
            reconciled_forest(tree@.take(i as int), out@, active@),
            change_views(changes@) == status_changes(seq_sessions(tree@.take(i as int)), active@),
        decreases tree@.len() - i,
    {
        proof {
            lemma_seq_sessions_step(tree@, i as int);
            lemma_status_changes_append(seq_sessions(tree@.take(i as int)), node_sessions(tree@[i as int]), active@);
        }
        let ghost before = changes@;
        match &tree[i] {
            TreeNode::Session(s) => {
                let alive = pane_is_alive(s, active);
                let mut t = s.duplicate();
                let status = if alive && s.status != SessionStatus::Active {
                    SessionStatus::Active
                } else if !alive && s.status == SessionStatus::Active {
                    SessionStatus::Detached
                } else {
                    s.status
                };
                t.status = status;
                t.is_active = alive;
                if status != s.status {
                    changes.push((s.session_id.as_str().to_owned(), status));
                }
                proof {
                    assert(t@ == reconciled_summary(s@, alive));
                    assert(seq![*s].drop_last() =~= Seq::<SessionSummary>::empty());
                    assert(seq![*s].last() == *s);
                    assert(node_sessions(tree@[i as int]) == seq![*s]);
                    assert(status == reconciled_status(s.status, pane_alive(*s, active@)));
                    assert(status_changes(Seq::<SessionSummary>::empty(), active@) =~= Seq::empty());
                    if status != s.status {
                        assert(status_changes(seq![*s], active@) =~= seq![(s.session_id@, status)]);
                        assert(change_views(changes@) =~= change_views(before).push((s.session_id@, status)));
                    } else {
                        assert(status_changes(seq![*s], active@) =~= Seq::empty());
                        assert(changes@ == before);
                    }
                    assert(change_views(changes@) =~= status_changes(seq_sessions(tree@.take(i as int)), active@) + status_changes(seq![*s], active@));
                    lemma_reconciled_step(tree@, out@, active@, i as int, TreeNode::Session(t));
                }
                out.push(TreeNode::Session(t));
            },
            TreeNode::Group(g) => {
                let (children, sub) = reconcile_tree(g.children.as_slice(), active);
                let mut k: usize = 0;
                while k < sub.len()
                    invariant
                        k <= sub@.len(),
                        change_views(changes@) == change_views(before) + change_views(sub@).take(k as int),
                    decreases sub@.len() - k,
                {
                    let ghost prev = changes@;
                    changes.push((sub[k].0.as_str().to_owned(), sub[k].1));
                    proof {
                        assert(change_views(changes@) =~= change_views(prev).push((sub@[k as int].0@, sub@[k as int].1)));
                        assert(change_views(sub@).take(k + 1) =~= change_views(sub@).take(k as int).push(change_views(sub@)[k as int]));
                    }
                    k += 1;
                }
                assert(change_views(sub@).take(k as int) =~= change_views(sub@));
                let node = TreeNode::Group(GroupNode { id: g.id, name: g.name.as_str().to_owned(), icon: g.icon, children });
                proof {
                    lemma_reconciled_step(tree@, out@, active@, i as int, node);
                }
                out.push(node);
            },
        }
        i += 1;
    }
    assert(tree@.take(i as int) =~= tree@);
    (out, changes)
}

} // verus!
