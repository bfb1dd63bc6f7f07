use vstd::prelude::*;
use crate::rank_sort::{rank_sort, rank_ordered, key_view};
use crate::strutil::{contains_exec, contains_seq, lowercase, starts_with_exec, starts_with_seq, str_chars, to_lowercase};
use crate::types::{GroupNode, SessionStatus, TreeNode, lemma_seq_sessions_step, opt_text};

verus! {

broadcast use vstd::string::group_string_axioms;

/// A flattened entry for the finder, derived from the session tree.
#[derive(Debug, Clone)]
pub struct FinderEntry {
    pub session_id: String,
    pub display_name: String,
    pub group_name: String,
    pub cwd: String,
    pub status: SessionStatus,
    pub last_active: String,
}

pub struct FinderEntryView {
    pub session_id: Seq<char>,
    pub display_name: Seq<char>,
    pub group_name: Seq<char>,
    pub cwd: Seq<char>,
    pub status: SessionStatus,
    pub last_active: Seq<char>,
}

impl View for FinderEntry {
    type V = FinderEntryView;

    open spec fn view(&self) -> FinderEntryView {
        FinderEntryView {
            session_id: self.session_id@,
            display_name: self.display_name@,
            group_name: self.group_name@,
            cwd: self.cwd@,
            status: self.status,
            last_active: self.last_active@,
        }
    }
}

pub open spec fn entry_views(v: Seq<FinderEntry>) -> Seq<FinderEntryView> {
    v.map_values(|e: FinderEntry| e@)
}

/// The finder entries of a forest whose nearest enclosing group is named `parent`:
/// one per session, depth first, dead sessions left out unless `show_dead`.
pub open spec fn finder_rows(nodes: Seq<TreeNode>, show_dead: bool, parent: Seq<char>) -> Seq<FinderEntryView>
    decreases nodes,
{
    if nodes.len() == 0 {
        Seq::empty()
    } else {
        finder_rows(nodes.drop_last(), show_dead, parent) + node_finder_rows(nodes.last(), show_dead, parent)
    }
}

pub open spec fn node_finder_rows(n: TreeNode, show_dead: bool, parent: Seq<char>) -> Seq<FinderEntryView>
    decreases n,
{
    match n {
        TreeNode::Group(g) => finder_rows(g.children@, show_dead, g.name@),
        TreeNode::Session(s) => if !show_dead && s.status == SessionStatus::Dead {
            Seq::empty()
        } else {
            seq![FinderEntryView {
                session_id: s.session_id@,
                display_name: s.display_name@,
                group_name: parent,
                cwd: match opt_text(s.cwd) { Some(c) => c, None => Seq::empty() },
                status: s.status,
                last_active: s.last_active@,
            }]
        },
    }
}

/// The score of an entry against a lowercased query: name prefix (100) > name substring (80)
/// > group prefix (60) > group substring (40) > cwd substring (20) > no match (0), every
/// field compared in lowercase.
pub open spec fn entry_score(e: FinderEntryView, q: Seq<char>) -> u32 {
    let name = lowercase(e.display_name);
    let group = lowercase(e.group_name);
    let cwd = lowercase(e.cwd);
    if starts_with_seq(name, q) {
        100
    } else if contains_seq(name, q) {
        80
    } else if starts_with_seq(group, q) {
        60
    } else if contains_seq(group, q) {
        40
    } else if contains_seq(cwd, q) {
        20
    } else {
        0
    }
}

/// The sort keys of the entries for a query: `(score, last_active)`, the score taken as 0
/// for every entry when the query is empty.
pub open spec fn rank_keys(entries: Seq<FinderEntryView>, query: Seq<char>) -> Seq<(u32, Seq<char>)> {
    Seq::new(entries.len(), |i: int| (if query.len() == 0 { 0u32 } else { entry_score(entries[i], lowercase(query)) }, entries[i].last_active))
}

/// Whether entry `i` is among the results of the query: every entry for an empty query,
/// otherwise those with a positive score.
pub open spec fn is_candidate(entries: Seq<FinderEntryView>, query: Seq<char>, i: int) -> bool {
    query.len() == 0 || entry_score(entries[i], lowercase(query)) > 0
}

/// Whether an entry index is among the results of the query.
pub open spec fn candidate_pred(entries: Seq<FinderEntryView>, query: Seq<char>) -> spec_fn(usize) -> bool {
    |i: usize| is_candidate(entries, query, i as int)
}

/// The indices `0..n`.
pub open spec fn index_range(n: nat) -> Seq<usize> {
    Seq::new(n, |j: int| j as usize)
}

/// The indices of the query's results, in increasing order.
pub open spec fn candidates(entries: Seq<FinderEntryView>, query: Seq<char>) -> Seq<usize> {
    index_range(entries.len()).filter(candidate_pred(entries, query))
}

/// State for the modal session finder.
pub struct FinderState {
    pub query: String,
    pub entries: Vec<FinderEntry>,
    pub filtered: Vec<usize>,
    pub cursor: usize,
}

impl FinderState {
    /// The filtered list is the query's results ordered by score, then by most recent activity,
    /// ties kept in entry order.
    pub open spec fn results_ordered(&self) -> bool {
        &&& self.filtered@.to_multiset() == candidates(entry_views(self.entries@), self.query@).to_multiset()
        &&& rank_ordered(rank_keys(entry_views(self.entries@), self.query@), self.filtered@, false)
    }

    pub open spec fn wf(&self) -> bool {
        forall|i: int| 0 <= i < self.filtered@.len() ==> (#[trigger] self.filtered@[i]) < self.entries@.len()
    }

    pub fn new() -> (s: Self)
        ensures
            s.query@.len() == 0,
            s.entries@.len() == 0,
            s.filtered@.len() == 0,
            s.cursor == 0,
            s.wf(),
            s.results_ordered(),
    {
        let s = FinderState { query: String::new(), entries: Vec::new(), filtered: Vec::new(), cursor: 0 };
        assert(candidates(entry_views(s.entries@), s.query@) =~= Seq::<usize>::empty());
        s
    }

    /// Open the finder by flattening the tree into searchable entries.
    pub fn open(&mut self, tree: &[TreeNode], show_dead: bool)
        ensures
            final(self).query@.len() == 0,
            final(self).cursor == 0,
            entry_views(final(self).entries@) == finder_rows(tree@, show_dead, Seq::empty()),
            final(self).wf(),
            final(self).results_ordered(),
    {
        self.query = String::new();
        self.cursor = 0;
        self.entries = Vec::new();
        assert(entry_views(self.entries@) =~= Seq::<FinderEntryView>::empty());
        let root = String::new();
        Self::flatten_tree(tree, show_dead, &root, &mut self.entries);
        assert(entry_views(self.entries@) =~= finder_rows(tree@, show_dead, Seq::empty()));
        self.refilter();
    }

    /// Flatten tree nodes into finder entries, recursing into groups.
    fn flatten_tree(nodes: &[TreeNode], show_dead: bool, parent_group: &String, out: &mut Vec<FinderEntry>)
        ensures
            entry_views(final(out)@) == entry_views(old(out)@) + finder_rows(nodes@, show_dead, parent_group@),
        decreases nodes@,
    {
        let ghost start = entry_views(out@);
        let mut i: usize = 0;
        assert(nodes@.take(0) =~= Seq::<TreeNode>::empty());
        assert(start + Seq::<FinderEntryView>::empty() =~= start);
        while i < nodes.len()
            invariant
                i <= nodes@.len(),
                entry_views(out@) == start + finder_rows(nodes@.take(i as int), show_dead, parent_group@),
            decreases nodes@.len() - i,
        {
            proof {
                assert(nodes@.take(i + 1).drop_last() =~= nodes@.take(i as int));
                assert(nodes@.take(i + 1).last() == nodes@[i as int]);
            }
            let ghost before = entry_views(out@);
            match &nodes[i] {
                TreeNode::Group(g) => {
                    Self::flatten_tree(g.children.as_slice(), show_dead, &g.name, out);
                    assert(entry_views(out@) =~= before + node_finder_rows(nodes@[i as int], show_dead, parent_group@));
                },
                TreeNode::Session(s) => {
                    if !show_dead && s.status == SessionStatus::Dead {
                        assert(entry_views(out@) =~= before + node_finder_rows(nodes@[i as int], show_dead, parent_group@));
                    } else {
                        let cwd = match &s.cwd {
                            Some(c) => c.clone(),
                            None => String::new(),
                        };
                        let ghost prev = out@;
                        out.push(FinderEntry {
                            session_id: s.session_id.clone(),
                            display_name: s.display_name.clone(),
                            group_name: parent_group.clone(),
                            cwd,
                            status: s.status,
                            last_active: s.last_active.clone(),
                        });
                        assert(entry_views(out@) =~= entry_views(prev).push(out@.last()@));
                        assert(entry_views(out@) =~= before + node_finder_rows(nodes@[i as int], show_dead, parent_group@));
                    }
                },
            }
            proof {
                assert(finder_rows(nodes@.take(i + 1), show_dead, parent_group@)
                    == finder_rows(nodes@.take(i as int), show_dead, parent_group@) + node_finder_rows(nodes@[i as int], show_dead, parent_group@));
                assert(entry_views(out@) =~= start + finder_rows(nodes@.take(i + 1), show_dead, parent_group@));
            }
            i += 1;
        }
        assert(nodes@.take(i as int) =~= nodes@);
    }

    /// Update the query and re-filter/re-score entries.
    pub fn update_query(&mut self, query: String)
        ensures
            final(self).query@ == query@,
            entry_views(final(self).entries@) == entry_views(old(self).entries@),
            final(self).cursor == 0,
            final(self).wf(),
            final(self).results_ordered(),
    {
        self.query = query;
        self.refilter();
    }

    /// Re-filter entries based on current query, and put the cursor back on the first result.
    fn refilter(&mut self)
        ensures
            final(self).query@ == old(self).query@,
            final(self).entries@ == old(self).entries@,
            final(self).cursor == 0,
            final(self).wf(),
            final(self).results_ordered(),
    {
        let ghost ev = entry_views(self.entries@);
        let is_empty = self.query.as_str().is_empty();
        let q = to_lowercase(self.query.as_str());
        let mut keys: Vec<(u32, Vec<char>)> = Vec::new();
        let mut cand: Vec<usize> = Vec::new();
        let mut i: usize = 0;
        while i < self.entries.len()
            invariant
                i <= self.entries@.len(),
                ev == entry_views(self.entries@),
                is_empty == (self.query@.len() == 0),
                q@ == lowercase(self.query@),
                keys@.len() == i,
                forall|j: int| 0 <= j < i ==> key_view(#[trigger] keys@[j]) == rank_keys(ev, self.query@)[j],
                cand@ == index_range(i as nat).filter(candidate_pred(ev, self.query@)),
                forall|j: int| 0 <= j < cand@.len() ==> (#[trigger] cand@[j]) < i,
                forall|a: int, b: int| 0 <= a < b < cand@.len() ==> cand@[a] < cand@[b],
            decreases self.entries@.len() - i,
        {
            let score = if is_empty { 0u32 } else { Self::score(&self.entries[i], q.as_str()) };
            let last = str_chars(self.entries[i].last_active.as_str());
            keys.push((score, last));
            proof {
                assert(ev[i as int] == self.entries@[i as int]@);
                lemma_filter_range_step(ev, self.query@, i as int);
            }
            if is_empty || score > 0 {
                cand.push(i);
            }
            i += 1;
        }
        assert(keys@.map_values(|k: (u32, Vec<char>)| key_view(k)) =~= rank_keys(ev, self.query@));
        self.filtered = rank_sort(&keys, &cand, false);
        proof {
            assert forall|k: int| 0 <= k < self.filtered@.len() implies (#[trigger] self.filtered@[k]) < self.entries@.len() by {
                assert(self.filtered@[k] < rank_keys(ev, self.query@).len());
            }
        }
        self.cursor = 0;
    }

    /// Score a finder entry against a lowercased query.
    /// Returns 0 if no match. Higher scores = better matches.
    pub fn score(entry: &FinderEntry, query_lower: &str) -> (r: u32)
        ensures
            r == entry_score(entry@, query_lower@),
    {
        let query_lower = str_chars(query_lower);
        let name_lower = str_chars(to_lowercase(entry.display_name.as_str()).as_str());
        let group_lower = str_chars(to_lowercase(entry.group_name.as_str()).as_str());
        let cwd_lower = str_chars(to_lowercase(entry.cwd.as_str()).as_str());
        if starts_with_exec(&name_lower, &query_lower) {
            100
        } else if contains_exec(&name_lower, &query_lower) {
            80
        } else if starts_with_exec(&group_lower, &query_lower) {
            60
        } else if contains_exec(&group_lower, &query_lower) {
            40
        } else if contains_exec(&cwd_lower, &query_lower) {
            20
        } else {
            0
        }
    }

    /// Get the currently selected entry, if any.
    pub fn selected(&self) -> (r: Option<&FinderEntry>)
        requires
            self.wf(),
        ensures
            match r {
                Some(e) => self.cursor < self.filtered@.len() && *e == self.entries@[self.filtered@[self.cursor as int] as int],
                None => self.cursor >= self.filtered@.len(),
            },
    {
        if self.cursor < self.filtered.len() {
            Some(&self.entries[self.filtered[self.cursor]])
        } else {
            None
        }
    }

    /// Get the filtered results for rendering.
    pub fn results(&self) -> (r: Vec<&FinderEntry>)
        requires
            self.wf(),
        ensures
            r@.len() == self.filtered@.len(),
            forall|i: int| 0 <= i < r@.len() ==> *(#[trigger] r@[i]) == self.entries@[self.filtered@[i] as int],
    {
        let mut r: Vec<&FinderEntry> = Vec::new();
        let mut i: usize = 0;
        while i < self.filtered.len()
            invariant
                i <= self.filtered@.len(),
                self.wf(),
                r@.len() == i,
                forall|k: int| 0 <= k < i ==> *(#[trigger] r@[k]) == self.entries@[self.filtered@[k] as int],
            decreases self.filtered@.len() - i,
        {
            r.push(&self.entries[self.filtered[i]]);
            i += 1;
        }
        r
    }

    /// Number of filtered results.
    pub fn result_count(&self) -> (r: usize)
        ensures
            r == self.filtered@.len(),
    {
        self.filtered.len()
    }

    /// Move cursor up, wrapping to bottom.
    pub fn cursor_up(&mut self)
        ensures
            final(self).query@ == old(self).query@,
            final(self).entries@ == old(self).entries@,
            final(self).filtered@ == old(self).filtered@,
            final(self).cursor == if old(self).filtered@.len() == 0 {
                old(self).cursor as int
            } else if old(self).cursor == 0 {
                old(self).filtered@.len() - 1
            } else {
                old(self).cursor - 1
            },
    {
        if self.filtered.len() == 0 {
            return;
        }
        if self.cursor == 0 {
            self.cursor = self.filtered.len() - 1;
        } else {
            self.cursor -= 1;
        }
    }

    /// Move cursor down, wrapping to top.
    pub fn cursor_down(&mut self)
        ensures
            final(self).query@ == old(self).query@,
            final(self).entries@ == old(self).entries@,
            final(self).filtered@ == old(self).filtered@,
            final(self).cursor == if old(self).filtered@.len() == 0 {
                old(self).cursor as int
            } else {
                (old(self).cursor + 1) % (old(self).filtered@.len() as int)
            },
    {
        if self.filtered.len() == 0 {
            return;
        }
        if self.cursor == usize::MAX {
            let count = self.filtered.len();
            self.cursor = ((usize::MAX % count) + 1) % count;
            proof {
                assert(((usize::MAX as int % count as int) + 1) % (count as int) == (usize::MAX as int + 1) % (count as int)) by (nonlinear_arith)
                    requires count > 0;
            }
        } else {
            self.cursor = (self.cursor + 1) % self.filtered.len();
        }
    }
}

proof fn lemma_filter_range_step(ev: Seq<FinderEntryView>, query: Seq<char>, i: int)
    requires
        0 <= i < usize::MAX,
    ensures
        index_range((i + 1) as nat).filter(candidate_pred(ev, query))
            == index_range(i as nat).filter(candidate_pred(ev, query)) + if is_candidate(ev, query, i) {
                seq![i as usize]
            } else {
                Seq::empty()
            },
{
    let s1 = index_range((i + 1) as nat);
    let s0 = index_range(i as nat);
    let pred = candidate_pred(ev, query);
    assert(s1.drop_last() =~= s0);
    assert(s1.last() == i as usize);
    reveal(Seq::filter);
    if pred(i as usize) {
        assert(s1.filter(pred) =~= s0.filter(pred).push(i as usize));
    } else {
        assert(s1.filter(pred) =~= s0.filter(pred));
    }
}

} // verus!
