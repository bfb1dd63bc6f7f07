use std::collections::HashSet;
use vstd::prelude::*;
use crate::keys::{KeyCode, KeyEvent};
use crate::types::{
    GroupIcon, GroupId, GroupNode, SelectionTarget, SessionSummary, SessionSummaryView, TargetView, TreeNode,
    seq_groups, node_groups, lemma_seq_sessions_step,
};

verus! {

broadcast use vstd::std_specs::hash::group_hash_axioms;

// ---------------------------------------------------------------------------
// Actions emitted by key handling
// ---------------------------------------------------------------------------

#[derive(Debug, Clone, PartialEq)]
pub enum TreeAction {
    Select(SelectionTarget),
    ToggleExpand(GroupId),
    ScrollUp,
    ScrollDown,
}

// ---------------------------------------------------------------------------
// Flat node produced by visible_nodes()
// ---------------------------------------------------------------------------

#[derive(Debug)]
pub struct FlatNode {
    pub depth: u16,
    pub node: FlatNodeKind,
}

#[derive(Debug)]
pub enum FlatNodeKind {
    Group { id: GroupId, name: String, icon: GroupIcon, child_count: usize, collapsed: bool },
    Session { summary: SessionSummary },
}

/// A visible row: its depth, and what it shows.
pub enum FlatView {
    Group { depth: int, id: GroupId, name: Seq<char>, icon: GroupIcon, child_count: int, collapsed: bool },
    Session { depth: int, summary: SessionSummaryView },
}

impl View for FlatNode {
    type V = FlatView;

    open spec fn view(&self) -> FlatView {
        match self.node {
            FlatNodeKind::Group { id, name, icon, child_count, collapsed } => FlatView::Group {
                depth: self.depth as int,
                id,
                name: name@,
                icon,
                child_count: child_count as int,
                collapsed,
            },
            FlatNodeKind::Session { summary } => FlatView::Session { depth: self.depth as int, summary: summary@ },
        }
    }
}

impl FlatNode {
    pub fn duplicate(&self) -> (r: Self)
        ensures
            r@ == self@,
    {
        let node = match &self.node {
            FlatNodeKind::Group { id, name, icon, child_count, collapsed } => FlatNodeKind::Group {
                id: *id,
                name: name.clone(),
                icon: *icon,
                child_count: *child_count,
                collapsed: *collapsed,
            },
            FlatNodeKind::Session { summary } => FlatNodeKind::Session { summary: summary.duplicate() },
        };
        FlatNode { depth: self.depth, node }
    }
}

pub open spec fn flat_views(v: Seq<FlatNode>) -> Seq<FlatView> {
    v.map_values(|n: FlatNode| n@)
}

/// Height of a forest: 0 for no nodes, one more than the tallest child forest otherwise.
pub open spec fn forest_height(nodes: Seq<TreeNode>) -> nat
    decreases nodes,
{
    if nodes.len() == 0 {
        0
    } else {
        let a = forest_height(nodes.drop_last());
        let b = node_height(nodes.last());
        if a > b { a } else { b }
    }
}

pub open spec fn node_height(n: TreeNode) -> nat
    decreases n,
{
    match n {
        TreeNode::Session(s) => 1,
        TreeNode::Group(g) => 1 + forest_height(g.children@),
    }
}

/// The visible rows of a forest at `depth`: every node, and the children of expanded groups.
pub open spec fn flat_rows(nodes: Seq<TreeNode>, expanded: Set<GroupId>, depth: int) -> Seq<FlatView>
    decreases nodes,
{
    if nodes.len() == 0 {
        Seq::empty()
    } else {
        flat_rows(nodes.drop_last(), expanded, depth) + node_rows(nodes.last(), expanded, depth)
    }
}

pub open spec fn node_rows(n: TreeNode, expanded: Set<GroupId>, depth: int) -> Seq<FlatView>
    decreases n,
{
    match n {
        TreeNode::Session(s) => seq![FlatView::Session { depth, summary: s@ }],
        TreeNode::Group(g) => seq![FlatView::Group {
            depth,
            id: g.id,
            name: g.name@,
            icon: g.icon,
            child_count: g.children.len() as int,
            collapsed: !expanded.contains(g.id),
        }] + if expanded.contains(g.id) {
            flat_rows(g.children@, expanded, depth + 1)
        } else {
            Seq::empty()
        },
    }
}

pub proof fn lemma_height_step(nodes: Seq<TreeNode>, i: int)
    requires
        0 <= i < nodes.len(),
    ensures
        forest_height(nodes.take(i)) <= forest_height(nodes),
        node_height(nodes[i]) <= forest_height(nodes),
    decreases nodes.len(),
{
    if i < nodes.len() - 1 {
        lemma_height_step(nodes.drop_last(), i);
        assert(nodes.drop_last().take(i) =~= nodes.take(i));
        assert(nodes.drop_last()[i] == nodes[i]);
    } else {
        assert(nodes.drop_last() =~= nodes.take(i));
    }
}

fn flatten_tree(nodes: &[TreeNode], expanded: &HashSet<GroupId>, depth: u16, out: &mut Vec<FlatNode>)
    requires
        depth + forest_height(nodes@) <= u16::MAX,
    ensures
        flat_views(final(out)@) == flat_views(old(out)@) + flat_rows(nodes@, expanded@, depth as int),
    decreases nodes@,
{
    let ghost start = flat_views(out@);
    let mut i: usize = 0;
    assert(nodes@.take(0) =~= Seq::<TreeNode>::empty());
    assert(start + Seq::<FlatView>::empty() =~= start);
    while i < nodes.len()
        invariant
            i <= nodes@.len(),
            depth + forest_height(nodes@) <= u16::MAX,
            flat_views(out@) == start + flat_rows(nodes@.take(i as int), expanded@, depth as int),
        decreases nodes@.len() - i,
    {
        proof {
            assert(nodes@.take(i + 1).drop_last() =~= nodes@.take(i as int));
            assert(nodes@.take(i + 1).last() == nodes@[i as int]);
            lemma_height_step(nodes@, i as int);
        }
        let ghost before = flat_views(out@);
        match &nodes[i] {
            TreeNode::Group(g) => {
                let is_expanded = expanded.contains(&g.id);
                let ghost prev = out@;
                out.push(FlatNode {
                    depth,
                    node: FlatNodeKind::Group {
                        id: g.id,
                        name: g.name.clone(),
                        icon: g.icon,
                        child_count: g.children.len(),
                        collapsed: !is_expanded,
                    },
                });
                assert(flat_views(out@) =~= flat_views(prev).push(out@.last()@));
                if is_expanded {
                    flatten_tree(g.children.as_slice(), expanded, depth + 1, out);
                }
                assert(flat_views(out@) =~= before + node_rows(nodes@[i as int], expanded@, depth as int));
            },
            TreeNode::Session(s) => {
                let ghost prev = out@;
                out.push(FlatNode { depth, node: FlatNodeKind::Session { summary: s.duplicate() } });
                assert(flat_views(out@) =~= flat_views(prev).push(out@.last()@));
                assert(flat_views(out@) =~= before + node_rows(nodes@[i as int], expanded@, depth as int));
            },
        }
        i += 1;
        assert(flat_views(out@) =~= start + flat_rows(nodes@.take(i as int), expanded@, depth as int));
    }
    assert(nodes@.take(i as int) =~= nodes@);
}

fn clone_flat(v: &Vec<FlatNode>) -> (r: Vec<FlatNode>)
    ensures
        flat_views(r@) == flat_views(v@),
{
    let mut r: Vec<FlatNode> = Vec::new();
    let mut i: usize = 0;
    while i < v.len()
        invariant
            i <= v@.len(),
            flat_views(r@) == flat_views(v@).take(i as int),
        decreases v@.len() - i,
    {
        let ghost prev = r@;
        r.push(v[i].duplicate());
        i += 1;
        assert(flat_views(r@) =~= flat_views(prev).push(v@[i - 1]@));
        assert(flat_views(r@) =~= flat_views(v@).take(i as int));
    }
    assert(flat_views(v@).take(i as int) =~= flat_views(v@));
    r
}

/// Ids of all groups of a forest.
pub open spec fn all_group_ids(nodes: Seq<TreeNode>) -> Set<GroupId> {
    Set::new(|id: GroupId| exists|k: int| 0 <= k < seq_groups(nodes).len() && (#[trigger] seq_groups(nodes)[k]).id == id)
}

fn collect_group_ids(nodes: &[TreeNode], ids: &mut HashSet<GroupId>)
    ensures
        final(ids)@ == old(ids)@.union(all_group_ids(nodes@)),
    decreases nodes@,
{
    let ghost start = ids@;
    let mut i: usize = 0;
    assert(all_group_ids(nodes@.take(0)) =~= Set::<GroupId>::empty()) by {
        assert(nodes@.take(0) =~= Seq::<TreeNode>::empty());
    }
    assert(start.union(Set::<GroupId>::empty()) =~= start);
    while i < nodes.len()
        invariant
            i <= nodes@.len(),
            ids@ == start.union(all_group_ids(nodes@.take(i as int))),
        decreases nodes@.len() - i,
    {
        proof {
            lemma_seq_sessions_step(nodes@, i as int);
        }
        let ghost pre = seq_groups(nodes@.take(i as int));
        if let TreeNode::Group(g) = &nodes[i] {
            let ghost before_ins = ids@;
            ids.insert(g.id);
            let ghost after_ins = ids@;
            assert(after_ins == before_ins.insert(g.id));
            collect_group_ids(g.children.as_slice(), ids);
            assert(ids@ == after_ins.union(all_group_ids(g.children@)));
            proof {
                let sub = seq_groups(g.children@);
                let now = seq_groups(nodes@.take(i + 1));
                assert(now == pre + (seq![*g] + sub));
                lemma_group_ids_step(nodes@, i as int, *g);
                let target = start.union(all_group_ids(nodes@.take(i + 1)));
                assert forall|id: GroupId| ids@.contains(id) <==> target.contains(id) by {
                    assert(before_ins.contains(id) <==> (start.contains(id) || all_group_ids(nodes@.take(i as int)).contains(id)));
                    assert(ids@.contains(id) <==> (before_ins.contains(id) || id == g.id || all_group_ids(g.children@).contains(id)));
                }
                assert(ids@ =~= target);
            }
        } else {
            proof {
                assert(seq_groups(nodes@.take(i + 1)) =~= pre);
                assert(all_group_ids(nodes@.take(i + 1)) =~= all_group_ids(nodes@.take(i as int)));
            }
        }
        i += 1;
    }
    assert(nodes@.take(i as int) =~= nodes@);
}

proof fn lemma_group_ids_step(nodes: Seq<TreeNode>, i: int, g: GroupNode)
    requires
        0 <= i < nodes.len(),
        nodes[i] == TreeNode::Group(g),
    ensures
        forall|id: GroupId| #[trigger] all_group_ids(nodes.take(i + 1)).contains(id) <==> (
            all_group_ids(nodes.take(i)).contains(id) || id == g.id || all_group_ids(g.children@).contains(id)),
{
    lemma_seq_sessions_step(nodes, i);
    let pre = seq_groups(nodes.take(i));
    let sub = seq_groups(g.children@);
    let now = seq_groups(nodes.take(i + 1));
    assert(now == pre + (seq![g] + sub));
    assert forall|id: GroupId| #[trigger] all_group_ids(nodes.take(i + 1)).contains(id) <==> (
        all_group_ids(nodes.take(i)).contains(id) || id == g.id || all_group_ids(g.children@).contains(id)) by {
        if all_group_ids(nodes.take(i + 1)).contains(id) {
            let k = choose|k: int| 0 <= k < now.len() && (#[trigger] now[k]).id == id;
            if k < pre.len() {
                assert(now[k] == pre[k]);
            } else if k == pre.len() {
                assert(now[k] == g);
            } else {
                assert(now[k] == sub[k - pre.len() - 1]);
            }
        }
        if all_group_ids(nodes.take(i)).contains(id) {
            let k = choose|k: int| 0 <= k < pre.len() && (#[trigger] pre[k]).id == id;
            assert(now[k] == pre[k]);
        }
        if id == g.id {
            assert(now[pre.len() as int] == g);
        }
        if all_group_ids(g.children@).contains(id) {
            let k = choose|k: int| 0 <= k < sub.len() && (#[trigger] sub[k]).id == id;
            assert(now[pre.len() + 1 + k] == sub[k]);
        }
    }
}

// ---------------------------------------------------------------------------
// TreeState
// ---------------------------------------------------------------------------

pub struct TreeState {
    pub cursor_index: usize,
    pub expanded: HashSet<GroupId>,
    pub scroll_offset: usize,
    pub cached_flat: Vec<FlatNode>,
    pub cache_valid: bool,
}

impl TreeState {
    /// The cached rows.
    pub open spec fn cache(&self) -> Seq<FlatView> {
        flat_views(self.cached_flat@)
    }

    /// Whether the cached rows are current.
    pub open spec fn is_cache_valid(&self) -> bool {
        self.cache_valid
    }

    /// Number of cached rows.
    pub fn cached_len(&self) -> (r: usize)
        ensures
            r == self.cache().len(),
    {
        self.cached_flat.len()
    }

    /// Create a new TreeState with all groups expanded by default.
    pub fn new(tree: &[TreeNode]) -> (s: Self)
        requires
            forest_height(tree@) <= u16::MAX,
        ensures
            s.cursor_index == 0,
            s.scroll_offset == 0,
            s.expanded@ == all_group_ids(tree@),
            s.is_cache_valid(),
            s.cache() == flat_rows(tree@, all_group_ids(tree@), 0),
    {
        let mut expanded: HashSet<GroupId> = HashSet::new();
        collect_group_ids(tree, &mut expanded);
        assert(Set::<GroupId>::empty().union(all_group_ids(tree@)) =~= all_group_ids(tree@));
        let mut state = TreeState {
            cursor_index: 0,
            expanded,
            scroll_offset: 0,
            cached_flat: Vec::new(),
            cache_valid: false,
        };
        state.ensure_cache(tree);
        state
    }

    /// Recompute the flat node cache if it has been invalidated.
    pub fn ensure_cache(&mut self, tree: &[TreeNode])
        requires
            forest_height(tree@) <= u16::MAX,
        ensures
            final(self).is_cache_valid(),
            final(self).cursor_index == old(self).cursor_index,
            final(self).scroll_offset == old(self).scroll_offset,
            final(self).expanded@ == old(self).expanded@,
            final(self).cache() == if old(self).is_cache_valid() {
                old(self).cache()
            } else {
                flat_rows(tree@, old(self).expanded@, 0)
            },
    {
        if !self.cache_valid {
            self.cached_flat = Vec::new();
            assert(flat_views(self.cached_flat@) =~= Seq::<FlatView>::empty());
            flatten_tree(tree, &self.expanded, 0, &mut self.cached_flat);
            assert(flat_views(self.cached_flat@) =~= flat_rows(tree@, self.expanded@, 0));
            self.cache_valid = true;
        }
    }

    /// Mark the cache as stale so it will be recomputed on next access.
    pub fn invalidate_cache(&mut self)
        ensures
            !final(self).is_cache_valid(),
            final(self).cursor_index == old(self).cursor_index,
            final(self).scroll_offset == old(self).scroll_offset,
            final(self).expanded@ == old(self).expanded@,
            final(self).cache() == old(self).cache(),
    {
        self.cache_valid = false;
    }

    /// Flatten the tree into a list of visible nodes, respecting collapsed state:
    /// the cached rows while the cache is current, otherwise freshly computed.
    pub fn visible_nodes(&self, tree: &[TreeNode]) -> (r: Vec<FlatNode>)
        requires
            forest_height(tree@) <= u16::MAX,
        ensures
            flat_views(r@) == if self.is_cache_valid() {
                self.cache()
            } else {
                flat_rows(tree@, self.expanded@, 0)
            },
    {
        if self.cache_valid {
            return clone_flat(&self.cached_flat);
        }
        let mut out: Vec<FlatNode> = Vec::new();
        assert(flat_views(out@) =~= Seq::<FlatView>::empty());
        flatten_tree(tree, &self.expanded, 0, &mut out);
        assert(flat_views(out@) =~= flat_rows(tree@, self.expanded@, 0));
        out
    }

    /// Move cursor up, wrapping around to the bottom.
    pub fn move_cursor_up(&mut self, tree: &[TreeNode])
        requires
            forest_height(tree@) <= u16::MAX,
        ensures
            final(self).is_cache_valid(),
            final(self).cache() == if old(self).is_cache_valid() { old(self).cache() } else { flat_rows(tree@, old(self).expanded@, 0) },
            final(self).expanded@ == old(self).expanded@,
            final(self).scroll_offset == old(self).scroll_offset,
            final(self).cursor_index == cursor_up(old(self).cursor_index as int, final(self).cache().len() as int),
    {
        self.ensure_cache(tree);
        let count = self.cached_flat.len();
        if count == 0 {
            return;
        }
        if self.cursor_index == 0 {
            self.cursor_index = count - 1;
        } else {
            self.cursor_index -= 1;
        }
    }

    /// Move cursor down, wrapping around to the top.
    pub fn move_cursor_down(&mut self, tree: &[TreeNode])
        requires
            forest_height(tree@) <= u16::MAX,
        ensures
            final(self).is_cache_valid(),
            final(self).cache() == if old(self).is_cache_valid() { old(self).cache() } else { flat_rows(tree@, old(self).expanded@, 0) },
            final(self).expanded@ == old(self).expanded@,
            final(self).scroll_offset == old(self).scroll_offset,
            final(self).cursor_index == cursor_down(old(self).cursor_index as int, final(self).cache().len() as int),
    {
        self.ensure_cache(tree);
        let count = self.cached_flat.len();
        if count == 0 {
            return;
        }
        if self.cursor_index == usize::MAX {
            // `(cursor + 1) % count` with the sum taken without overflow
            self.cursor_index = ((usize::MAX % count) + 1) % count;
            proof {
                assert(((usize::MAX as int % count as int) + 1) % (count as int) == (usize::MAX as int + 1) % (count as int)) by (nonlinear_arith)
                    requires count > 0;
            }
        } else {
            self.cursor_index = (self.cursor_index + 1) % count;
        }
    }

    /// Toggle expand/collapse for a group.
    pub fn toggle_expand(&mut self, group_id: GroupId)
        ensures
            final(self).expanded@ == if old(self).expanded@.contains(group_id) {
                old(self).expanded@.remove(group_id)
            } else {
                old(self).expanded@.insert(group_id)
            },
            !final(self).is_cache_valid(),
            final(self).cache() == old(self).cache(),
            final(self).cursor_index == old(self).cursor_index,
            final(self).scroll_offset == old(self).scroll_offset,
    {
        if self.expanded.contains(&group_id) {
            self.expanded.remove(&group_id);
        } else {
            self.expanded.insert(group_id);
        }
        self.invalidate_cache();
    }

    /// Get the selection target at the current cursor position.
    pub fn selected_target(&mut self, tree: &[TreeNode]) -> (r: Option<SelectionTarget>)
        requires
            forest_height(tree@) <= u16::MAX,
        ensures
            final(self).is_cache_valid(),
            final(self).cache() == if old(self).is_cache_valid() { old(self).cache() } else { flat_rows(tree@, old(self).expanded@, 0) },
            final(self).expanded@ == old(self).expanded@,
            final(self).cursor_index == old(self).cursor_index,
            final(self).scroll_offset == old(self).scroll_offset,
            opt_target_view(r) == target_at(final(self).cache(), final(self).cursor_index as int),
    {
        self.ensure_cache(tree);
        if self.cursor_index < self.cached_flat.len() {
            let n = &self.cached_flat[self.cursor_index];
            let ghost v = self.cached_flat@[self.cursor_index as int]@;
            assert(self.cache()[self.cursor_index as int] == v);
            match &n.node {
                FlatNodeKind::Group { id, .. } => Some(SelectionTarget::Group(*id)),
                FlatNodeKind::Session { summary } => Some(SelectionTarget::Session(summary.session_id.clone())),
            }
        } else {
            None
        }
    }

    /// Handle a key event, returning an optional action.
    pub fn handle_key(&mut self, key: KeyEvent, tree: &[TreeNode]) -> (r: Option<TreeAction>)
        requires
            forest_height(tree@) <= u16::MAX,
        ensures
            key_effect(*old(self), *final(self), key, tree@, r),
    {
        self.handle_normal_key(key, tree)
    }

    fn handle_normal_key(&mut self, key: KeyEvent, tree: &[TreeNode]) -> (r: Option<TreeAction>)
        requires
            forest_height(tree@) <= u16::MAX,
        ensures
            key_effect(*old(self), *final(self), key, tree@, r),
    {
        match key.code {
            KeyCode::Char('j') | KeyCode::Down => {
                self.move_cursor_down(tree);
                Some(TreeAction::ScrollDown)
            },
            KeyCode::Char('k') | KeyCode::Up => {
                self.move_cursor_up(tree);
                Some(TreeAction::ScrollUp)
            },
            KeyCode::Enter => {
                self.ensure_cache(tree);
                if self.cursor_index < self.cached_flat.len() {
                    let ghost v = self.cached_flat@[self.cursor_index as int]@;
                    assert(self.cache()[self.cursor_index as int] == v);
                    match &self.cached_flat[self.cursor_index].node {
                        FlatNodeKind::Group { id, .. } => {
                            let gid = *id;
                            self.toggle_expand(gid);
                            Some(TreeAction::ToggleExpand(gid))
                        },
                        FlatNodeKind::Session { summary } => {
                            let target = SelectionTarget::Session(summary.session_id.clone());
                            Some(TreeAction::Select(target))
                        },
                    }
                } else {
                    None
                }
            },
            _ => None,
        }
    }

    /// Ensure scroll_offset keeps cursor visible in the given viewport height.
    pub fn ensure_cursor_visible(&mut self, viewport_height: usize)
        requires
            old(self).scroll_offset + viewport_height <= usize::MAX,
        ensures
            final(self).cursor_index == old(self).cursor_index,
            final(self).expanded@ == old(self).expanded@,
            final(self).cache() == old(self).cache(),
            final(self).is_cache_valid() == old(self).is_cache_valid(),
            final(self).scroll_offset == if viewport_height == 0 {
                old(self).scroll_offset as int
            } else if old(self).cursor_index < old(self).scroll_offset {
                old(self).cursor_index as int
            } else if old(self).cursor_index >= old(self).scroll_offset + viewport_height {
                old(self).cursor_index - viewport_height + 1
            } else {
                old(self).scroll_offset as int
            },
            viewport_height > 0 ==> final(self).scroll_offset <= final(self).cursor_index < final(self).scroll_offset + viewport_height,
    {
        if viewport_height == 0 {
            return;
        }
        if self.cursor_index < self.scroll_offset {
            self.scroll_offset = self.cursor_index;
        } else if self.cursor_index >= self.scroll_offset + viewport_height {
            self.scroll_offset = self.cursor_index - viewport_height + 1;
        }
    }
}

/// The expanded set after toggling `id`.
pub open spec fn toggled(expanded: Set<GroupId>, id: GroupId) -> Set<GroupId> {
    if expanded.contains(id) {
        expanded.remove(id)
    } else {
        expanded.insert(id)
    }
}

/// Law: toggling the same group twice leaves the expanded set as it was.
pub proof fn lemma_toggle_twice(expanded: Set<GroupId>, id: GroupId)
    ensures
        toggled(toggled(expanded, id), id) == expanded,
{
    assert(toggled(toggled(expanded, id), id) =~= expanded);
}

/// The cursor after moving down among `count` rows.
pub open spec fn cursor_down(cursor: int, count: int) -> int {
    if count == 0 { cursor } else { (cursor + 1) % count }
}

/// The cursor after moving up among `count` rows.
pub open spec fn cursor_up(cursor: int, count: int) -> int {
    if count == 0 { cursor } else if cursor == 0 { count - 1 } else { cursor - 1 }
}

/// Law: on a non-empty list, moving down then up (or up then down) returns the cursor to
/// where it was, and either move keeps the cursor on a row.
pub proof fn lemma_cursor_moves_inverse(cursor: int, count: int)
    requires
        0 <= cursor < count,
    ensures
        cursor_up(cursor_down(cursor, count), count) == cursor,
        cursor_down(cursor_up(cursor, count), count) == cursor,
        0 <= cursor_down(cursor, count) < count,
        0 <= cursor_up(cursor, count) < count,
{
    if cursor + 1 < count {
        assert((cursor + 1) % count == cursor + 1) by {
            vstd::arithmetic::div_mod::lemma_small_mod((cursor + 1) as nat, count as nat);
        }
    } else {
        assert((cursor + 1) % count == 0) by {
            vstd::arithmetic::div_mod::lemma_mod_self_0(count);
        }
    }
    if cursor > 0 {
        assert(cursor % count == cursor) by {
            vstd::arithmetic::div_mod::lemma_small_mod(cursor as nat, count as nat);
        }
    } else {
        assert(count % count == 0) by {
            vstd::arithmetic::div_mod::lemma_mod_self_0(count);
        }
    }
}

/// The selection at row `i` of `rows`, if there is such a row.
pub open spec fn target_at(rows: Seq<FlatView>, i: int) -> Option<TargetView> {
    if 0 <= i < rows.len() {
        match rows[i] {
            FlatView::Group { id, .. } => Some(TargetView::Group(id)),
            FlatView::Session { summary, .. } => Some(TargetView::Session(summary.session_id)),
        }
    } else {
        None
    }
}

pub open spec fn opt_target_view(t: Option<SelectionTarget>) -> Option<TargetView> {
    match t {
        Some(x) => Some(x@),
        None => None,
    }
}

/// What a key does to the tree state, and what it reports.
pub open spec fn key_effect(pre: TreeState, post: TreeState, key: KeyEvent, tree: Seq<TreeNode>, r: Option<TreeAction>) -> bool {
    let rows = if pre.is_cache_valid() { pre.cache() } else { flat_rows(tree, pre.expanded@, 0) };
    if key.code == KeyCode::Char('j') || key.code == KeyCode::Down {
        &&& r == Some(TreeAction::ScrollDown)
        &&& post.is_cache_valid() && post.cache() == rows && post.expanded@ == pre.expanded@
        &&& post.cursor_index == if rows.len() == 0 { pre.cursor_index as int } else { (pre.cursor_index + 1) % (rows.len() as int) }
    } else if key.code == KeyCode::Char('k') || key.code == KeyCode::Up {
        &&& r == Some(TreeAction::ScrollUp)
        &&& post.is_cache_valid() && post.cache() == rows && post.expanded@ == pre.expanded@
        &&& post.cursor_index == if rows.len() == 0 {
            pre.cursor_index as int
        } else if pre.cursor_index == 0 {
            rows.len() - 1
        } else {
            pre.cursor_index - 1
        }
    } else if key.code == KeyCode::Enter {
        &&& post.cursor_index == pre.cursor_index
        &&& post.cache() == rows
        &&& if pre.cursor_index < rows.len() {
            match rows[pre.cursor_index as int] {
                FlatView::Group { id, .. } => {
                    &&& r == Some(TreeAction::ToggleExpand(id))
                    &&& !post.is_cache_valid()
                    &&& post.expanded@ == if pre.expanded@.contains(id) { pre.expanded@.remove(id) } else { pre.expanded@.insert(id) }
                },
                FlatView::Session { summary, .. } => {
                    &&& r matches Some(TreeAction::Select(SelectionTarget::Session(sid))) && sid@ == summary.session_id
                    &&& post.is_cache_valid() && post.expanded@ == pre.expanded@
                },
            }
        } else {
            r is None && post.is_cache_valid() && post.expanded@ == pre.expanded@
        }
    } else {
        r is None && post.cursor_index == pre.cursor_index && post.expanded@ == pre.expanded@
            && post.cache() == pre.cache() && post.is_cache_valid() == pre.is_cache_valid()
    }
}

/// The groups on the way down to the first session (depth first) with id `id`, or `None`
/// when there is no such session.
pub open spec fn path_to(nodes: Seq<TreeNode>, id: Seq<char>) -> Option<Set<GroupId>>
    decreases nodes,
{
    if nodes.len() == 0 {
        None
    } else {
        match nodes[0] {
            TreeNode::Session(s) => if s.session_id@ == id {
                Some(Set::empty())
            } else {
                path_to(nodes.subrange(1, nodes.len() as int), id)
            },
            TreeNode::Group(g) => match path_to(g.children@, id) {
                Some(p) => Some(p.insert(g.id)),
                None => path_to(nodes.subrange(1, nodes.len() as int), id),
            },
        }
    }
}

/// Row `k` is the first row that shows the session `id`.
pub open spec fn first_row_of(rows: Seq<FlatView>, id: Seq<char>, k: int) -> bool {
    &&& 0 <= k < rows.len()
    &&& rows[k] matches FlatView::Session { summary, .. } && summary.session_id == id
    &&& forall|j: int| 0 <= j < k ==> !(#[trigger] rows[j] matches FlatView::Session { summary, .. } && summary.session_id == id)
}

/// Expand the groups on the way to the session `id`; tells whether it was found.
fn expand_path(nodes: &[TreeNode], id: &str, expanded: &mut HashSet<GroupId>) -> (r: bool)
    ensures
        r == (path_to(nodes@, id@) is Some),
        final(expanded)@ == match path_to(nodes@, id@) {
            Some(p) => old(expanded)@.union(p),
            None => old(expanded)@,
        },
    decreases nodes@,
{
    let mut i: usize = 0;
    assert(nodes@.subrange(0, nodes@.len() as int) =~= nodes@);
    while i < nodes.len()
        invariant
            i <= nodes@.len(),
            path_to(nodes@, id@) == path_to(nodes@.subrange(i as int, nodes@.len() as int), id@),
            expanded@ == old(expanded)@,
        decreases nodes@.len() - i,
    {
        let ghost rest = nodes@.subrange(i as int, nodes@.len() as int);
        assert(rest[0] == nodes@[i as int]);
        assert(rest.subrange(1, rest.len() as int) =~= nodes@.subrange(i + 1, nodes@.len() as int));
        match &nodes[i] {
            TreeNode::Session(s) => {
                if crate::scanner::str_eq(s.session_id.as_str(), id) {
                    assert(old(expanded)@.union(Set::empty()) =~= old(expanded)@);
                    return true;
                }
            },
            TreeNode::Group(g) => {
                let ghost before = expanded@;
                if expand_path(g.children.as_slice(), id, expanded) {
                    expanded.insert(g.id);
                    proof {
                        let p = path_to(g.children@, id@)->0;
                        assert(expanded@ =~= old(expanded)@.union(p.insert(g.id)));
                    }
                    return true;
                }
            },
        }
        i += 1;
    }
    assert(nodes@.subrange(i as int, nodes@.len() as int).len() == 0);
    false
}

impl TreeState {
    /// Bring the session `session_id` into view and put the cursor on it: the groups on the
    /// way to it are expanded, and the cursor goes to the first row that shows it. Tells
    /// whether such a row exists; without one the cursor stays.
    pub fn jump_to_session(&mut self, session_id: &str, tree: &[TreeNode]) -> (r: bool)
        requires
            forest_height(tree@) <= u16::MAX,
        ensures
            final(self).expanded@ == match path_to(tree@, session_id@) {
                Some(p) => old(self).expanded@.union(p),
                None => old(self).expanded@,
            },
            final(self).is_cache_valid(),
            final(self).cache() == flat_rows(tree@, final(self).expanded@, 0),
            final(self).scroll_offset == old(self).scroll_offset,
            r ==> first_row_of(final(self).cache(), session_id@, final(self).cursor_index as int),
            !r ==> final(self).cursor_index == old(self).cursor_index
                && forall|k: int| 0 <= k < final(self).cache().len() ==> !(#[trigger] final(self).cache()[k] matches FlatView::Session { summary, .. } && summary.session_id == session_id@),
    {
        expand_path(tree, session_id, &mut self.expanded);
        self.invalidate_cache();
        self.ensure_cache(tree);
        let ghost exp = self.expanded@;
        let ghost rows = self.cache();
        let ghost scroll = self.scroll_offset;
        let ghost cursor = self.cursor_index;
        let mut k: usize = 0;
        while k < self.cached_flat.len()
            invariant
                self.expanded@ == exp,
                self.cache() == rows,
                exp == match path_to(tree@, session_id@) {
                    Some(p) => old(self).expanded@.union(p),
                    None => old(self).expanded@,
                },
                rows == flat_rows(tree@, exp, 0),
                self.is_cache_valid(),
                self.scroll_offset == scroll,
                scroll == old(self).scroll_offset,
                self.cursor_index == cursor,
                k <= self.cache().len(),
                self.cache().len() == self.cached_flat@.len(),
                forall|j: int| 0 <= j < k ==> !(#[trigger] self.cache()[j] matches FlatView::Session { summary, .. } && summary.session_id == session_id@),
            decreases self.cached_flat@.len() - k,
        {
            let ghost v = self.cached_flat@[k as int]@;
            assert(self.cache()[k as int] == v);
            match &self.cached_flat[k].node {
                FlatNodeKind::Session { summary } => {
                    if crate::scanner::str_eq(summary.session_id.as_str(), session_id) {
                        self.cursor_index = k;
                        return true;
                    }
                },
                FlatNodeKind::Group { .. } => {},
            }
            k += 1;
        }
        false
    }
}

/// Law: on a tree with rows (the cursor on one of them), moving the cursor down and then up (or up and then down)
/// leaves it where it was; the rows, the expanded groups and the scroll offset stay.
pub proof fn lemma_cursor_down_up(before: TreeState, middle: TreeState, after: TreeState)
    requires
        before.is_cache_valid(),
        before.cursor_index < before.cache().len(),
        middle.is_cache_valid() && middle.cache() == before.cache(),
        middle.expanded@ == before.expanded@ && middle.scroll_offset == before.scroll_offset,
        after.is_cache_valid() && after.cache() == middle.cache(),
        after.expanded@ == middle.expanded@ && after.scroll_offset == middle.scroll_offset,
        (middle.cursor_index == cursor_down(before.cursor_index as int, before.cache().len() as int)
            && after.cursor_index == cursor_up(middle.cursor_index as int, middle.cache().len() as int))
        || (middle.cursor_index == cursor_up(before.cursor_index as int, before.cache().len() as int)
            && after.cursor_index == cursor_down(middle.cursor_index as int, middle.cache().len() as int)),
    ensures
        after.cursor_index == before.cursor_index,
        after.expanded@ == before.expanded@,
        after.scroll_offset == before.scroll_offset,
{
    lemma_cursor_moves_inverse(before.cursor_index as int, before.cache().len() as int);
}

} // verus!
