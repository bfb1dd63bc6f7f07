//! The session radar: where each session's blip goes (its group's direction, how recent
//! it is, and a small offset of its own, all in whole numbers), and the cursor that moves
//! from blip to blip. Turning a blip into a point, and the sweep arm, are the drawing's.

use vstd::prelude::*;
use vstd::utf8::encode_utf8;
use crate::scanner::str_eq;
use crate::time_utils::{seconds_ago_at, seconds_from, timestamp_month_in_range};
use crate::types::{seq_sessions, node_sessions, SessionSummary, TreeNode};

verus! {

broadcast use vstd::string::group_string_axioms;

// ---------------------------------------------------------------------------
// Placement
// ---------------------------------------------------------------------------

/// The 32-bit rolling hash of some bytes: each byte added to the hash so far times `mult`,
/// wrapping around.
pub open spec fn name_hash(bytes: Seq<u8>, mult: int) -> int
    decreases bytes.len(),
{
    if bytes.len() == 0 {
        0
    } else {
        (name_hash(bytes.drop_last(), mult) * mult + bytes.last()) % 0x1_0000_0000
    }
}

fn hash_bytes(bytes: &[u8], mult: u32) -> (r: u32)
    requires
        2 <= mult <= 64,
    ensures
        r == name_hash(bytes@, mult as int),
{
    let mut h: u32 = 0;
    let mut i: usize = 0;
    assert(bytes@.take(0) =~= Seq::<u8>::empty());
    while i < bytes.len()
        invariant
            2 <= mult <= 64,
            i <= bytes@.len(),
            h == name_hash(bytes@.take(i as int), mult as int),
        decreases bytes@.len() - i,
    {
        assert(bytes@.take(i + 1).drop_last() =~= bytes@.take(i as int));
        let b = bytes[i];
        assert((h as int) * (mult as int) <= 0xffff_ffff * 64) by (nonlinear_arith)
            requires
                h <= 0xffff_ffff,
                mult <= 64,
        ;
        let wide: u64 = (h as u64) * (mult as u64) + (b as u64);
        h = (wide % 0x1_0000_0000) as u32;
        i += 1;
    }
    assert(bytes@.take(i as int) =~= bytes@);
    h
}

/// The direction of a group's blips, in whole degrees.
pub open spec fn group_angle(name: Seq<char>) -> u32 {
    (name_hash(encode_utf8(name), 31) % 360) as u32
}

/// A session's own turn away from its group's direction, in degrees (-15 to 15).
pub open spec fn angle_jitter(id: Seq<char>) -> i32 {
    (name_hash(encode_utf8(id), 37) % 31 - 15) as i32
}

/// A session's own step in or out from the radius of its recency (-3 to 3).
pub open spec fn radius_jitter(id: Seq<char>) -> i32 {
    (name_hash(encode_utf8(id), 41) % 7 - 3) as i32
}

/// Hash a group name to the direction of its blips, in whole degrees [0, 360).
pub fn hash_to_angle(name: &str) -> (r: u32)
    ensures
        r == group_angle(name@),
        r < 360,
{
    hash_bytes(name.as_bytes(), 31) % 360
}

/// Small angle jitter based on the session ID's hash: -15 to 15 degrees.
pub fn small_hash_jitter(id: &str) -> (r: i32)
    ensures
        r == angle_jitter(id@),
        -15 <= r <= 15,
{
    let h = hash_bytes(id.as_bytes(), 37);
    (h % 31) as i32 - 15
}

/// Small radius jitter based on the session ID's hash: -3 to 3.
pub fn small_hash_radius_jitter(id: &str) -> (r: i32)
    ensures
        r == radius_jitter(id@),
        -3 <= r <= 3,
{
    let h = hash_bytes(id.as_bytes(), 41);
    (h % 7) as i32 - 3
}

/// How recent a session is, which sets how far from the centre its blip goes (a quarter
/// of the radius for today, a half for this week, three quarters for this month, nearly
/// all of it for older or unreadable times).
#[derive(Debug, Clone, Copy, PartialEq, Eq, Structural)]
pub enum Recency {
    Today,
    ThisWeek,
    ThisMonth,
    Older,
}

/// The recency of an age in seconds (`None`: the time could not be read), as its relative
/// time reads: minutes or hours ago (or just now) is today; up to seven days is this week;
/// more days, or fewer than twelve 30-day months, is this month; anything else is older.
pub open spec fn recency_of(secs: Option<int>) -> Recency {
    match secs {
        None => Recency::Older,
        Some(s) => if s < 0 {
            Recency::Older
        } else if s < 86400 {
            Recency::Today
        } else if s / 86400 <= 7 {
            Recency::ThisWeek
        } else if (s / 86400) / 30 < 12 {
            Recency::ThisMonth
        } else {
            Recency::Older
        },
    }
}

/// The recency of an age in seconds.
pub fn recency_of_age(secs: Option<i64>) -> (r: Recency)
    ensures
        r == recency_of(match secs { Some(s) => Some(s as int), None => None }),
{
    match secs {
        None => Recency::Older,
        Some(s) => {
            if s < 0 {
                Recency::Older
            } else if s < 86400 {
                Recency::Today
            } else if s / 86400 <= 7 {
                Recency::ThisWeek
            } else if (s / 86400) / 30 < 12 {
                Recency::ThisMonth
            } else {
                Recency::Older
            }
        },
    }
}

// ---------------------------------------------------------------------------
// Blips
// ---------------------------------------------------------------------------

/// A session on the radar.
#[derive(Debug, Clone)]
pub struct RadarBlip {
    pub session_id: String,
    pub group_name: String,
    /// The direction of the session's group, in whole degrees.
    pub angle_deg: u32,
    /// The session's own turn from that direction, in degrees.
    pub jitter_deg: i32,
    pub recency: Recency,
    /// The session's own step in or out.
    pub radius_jitter: i32,
    pub is_active: bool,
}

pub struct RadarBlipView {
    pub session_id: Seq<char>,
    pub group_name: Seq<char>,
    pub angle_deg: u32,
    pub jitter_deg: i32,
    pub recency: Recency,
    pub radius_jitter: i32,
    pub is_active: bool,
}

impl View for RadarBlip {
    type V = RadarBlipView;

    open spec fn view(&self) -> RadarBlipView {
        RadarBlipView {
            session_id: self.session_id@,
            group_name: self.group_name@,
            angle_deg: self.angle_deg,
            jitter_deg: self.jitter_deg,
            recency: self.recency,
            radius_jitter: self.radius_jitter,
            is_active: self.is_active,
        }
    }
}

/// The sessions of a forest whose nearest enclosing group is named `parent`, each with the
/// name of its nearest group, depth first.
pub open spec fn radar_rows(nodes: Seq<TreeNode>, parent: Seq<char>) -> Seq<(SessionSummary, Seq<char>)>
    decreases nodes,
{
    if nodes.len() == 0 {
        Seq::empty()
    } else {
        radar_rows(nodes.drop_last(), parent) + node_radar_rows(nodes.last(), parent)
    }
}

pub open spec fn node_radar_rows(n: TreeNode, parent: Seq<char>) -> Seq<(SessionSummary, Seq<char>)>
    decreases n,
{
    match n {
        TreeNode::Group(g) => radar_rows(g.children@, g.name@),
        TreeNode::Session(s) => seq![(s, parent)],
    }
}

/// The radar's rows hold the forest's sessions, in order.
proof fn lemma_rows_are_sessions(nodes: Seq<TreeNode>, parent: Seq<char>)
    ensures
        radar_rows(nodes, parent).len() == seq_sessions(nodes).len(),
        forall|k: int| 0 <= k < seq_sessions(nodes).len() ==> (#[trigger] radar_rows(nodes, parent)[k]).0 == seq_sessions(nodes)[k],
    decreases nodes,
{
    if nodes.len() > 0 {
        lemma_rows_are_sessions(nodes.drop_last(), parent);
        lemma_node_rows_are_sessions(nodes.last(), parent);
    }
}

proof fn lemma_node_rows_are_sessions(n: TreeNode, parent: Seq<char>)
    ensures
        node_radar_rows(n, parent).len() == node_sessions(n).len(),
        forall|k: int| 0 <= k < node_sessions(n).len() ==> (#[trigger] node_radar_rows(n, parent)[k]).0 == node_sessions(n)[k],
    decreases n,
{
    match n {
        TreeNode::Group(g) => lemma_rows_are_sessions(g.children@, g.name@),
        TreeNode::Session(s) => {},
    }
}

/// The blip of a session drawn with group `group`, its age taken at time `now`.
pub open spec fn blip_for(s: SessionSummary, group: Seq<char>, now: int) -> RadarBlipView {
    RadarBlipView {
        session_id: s.session_id@,
        group_name: group,
        angle_deg: group_angle(group),
        jitter_deg: angle_jitter(s.session_id@),
        recency: recency_of(seconds_from(s.last_active@, now)),
        radius_jitter: radius_jitter(s.session_id@),
        is_active: s.is_active,
    }
}

/// The blips of a forest at time `now`: one per session, depth first, top-level sessions
/// drawn with the group `Ungrouped`.
pub open spec fn radar_blips(tree: Seq<TreeNode>, now: int) -> Seq<RadarBlipView> {
    radar_rows(tree, "Ungrouped"@).map_values(|r: (SessionSummary, Seq<char>)| blip_for(r.0, r.1, now))
}

/// Every session's last activity can be read without an out-of-range month.
pub open spec fn times_readable(tree: Seq<TreeNode>) -> bool {
    forall|k: int| 0 <= k < seq_sessions(tree).len() ==> timestamp_month_in_range(#[trigger] seq_sessions(tree)[k].last_active@)
}

pub open spec fn blip_views(v: Seq<RadarBlip>) -> Seq<RadarBlipView> {
    v.map_values(|b: RadarBlip| b@)
}

/// A session found while walking the tree, with the name of its group.
struct RadarRow {
    session_id: String,
    group_name: String,
    last_active: String,
    is_active: bool,
}

spec fn row_matches(r: RadarRow, spec_row: (SessionSummary, Seq<char>)) -> bool {
    &&& r.session_id@ == spec_row.0.session_id@
    &&& r.group_name@ == spec_row.1
    &&& r.last_active@ == spec_row.0.last_active@
    &&& r.is_active == spec_row.0.is_active
}

fn collect_rows(nodes: &[TreeNode], parent_group: &String, out: &mut Vec<RadarRow>)
    ensures
        final(out)@.len() == old(out)@.len() + radar_rows(nodes@, parent_group@).len(),
        forall|k: int| 0 <= k < old(out)@.len() ==> #[trigger] final(out)@[k] == old(out)@[k],
        forall|k: int| 0 <= k < radar_rows(nodes@, parent_group@).len()
            ==> row_matches(#[trigger] final(out)@[old(out)@.len() + k], radar_rows(nodes@, parent_group@)[k]),
    decreases nodes@,
{
    let ghost start = out@;
    let mut i: usize = 0;
    assert(nodes@.take(0) =~= Seq::<TreeNode>::empty());
    while i < nodes.len()
        invariant
            i <= nodes@.len(),
            out@.len() == start.len() + radar_rows(nodes@.take(i as int), parent_group@).len(),
            forall|k: int| 0 <= k < start.len() ==> #[trigger] out@[k] == start[k],
            forall|k: int| 0 <= k < radar_rows(nodes@.take(i as int), parent_group@).len()
                ==> row_matches(#[trigger] out@[start.len() + k], radar_rows(nodes@.take(i as int), parent_group@)[k]),
        decreases nodes@.len() - i,
    {
        proof {
            assert(nodes@.take(i + 1).drop_last() =~= nodes@.take(i as int));
            assert(nodes@.take(i + 1).last() == nodes@[i as int]);
        }
        let ghost before = out@;
        let ghost prefix_rows = radar_rows(nodes@.take(i as int), parent_group@);
        let ghost node_rows = node_radar_rows(nodes@[i as int], parent_group@);
        assert(radar_rows(nodes@.take(i + 1), parent_group@) == prefix_rows + node_rows);
        match &nodes[i] {
            TreeNode::Group(g) => {
                collect_rows(g.children.as_slice(), &g.name, out);
                assert(node_rows == radar_rows(g.children@, g.name@));
            },
            TreeNode::Session(s) => {
                out.push(RadarRow {
                    session_id: s.session_id.clone(),
                    group_name: parent_group.clone(),
                    last_active: s.last_active.clone(),
                    is_active: s.is_active,
                });
                assert(node_rows == seq![(*s, parent_group@)]);
            },
        }
        assert forall|k: int| 0 <= k < start.len() implies #[trigger] out@[k] == start[k] by {
            assert(out@[k] == before[k]);
        }
        assert forall|k: int| 0 <= k < (prefix_rows + node_rows).len()
            implies row_matches(#[trigger] out@[start.len() + k], (prefix_rows + node_rows)[k]) by {
            if k < prefix_rows.len() {
                assert(out@[start.len() + k] == before[start.len() + k]);
            } else {
                assert(out@[start.len() + k] == out@[before.len() + (k - prefix_rows.len())]);
            }
        }
        i += 1;
    }
    assert(nodes@.take(i as int) =~= nodes@);
}

// ---------------------------------------------------------------------------
// Radar state
// ---------------------------------------------------------------------------

/// Where the cursor goes on "next" among `n` blips: to the following blip, from the last
/// back to the first; to the first when it was nowhere; nowhere when there are no blips.
pub open spec fn cursor_after_next(n: nat, c: Option<usize>) -> Option<usize> {
    if n == 0 {
        None
    } else {
        match c {
            Some(i) => Some(((i + 1) % (n as int)) as usize),
            None => Some(0usize),
        }
    }
}

/// Where the cursor goes on "previous" among `n` blips: to the blip before, from the first
/// back to the last; to the last when it was nowhere; nowhere when there are no blips.
pub open spec fn cursor_after_prev(n: nat, c: Option<usize>) -> Option<usize> {
    if n == 0 {
        None
    } else {
        match c {
            Some(i) => if i == 0 { Some((n - 1) as usize) } else { Some((i - 1) as usize) },
            None => Some((n - 1) as usize),
        }
    }
}

pub struct RadarState {
    /// The blip under the cursor, if any.
    pub cursor_blip: Option<usize>,
    pub blips: Vec<RadarBlip>,
}

impl RadarState {
    /// A cursor that points at a blip, if anything.
    pub open spec fn wf(&self) -> bool {
        match self.cursor_blip {
            Some(i) => i < self.blips@.len(),
            None => true,
        }
    }

    pub fn new() -> (r: Self)
        ensures
            r.cursor_blip is None,
            r.blips@.len() == 0,
            r.wf(),
    {
        RadarState { cursor_blip: None, blips: Vec::new() }
    }

    /// Compute the blips from the tree, their ages taken at time `now` (seconds since the
    /// epoch). A cursor past the new blips goes to the first (none when there are none);
    /// another stays where it is.
    pub fn compute_blips(&mut self, tree: &[TreeNode], now: i64)
        requires
            times_readable(tree@),
            -4611686018427387904 <= now <= 4611686018427387904,
        ensures
            blip_views(final(self).blips@) == radar_blips(tree@, now as int),
            final(self).cursor_blip == match old(self).cursor_blip {
                Some(i) => if i < final(self).blips@.len() {
                    Some(i)
                } else if final(self).blips@.len() == 0 {
                    None
                } else {
                    Some(0usize)
                },
                None => None,
            },
            final(self).wf(),
    {
        let ghost rows = radar_rows(tree@, "Ungrouped"@);
        let mut found: Vec<RadarRow> = Vec::new();
        let top = "Ungrouped".to_owned();
        collect_rows(tree, &top, &mut found);
        proof {
            lemma_rows_are_sessions(tree@, "Ungrouped"@);
            assert forall|j: int| 0 <= j < rows.len() implies row_matches(#[trigger] found@[j], rows[j]) by {
                assert(found@[0 + j] == found@[j]);
            }
        }
        let mut blips: Vec<RadarBlip> = Vec::new();
        let mut k: usize = 0;
        while k < found.len()
            invariant
                rows == radar_rows(tree@, "Ungrouped"@),
                found@.len() == rows.len(),
                rows.len() == seq_sessions(tree@).len(),
                forall|j: int| 0 <= j < rows.len() ==> (#[trigger] rows[j]).0 == seq_sessions(tree@)[j],
                forall|j: int| 0 <= j < rows.len() ==> row_matches(#[trigger] found@[j], rows[j]),
                times_readable(tree@),
                -4611686018427387904 <= now <= 4611686018427387904,
                k <= found@.len(),
                blips@.len() == k,
                forall|j: int| 0 <= j < k ==> (#[trigger] blips@[j])@ == blip_for(rows[j].0, rows[j].1, now as int),
            decreases found@.len() - k,
        {
            let row = &found[k];
            assert(row_matches(found@[k as int], rows[k as int]));
            assert(timestamp_month_in_range(seq_sessions(tree@)[k as int].last_active@));
            let age = seconds_ago_at(row.last_active.as_str(), now);
            let blip = RadarBlip {
                session_id: row.session_id.clone(),
                group_name: row.group_name.clone(),
                angle_deg: hash_to_angle(row.group_name.as_str()),
                jitter_deg: small_hash_jitter(row.session_id.as_str()),
                recency: recency_of_age(age),
                radius_jitter: small_hash_radius_jitter(row.session_id.as_str()),
                is_active: row.is_active,
            };
            blips.push(blip);
            k += 1;
        }
        assert(blip_views(blips@) =~= radar_blips(tree@, now as int));
        self.blips = blips;
        // Preserve cursor if possible
        if let Some(idx) = self.cursor_blip {
            if idx >= self.blips.len() {
                self.cursor_blip = if self.blips.len() == 0 { None } else { Some(0) };
            }
        }
    }

    /// Move the cursor to the next blip, from the last back to the first; to the first when
    /// there was none; nowhere when there are no blips.
    pub fn move_cursor_next(&mut self)
        requires
            old(self).wf(),
        ensures
            final(self).blips@ == old(self).blips@,
            final(self).cursor_blip == cursor_after_next(old(self).blips@.len(), old(self).cursor_blip),
            final(self).wf(),
    {
        let n = self.blips.len();
        if n == 0 {
            self.cursor_blip = None;
            return;
        }
        self.cursor_blip = Some(match self.cursor_blip {
            Some(idx) => (idx + 1) % n,
            None => 0,
        });
    }

    /// Move the cursor to the previous blip, from the first back to the last; to the last
    /// when there was none; nowhere when there are no blips.
    pub fn move_cursor_prev(&mut self)
        requires
            old(self).wf(),
        ensures
            final(self).blips@ == old(self).blips@,
            final(self).cursor_blip == cursor_after_prev(old(self).blips@.len(), old(self).cursor_blip),
            final(self).wf(),
    {
        let n = self.blips.len();
        if n == 0 {
            self.cursor_blip = None;
            return;
        }
        self.cursor_blip = Some(match self.cursor_blip {
            Some(0) => n - 1,
            Some(idx) => idx - 1,
            None => n - 1,
        });
    }

    /// The session of the blip under the cursor.
    pub fn selected_session(&self) -> (r: Option<&str>)
        ensures
            match r {
                Some(id) => self.cursor_blip is Some && self.cursor_blip->0 < self.blips@.len()
                    && id@ == self.blips@[self.cursor_blip->0 as int].session_id@,
                None => self.cursor_blip is None || self.cursor_blip->0 >= self.blips@.len(),
            },
    {
        match self.cursor_blip {
            Some(idx) => {
                if idx < self.blips.len() {
                    Some(self.blips[idx].session_id.as_str())
                } else {
                    None
                }
            },
            None => None,
        }
    }

    /// Put the cursor on the first blip of the session `id`; nowhere when it has none.
    pub fn select_by_session_id(&mut self, id: &str)
        ensures
            final(self).blips@ == old(self).blips@,
            match final(self).cursor_blip {
                Some(i) => i < old(self).blips@.len() && old(self).blips@[i as int].session_id@ == id@
                    && forall|j: int| 0 <= j < i ==> (#[trigger] old(self).blips@[j]).session_id@ != id@,
                None => forall|j: int| 0 <= j < old(self).blips@.len() ==> (#[trigger] old(self).blips@[j]).session_id@ != id@,
            },
            final(self).wf(),
    {
        let mut i: usize = 0;
        while i < self.blips.len()
            invariant
                i <= self.blips@.len(),
                self.blips@ == old(self).blips@,
                forall|j: int| 0 <= j < i ==> (#[trigger] self.blips@[j]).session_id@ != id@,
            decreases self.blips@.len() - i,
        {
            if str_eq(self.blips[i].session_id.as_str(), id) {
                self.cursor_blip = Some(i);
                return;
            }
            i += 1;
        }
        self.cursor_blip = None;
    }
}

/// Moving the cursor forward and then back, or back and then forward, returns it to the
/// blip it was on.
pub proof fn lemma_cursor_next_prev(n: nat, i: usize)
    requires
        i < n,
        n <= usize::MAX,
    ensures
        cursor_after_prev(n, cursor_after_next(n, Some(i))) == Some(i),
        cursor_after_next(n, cursor_after_prev(n, Some(i))) == Some(i),
{
    if i + 1 < n {
        assert((i + 1) % (n as int) == i + 1) by (nonlinear_arith)
            requires
                0 <= i + 1 < n,
        ;
    } else {
        assert((i + 1) % (n as int) == 0) by (nonlinear_arith)
            requires
                i + 1 == n,
        ;
    }
    if i > 0 {
        assert(((i - 1) + 1) % (n as int) == i) by (nonlinear_arith)
            requires
                0 < i < n,
        ;
    } else {
        assert(((n - 1) + 1) % (n as int) == 0) by (nonlinear_arith)
            requires
                n > 0,
        ;
    }
}

} // verus!
