use vstd::prelude::*;
use crate::numfmt::{decimal, u64_to_string};
use crate::strutil::{push_str, starts_with_exec, starts_with_seq, str_chars};
use crate::types::{
    origin_text, status_text, lemma_seq_sessions_append, lemma_seq_sessions_step, seq_sessions, SessionStatus, SessionSummary, TreeNode,
};
use crate::widgets::tree_state::{forest_height, lemma_height_step, node_height};

verus! {

/// The command line: an optional subcommand, and whether to print JSON.
#[derive(Debug)]
pub struct Cli {
    pub command: Option<Commands>,
    /// Output in JSON format (for subcommands that support it)
    pub json: bool,
}

#[derive(Debug)]
pub enum Commands {
    /// List all sessions (`all`: include dead/past sessions)
    List { all: bool },
    /// Show details for a specific session (ID or prefix)
    Show { session_id: String },
    /// Create a new session, optionally in a working directory and a group
    New { name: String, cwd: Option<String>, group: Option<String> },
    /// Launch/resume a session in tmux
    Launch { session_id: String },
    /// Kill a tmux session
    Kill { session_name: String },
    /// List configured groups
    Groups,
}

/// The session is the one asked for: its id starts with what was given.
pub open spec fn id_matches(s: SessionSummary, id: Seq<char>) -> bool {
    starts_with_seq(s.session_id@, id)
}

/// `k` is the first session, depth first, whose id starts with `id`.
pub open spec fn first_matching(ss: Seq<SessionSummary>, id: Seq<char>, k: int) -> bool {
    &&& 0 <= k < ss.len()
    &&& id_matches(ss[k], id)
    &&& forall|j: int| 0 <= j < k ==> !id_matches(#[trigger] ss[j], id)
}

/// Find a session by its id or a prefix of it: the first, depth first, whose id starts with
/// what was given.
pub fn find_session_by_prefix<'a>(tree: &'a [TreeNode], id: &str) -> (r: Option<&'a SessionSummary>)
    ensures
        match r {
            Some(s) => exists|k: int| first_matching(seq_sessions(tree@), id@, k) && seq_sessions(tree@)[k] == *s,
            None => forall|k: int| 0 <= k < seq_sessions(tree@).len() ==> !id_matches(#[trigger] seq_sessions(tree@)[k], id@),
        },
    decreases tree@,
{
    let wanted = str_chars(id);
    let mut i: usize = 0;
    while i < tree.len()
        invariant
            i <= tree@.len(),
            wanted@ == id@,
            forall|k: int| 0 <= k < seq_sessions(tree@.take(i as int)).len() ==> !id_matches(#[trigger] seq_sessions(tree@.take(i as int))[k], id@),
        decreases tree@.len() - i,
    {
        proof {
            lemma_seq_sessions_step(tree@, i as int);
            lemma_seq_sessions_append(tree@.take(i + 1), tree@.skip(i + 1));
            assert(tree@.take(i + 1) + tree@.skip(i + 1) =~= tree@);
        }
        let ghost pre = seq_sessions(tree@.take(i as int));
        let ghost whole = seq_sessions(tree@);
        match &tree[i] {
            TreeNode::Session(s) => {
                if starts_with_exec(&str_chars(s.session_id.as_str()), &wanted) {
                    proof {
                        assert(whole[pre.len() as int] == *s);
                        assert forall|j: int| 0 <= j < pre.len() implies !id_matches(#[trigger] whole[j], id@) by {
                            assert(whole[j] == pre[j]);
                        }
                    }
                    return Some(s);
                }
            },
            TreeNode::Group(g) => {
                let found = find_session_by_prefix(g.children.as_slice(), id);
                if let Some(s) = found {
                    proof {
                        let k = choose|k: int| first_matching(seq_sessions(g.children@), id@, k) && seq_sessions(g.children@)[k] == *s;
                        assert(whole[pre.len() + k] == seq_sessions(g.children@)[k]);
                        assert forall|j: int| 0 <= j < pre.len() + k implies !id_matches(#[trigger] whole[j], id@) by {
                            if j < pre.len() {
                                assert(whole[j] == pre[j]);
                            } else {
                                assert(whole[j] == seq_sessions(g.children@)[j - pre.len()]);
                            }
                        }
                        assert(first_matching(whole, id@, pre.len() + k));
                    }
                    return Some(s);
                }
            },
        }
        i += 1;
        proof {
            let now = seq_sessions(tree@.take(i as int));
            assert forall|k: int| 0 <= k < now.len() implies !id_matches(#[trigger] now[k], id@) by {
                if k < pre.len() {
                    assert(now[k] == pre[k]);
                }
            }
        }
    }
    assert(tree@.take(i as int) =~= tree@);
    None
}

/// Two spaces per level of depth.
pub open spec fn indent(depth: nat) -> Seq<char>
    decreases depth,
{
    if depth == 0 { Seq::empty() } else { indent((depth - 1) as nat) + seq![' ', ' '] }
}

/// The mark of a session's status in the listing.
pub open spec fn status_mark(s: SessionStatus) -> char {
    match s {
        SessionStatus::Active => '+',
        SessionStatus::Detached => '~',
        SessionStatus::Dead => '-',
    }
}

/// The listing of a forest at `depth`: a group as `# name (n sessions)` followed by its
/// children one level deeper, a session as `<mark> name [last active]`.
pub open spec fn listing(nodes: Seq<TreeNode>, depth: nat) -> Seq<Seq<char>>
    decreases nodes,
{
    if nodes.len() == 0 {
        Seq::empty()
    } else {
        listing(nodes.drop_last(), depth) + node_listing(nodes.last(), depth)
    }
}

pub open spec fn node_listing(n: TreeNode, depth: nat) -> Seq<Seq<char>>
    decreases n,
{
    match n {
        TreeNode::Group(g) => seq![indent(depth) + "# "@ + g.name@ + " ("@ + decimal(g.children.len() as nat) + " sessions)"@]
            + listing(g.children@, depth + 1),
        TreeNode::Session(s) => seq![indent(depth) + seq![status_mark(s.status), ' '] + s.display_name@ + " ["@ + s.last_active@ + "]"@],
    }
}

pub open spec fn string_views(v: Seq<String>) -> Seq<Seq<char>> {
    v.map_values(|s: String| s@)
}

fn push_indent(out: &mut String, depth: usize)
    ensures
        final(out)@ == old(out)@ + indent(depth as nat),
{
    let mut k: usize = 0;
    while k < depth
        invariant
            k <= depth,
            out@ == old(out)@ + indent(k as nat),
        decreases depth - k,
    {
        push_str(out, "  ");
        proof {
            reveal_strlit("  ");
        }
        k += 1;
        assert(out@ =~= old(out)@ + indent(k as nat));
    }
}

/// The lines of the plain-text listing of a forest, starting at `depth`.
pub fn tree_listing(tree: &[TreeNode], depth: usize) -> (r: Vec<String>)
    requires
        depth + forest_height(tree@) <= usize::MAX,
    ensures
        string_views(r@) == listing(tree@, depth as nat),
    decreases tree@,
{
    let mut out: Vec<String> = Vec::new();
    let mut i: usize = 0;
    assert(tree@.take(0) =~= Seq::<TreeNode>::empty());
    while i < tree.len()
        invariant
            i <= tree@.len(),
            depth + forest_height(tree@) <= usize::MAX,
            string_views(out@) == listing(tree@.take(i as int), depth as nat),
        decreases tree@.len() - i,
    {
        proof {
            lemma_height_step(tree@, i as int);
            assert(tree@.take(i + 1).drop_last() =~= tree@.take(i as int));
            assert(tree@.take(i + 1).last() == tree@[i as int]);
        }
        let ghost before = out@;
        match &tree[i] {
            TreeNode::Group(g) => {
                let mut line = String::new();
                push_indent(&mut line, depth);
                push_str(&mut line, "# ");
                push_str(&mut line, g.name.as_str());
                push_str(&mut line, " (");
                push_str(&mut line, u64_to_string(g.children.len() as u64).as_str());
                push_str(&mut line, " sessions)");
                proof {
                    reveal_strlit("# ");
                    reveal_strlit(" (");
                    reveal_strlit(" sessions)");
                }
                out.push(line);
                let children = tree_listing(g.children.as_slice(), depth + 1);
                let mut j: usize = 0;
                let ghost mid = out@;
                while j < children.len()
                    invariant
                        j <= children@.len(),
                        out@ == mid + children@.take(j as int),
                    decreases children@.len() - j,
                {
                    out.push(children[j].clone());
                    j += 1;
                    assert(out@ =~= mid + children@.take(j as int));
                }
                proof {
                    assert(children@.take(j as int) =~= children@);
                    assert(string_views(out@) =~= string_views(before) + node_listing(tree@[i as int], depth as nat));
                }
            },
            TreeNode::Session(s) => {
                let mut line = String::new();
                push_indent(&mut line, depth);
                let mark = match s.status {
                    SessionStatus::Active => "+ ",
                    SessionStatus::Detached => "~ ",
                    SessionStatus::Dead => "- ",
                };
                push_str(&mut line, mark);
                push_str(&mut line, s.display_name.as_str());
                push_str(&mut line, " [");
                push_str(&mut line, s.last_active.as_str());
                push_str(&mut line, "]");
                proof {
                    reveal_strlit("+ ");
                    reveal_strlit("~ ");
                    reveal_strlit("- ");
                    reveal_strlit(" [");
                    reveal_strlit("]");
                    assert(mark@ =~= seq![status_mark(s.status), ' ']);
                }
                out.push(line);
                proof {
                    assert(string_views(out@) =~= string_views(before) + node_listing(tree@[i as int], depth as nat));
                }
            },
        }
        i += 1;
    }
    assert(tree@.take(i as int) =~= tree@);
    out
}

/// `n` spaces.
pub open spec fn spaces(n: nat) -> Seq<char> {
    Seq::new(n, |i: int| ' ')
}

/// Every line, with `n` spaces put in front of it.
pub open spec fn shifted(lines: Seq<Seq<char>>, n: nat) -> Seq<Seq<char>> {
    lines.map_values(|l: Seq<char>| spaces(n) + l)
}

proof fn lemma_indent_is_spaces(depth: nat)
    ensures
        indent(depth) == spaces(2 * depth),
    decreases depth,
{
    if depth > 0 {
        lemma_indent_is_spaces((depth - 1) as nat);
        assert(indent(depth) =~= spaces(2 * depth));
    }
}

proof fn lemma_shifted_twice(lines: Seq<Seq<char>>, a: nat, b: nat)
    ensures
        shifted(shifted(lines, a), b) == shifted(lines, a + b),
{
    assert forall|k: int| 0 <= k < lines.len() implies #[trigger] shifted(shifted(lines, a), b)[k] == shifted(
        lines,
        a + b,
    )[k] by {
        assert(spaces(b) + (spaces(a) + lines[k]) =~= spaces(a + b) + lines[k]);
    }
    assert(shifted(shifted(lines, a), b) =~= shifted(lines, a + b));
}

proof fn lemma_shifted_concat(x: Seq<Seq<char>>, y: Seq<Seq<char>>, n: nat)
    ensures
        shifted(x + y, n) == shifted(x, n) + shifted(y, n),
{
    assert(shifted(x + y, n) =~= shifted(x, n) + shifted(y, n));
}

/// Law: a forest listed at depth `d` is the same forest listed at depth 0 with `2 * d`
/// spaces in front of every line.
pub proof fn lemma_listing_shift(nodes: Seq<TreeNode>, d: nat)
    ensures
        listing(nodes, d) == shifted(listing(nodes, 0), 2 * d),
    decreases nodes,
{
    if nodes.len() > 0 {
        lemma_listing_shift(nodes.drop_last(), d);
        lemma_node_listing_shift(nodes.last(), d);
        lemma_shifted_concat(listing(nodes.drop_last(), 0), node_listing(nodes.last(), 0), 2 * d);
    } else {
        assert(shifted(listing(nodes, 0), 2 * d) =~= Seq::empty());
    }
}

/// Law: one node listed at depth `d` is that node listed at depth 0 with `2 * d` spaces in
/// front of every line.
pub proof fn lemma_node_listing_shift(n: TreeNode, d: nat)
    ensures
        node_listing(n, d) == shifted(node_listing(n, 0), 2 * d),
    decreases n,
{
    lemma_indent_is_spaces(d);
    lemma_indent_is_spaces(0);
    match n {
        TreeNode::Group(g) => {
            let head = "# "@ + g.name@ + " ("@ + decimal(g.children.len() as nat) + " sessions)"@;
            lemma_listing_shift(g.children@, d + 1);
            lemma_listing_shift(g.children@, 1);
            let base = listing(g.children@, 0);
            lemma_shifted_twice(base, 2, 2 * d);
            lemma_shifted_concat(seq![indent(0) + head], listing(g.children@, 1), 2 * d);
            assert(shifted(seq![indent(0) + head], 2 * d) =~= seq![indent(d) + head]);
            assert((2 + 2 * d) as nat == 2 * (d + 1));
            assert(node_listing(n, 0) =~~= seq![indent(0) + head] + listing(g.children@, 1));
            assert(node_listing(n, d) =~~= seq![indent(d) + head] + listing(g.children@, d + 1));
            assert(shifted(listing(g.children@, 1), 2 * d) == shifted(base, (2 + 2 * d) as nat));
            assert(listing(g.children@, d + 1) == shifted(base, 2 * (d + 1)));
            assert(shifted(node_listing(n, 0), 2 * d) == seq![indent(d) + head] + shifted(listing(g.children@, 1), 2 * d));
            assert(shifted(base, (2 + 2 * d) as nat) == shifted(base, 2 * (d + 1)));
            assert(node_listing(n, d) == shifted(node_listing(n, 0), 2 * d));
        },
        TreeNode::Session(s) => {
            let line = seq![status_mark(s.status), ' '] + s.display_name@ + " ["@ + s.last_active@ + "]"@;
            assert(shifted(seq![indent(0) + line], 2 * d) =~= seq![indent(d) + line]);
            assert(node_listing(n, 0) =~~= seq![indent(0) + line]);
            assert(node_listing(n, d) =~~= seq![indent(d) + line]);
        },
    }
}

/// Law: a group listed at depth `d` is one heading line, which starts with `2 * d` spaces
/// and then `#`, followed by its children listed one level deeper: each line of their
/// depth-0 listing with `2 * (d + 1)` spaces in front.
pub proof fn lemma_group_children_one_level_deeper(g: crate::types::GroupNode, d: nat)
    ensures
        node_listing(TreeNode::Group(g), d).len() == 1 + listing(g.children@, 0).len(),
        node_listing(TreeNode::Group(g), d)[0].take(2 * d as int) == spaces(2 * d),
        node_listing(TreeNode::Group(g), d)[0][2 * d as int] == '#',
        node_listing(TreeNode::Group(g), d)[0].skip(2 * d as int) == seq!['#', ' '] + g.name@ + seq![' ', '('] + decimal(
            g.children.len() as nat,
        ) + seq![' ', 's', 'e', 's', 's', 'i', 'o', 'n', 's', ')'],
        node_listing(TreeNode::Group(g), d).drop_first() == shifted(listing(g.children@, 0), 2 * (d + 1)),
{
    lemma_indent_is_spaces(d);
    lemma_listing_shift(g.children@, d + 1);
    let lines = node_listing(TreeNode::Group(g), d);
    let head = "# "@ + g.name@ + " ("@ + decimal(g.children.len() as nat) + " sessions)"@;
    reveal_strlit("# ");
    assert(lines.drop_first() =~= listing(g.children@, d + 1));
    assert(lines[0] == indent(d) + head);
    assert(lines[0].take(2 * d as int) =~= spaces(2 * d));
    assert(lines[0][2 * d as int] == head[0]);
    reveal_strlit(" (");
    reveal_strlit(" sessions)");
    assert(lines[0].skip(2 * d as int) =~= seq!['#', ' '] + g.name@ + seq![' ', '('] + decimal(g.children.len() as nat)
        + seq![' ', 's', 'e', 's', 's', 'i', 'o', 'n', 's', ')']);
}

/// Law: a session listed at depth `d` is one line: `2 * d` spaces, its status mark (`+`
/// active, `~` detached, `-` dead), a space, its name, and its last activity in brackets.
pub proof fn lemma_session_line(s: SessionSummary, d: nat)
    ensures
        node_listing(TreeNode::Session(s), d).len() == 1,
        node_listing(TreeNode::Session(s), d)[0].take(2 * d as int) == spaces(2 * d),
        node_listing(TreeNode::Session(s), d)[0][2 * d as int] == match s.status {
            SessionStatus::Active => '+',
            SessionStatus::Detached => '~',
            SessionStatus::Dead => '-',
        },
        node_listing(TreeNode::Session(s), d)[0][2 * d as int + 1] == ' ',
        node_listing(TreeNode::Session(s), d)[0].skip(2 * d as int + 2) == s.display_name@ + seq![' ', '['] + s.last_active@ + seq![']'],
{
    lemma_indent_is_spaces(d);
    reveal_strlit(" [");
    reveal_strlit("]");
    let line = node_listing(TreeNode::Session(s), d)[0];
    assert(line.take(2 * d as int) =~= spaces(2 * d));
    assert(line.skip(2 * d as int + 2) =~= s.display_name@ + seq![' ', '['] + s.last_active@ + seq![']']);
}

/// The labelled lines that describe one session; the directory and the tmux name only when
/// the session has them.
pub open spec fn detail_lines(s: SessionSummary) -> Seq<Seq<char>> {
    seq!["Session: "@ + s.session_id@, "Name:    "@ + s.display_name@]
        + (match s.cwd { Some(c) => seq!["CWD:     "@ + c@], None => Seq::empty() })
        + seq!["Status:  "@ + status_text(s.status), "Origin:  "@ + origin_text(s.created_by)]
        + (match s.tmux_name { Some(t) => seq!["Tmux:    "@ + t@], None => Seq::empty() })
        + seq![
            "Active:  "@ + (if s.is_active { "true"@ } else { "false"@ }),
            "Last:    "@ + s.last_active@,
            "Created: "@ + s.created_at@,
        ]
}

fn labelled(label: &str, value: &str) -> (r: String)
    ensures
        r@ == label@ + value@,
{
    let mut line = label.to_owned();
    push_str(&mut line, value);
    line
}

/// The lines that `show` prints for a session.
pub fn session_detail(s: &SessionSummary) -> (r: Vec<String>)
    ensures
        string_views(r@) == detail_lines(*s),
{
    proof {
        reveal_strlit("Session: ");
        reveal_strlit("Name:    ");
        reveal_strlit("CWD:     ");
        reveal_strlit("Status:  ");
        reveal_strlit("Origin:  ");
        reveal_strlit("Tmux:    ");
        reveal_strlit("Active:  ");
        reveal_strlit("Last:    ");
        reveal_strlit("Created: ");
        reveal_strlit("true");
        reveal_strlit("false");
    }
    let mut out: Vec<String> = Vec::new();
    out.push(labelled("Session: ", s.session_id.as_str()));
    out.push(labelled("Name:    ", s.display_name.as_str()));
    match &s.cwd {
        Some(c) => out.push(labelled("CWD:     ", c.as_str())),
        None => {},
    }
    out.push(labelled("Status:  ", s.status.as_str()));
    out.push(labelled("Origin:  ", s.created_by.as_str()));
    match &s.tmux_name {
        Some(t) => out.push(labelled("Tmux:    ", t.as_str())),
        None => {},
    }
    out.push(labelled("Active:  ", if s.is_active { "true" } else { "false" }));
    out.push(labelled("Last:    ", s.last_active.as_str()));
    out.push(labelled("Created: ", s.created_at.as_str()));
    assert(string_views(out@) =~= detail_lines(*s));
    out
}

} // verus!
