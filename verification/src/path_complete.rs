//! Path completion for text inputs: which directory to list for an input, and which of its
//! entries to offer, in which order. Reading the directory is left to the caller.

use vstd::prelude::*;
use crate::rank_sort::{key_view, rank_ordered, rank_sort};
use crate::strutil::{
    lowercase, push_char, push_str, starts_with_exec, starts_with_seq, str_chars, string_from_chars, to_lowercase,
};

verus! {

broadcast use vstd::string::group_string_axioms;

pub open spec fn opt_view(o: Option<&str>) -> Option<Seq<char>> {
    match o {
        Some(s) => Some(s@),
        None => None,
    }
}

pub open spec fn opt_string_view(o: Option<String>) -> Option<Seq<char>> {
    match o {
        Some(s) => Some(s@),
        None => None,
    }
}

/// `~` alone, or `~/...`, with the home directory put in place of the `~`; the flag tells
/// whether that happened (it does not when the home directory is unknown).
pub open spec fn tilde_expanded(input: Seq<char>, home: Option<Seq<char>>) -> (Seq<char>, bool) {
    if (input == seq!['~'] || starts_with_seq(input, seq!['~', '/'])) && home is Some {
        (home->0 + input.drop_first(), true)
    } else {
        (input, false)
    }
}

/// Expand `~` at the start of a path to the user's home directory.
/// Returns `(expanded_path, had_tilde)`.
pub fn expand_tilde(input: &str, home: Option<&str>) -> (r: (String, bool))
    ensures
        (r.0@, r.1) == tilde_expanded(input@, opt_view(home)),
{
    let chars = str_chars(input);
    let tilde_form = (chars.len() == 1 && chars[0] == '~') || (chars.len() >= 2 && chars[0] == '~' && chars[1] == '/');
    proof {
        assert(chars@.len() == 1 && chars@[0] == '~' ==> chars@ =~= seq!['~']);
        assert(chars@.len() >= 2 ==> chars@.take(2) =~= seq![chars@[0], chars@[1]]);
    }
    if tilde_form {
        if let Some(h) = home {
            let mut out = h.to_owned();
            let mut i: usize = 1;
            while i < chars.len()
                invariant
                    1 <= i <= chars@.len(),
                    out@ == h@ + chars@.subrange(1, i as int),
                decreases chars@.len() - i,
            {
                push_char(&mut out, chars[i]);
                i += 1;
                assert(out@ =~= h@ + chars@.subrange(1, i as int));
            }
            assert(chars@.subrange(1, chars@.len() as int) =~= input@.drop_first());
            return (out, true);
        }
    }
    (input.to_owned(), false)
}

/// The home directory prefix shown as `~`: the home directory itself, or a path inside it.
pub open spec fn tilde_collapsed(path: Seq<char>, home: Option<Seq<char>>) -> Seq<char> {
    match home {
        Some(h) => if path == h {
            seq!['~']
        } else if starts_with_seq(path, h) && path.len() > h.len() && path[h.len() as int] == '/' {
            seq!['~'] + path.skip(h.len() as int)
        } else {
            path
        },
        None => path,
    }
}

/// Collapse the home directory prefix back to `~` for display.
pub fn collapse_tilde(path: &str, home: Option<&str>) -> (r: String)
    ensures
        r@ == tilde_collapsed(path@, opt_view(home)),
{
    if let Some(h) = home {
        let p = str_chars(path);
        let hc = str_chars(h);
        if starts_with_exec(&p, &hc) {
            proof {
                assert(p@.take(hc@.len() as int) == hc@);
            }
            if p.len() == hc.len() {
                assert(p@ =~= hc@);
                let mut out = String::new();
                push_char(&mut out, '~');
                assert(out@ =~= seq!['~']);
                return out;
            }
            if p[hc.len()] == '/' {
                let mut out = String::new();
                push_char(&mut out, '~');
                let mut i = hc.len();
                while i < p.len()
                    invariant
                        hc@.len() <= i <= p@.len(),
                        out@ == seq!['~'] + p@.subrange(hc@.len() as int, i as int),
                    decreases p@.len() - i,
                {
                    push_char(&mut out, p[i]);
                    i += 1;
                    assert(out@ =~= seq!['~'] + p@.subrange(hc@.len() as int, i as int));
                }
                proof {
                    assert(p@.subrange(hc@.len() as int, p@.len() as int) =~= p@.skip(hc@.len() as int));
                    assert(path@ != h@);
                }
                return out;
            }
            proof {
                assert(path@ != h@);
            }
        } else {
            proof {
                if path@ == h@ {
                    assert(p@.take(hc@.len() as int) =~= hc@);
                }
            }
        }
    }
    path.to_owned()
}

/// Collapsing undoes expanding: an input that starts with `~` and was expanded with a known
/// home directory is shown again as it was typed.
pub proof fn lemma_collapse_expand_roundtrip(input: Seq<char>, home: Seq<char>)
    requires
        tilde_expanded(input, Some(home)).1,
    ensures
        tilde_collapsed(tilde_expanded(input, Some(home)).0, Some(home)) == input,
{
    let e = tilde_expanded(input, Some(home)).0;
    assert(e.take(home.len() as int) =~= home);
    if input.len() == 1 {
        assert(input =~= seq!['~']);
        assert(e =~= home);
    } else {
        assert(input[0] == '~' && input[1] == '/') by {
            assert(input.take(2) =~= seq!['~', '/']);
            assert(input.take(2)[0] == input[0] && input.take(2)[1] == input[1]);
        }
        assert(e.len() > home.len());
        assert(e[home.len() as int] == '/');
        assert(e != home);
        assert(seq!['~'] + e.skip(home.len() as int) =~= input);
    }
}

// ---------------------------------------------------------------------------
// Which directory to list
// ---------------------------------------------------------------------------

/// The directory to list for an input, the partial name to match, and whether the input
/// started with `~`.
#[derive(Debug)]
pub struct CompletionQuery {
    pub parent_dir: String,
    pub prefix: String,
    pub had_tilde: bool,
}

/// What `Path::parent` gives for a path, as text.
pub uninterp spec fn path_parent(p: Seq<char>) -> Option<Seq<char>>;

/// What `Path::file_name` gives for a path, as text.
pub uninterp spec fn path_file_name(p: Seq<char>) -> Option<Seq<char>>;

/// std's `Path::parent` on a path given as text; the result is named `path_parent`.
#[verifier::external_body]
fn std_path_parent(p: &str) -> (r: Option<String>)
    ensures
        opt_string_view(r) == path_parent(p@),
{
    match std::path::Path::new(p).parent() {
        Some(x) => Some(x.to_string_lossy().into_owned()),
        None => None,
    }
}

/// std's `Path::file_name` on a path given as text; the result is named `path_file_name`.
#[verifier::external_body]
fn std_path_file_name(p: &str) -> (r: Option<String>)
    ensures
        opt_string_view(r) == path_file_name(p@),
{
    match std::path::Path::new(p).file_name() {
        Some(x) => Some(x.to_string_lossy().into_owned()),
        None => None,
    }
}

/// The query for an input: nothing for an empty input; the directory itself for an input
/// ending in `/`; otherwise the path's parent (`.` when it has none written) and its final
/// component as the partial name.
pub open spec fn query_for(input: Seq<char>, home: Option<Seq<char>>) -> Option<(Seq<char>, Seq<char>, bool)> {
    if input.len() == 0 {
        None
    } else {
        let (e, had) = tilde_expanded(input, home);
        if e.len() > 0 && e.last() == '/' {
            Some((e, Seq::empty(), had))
        } else {
            match (path_parent(e), path_file_name(e)) {
                (Some(p), Some(f)) => Some((if p.len() == 0 { seq!['.'] } else { p }, f, had)),
                _ => None,
            }
        }
    }
}

pub open spec fn query_view(q: Option<CompletionQuery>) -> Option<(Seq<char>, Seq<char>, bool)> {
    match q {
        Some(x) => Some((x.parent_dir@, x.prefix@, x.had_tilde)),
        None => None,
    }
}

/// Split an input into the directory to list and the partial name to complete.
pub fn completion_query(input: &str, home: Option<&str>) -> (r: Option<CompletionQuery>)
    ensures
        query_view(r) == query_for(input@, opt_view(home)),
{
    let chars = str_chars(input);
    if chars.len() == 0 {
        return None;
    }
    let (expanded, had_tilde) = expand_tilde(input, home);
    let e = str_chars(expanded.as_str());
    if e.len() > 0 && e[e.len() - 1] == '/' {
        return Some(CompletionQuery { parent_dir: expanded, prefix: String::new(), had_tilde });
    }
    match (std_path_parent(expanded.as_str()), std_path_file_name(expanded.as_str())) {
        (Some(p), Some(f)) => {
            let parent_dir = if p.as_str().is_empty() {
                let mut dot = String::new();
                push_char(&mut dot, '.');
                assert(dot@ =~= seq!['.']);
                dot
            } else {
                p
            };
            Some(CompletionQuery { parent_dir, prefix: f, had_tilde })
        },
        _ => None,
    }
}

// ---------------------------------------------------------------------------
// Which entries to offer
// ---------------------------------------------------------------------------

/// The text put before an entry's name: nothing for `.`, the directory with a `/` after it.
pub open spec fn dir_prefix(parent: Seq<char>) -> Seq<char> {
    if parent == seq!['.'] {
        Seq::empty()
    } else if parent.len() > 0 && parent.last() == '/' {
        parent
    } else {
        parent.push('/')
    }
}

/// An entry is offered when its name starts with the partial name, ignoring case, and it is
/// not hidden unless the partial name starts with a dot.
pub open spec fn offered(name: Seq<char>, prefix: Seq<char>) -> bool {
    &&& prefix.len() == 0 || starts_with_seq(lowercase(name), lowercase(prefix))
    &&& !(name.len() > 0 && name[0] == '.' && !(prefix.len() > 0 && prefix[0] == '.'))
}

/// How an entry is shown: the full path, with `~` for the home directory when the input
/// used it.
pub open spec fn entry_display(name: Seq<char>, parent: Seq<char>, had_tilde: bool, home: Option<Seq<char>>) -> Seq<char> {
    let full = dir_prefix(parent) + name;
    if had_tilde { tilde_collapsed(full, home) } else { full }
}

pub open spec fn entry_names(entries: Seq<(String, bool)>) -> Seq<Seq<char>> {
    entries.map_values(|e: (String, bool)| e.0@)
}

/// The sort key of an entry: directories (1) before other entries (0), then the shown path
/// in lowercase.
pub open spec fn completion_keys(entries: Seq<(String, bool)>, q: (Seq<char>, Seq<char>, bool), home: Option<Seq<char>>) -> Seq<(u32, Seq<char>)> {
    Seq::new(entries.len(), |i: int| (if entries[i].1 { 1u32 } else { 0u32 }, lowercase(entry_display(entries[i].0@, q.0, q.2, home))))
}

/// The indices of the entries that are offered, in increasing order.
pub open spec fn offered_indices(entries: Seq<(String, bool)>, prefix: Seq<char>) -> Seq<usize> {
    Seq::new(entries.len(), |j: int| j as usize).filter(|i: usize| offered(entries[i as int].0@, prefix))
}

pub open spec fn string_views(v: Seq<String>) -> Seq<Seq<char>> {
    v.map_values(|s: String| s@)
}

proof fn lemma_offered_step(entries: Seq<(String, bool)>, prefix: Seq<char>, i: int)
    requires
        0 <= i < entries.len(),
        entries.len() <= usize::MAX,
    ensures
        Seq::new((i + 1) as nat, |j: int| j as usize).filter(|k: usize| offered(entries[k as int].0@, prefix))
            == Seq::new(i as nat, |j: int| j as usize).filter(|k: usize| offered(entries[k as int].0@, prefix)) + if offered(entries[i].0@, prefix) {
                seq![i as usize]
            } else {
                Seq::empty()
            },
{
    let pred = |k: usize| offered(entries[k as int].0@, prefix);
    let s1 = Seq::new((i + 1) as nat, |j: int| j as usize);
    let s0 = Seq::new(i as nat, |j: int| j as usize);
    assert(s1.drop_last() =~= s0);
    assert(s1.last() == i as usize);
    reveal(Seq::filter);
    if pred(i as usize) {
        assert(s1.filter(pred) =~= s0.filter(pred).push(i as usize));
    } else {
        assert(s1.filter(pred) =~= s0.filter(pred));
    }
}

/// `out` is what is offered from the entries `(name, is_dir)` of the directory of query
/// `q`: the offered entries, shown as paths, directories first, then in case-insensitive
/// order, entries that compare equal kept in listing order.
pub open spec fn completed_from(
    entries: Seq<(String, bool)>,
    q: (Seq<char>, Seq<char>, bool),
    home: Option<Seq<char>>,
    out: Seq<Seq<char>>,
) -> bool {
    exists|order: Seq<usize>| {
        &&& order.to_multiset() == offered_indices(entries, q.1).to_multiset()
        &&& rank_ordered(completion_keys(entries, q, home), order, true)
        &&& out == order.map_values(|i: usize| entry_display(entries[i as int].0@, q.0, q.2, home))
    }
}

/// The completions offered from the entries `(name, is_dir)` of the queried directory:
/// the offered entries, shown as paths, directories first, then in case-insensitive order,
/// entries that compare equal kept in listing order.
pub fn completions(query: &CompletionQuery, entries: &Vec<(String, bool)>, home: Option<&str>) -> (r: Vec<String>)
    ensures
        completed_from(entries@, (query.parent_dir@, query.prefix@, query.had_tilde), opt_view(home), string_views(r@)),
{
    let ghost q = (query.parent_dir@, query.prefix@, query.had_tilde);
    let ghost hv = opt_view(home);
    let prefix_chars = str_chars(query.prefix.as_str());
    let prefix_lower = str_chars(to_lowercase(query.prefix.as_str()).as_str());
    let parent = str_chars(query.parent_dir.as_str());
    // the text before each name
    let parent_path = if parent.len() == 1 && parent[0] == '.' {
        String::new()
    } else if parent.len() > 0 && parent[parent.len() - 1] == '/' {
        string_from_chars(parent.as_slice())
    } else {
        let mut p = string_from_chars(parent.as_slice());
        push_char(&mut p, '/');
        p
    };
    proof {
        assert(parent@.len() == 1 && parent@[0] == '.' ==> parent@ =~= seq!['.']);
        assert(parent_path@ =~= dir_prefix(q.0));
    }
    let mut displays: Vec<String> = Vec::new();
    let mut keys: Vec<(u32, Vec<char>)> = Vec::new();
    let mut kept: Vec<usize> = Vec::new();
    let mut i: usize = 0;
    while i < entries.len()
        invariant
            q == (query.parent_dir@, query.prefix@, query.had_tilde),
            hv == opt_view(home),
            prefix_chars@ == query.prefix@,
            prefix_lower@ == lowercase(query.prefix@),
            parent_path@ == dir_prefix(q.0),
            i <= entries@.len(),
            displays@.len() == i,
            keys@.len() == i,
            forall|j: int| 0 <= j < i ==> (#[trigger] displays@[j])@ == entry_display(entries@[j].0@, q.0, q.2, hv),
            forall|j: int| 0 <= j < i ==> key_view(#[trigger] keys@[j]) == completion_keys(entries@, q, hv)[j],
            kept@ == Seq::new(i as nat, |j: int| j as usize).filter(|k: usize| offered(entries@[k as int].0@, query.prefix@)),
            forall|j: int| 0 <= j < kept@.len() ==> (#[trigger] kept@[j]) < i,
            forall|a: int, b: int| 0 <= a < b < kept@.len() ==> kept@[a] < kept@[b],
        decreases entries@.len() - i,
    {
        let name = &entries[i].0;
        let is_dir = entries[i].1;
        let name_chars = str_chars(name.as_str());
        let name_lower = str_chars(to_lowercase(name.as_str()).as_str());
        let matches_prefix = prefix_chars.len() == 0 || starts_with_exec(&name_lower, &prefix_lower);
        // Skip hidden files unless the user is explicitly typing a dot prefix
        let hidden = name_chars.len() > 0 && name_chars[0] == '.' && !(prefix_chars.len() > 0 && prefix_chars[0] == '.');
        let mut full = string_from_chars(str_chars(parent_path.as_str()).as_slice());
        push_str(&mut full, name.as_str());
        let display = if query.had_tilde { collapse_tilde(full.as_str(), home) } else { full };
        let key_text = str_chars(to_lowercase(display.as_str()).as_str());
        keys.push((if is_dir { 1u32 } else { 0u32 }, key_text));
        displays.push(display);
        proof {
            lemma_offered_step(entries@, query.prefix@, i as int);
        }
        if matches_prefix && !hidden {
            kept.push(i);
        }
        i += 1;
    }
    assert(keys@.map_values(|k: (u32, Vec<char>)| key_view(k)) =~= completion_keys(entries@, q, hv));
    assert(Seq::new(i as nat, |j: int| j as usize) =~= Seq::new(entries@.len(), |j: int| j as usize));
    let order = rank_sort(&keys, &kept, true);
    let mut out: Vec<String> = Vec::new();
    let mut k: usize = 0;
    while k < order.len()
        invariant
            q == (query.parent_dir@, query.prefix@, query.had_tilde),
            hv == opt_view(home),
            displays@.len() == entries@.len(),
            forall|j: int| 0 <= j < entries@.len() ==> (#[trigger] displays@[j])@ == entry_display(entries@[j].0@, q.0, q.2, hv),
            rank_ordered(completion_keys(entries@, q, hv), order@, true),
            completion_keys(entries@, q, hv).len() == entries@.len(),
            k <= order@.len(),
            string_views(out@) == order@.take(k as int).map_values(|j: usize| entry_display(entries@[j as int].0@, q.0, q.2, hv)),
        decreases order@.len() - k,
    {
        let j = order[k];
        assert(j < entries@.len());
        let ghost before = out@;
        let shown = displays[j].as_str().to_owned();
        assert(shown@ == entry_display(entries@[j as int].0@, q.0, q.2, hv));
        out.push(shown);
        assert(string_views(out@) =~= string_views(before).push(shown@));
        assert(order@.take(k + 1) =~= order@.take(k as int).push(j));
        assert(string_views(out@) =~= order@.take(k + 1).map_values(|j: usize| entry_display(entries@[j as int].0@, q.0, q.2, hv)));
        k += 1;
    }
    assert(order@.take(k as int) =~= order@);
    out
}

// ---------------------------------------------------------------------------
// Completing an input
// ---------------------------------------------------------------------------

/// The completions for what the user has typed, `list_dir` reading a directory as `(name,
/// is_dir)` pairs (`None` when it cannot be read): none for an empty input, an input with
/// no final component, or a directory that cannot be read; otherwise the `completions` of
/// the listing of the queried directory.
pub fn complete_path<F: Fn(&str) -> Option<Vec<(String, bool)>>>(input: &str, home: Option<&str>, list_dir: F) -> (r: Vec<String>)
    requires
        forall|p: &str| #[trigger] list_dir.requires((p,)),
    ensures
        match query_for(input@, opt_view(home)) {
            None => r@.len() == 0,
            Some(q) => exists|p: &str, listing: Option<Vec<(String, bool)>>| {
                &&& p@ == q.0
                &&& #[trigger] list_dir.ensures((p,), listing)
                &&& match listing {
                    None => r@.len() == 0,
                    Some(entries) => completed_from(entries@, q, opt_view(home), string_views(r@)),
                }
            },
        },
{
    match completion_query(input, home) {
        None => Vec::new(),
        Some(query) => {
            let listing = list_dir(query.parent_dir.as_str());
            match &listing {
                None => Vec::new(),
                Some(entries) => completions(&query, entries, home),
            }
        },
    }
}

/// Whether a path, with `~` expanded first, is a directory; `probe` tells whether a path is
/// one.
pub fn is_directory<F: Fn(&str) -> bool>(path: &str, home: Option<&str>, probe: F) -> (r: bool)
    requires
        forall|p: &str| #[trigger] probe.requires((p,)),
    ensures
        exists|p: &str| p@ == tilde_expanded(path@, opt_view(home)).0 && #[trigger] probe.ensures((p,), r),
{
    let (expanded, _) = expand_tilde(path, home);
    probe(expanded.as_str())
}

} // verus!
