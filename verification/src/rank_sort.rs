use vstd::prelude::*;

verus! {

/// Lexicographic order on character sequences (`a` sorts strictly before `b`), as `String`'s
/// `Ord` compares them.
pub open spec fn seq_less(a: Seq<char>, b: Seq<char>) -> bool
    decreases a.len(),
{
    if b.len() == 0 {
        false
    } else if a.len() == 0 {
        true
    } else if a[0] != b[0] {
        a[0] < b[0]
    } else {
        seq_less(a.drop_first(), b.drop_first())
    }
}

pub proof fn lemma_seq_less_irreflexive(a: Seq<char>)
    ensures
        !seq_less(a, a),
    decreases a.len(),
{
    if a.len() > 0 {
        lemma_seq_less_irreflexive(a.drop_first());
    }
}

pub proof fn lemma_seq_less_transitive(a: Seq<char>, b: Seq<char>, c: Seq<char>)
    requires
        seq_less(a, b),
        seq_less(b, c),
    ensures
        seq_less(a, c),
    decreases a.len(),
{
    if a.len() > 0 && b.len() > 0 && c.len() > 0 {
        if a[0] == b[0] && b[0] == c[0] {
            lemma_seq_less_transitive(a.drop_first(), b.drop_first(), c.drop_first());
        }
    }
}

pub proof fn lemma_seq_less_total(a: Seq<char>, b: Seq<char>)
    ensures
        a =~= b || seq_less(a, b) || seq_less(b, a),
    decreases a.len(),
{
    if a.len() > 0 && b.len() > 0 && a[0] == b[0] {
        lemma_seq_less_total(a.drop_first(), b.drop_first());
        if a.drop_first() =~= b.drop_first() {
            assert(a =~= seq![a[0]] + a.drop_first());
            assert(b =~= seq![b[0]] + b.drop_first());
        }
    }
}

pub proof fn lemma_seq_less_asymmetric(a: Seq<char>, b: Seq<char>)
    requires
        seq_less(a, b),
    ensures
        !seq_less(b, a),
{
    if seq_less(b, a) {
        lemma_seq_less_transitive(a, b, a);
        lemma_seq_less_irreflexive(a);
    }
}

/// Whether `a` sorts strictly before `b`.
pub fn chars_less(a: &Vec<char>, b: &Vec<char>) -> (r: bool)
    ensures
        r == seq_less(a@, b@),
{
    let mut i: usize = 0;
    assert(a@.skip(0) =~= a@);
    assert(b@.skip(0) =~= b@);
    while i < a.len() && i < b.len() && a[i] == b[i]
        invariant
            i <= a@.len(),
            i <= b@.len(),
            seq_less(a@, b@) == seq_less(a@.skip(i as int), b@.skip(i as int)),
        decreases a@.len() - i,
    {
        proof {
            let sa = a@.skip(i as int);
            let sb = b@.skip(i as int);
            assert(sa[0] == a@[i as int]);
            assert(sb[0] == b@[i as int]);
            assert(sa.drop_first() =~= a@.skip(i + 1));
            assert(sb.drop_first() =~= b@.skip(i + 1));
        }
        i += 1;
    }
    proof {
        let sa = a@.skip(i as int);
        let sb = b@.skip(i as int);
        if i < a@.len() {
            assert(sa[0] == a@[i as int]);
        }
        if i < b@.len() {
            assert(sb[0] == b@[i as int]);
        }
    }
    if i == b.len() {
        false
    } else if i == a.len() {
        true
    } else {
        a[i] < b[i]
    }
}

/// A sort key: a score, then a text.
pub open spec fn key_view(k: (u32, Vec<char>)) -> (u32, Seq<char>) {
    (k.0, k.1@)
}

/// Text `a` comes before text `b`: in increasing order when `ascending`, in decreasing order
/// otherwise.
pub open spec fn text_before(a: Seq<char>, b: Seq<char>, ascending: bool) -> bool {
    if ascending { seq_less(a, b) } else { seq_less(b, a) }
}

/// Key `a` ranks strictly ahead of key `b`: a higher score, or the same score and a text
/// that comes before.
pub open spec fn ranks_ahead(a: (u32, Seq<char>), b: (u32, Seq<char>), ascending: bool) -> bool {
    a.0 > b.0 || (a.0 == b.0 && text_before(a.1, b.1, ascending))
}

/// `order` lists indices into `keys` from the best ranked to the worst, equal keys in
/// increasing index order.
pub open spec fn rank_ordered(keys: Seq<(u32, Seq<char>)>, order: Seq<usize>, ascending: bool) -> bool {
    &&& forall|i: int| 0 <= i < order.len() ==> (#[trigger] order[i]) < keys.len()
    &&& forall|i: int, j: int| 0 <= i < j < order.len() ==> !ranks_ahead(keys[order[j] as int], keys[order[i] as int], ascending)
    &&& forall|i: int, j: int| 0 <= i < j < order.len() && #[trigger] keys[order[i] as int] == #[trigger] keys[order[j] as int] ==> order[i] < order[j]
}

proof fn lemma_text_before_order(a: Seq<char>, b: Seq<char>, c: Seq<char>, asc: bool)
    ensures
        !text_before(a, a, asc),
        text_before(a, b, asc) ==> !text_before(b, a, asc),
        text_before(a, b, asc) && text_before(b, c, asc) ==> text_before(a, c, asc),
        a =~= b || text_before(a, b, asc) || text_before(b, a, asc),
{
    lemma_seq_less_irreflexive(a);
    lemma_seq_less_total(a, b);
    if seq_less(a, b) {
        lemma_seq_less_asymmetric(a, b);
    }
    if seq_less(b, a) {
        lemma_seq_less_asymmetric(b, a);
    }
    if seq_less(a, b) && seq_less(b, c) {
        lemma_seq_less_transitive(a, b, c);
    }
    if seq_less(c, b) && seq_less(b, a) {
        lemma_seq_less_transitive(c, b, a);
    }
}

fn ranks_ahead_exec(a: &(u32, Vec<char>), b: &(u32, Vec<char>), ascending: bool) -> (r: bool)
    ensures
        r == ranks_ahead(key_view(*a), key_view(*b), ascending),
{
    a.0 > b.0 || (a.0 == b.0 && if ascending { chars_less(&a.1, &b.1) } else { chars_less(&b.1, &a.1) })
}

proof fn lemma_not_ahead_transitive(a: (u32, Seq<char>), b: (u32, Seq<char>), c: (u32, Seq<char>), asc: bool)
    requires
        !ranks_ahead(b, a, asc),
        !ranks_ahead(c, b, asc),
    ensures
        !ranks_ahead(c, a, asc),
{
    if a.0 == b.0 && b.0 == c.0 {
        lemma_text_before_order(a.1, b.1, c.1, asc);
        lemma_text_before_order(b.1, c.1, a.1, asc);
        lemma_text_before_order(c.1, b.1, a.1, asc);
        lemma_text_before_order(a.1, c.1, b.1, asc);
        if a.1 =~= b.1 {
        } else if b.1 =~= c.1 {
        } else {
            assert(text_before(a.1, b.1, asc));
            assert(text_before(b.1, c.1, asc));
        }
    }
}

/// Stable sort of `cand` (increasing indices into `keys`) from the best ranked key to the
/// worst: the result holds the same indices, and equal keys keep their order.
pub fn rank_sort(keys: &Vec<(u32, Vec<char>)>, cand: &Vec<usize>, ascending: bool) -> (r: Vec<usize>)
    requires
        forall|i: int| 0 <= i < cand@.len() ==> (#[trigger] cand@[i]) < keys@.len(),
        forall|i: int, j: int| 0 <= i < j < cand@.len() ==> cand@[i] < cand@[j],
    ensures
        r@.to_multiset() == cand@.to_multiset(),
        rank_ordered(keys@.map_values(|k: (u32, Vec<char>)| key_view(k)), r@, ascending),
{
    let ghost kv = keys@.map_values(|k: (u32, Vec<char>)| key_view(k));
    let mut out: Vec<usize> = Vec::new();
    let mut k: usize = 0;
    proof {
        assert(cand@.take(0) =~= Seq::<usize>::empty());
    }
    while k < cand.len()
        invariant
            k <= cand@.len(),
            kv == keys@.map_values(|k: (u32, Vec<char>)| key_view(k)),
            forall|i: int| 0 <= i < cand@.len() ==> (#[trigger] cand@[i]) < keys@.len(),
            forall|i: int, j: int| 0 <= i < j < cand@.len() ==> cand@[i] < cand@[j],
            out@.to_multiset() == cand@.take(k as int).to_multiset(),
            rank_ordered(kv, out@, ascending),
            forall|i: int| 0 <= i < out@.len() ==> exists|m: int| 0 <= m < k && (#[trigger] out@[i]) == cand@[m],
        decreases cand@.len() - k,
    {
        let c = cand[k];
        let mut pos = out.len();
        while pos > 0 && ranks_ahead_exec(&keys[c], &keys[out[pos - 1]], ascending)
            invariant
                pos <= out@.len(),
                c < keys@.len(),
                kv == keys@.map_values(|k: (u32, Vec<char>)| key_view(k)),
                rank_ordered(kv, out@, ascending),
                forall|i: int| pos <= i < out@.len() ==> ranks_ahead(kv[c as int], kv[(#[trigger] out@[i]) as int], ascending),
            decreases pos,
        {
            proof {
                assert(kv[c as int] == key_view(keys@[c as int]));
                assert(kv[out@[pos - 1] as int] == key_view(keys@[out@[pos - 1] as int]));
            }
            pos -= 1;
        }
        proof {
            if pos > 0 {
                assert(kv[c as int] == key_view(keys@[c as int]));
                assert(kv[out@[pos - 1] as int] == key_view(keys@[out@[pos - 1] as int]));
                assert(!ranks_ahead(kv[c as int], kv[out@[pos - 1] as int], ascending));
            }
        }
        let ghost old_out = out@;
        out.insert(pos, c);
        proof {
            let n = out@;
            assert(n == old_out.insert(pos as int, c));
            vstd::seq_lib::to_multiset_insert(old_out, pos as int, c);
            assert(cand@.take(k + 1) =~= cand@.take(k as int).push(c));
            vstd::seq_lib::to_multiset_build(cand@.take(k as int), c);
            // every earlier element is a candidate before `c`, hence a smaller index
            assert forall|i: int| 0 <= i < old_out.len() implies #[trigger] old_out[i] < c by {
                let m = choose|m: int| 0 <= m < k && (#[trigger] old_out[i]) == cand@[m];
            }
            assert forall|i: int| 0 <= i < n.len() implies (#[trigger] n[i]) < keys@.len() by {
                if i < pos {
                    assert(n[i] == old_out[i]);
                } else if i > pos {
                    assert(n[i] == old_out[i - 1]);
                }
            }
            assert forall|i: int, j: int| 0 <= i < j < n.len() implies !ranks_ahead(kv[n[j] as int], kv[n[i] as int], ascending) by {
                if j == pos {
                    // n[i] is an earlier element at or before pos - 1
                    assert(n[i] == old_out[i]);
                    if i < pos - 1 {
                        assert(!ranks_ahead(kv[old_out[pos - 1] as int], kv[old_out[i] as int], ascending));
                        lemma_not_ahead_transitive(kv[old_out[i] as int], kv[old_out[pos - 1] as int], kv[c as int], ascending);
                    }
                } else if i == pos {
                    assert(n[j] == old_out[j - 1]);
                    assert(ranks_ahead(kv[c as int], kv[old_out[j - 1] as int], ascending));
                    lemma_text_before_order(kv[c as int].1, kv[old_out[j - 1] as int].1, kv[c as int].1, ascending);
                } else {
                    let oi = if i < pos { i } else { i - 1 };
                    let oj = if j < pos { j } else { j - 1 };
                    assert(n[i] == old_out[oi]);
                    assert(n[j] == old_out[oj]);
                }
            }
            assert forall|i: int, j: int| 0 <= i < j < n.len() && #[trigger] kv[n[i] as int] == #[trigger] kv[n[j] as int] implies n[i] < n[j] by {
                if j == pos {
                    assert(n[i] == old_out[i]);
                } else if i == pos {
                    assert(n[j] == old_out[j - 1]);
                    assert(ranks_ahead(kv[c as int], kv[old_out[j - 1] as int], ascending));
                    lemma_text_before_order(kv[c as int].1, kv[c as int].1, kv[c as int].1, ascending);
                } else {
                    let oi = if i < pos { i } else { i - 1 };
                    let oj = if j < pos { j } else { j - 1 };
                    assert(n[i] == old_out[oi]);
                    assert(n[j] == old_out[oj]);
                }
            }
            assert forall|i: int| 0 <= i < n.len() implies exists|m: int| 0 <= m < k + 1 && (#[trigger] n[i]) == cand@[m] by {
                if i == pos {
                    assert(n[i] == cand@[k as int]);
                } else {
                    let oi = if i < pos { i } else { i - 1 };
                    assert(n[i] == old_out[oi]);
                    let m = choose|m: int| 0 <= m < k && (#[trigger] old_out[oi]) == cand@[m];
                }
            }
        }
        k += 1;
    }
    assert(cand@.take(k as int) =~= cand@);
    out
}

} // verus!
