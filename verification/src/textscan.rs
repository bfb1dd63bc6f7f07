use vstd::prelude::*;
use crate::strutil::str_chars;

verus! {

broadcast use vstd::string::group_string_axioms;

/// `i` is the position of the first `c` in `s`.
pub open spec fn is_first(s: Seq<char>, c: char, i: int) -> bool {
    0 <= i < s.len() && s[i] == c && forall|j: int| 0 <= j < i ==> s[j] != c
}

/// The position of the first `c` in `s`, if there is one.
pub open spec fn first_index(s: Seq<char>, c: char) -> Option<int> {
    if exists|i: int| #[trigger] is_first(s, c, i) {
        Some(choose|i: int| #[trigger] is_first(s, c, i))
    } else {
        None
    }
}

/// The numeric value of a run of ASCII digits.
pub open spec fn digits_value(s: Seq<char>) -> nat
    decreases s.len(),
{
    if s.len() == 0 {
        0
    } else {
        digits_value(s.drop_last()) * 10 + ((s.last() as u32) - ('0' as u32)) as nat
    }
}

/// An ASCII decimal digit.
pub open spec fn is_digit(c: char) -> bool {
    '0' <= c && c <= '9'
}

/// `s` without a leading `+`.
pub open spec fn unsigned_part(s: Seq<char>) -> Seq<char> {
    if s.len() > 0 && s[0] == '+' { s.drop_first() } else { s }
}

/// Every character of `d` is an ASCII digit.
pub open spec fn all_digit_chars(d: Seq<char>) -> bool {
    forall|i: int| 0 <= i < d.len() ==> is_digit(#[trigger] d[i])
}

/// `from_str` of an unsigned integer type whose largest value is `max`: an optional `+`
/// then at least one ASCII digit, the value at most `max`.
pub open spec fn parsed_unsigned(s: Seq<char>, max: nat) -> Option<nat> {
    let d = unsigned_part(s);
    if d.len() > 0 && all_digit_chars(d) && digits_value(d) <= max {
        Some(digits_value(d))
    } else {
        None
    }
}

/// The position of the first `c` at or after `from`, or `s.len()` when there is none.
pub fn find_from(s: &Vec<char>, c: char, from: usize) -> (r: usize)
    requires
        from <= s@.len(),
    ensures
        from <= r <= s@.len(),
        r < s@.len() ==> s@[r as int] == c,
        forall|j: int| from <= j < r ==> s@[j] != c,
{
    let mut i = from;
    while i < s.len()
        invariant
            from <= i <= s@.len(),
            forall|j: int| from <= j < i ==> s@[j] != c,
        decreases s@.len() - i,
    {
        if s[i] == c {
            return i;
        }
        i += 1;
    }
    i
}

pub proof fn lemma_first_index(s: Seq<char>, c: char, r: int)
    requires
        0 <= r <= s.len(),
        r < s.len() ==> s[r] == c,
        forall|j: int| 0 <= j < r ==> s[j] != c,
    ensures
        first_index(s, c) == if r < s.len() { Some(r) } else { None::<int> },
{
    if r < s.len() {
        assert(is_first(s, c, r));
        let k = choose|i: int| #[trigger] is_first(s, c, i);
        assert(is_first(s, c, k));
        if k < r {
            assert(s[k] != c);
        } else if k > r {
            assert(s[r] != c);
        }
    } else {
        assert forall|i: int| !#[trigger] is_first(s, c, i) by {}
    }
}

pub proof fn lemma_digits_value_prefix(s: Seq<char>, k: int)
    requires
        0 <= k <= s.len(),
        all_digit_chars(s),
    ensures
        digits_value(s.take(k)) <= digits_value(s),
    decreases s.len(),
{
    if k < s.len() {
        assert(s.drop_last().take(k) =~= s.take(k));
        lemma_digits_value_prefix(s.drop_last(), k);
    } else {
        assert(s.take(k) =~= s);
    }
}

/// `from_str` of an unsigned integer type whose largest value is `max`, on the characters `s`.
pub fn parse_unsigned(s: &Vec<char>, max: u64) -> (r: Option<u64>)
    ensures
        match r {
            Some(v) => parsed_unsigned(s@, max as nat) == Some(v as nat),
            None => parsed_unsigned(s@, max as nat) is None,
        },
{
    let start: usize = if s.len() > 0 && s[0] == '+' { 1 } else { 0 };
    let ghost d = unsigned_part(s@);
    assert(d =~= s@.skip(start as int));
    if start == s.len() {
        return None;
    }
    let mut acc: u128 = 0;
    let mut i = start;
    while i < s.len()
        invariant
            start <= i <= s@.len(),
            d == s@.skip(start as int),
            d == unsigned_part(s@),
            forall|j: int| start <= j < i ==> is_digit(#[trigger] s@[j]),
            acc == digits_value(d.take(i - start)),
            acc <= max,
        decreases s@.len() - i,
    {
        let c = s[i];
        assert(d[i - start] == c);
        if !('0' <= c && c <= '9') {
            assert(!is_digit(d[i - start]));
            assert(!all_digit_chars(d));
            return None;
        }
        let digit = (c as u32 - '0' as u32) as u128;
        assert(d.take(i + 1 - start).drop_last() =~= d.take(i - start));
        assert(d.take(i + 1 - start).last() == c);
        let next = acc * 10 + digit;
        if next > max as u128 {
            proof {
                if all_digit_chars(d) {
                    lemma_digits_value_prefix(d, i + 1 - start);
                }
            }
            return None;
        }
        acc = next;
        i += 1;
    }
    assert(d.take(i - start) =~= d);
    Some(acc as u64)
}

/// The characters of `v` from `lo` up to `hi`.
pub fn sub_chars_of(v: &Vec<char>, lo: usize, hi: usize) -> (r: Vec<char>)
    requires
        lo <= hi <= v@.len(),
    ensures
        r@ == v@.subrange(lo as int, hi as int),
{
    let mut r: Vec<char> = Vec::new();
    let mut k = lo;
    while k < hi
        invariant
            lo <= k <= hi <= v@.len(),
            r@ == v@.subrange(lo as int, k as int),
        decreases hi - k,
    {
        r.push(v[k]);
        k += 1;
        assert(r@ =~= v@.subrange(lo as int, k as int));
    }
    r
}

/// The pieces of `s` between newlines (one more than the number of newlines).
pub open spec fn newline_pieces(s: Seq<char>) -> Seq<Seq<char>>
    decreases s.len(),
{
    if s.len() == 0 {
        seq![Seq::empty()]
    } else {
        let p = newline_pieces(s.drop_last());
        if s.last() == '\n' {
            p.push(Seq::empty())
        } else {
            p.update(p.len() - 1, p.last().push(s.last()))
        }
    }
}

/// A line that was ended by a newline, without the `\r` of a `\r\n` ending.
pub open spec fn ended_line(p: Seq<char>) -> Seq<char> {
    if p.len() > 0 && p.last() == '\r' { p.drop_last() } else { p }
}

/// The lines of `s` as `str::lines` yields them: split at `\n`, a `\r` before the `\n`
/// dropped, and no empty last line after a final newline.
pub open spec fn str_lines(s: Seq<char>) -> Seq<Seq<char>> {
    let p = newline_pieces(s);
    let ended = p.drop_last().map_values(|l: Seq<char>| ended_line(l));
    if p.last().len() == 0 { ended } else { ended.push(p.last()) }
}

pub open spec fn char_rows(v: Seq<Vec<char>>) -> Seq<Seq<char>> {
    v.map_values(|r: Vec<char>| r@)
}

/// `str::lines`: the lines of `s`, as characters.
pub fn lines_of(s: &str) -> (r: Vec<Vec<char>>)
    ensures
        char_rows(r@) == str_lines(s@),
{
    let chars = str_chars(s);
    let mut out: Vec<Vec<char>> = Vec::new();
    let mut cur: Vec<char> = Vec::new();
    let mut i: usize = 0;
    assert(chars@.take(0) =~= Seq::<char>::empty());
    assert(newline_pieces(Seq::<char>::empty()).drop_last().map_values(|l: Seq<char>| ended_line(l)) =~= Seq::<Seq<char>>::empty());
    while i < chars.len()
        invariant
            chars@ == s@,
            i <= chars@.len(),
            char_rows(out@) == newline_pieces(chars@.take(i as int)).drop_last().map_values(|l: Seq<char>| ended_line(l)),
            cur@ == newline_pieces(chars@.take(i as int)).last(),
            newline_pieces(chars@.take(i as int)).len() >= 1,
        decreases chars@.len() - i,
    {
        let ghost p = newline_pieces(chars@.take(i as int));
        assert(chars@.take(i + 1).drop_last() =~= chars@.take(i as int));
        assert(chars@.take(i + 1).last() == chars@[i as int]);
        let c = chars[i];
        if c == '\n' {
            let line = if cur.len() > 0 && cur[cur.len() - 1] == '\r' {
                sub_chars_of(&cur, 0, cur.len() - 1)
            } else {
                sub_chars_of(&cur, 0, cur.len())
            };
            assert(line@ =~= ended_line(cur@));
            let ghost before = out@;
            out.push(line);
            proof {
                let p2 = newline_pieces(chars@.take(i + 1));
                assert(p2 == p.push(Seq::empty()));
                assert(p2.drop_last() =~= p);
                assert(char_rows(out@) =~= char_rows(before).push(ended_line(cur@)));
                assert(p.map_values(|l: Seq<char>| ended_line(l)) =~= p.drop_last().map_values(|l: Seq<char>| ended_line(l)).push(ended_line(p.last())));
                assert(char_rows(out@) =~= p2.drop_last().map_values(|l: Seq<char>| ended_line(l)));
            }
            cur = Vec::new();
        } else {
            cur.push(c);
            proof {
                let p2 = newline_pieces(chars@.take(i + 1));
                assert(p2 == p.update(p.len() - 1, p.last().push(c)));
                assert(p2.drop_last() =~= p.drop_last());
            }
        }
        i += 1;
    }
    assert(chars@.take(i as int) =~= chars@);
    if cur.len() > 0 {
        out.push(cur);
        assert(char_rows(out@) =~= str_lines(s@));
    }
    out
}

} // verus!
