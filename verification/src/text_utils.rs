use vstd::prelude::*;
use vstd::utf8::encode_utf8;
use crate::strutil::{push_char, str_chars};

verus! {

broadcast use vstd::string::group_string_axioms;

/// Number of bytes in the UTF-8 encoding of `c`.
pub open spec fn char_width(c: char) -> nat {
    if (c as u32) <= 0x7f {
        1
    } else if (c as u32) <= 0x7ff {
        2
    } else if (c as u32) <= 0xffff {
        3
    } else {
        4
    }
}

/// Number of leading characters of `s` whose UTF-8 encoding fits in `budget` bytes.
pub open spec fn fitting_prefix(s: Seq<char>, budget: nat) -> nat
    decreases s.len(),
{
    if s.len() == 0 || char_width(s[0]) > budget {
        0
    } else {
        1 + fitting_prefix(s.skip(1), (budget - char_width(s[0])) as nat)
    }
}

/// The text that `truncate` returns for `s` and `max_len`.
pub open spec fn truncated(s: Seq<char>, max_len: nat) -> Seq<char> {
    if encode_utf8(s).len() <= max_len {
        s
    } else {
        s.take(fitting_prefix(s, max_len) as int) + seq!['.', '.', '.']
    }
}

fn char_width_exec(c: char) -> (w: usize)
    ensures
        w == char_width(c),
{
    let u = c as u32;
    if u <= 0x7f {
        1
    } else if u <= 0x7ff {
        2
    } else if u <= 0xffff {
        3
    } else {
        4
    }
}

proof fn lemma_scalar_len(c: char)
    ensures
        vstd::utf8::encode_scalar(c as u32).len() == char_width(c),
{
    vstd::utf8::char_is_scalar(c);
}

/// Law: the part of `s` that truncation keeps is encoded in at most `max_len` bytes,
/// and it is the longest prefix of `s` with that property.
pub proof fn lemma_truncate_keeps_at_most_max_len(s: Seq<char>, max_len: nat)
    ensures
        fitting_prefix(s, max_len) <= s.len(),
        encode_utf8(s.take(fitting_prefix(s, max_len) as int)).len() <= max_len,
        fitting_prefix(s, max_len) < s.len() ==> encode_utf8(
            s.take(fitting_prefix(s, max_len) as int + 1),
        ).len() > max_len,
    decreases s.len(),
{
    let k = fitting_prefix(s, max_len) as int;
    if s.len() == 0 {
        assert(s.take(0) =~= Seq::<char>::empty());
    } else {
        lemma_scalar_len(s[0]);
        if char_width(s[0]) > max_len {
            assert(s.take(0) =~= Seq::<char>::empty());
            assert(s.take(1).drop_first() =~= Seq::<char>::empty());
            assert(s.take(1)[0] == s[0]);
        } else {
            let t = s.skip(1);
            let b2 = (max_len - char_width(s[0])) as nat;
            lemma_truncate_keeps_at_most_max_len(t, b2);
            assert(k == 1 + fitting_prefix(t, b2));
            assert(s.take(k).drop_first() =~= t.take(k - 1));
            assert(s.take(k)[0] == s[0]);
            if k < s.len() {
                assert(s.take(k + 1).drop_first() =~= t.take(k));
                assert(s.take(k + 1)[0] == s[0]);
            }
        }
    }
}

proof fn lemma_fitting_prefix_step(s: Seq<char>, budget: nat, i: int, used: nat)
    requires
        0 <= i <= s.len(),
        used <= budget,
        fitting_prefix(s, budget) == i + fitting_prefix(s.skip(i), (budget - used) as nat),
        i < s.len(),
        used + char_width(s[i]) <= budget,
    ensures
        fitting_prefix(s, budget) == (i + 1) + fitting_prefix(s.skip(i + 1), (budget - used - char_width(s[i])) as nat),
{
    assert(s.skip(i)[0] == s[i]);
    assert(s.skip(i).skip(1) =~= s.skip(i + 1));
}

/// Truncate a string to at most `max_len` bytes, respecting UTF-8 char boundaries.
/// If truncated, appends "..." (so the result may be up to `max_len + 3` bytes).
pub fn truncate(s: &str, max_len: usize) -> (r: String)
    ensures
        r@ == truncated(s@, max_len as nat),
{
    if s.as_bytes().len() <= max_len {
        return s.to_owned();
    }
    let chars = str_chars(s);
    let mut used: usize = 0;
    let mut i: usize = 0;
    let mut out = String::new();
    proof {
        assert(chars@.skip(0) =~= chars@);
    }
    while i < chars.len()
        invariant
            i <= chars@.len(),
            used <= max_len,
            chars@ == s@,
            out@ == s@.take(i as int),
            fitting_prefix(s@, max_len as nat) == i + fitting_prefix(s@.skip(i as int), (max_len - used) as nat),
        ensures
            i <= chars@.len(),
            out@ == s@.take(i as int),
            fitting_prefix(s@, max_len as nat) == i,
        decreases chars@.len() - i,
    {
        let w = char_width_exec(chars[i]);
        if w > max_len - used {
            proof {
                assert(s@.skip(i as int)[0] == s@[i as int]);
                assert(fitting_prefix(s@.skip(i as int), (max_len - used) as nat) == 0);
            }
            break;
        }
        proof {
            lemma_fitting_prefix_step(s@, max_len as nat, i as int, used as nat);
        }
        push_char(&mut out, chars[i]);
        used = used + w;
        i = i + 1;
        assert(out@ =~= s@.take(i as int));
    }
    push_char(&mut out, '.');
    push_char(&mut out, '.');
    push_char(&mut out, '.');
    assert(out@ =~= s@.take(fitting_prefix(s@, max_len as nat) as int) + seq!['.', '.', '.']);
    out
}

} // verus!
