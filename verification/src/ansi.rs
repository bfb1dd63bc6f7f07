use vstd::prelude::*;

verus! {

/// The escape byte that starts every control sequence.
pub open spec fn esc() -> u8 {
    0x1b
}

/// A byte that may appear among the parameter or intermediate bytes of a CSI sequence.
pub open spec fn is_csi_param_byte(b: u8) -> bool {
    0x20 <= b <= 0x3f
}

/// Number of bytes that a string body (after `ESC ]` or `ESC P`) occupies, the
/// terminator included: up to and including the first BEL, or the first `ESC \`;
/// the whole rest of the input if neither occurs.
pub open spec fn st_skip(s: Seq<u8>) -> nat
    decreases s.len(),
{
    if s.len() == 0 {
        0
    } else if s[0] == 0x07u8 {
        1
    } else if s[0] == 0x1bu8 && s.len() > 1 && s[1] == 0x5cu8 {
        2
    } else {
        1 + st_skip(s.skip(1))
    }
}

/// Number of leading parameter/intermediate bytes (0x20..=0x3f) of `s`.
pub open spec fn param_len(s: Seq<u8>) -> nat
    decreases s.len(),
{
    if s.len() == 0 || !is_csi_param_byte(s[0]) {
        0
    } else {
        1 + param_len(s.skip(1))
    }
}

/// The first token of a non-empty input: the bytes it contributes to the output,
/// and how many input bytes it consumes.
pub open spec fn first_token(s: Seq<u8>) -> (Seq<u8>, nat) {
    if s.len() == 0 {
        (Seq::empty(), 0)
    } else if s[0] != esc() {
        // plain byte: kept
        (seq![s[0]], 1)
    } else if s.len() == 1 {
        // lone ESC at the end: dropped
        (Seq::empty(), 1)
    } else if s[1] == 0x5du8 || s[1] == 0x50u8 {
        // OSC `ESC ]` or DCS `ESC P`: dropped up to and including the string terminator
        (Seq::empty(), 2 + st_skip(s.skip(2)))
    } else if s[1] == 0x5bu8 {
        // CSI `ESC [` params final
        let p = param_len(s.skip(2)) as int;
        if p + 2 < s.len() {
            if s[p + 2] == 0x6du8 {
                // SGR: kept whole
                (s.take(p + 3), (p + 3) as nat)
            } else {
                (Seq::empty(), (p + 3) as nat)
            }
        } else {
            // unterminated CSI: the rest is dropped
            (Seq::empty(), s.len())
        }
    } else {
        // any other two-byte escape: dropped
        (Seq::empty(), 2)
    }
}

pub proof fn lemma_st_skip_bound(s: Seq<u8>)
    ensures
        st_skip(s) <= s.len(),
        s.len() > 0 ==> st_skip(s) >= 1,
    decreases s.len(),
{
    if s.len() > 0 && !(s[0] == 0x07u8) && !(s[0] == 0x1bu8 && s.len() > 1 && s[1] == 0x5cu8) {
        lemma_st_skip_bound(s.skip(1));
    }
}

pub proof fn lemma_param_len_props(s: Seq<u8>)
    ensures
        param_len(s) <= s.len(),
        forall|k: int| 0 <= k < param_len(s) ==> is_csi_param_byte(#[trigger] s[k]),
        param_len(s) < s.len() ==> !is_csi_param_byte(s[param_len(s) as int]),
    decreases s.len(),
{
    if s.len() > 0 && is_csi_param_byte(s[0]) {
        lemma_param_len_props(s.skip(1));
        assert forall|k: int| 0 <= k < param_len(s) implies is_csi_param_byte(#[trigger] s[k]) by {
            if k > 0 {
                assert(s[k] == s.skip(1)[k - 1]);
            }
        }
        if param_len(s) < s.len() {
            assert(s[param_len(s) as int] == s.skip(1)[param_len(s) - 1]);
        }
    }
}

pub proof fn lemma_first_token_consumes(s: Seq<u8>)
    requires
        s.len() > 0,
    ensures
        1 <= first_token(s).1 <= s.len(),
{
    if s[0] == esc() && s.len() > 1 {
        lemma_st_skip_bound(s.skip(2));
        lemma_param_len_props(s.skip(2));
    }
}

/// What `sanitize_ansi` keeps of `s`: its tokens' contributions, in order.
pub open spec fn sanitized(s: Seq<u8>) -> Seq<u8>
    decreases s.len(),
{
    if s.len() == 0 {
        Seq::empty()
    } else {
        let (emit, used) = first_token(s);
        proof {
            lemma_first_token_consumes(s);
        }
        emit + sanitized(s.skip(used as int))
    }
}

/// An SGR sequence: `ESC [`, parameter bytes, `m`.
pub open spec fn is_sgr_sequence(e: Seq<u8>) -> bool {
    &&& e.len() >= 3
    &&& e[0] == esc()
    &&& e[1] == 0x5bu8
    &&& e[e.len() - 1] == 0x6du8
    &&& forall|k: int| 2 <= k < e.len() - 1 ==> is_csi_param_byte(#[trigger] e[k])
}

/// Skip bytes until a string terminator (BEL, or `ESC \`) and return the index just past it;
/// the input's length if there is none.
fn skip_until_st(raw: &[u8], start: usize) -> (r: usize)
    requires
        start <= raw@.len(),
    ensures
        r == start + st_skip(raw@.skip(start as int)),
        r <= raw@.len(),
{
    let mut i = start;
    while i < raw.len()
        invariant
            start <= i <= raw@.len(),
            st_skip(raw@.skip(start as int)) == (i - start) + st_skip(raw@.skip(i as int)),
        decreases raw@.len() - i,
    {
        let ghost s = raw@.skip(i as int);
        assert(s[0] == raw@[i as int]);
        if raw[i] == 0x07 {
            return i + 1;
        }
        if raw[i] == 0x1b && i + 1 < raw.len() && raw[i + 1] == 0x5c {
            assert(s[1] == raw@[i + 1]);
            return i + 2;
        }
        proof {
            if i + 1 < raw@.len() {
                assert(s[1] == raw@[i + 1]);
            }
            assert(s.skip(1) =~= raw@.skip(i + 1));
        }
        i += 1;
    }
    proof {
        lemma_st_skip_bound(raw@.skip(start as int));
    }
    i
}

/// Strip non-SGR ANSI escape sequences from raw bytes.
///
/// Keeps SGR sequences (`ESC [ ... m`) and every byte outside an escape sequence; drops
/// OSC (`ESC ] ... ST`) and DCS (`ESC P ... ST`) strings, CSI sequences with any other
/// final byte, other two-byte escapes, and a trailing lone ESC. The string terminator is
/// `ESC \` or BEL.
pub fn sanitize_ansi(raw: &[u8]) -> (result: Vec<u8>)
    ensures
        result@ == sanitized(raw@),
{
    let mut result: Vec<u8> = Vec::new();
    let mut i: usize = 0;
    proof {
        assert(raw@.skip(0) =~= raw@);
    }
    while i < raw.len()
        invariant
            i <= raw@.len(),
            result@ + sanitized(raw@.skip(i as int)) == sanitized(raw@),
        decreases raw@.len() - i,
    {
        let ghost s = raw@.skip(i as int);
        let ghost old_result = result@;
        proof {
            lemma_first_token_consumes(s);
            assert(s[0] == raw@[i as int]);
        }
        let next: usize;
        if raw[i] != 0x1b {
            result.push(raw[i]);
            next = i + 1;
        } else if i + 1 >= raw.len() {
            next = i + 1;
        } else {
            proof {
                assert(s[1] == raw@[i + 1]);
                assert(s.skip(2) =~= raw@.skip(i + 2));
            }
            let b = raw[i + 1];
            if b == 0x5d || b == 0x50 {
                next = skip_until_st(raw, i + 2);
            } else if b == 0x5b {
                let mut p = i + 2;
                while p < raw.len() && raw[p] >= 0x20 && raw[p] <= 0x3f
                    invariant
                        i + 2 <= p <= raw@.len(),
                        param_len(raw@.skip(i + 2)) == (p - (i + 2)) + param_len(raw@.skip(p as int)),
                    decreases raw@.len() - p,
                {
                    proof {
                        assert(raw@.skip(p as int)[0] == raw@[p as int]);
                        assert(raw@.skip(p as int).skip(1) =~= raw@.skip(p + 1));
                    }
                    p += 1;
                }
                proof {
                    if p < raw@.len() {
                        assert(raw@.skip(p as int)[0] == raw@[p as int]);
                    }
                    assert(param_len(raw@.skip(p as int)) == 0);
                    assert(p - i == param_len(s.skip(2)) + 2);
                }
                if p < raw.len() {
                    assert(s[p - i] == raw@[p as int]);
                    if raw[p] == 0x6d {
                        let mut k = i;
                        while k <= p
                            invariant
                                i <= k <= p + 1,
                                p < raw@.len(),
                                result@ == old_result + raw@.subrange(i as int, k as int),
                            decreases p + 1 - k,
                        {
                            result.push(raw[k]);
                            k += 1;
                            assert(result@ =~= old_result + raw@.subrange(i as int, k as int));
                        }
                        assert(raw@.subrange(i as int, p + 1) =~= s.take(p - i + 1));
                    }
                    next = p + 1;
                } else {
                    next = raw.len();
                }
            } else {
                next = i + 2;
            }
        }
        proof {
            assert(result@ == old_result + first_token(s).0);
            assert(next == i + first_token(s).1);
            assert(s.skip(first_token(s).1 as int) =~= raw@.skip(next as int));
            assert(old_result + (first_token(s).0 + sanitized(raw@.skip(next as int)))
                =~= result@ + sanitized(raw@.skip(next as int)));
        }
        i = next;
    }
    proof {
        assert(raw@.skip(i as int) =~= Seq::<u8>::empty());
        assert(result@ + Seq::<u8>::empty() =~= result@);
    }
    result
}

// ---------------------------------------------------------------------------
// Laws
// ---------------------------------------------------------------------------

/// Input without any escape byte passes through unchanged.
pub proof fn lemma_plain_text_preserved(s: Seq<u8>)
    requires
        forall|k: int| 0 <= k < s.len() ==> #[trigger] s[k] != esc(),
    ensures
        sanitized(s) == s,
    decreases s.len(),
{
    if s.len() > 0 {
        assert(s[0] != esc());
        let t = s.skip(1);
        assert forall|k: int| 0 <= k < t.len() implies #[trigger] t[k] != esc() by {
            assert(t[k] == s[k + 1]);
        }
        lemma_plain_text_preserved(t);
        assert(seq![s[0]] + t =~= s);
    }
}

proof fn lemma_param_len_of_sgr_body(p: Seq<u8>, x: Seq<u8>)
    requires
        forall|k: int| 0 <= k < p.len() ==> is_csi_param_byte(#[trigger] p[k]),
    ensures
        param_len(p + seq![0x6du8] + x) == p.len(),
    decreases p.len(),
{
    let t = p + seq![0x6du8] + x;
    if p.len() == 0 {
        assert(t[0] == 0x6du8);
    } else {
        assert(t[0] == p[0]);
        let p1 = p.skip(1);
        assert forall|k: int| 0 <= k < p1.len() implies is_csi_param_byte(#[trigger] p1[k]) by {
            assert(p1[k] == p[k + 1]);
        }
        lemma_param_len_of_sgr_body(p1, x);
        assert(t.skip(1) =~= p1 + seq![0x6du8] + x);
    }
}

/// Prepending a kept token (a non-escape byte, or a whole SGR sequence) to an input
/// prepends it to the output.
proof fn lemma_sanitized_kept_prefix(e: Seq<u8>, x: Seq<u8>)
    requires
        (e.len() == 1 && e[0] != esc()) || is_sgr_sequence(e),
    ensures
        sanitized(e + x) == e + sanitized(x),
{
    let s = e + x;
    lemma_first_token_consumes(s);
    if e.len() == 1 && e[0] != esc() {
        assert(s[0] == e[0]);
        assert(s.skip(1) =~= x);
        assert(seq![s[0]] =~= e);
    } else {
        let body = e.subrange(2, e.len() - 1);
        assert forall|k: int| 0 <= k < body.len() implies is_csi_param_byte(#[trigger] body[k]) by {
            assert(body[k] == e[k + 2]);
        }
        assert(s.skip(2) =~= body + seq![0x6du8] + x);
        lemma_param_len_of_sgr_body(body, x);
        assert(s[0] == esc());
        assert(s[1] == 0x5bu8);
        let n = body.len() as int;
        assert(s[n + 2] == 0x6du8);
        assert(s.take(n + 3) =~= e);
        assert(s.skip(n + 3) =~= x);
    }
}

/// Whatever the first token contributes is either nothing, a single non-escape byte,
/// or a whole SGR sequence.
proof fn lemma_first_token_emits_kept(s: Seq<u8>)
    requires
        s.len() > 0,
    ensures
        first_token(s).0.len() == 0 || (first_token(s).0.len() == 1 && first_token(s).0[0] != esc())
            || is_sgr_sequence(first_token(s).0),
{
    if s[0] == esc() && s.len() > 1 && s[1] == 0x5bu8 {
        let t = s.skip(2);
        lemma_param_len_props(t);
        let p = param_len(t) as int;
        if p + 2 < s.len() && s[p + 2] == 0x6du8 {
            let e = s.take(p + 3);
            assert forall|k: int| 2 <= k < e.len() - 1 implies is_csi_param_byte(#[trigger] e[k]) by {
                assert(e[k] == t[k - 2]);
            }
        }
    }
}

/// Sanitizing is idempotent: its output is left unchanged by a second pass.
pub proof fn lemma_sanitize_idempotent(s: Seq<u8>)
    ensures
        sanitized(sanitized(s)) == sanitized(s),
    decreases s.len(),
{
    if s.len() > 0 {
        lemma_first_token_consumes(s);
        lemma_first_token_emits_kept(s);
        let (e, used) = first_token(s);
        let rest = sanitized(s.skip(used as int));
        lemma_sanitize_idempotent(s.skip(used as int));
        if e.len() == 0 {
            assert(e + rest =~= rest);
        } else {
            lemma_sanitized_kept_prefix(e, rest);
        }
    }
}

/// Every escape byte in the output starts an SGR sequence: no OSC, DCS, or other
/// control sequence survives.
pub proof fn lemma_output_escapes_are_sgr(s: Seq<u8>)
    ensures
        sgr_only(sanitized(s)),
    decreases s.len(),
{
    if s.len() > 0 {
        lemma_first_token_consumes(s);
        lemma_first_token_emits_kept(s);
        let (e, used) = first_token(s);
        lemma_output_escapes_are_sgr(s.skip(used as int));
        let rest = sanitized(s.skip(used as int));
        if e.len() == 0 {
            assert(e + rest =~= rest);
        } else if e.len() == 1 {
            assert((e + rest).skip(1) =~= rest);
            assert((e + rest)[0] == e[0]);
        } else {
            assert((e + rest).take(e.len() as int) =~= e);
            assert((e + rest).skip(e.len() as int) =~= rest);
        }
    }
}

/// A byte sequence made only of non-escape bytes and whole SGR sequences.
pub open spec fn sgr_only(s: Seq<u8>) -> bool
    decreases s.len(),
{
    if s.len() == 0 {
        true
    } else if s[0] != esc() {
        sgr_only(s.skip(1))
    } else {
        exists|n: int|
            3 <= n <= s.len() && is_sgr_sequence(#[trigger] s.take(n)) && sgr_only(s.skip(n))
    }
}

} // verus!
