//! The decisions of the background update checker: parsing semver tags out of
//! `git ls-remote --tags` output, comparing them with the running version, and the
//! once-per-hour rate limit.

use vstd::prelude::*;
use crate::numfmt::{decimal, lemma_decimal_reads_back};
use crate::textscan::{
    all_digit_chars, char_rows, digits_value, find_from, first_index, is_digit, lemma_first_index, lines_of,
    parse_unsigned, parsed_unsigned, str_lines, sub_chars_of, unsigned_part,
};
use crate::strutil::{occurs_at_exec, str_chars};

verus! {

broadcast use vstd::string::group_string_axioms;

/// Minimum interval between network checks (1 hour).
pub const CHECK_INTERVAL_SECS: u64 = 3600;

/// A version as (major, minor, patch).
pub type Version = (u64, u64, u64);

/// `s` without one leading `v`.
pub open spec fn without_v(s: Seq<char>) -> Seq<char> {
    if s.len() > 0 && s[0] == 'v' { s.drop_first() } else { s }
}

/// The version named by a tag such as `0.3.0` or `v0.3.0`: a leading `v` dropped, then the
/// text split at its first two dots into three `u64` numbers (the third keeps any further dot,
/// and then does not parse).
pub open spec fn semver_of(tag: Seq<char>) -> Option<(nat, nat, nat)> {
    let s = without_v(tag);
    match first_index(s, '.') {
        None => None,
        Some(d1) => {
            let rest = s.skip(d1 + 1);
            match first_index(rest, '.') {
                None => None,
                Some(d2) => match (
                    parsed_unsigned(s.take(d1), u64::MAX as nat),
                    parsed_unsigned(rest.take(d2), u64::MAX as nat),
                    parsed_unsigned(rest.skip(d2 + 1), u64::MAX as nat),
                ) {
                    (Some(a), Some(b), Some(c)) => Some((a, b, c)),
                    _ => None,
                },
            }
        },
    }
}

pub open spec fn version_view(v: Version) -> (nat, nat, nat) {
    (v.0 as nat, v.1 as nat, v.2 as nat)
}

pub open spec fn opt_version_view(v: Option<Version>) -> Option<(nat, nat, nat)> {
    match v {
        Some(x) => Some(version_view(x)),
        None => None,
    }
}

/// The formatting of three numbers as `a.b.c`, or `va.b.c`, reads back as the three
/// numbers.
pub proof fn lemma_semver_round_trip(a: u64, b: u64, c: u64, v_prefix: bool)
    ensures
        semver_of(
            (if v_prefix { seq!['v'] } else { Seq::empty() }) + decimal(a as nat) + seq!['.'] + decimal(b as nat) + seq!['.']
                + decimal(c as nat),
        ) == Some((a as nat, b as nat, c as nat)),
{
    lemma_decimal_reads_back(a as nat);
    lemma_decimal_reads_back(b as nat);
    lemma_decimal_reads_back(c as nat);
    let da = decimal(a as nat);
    let db = decimal(b as nat);
    let dc = decimal(c as nat);
    let body = da + seq!['.'] + db + seq!['.'] + dc;
    let tag = (if v_prefix { seq!['v'] } else { Seq::empty() }) + da + seq!['.'] + db + seq!['.'] + dc;
    assert(tag =~= (if v_prefix { seq!['v'] } else { Seq::empty() }) + body);
    assert(is_digit(da[0]));
    assert(without_v(tag) =~= body);
    let d1 = da.len() as int;
    assert forall|j: int| 0 <= j < d1 implies body[j] != '.' by {
        assert(body[j] == da[j]);
        assert(is_digit(da[j]));
    }
    lemma_first_index(body, '.', d1);
    let rest = body.skip(d1 + 1);
    assert(rest =~= db + seq!['.'] + dc);
    let d2 = db.len() as int;
    assert forall|j: int| 0 <= j < d2 implies rest[j] != '.' by {
        assert(rest[j] == db[j]);
        assert(is_digit(db[j]));
    }
    lemma_first_index(rest, '.', d2);
    assert(body.take(d1) =~= da);
    assert(rest.take(d2) =~= db);
    assert(rest.skip(d2 + 1) =~= dc);
    assert(is_digit(db[0]));
    assert(is_digit(dc[0]));
    assert(unsigned_part(da) == da);
    assert(unsigned_part(db) == db);
    assert(unsigned_part(dc) == dc);
}

/// Parse a semver string like "0.3.0" or "v0.3.0" into (major, minor, patch).
pub fn parse_semver(tag: &str) -> (r: Option<Version>)
    ensures
        opt_version_view(r) == semver_of(tag@),
{
    let chars = str_chars(tag);
    let start: usize = if chars.len() > 0 && chars[0] == 'v' { 1 } else { 0 };
    let s = sub_chars_of(&chars, start, chars.len());
    assert(s@ =~= without_v(tag@));
    let n = s.len();
    let d1 = find_from(&s, '.', 0);
    proof {
        lemma_first_index(s@, '.', d1 as int);
    }
    if d1 == n {
        return None;
    }
    let ghost rest = s@.skip(d1 + 1);
    let d2 = find_from(&s, '.', d1 + 1);
    proof {
        assert forall|j: int| 0 <= j < d2 - (d1 + 1) implies rest[j] != '.' by {
            assert(rest[j] == s@[j + d1 + 1]);
        }
        lemma_first_index(rest, '.', d2 - (d1 + 1));
    }
    if d2 == n {
        return None;
    }
    let major_chars = sub_chars_of(&s, 0, d1);
    let minor_chars = sub_chars_of(&s, d1 + 1, d2);
    let patch_chars = sub_chars_of(&s, d2 + 1, n);
    proof {
        assert(major_chars@ =~= s@.take(d1 as int));
        assert(minor_chars@ =~= rest.take(d2 - (d1 + 1)));
        assert(patch_chars@ =~= rest.skip(d2 - (d1 + 1) + 1));
    }
    let major = match parse_unsigned(&major_chars, u64::MAX) {
        Some(v) => v,
        None => return None,
    };
    let minor = match parse_unsigned(&minor_chars, u64::MAX) {
        Some(v) => v,
        None => return None,
    };
    let patch = match parse_unsigned(&patch_chars, u64::MAX) {
        Some(v) => v,
        None => return None,
    };
    Some((major, minor, patch))
}

/// `a` is a strictly later version than `b`: compared by major, then minor, then patch.
pub open spec fn newer(a: (nat, nat, nat), b: (nat, nat, nat)) -> bool {
    a.0 > b.0 || (a.0 == b.0 && (a.1 > b.1 || (a.1 == b.1 && a.2 > b.2)))
}

/// Returns true if `candidate` is strictly newer than `current`.
pub fn is_newer(candidate: Version, current: Version) -> (r: bool)
    ensures
        r == newer(version_view(candidate), version_view(current)),
{
    candidate.0 > current.0 || (candidate.0 == current.0 && (candidate.1 > current.1 || (candidate.1
        == current.1 && candidate.2 > current.2)))
}

/// Being newer is a strict total order on versions: no version is newer than itself, it is
/// transitive, and of two different versions one is newer than the other.
pub proof fn lemma_newer_strict_total_order(a: (nat, nat, nat), b: (nat, nat, nat), c: (nat, nat, nat))
    ensures
        !newer(a, a),
        newer(a, b) && newer(b, c) ==> newer(a, c),
        a != b ==> newer(a, b) || newer(b, a),
        newer(a, b) ==> !newer(b, a),
{
}

// ---------------------------------------------------------------------------
// `git ls-remote --tags` output
// ---------------------------------------------------------------------------

/// `s` without the prefix `p`, when it starts with it.
pub open spec fn strip_prefix(s: Seq<char>, p: Seq<char>) -> Seq<char> {
    if p.len() <= s.len() && s.take(p.len() as int) == p { s.skip(p.len() as int) } else { s }
}

/// `str::trim_end_matches`: `s` with every repetition of the suffix `p` removed from its end.
pub open spec fn trim_end_all(s: Seq<char>, p: Seq<char>) -> Seq<char>
    decreases s.len(),
{
    if p.len() > 0 && p.len() <= s.len() && s.skip(s.len() - p.len()) == p {
        trim_end_all(s.take(s.len() - p.len()), p)
    } else {
        s
    }
}

/// The second tab-separated field of a line, if the line has a tab.
pub open spec fn second_field(line: Seq<char>) -> Option<Seq<char>> {
    match first_index(line, '\t') {
        None => None,
        Some(t1) => {
            let rest = line.skip(t1 + 1);
            match first_index(rest, '\t') {
                Some(t2) => Some(rest.take(t2)),
                None => Some(rest),
            }
        },
    }
}

/// The tag named by a ref such as `refs/tags/v0.3.0^{}`.
pub open spec fn tag_of_ref(refname: Seq<char>) -> Seq<char> {
    trim_end_all(strip_prefix(refname, "refs/tags/"@), "^{}"@)
}

/// The newest version among the tags of the lines, `None` when none names a version.
pub open spec fn newest_tag(lines: Seq<Seq<char>>) -> Option<(nat, nat, nat)>
    decreases lines.len(),
{
    if lines.len() == 0 {
        None
    } else {
        let best = newest_tag(lines.drop_last());
        match second_field(lines.last()) {
            Some(refname) => match semver_of(tag_of_ref(refname)) {
                Some(v) => match best {
                    None => Some(v),
                    Some(b) => if newer(v, b) { Some(v) } else { Some(b) },
                },
                None => best,
            },
            None => best,
        }
    }
}

/// The highest version among the tags of `git ls-remote --tags` output (`<sha>\t<ref>` per
/// line, lines without a tab skipped); `None` when no tag names a version.
pub open spec fn latest_tag(output: Seq<char>) -> Option<(nat, nat, nat)> {
    newest_tag(str_lines(output))
}

/// The tag named by the ref in `refname` (`refs/tags/` and trailing `^{}` removed).
fn ref_tag(refname: &Vec<char>) -> (r: Vec<char>)
    ensures
        r@ == tag_of_ref(refname@),
{
    let prefix = str_chars("refs/tags/");
    let suffix = str_chars("^{}");
    proof {
        reveal_strlit("refs/tags/");
        reveal_strlit("^{}");
    }
    let n = refname.len();
    let start: usize = if occurs_at_exec(refname, &prefix, 0) { prefix.len() } else { 0 };
    proof {
        assert(refname@.subrange(0, prefix@.len() as int) =~= refname@.take(prefix@.len() as int));
    }
    let s = sub_chars_of(refname, start, n);
    assert(s@ =~= strip_prefix(refname@, "refs/tags/"@));
    trim_end_suffix(&s, &suffix)
}

/// `s` with every repetition of the (non-empty) suffix `p` removed from its end.
fn trim_end_suffix(s: &Vec<char>, p: &Vec<char>) -> (r: Vec<char>)
    requires
        p@.len() > 0,
    ensures
        r@ == trim_end_all(s@, p@),
{
    let mut end = s.len();
    let mut done = false;
    assert(s@.take(end as int) =~= s@);
    while !done
        invariant
            p@.len() > 0,
            end <= s@.len(),
            trim_end_all(s@.take(end as int), p@) == trim_end_all(s@, p@),
            done ==> trim_end_all(s@.take(end as int), p@) == s@.take(end as int),
        decreases end, if done { 0int } else { 1int },
    {
        let ghost t = s@.take(end as int);
        if p.len() > end {
            done = true;
        } else {
            let base = end - p.len();
            let found = occurs_at_exec(s, p, base);
            assert(t.skip(t.len() - p@.len()) =~= s@.subrange(base as int, end as int));
            if found {
                assert(t.take(t.len() - p@.len()) =~= s@.take(base as int));
                end = base;
            } else {
                done = true;
            }
        }
    }
    let r = sub_chars_of(s, 0, end);
    assert(r@ =~= s@.take(end as int));
    r
}

/// The second tab-separated field of a line, if the line has a tab.
fn line_second_field(line: &Vec<char>) -> (r: Option<Vec<char>>)
    ensures
        match r {
            Some(f) => second_field(line@) == Some(f@),
            None => second_field(line@) is None,
        },
{
    let n = line.len();
    let t1 = find_from(line, '\t', 0);
    proof {
        lemma_first_index(line@, '\t', t1 as int);
    }
    if t1 == n {
        return None;
    }
    let ghost rest = line@.skip(t1 + 1);
    let t2 = find_from(line, '\t', t1 + 1);
    proof {
        assert forall|j: int| 0 <= j < t2 - (t1 + 1) implies rest[j] != '\t' by {
            assert(rest[j] == line@[j + t1 + 1]);
        }
        lemma_first_index(rest, '\t', t2 - (t1 + 1));
    }
    let f = sub_chars_of(line, t1 + 1, t2);
    proof {
        if t2 < n {
            assert(f@ =~= rest.take(t2 - (t1 + 1)));
        } else {
            assert(f@ =~= rest);
        }
    }
    Some(f)
}

/// Parse all tags from `git ls-remote --tags` output and return the highest
/// semver version found. Handles `^{}` dereference entries.
pub fn latest_tag_version(ls_remote_output: &str) -> (r: Option<Version>)
    ensures
        opt_version_view(r) == latest_tag(ls_remote_output@),
{
    let lines = lines_of(ls_remote_output);
    let ghost ls = char_rows(lines@);
    let mut best: Option<Version> = None;
    let mut i: usize = 0;
    assert(ls.take(0) =~= Seq::<Seq<char>>::empty());
    while i < lines.len()
        invariant
            ls == char_rows(lines@),
            ls == str_lines(ls_remote_output@),
            i <= lines@.len(),
            opt_version_view(best) == newest_tag(ls.take(i as int)),
        decreases lines@.len() - i,
    {
        assert(ls.take(i + 1).drop_last() =~= ls.take(i as int));
        assert(ls.take(i + 1).last() == lines@[i as int]@);
        // Format: "<sha>\trefs/tags/<tagname>"
        let refname = match line_second_field(&lines[i]) {
            Some(f) => f,
            None => {
                // not a `<sha>\t<ref>` line: no tag on it
                i += 1;
                continue;
            },
        };
        let tag = ref_tag(&refname);
        let tag_str = crate::strutil::string_from_chars(tag.as_slice());
        match parse_semver(tag_str.as_str()) {
            Some(ver) => {
                let take = match best {
                    None => true,
                    Some(b) => is_newer(ver, b),
                };
                if take {
                    best = Some(ver);
                }
            },
            None => {},
        }
        i += 1;
    }
    assert(ls.take(i as int) =~= ls);
    best
}

// ---------------------------------------------------------------------------
// The check itself
// ---------------------------------------------------------------------------

/// The last check, stored as epoch seconds, was less than CHECK_INTERVAL_SECS before `now`.
pub open spec fn checked_recently(last_check: Option<Seq<char>>, now: nat) -> bool {
    match last_check {
        Some(s) => match parsed_unsigned(s, u64::MAX as nat) {
            Some(ts) => (if now >= ts { now - ts } else { 0 }) < CHECK_INTERVAL_SECS,
            None => false,
        },
        None => false,
    }
}

pub open spec fn opt_str_view(s: Option<&str>) -> Option<Seq<char>> {
    match s {
        Some(x) => Some(x@),
        None => None,
    }
}

/// Whether the network check is skipped, given the stored `last_update_check` setting and the
/// current time: it is when the setting parses as epoch seconds less than an hour old.
pub fn recently_checked(last_check: Option<&str>, now: u64) -> (r: bool)
    ensures
        r == checked_recently(opt_str_view(last_check), now as nat),
{
    match last_check {
        Some(s) => match parse_unsigned(&str_chars(s), u64::MAX) {
            Some(ts) => now.saturating_sub(ts) < CHECK_INTERVAL_SECS,
            None => false,
        },
        None => false,
    }
}

/// Whether an update is announced, given the ls-remote output, the running version and the
/// stored `update_checked_version` setting: `None` when the running version does not parse;
/// otherwise whether the latest tag is newer than the running version and not already
/// installed by `nexus update` (a stored checked version at least as new as the tag).
pub open spec fn update_announced(output: Seq<char>, current: Seq<char>, checked: Option<Seq<char>>) -> Option<bool> {
    match semver_of(current) {
        None => None,
        Some(cur) => Some(match latest_tag(output) {
            Some(latest) => newer(latest, cur) && !(match checked {
                Some(c) => match semver_of(c) {
                    Some(cv) => !newer(latest, cv),
                    None => false,
                },
                None => false,
            }),
            None => false,
        }),
    }
}

/// Decide whether an update is available from a successful `git ls-remote --tags` run.
pub fn update_available(ls_remote_output: &str, current_version: &str, checked_version: Option<&str>) -> (r: Option<bool>)
    ensures
        r == update_announced(ls_remote_output@, current_version@, opt_str_view(checked_version)),
{
    let current = match parse_semver(current_version) {
        Some(v) => v,
        None => return None,
    };
    let available = match latest_tag_version(ls_remote_output) {
        Some(latest) => {
            if is_newer(latest, current) {
                let suppressed = match checked_version {
                    Some(c) => match parse_semver(c) {
                        Some(checked) => !is_newer(latest, checked),
                        None => false,
                    },
                    None => false,
                };
                !suppressed
            } else {
                false
            }
        },
        None => false,
    };
    Some(available)
}

/// The stored `update_available` setting reads as true only when it is exactly `true`.
pub open spec fn persisted_flag(value: Option<Seq<char>>) -> bool {
    value == Some("true"@)
}

/// The persisted update flag, from the stored `update_available` setting.
pub fn persisted_update_flag(value: Option<&str>) -> (r: bool)
    ensures
        r == persisted_flag(opt_str_view(value)),
{
    match value {
        Some(v) => {
            let chars = str_chars(v);
            let t = str_chars("true");
            proof {
                reveal_strlit("true");
            }
            if chars.len() != t.len() {
                assert(v@.len() != "true"@.len());
                return false;
            }
            let mut k: usize = 0;
            while k < t.len()
                invariant
                    t@ == "true"@,
                    chars@ == v@,
                    opt_str_view(value) == Some(v@),
                    chars@.len() == t@.len(),
                    k <= t@.len(),
                    forall|j: int| 0 <= j < k ==> chars@[j] == t@[j],
                decreases t@.len() - k,
            {
                if chars[k] != t[k] {
                    assert(v@[k as int] != "true"@[k as int]);
                    return false;
                }
                k += 1;
            }
            assert(v@ =~= "true"@);
            true
        },
        None => false,
    }
}

} // verus!
