use vstd::prelude::*;
use crate::numfmt::{decimal, digit_char, lemma_decimal_reads_back, push_padded_decimal, zero_padded, signed_decimal, i64_to_string};
use crate::strutil::{push_char, push_str};
use vstd::arithmetic::div_mod::{lemma_fundamental_div_mod, lemma_fundamental_div_mod_converse};

verus! {

broadcast use vstd::string::group_string_axioms;

/// Civil date `(year, month, day)` of the day numbered `days` since 1970-01-01, by
/// Hinnant's `civil_from_days` (for `days >= 0`).
pub open spec fn civil_from_days(days: int) -> (int, int, int) {
    let z = days + 719468;
    let era = z / 146097;
    let doe = z - era * 146097;
    let yoe = (doe - doe / 1460 + doe / 36524 - doe / 146096) / 365;
    let y = yoe + era * 400;
    let doy = doe - (365 * yoe + yoe / 4 - yoe / 100);
    let mp = (5 * doy + 2) / 153;
    let d = doy - (153 * mp + 2) / 5 + 1;
    let m = if mp < 10 { mp + 3 } else { mp - 9 };
    let y2 = if m <= 2 { y + 1 } else { y };
    (y2, m, d)
}

proof fn lemma_year_of_era(doe: u32)
    requires
        doe < 146097,
    ensures
        ({
            let yoe = (doe - doe / 1460 + doe / 36524 - doe / 146096) / 365;
            &&& yoe <= 399
            &&& 365 * yoe + yoe / 4 - yoe / 100 <= doe
            &&& doe - (365 * yoe + yoe / 4 - yoe / 100) <= 365
        }),
{
    assert(({
        let yoe = (doe - doe / 1460 + doe / 36524 - doe / 146096) / 365;
        &&& yoe <= 399
        &&& 365 * yoe + yoe / 4 - yoe / 100 <= doe
        &&& doe - (365 * yoe + yoe / 4 - yoe / 100) <= 365
    })) by (bit_vector)
        requires
            doe < 146097u32,
    ;
}

proof fn lemma_day_of_year(doy: u32)
    requires
        doy <= 365,
    ensures
        ({
            let mp = (5 * doy + 2) / 153;
            &&& mp <= 11
            &&& (153 * mp + 2) / 5 <= doy
            &&& doy - (153 * mp + 2) / 5 + 1 <= 31
        }),
{
    assert(({
        let mp = (5 * doy + 2) / 153;
        &&& mp <= 11
        &&& (153 * mp + 2) / 5 <= doy
        &&& doy - (153 * mp + 2) / 5 + 1 <= 31
    })) by (bit_vector)
        requires
            doy <= 365u32,
    ;
}

/// Convert epoch seconds to civil date (year, month, day) using the Hinnant algorithm.
pub fn epoch_to_ymd(secs: u64) -> (r: (i64, u64, u64))
    ensures
        (r.0 as int, r.1 as int, r.2 as int) == civil_from_days(secs as int / 86400),
        r.0 >= 1970,
        1 <= r.1 <= 12,
        1 <= r.2 <= 31,
{
    let days = (secs / 86400) as i64;
    let z = days + 719468;
    let era = (if z >= 0 { z } else { z - 146096 }) / 146097;
    let doe = (z - era * 146097) as u64;
    proof {
        lemma_year_of_era(doe as u32);
    }
    let yoe = (doe - doe / 1460 + doe / 36524 - doe / 146096) / 365;
    let y = (yoe as i64) + era * 400;
    let doy = doe - (365 * yoe + yoe / 4 - yoe / 100);
    proof {
        lemma_day_of_year(doy as u32);
    }
    let mp = (5 * doy + 2) / 153;
    let d = doy - (153 * mp + 2) / 5 + 1;
    let m = if mp < 10 { mp + 3 } else { mp - 9 };
    let y = if m <= 2 { y + 1 } else { y };
    (y, m, d)
}

/// The ISO 8601 UTC text of epoch seconds: `YYYY-MM-DDTHH:MM:SSZ`.
pub open spec fn iso_of(secs: nat) -> Seq<char> {
    let (y, m, d) = civil_from_days((secs / 86400) as int);
    let t = secs % 86400;
    zero_padded(decimal(y as nat), 4) + seq!['-'] + zero_padded(decimal(m as nat), 2) + seq!['-']
        + zero_padded(decimal(d as nat), 2) + seq!['T'] + zero_padded(decimal(t / 3600), 2) + seq![':']
        + zero_padded(decimal((t % 3600) / 60), 2) + seq![':'] + zero_padded(decimal(t % 60), 2)
        + seq!['Z']
}

/// Convert epoch seconds to an ISO 8601 UTC string.
pub fn epoch_to_iso(secs: u64) -> (r: String)
    ensures
        r@ == iso_of(secs as nat),
{
    let time_secs = secs % 86400;
    let hours = time_secs / 3600;
    let minutes = (time_secs % 3600) / 60;
    let seconds = time_secs % 60;
    let (year, month, day) = epoch_to_ymd(secs);
    let mut s = String::new();
    push_padded_decimal(&mut s, year as u64, 4);
    push_char(&mut s, '-');
    push_padded_decimal(&mut s, month, 2);
    push_char(&mut s, '-');
    push_padded_decimal(&mut s, day, 2);
    push_char(&mut s, 'T');
    push_padded_decimal(&mut s, hours, 2);
    push_char(&mut s, ':');
    push_padded_decimal(&mut s, minutes, 2);
    push_char(&mut s, ':');
    push_padded_decimal(&mut s, seconds, 2);
    push_char(&mut s, 'Z');
    assert(s@ =~= iso_of(secs as nat));
    s
}

/// The `YYYY.MM.DD` text of epoch seconds.
pub open spec fn date_display_of(secs: nat) -> Seq<char> {
    let (y, m, d) = civil_from_days((secs / 86400) as int);
    zero_padded(decimal(y as nat), 4) + seq!['.'] + zero_padded(decimal(m as nat), 2) + seq!['.']
        + zero_padded(decimal(d as nat), 2)
}

/// Format epoch seconds as "YYYY.MM.DD".
pub fn epoch_to_date_display(secs: u64) -> (r: String)
    ensures
        r@ == date_display_of(secs as nat),
{
    let (y, m, d) = epoch_to_ymd(secs);
    let mut s = String::new();
    push_padded_decimal(&mut s, y as u64, 4);
    push_char(&mut s, '.');
    push_padded_decimal(&mut s, m, 2);
    push_char(&mut s, '.');
    push_padded_decimal(&mut s, d, 2);
    assert(s@ =~= date_display_of(secs as nat));
    s
}

// ---------------------------------------------------------------------------
// Clock
// ---------------------------------------------------------------------------

#[verifier::external_type_specification]
#[verifier::external_body]
pub struct ExSystemTime(std::time::SystemTime);

/// `SystemTime::now()`: the current wall-clock time. Nothing is claimed of its value.
#[verifier::external_body]
fn system_now() -> std::time::SystemTime {
    std::time::SystemTime::now()
}

/// Whole seconds from the Unix epoch to `t` (`duration_since(UNIX_EPOCH)`, zero when `t`
/// is earlier, then `as_secs`). Nothing is claimed of its value: it depends on the clock.
#[verifier::external_body]
fn secs_since_unix_epoch(t: &std::time::SystemTime) -> u64 {
    t.duration_since(std::time::SystemTime::UNIX_EPOCH).unwrap_or_default().as_secs()
}

/// Get the current epoch time in seconds.
pub fn now_epoch() -> u64 {
    let t = system_now();
    secs_since_unix_epoch(&t)
}

// ---------------------------------------------------------------------------
// Parsing ISO timestamps
// ---------------------------------------------------------------------------

/// `char::is_whitespace`: the Unicode `White_Space` property.
pub open spec fn is_unicode_whitespace(c: char) -> bool {
    let u = c as u32;
    (0x09 <= u && u <= 0x0d) || u == 0x20 || u == 0x85 || u == 0xa0 || u == 0x1680 || (0x2000 <= u
        && u <= 0x200a) || u == 0x2028 || u == 0x2029 || u == 0x202f || u == 0x205f || u == 0x3000
}

pub fn is_unicode_whitespace_exec(c: char) -> (r: bool)
    ensures
        r == is_unicode_whitespace(c),
{
    let u = c as u32;
    (0x09 <= u && u <= 0x0d) || u == 0x20 || u == 0x85 || u == 0xa0 || u == 0x1680 || (0x2000 <= u
        && u <= 0x200a) || u == 0x2028 || u == 0x2029 || u == 0x202f || u == 0x205f || u == 0x3000
}

/// Number of leading whitespace characters of `s`.
pub open spec fn leading_ws(s: Seq<char>) -> nat
    decreases s.len(),
{
    if s.len() > 0 && is_unicode_whitespace(s[0]) {
        1 + leading_ws(s.drop_first())
    } else {
        0
    }
}

/// Number of trailing whitespace characters of `s`.
pub open spec fn trailing_ws(s: Seq<char>) -> nat
    decreases s.len(),
{
    if s.len() > 0 && is_unicode_whitespace(s.last()) {
        1 + trailing_ws(s.drop_last())
    } else {
        0
    }
}

/// `str::trim`: `s` without leading and trailing whitespace.
pub open spec fn trimmed(s: Seq<char>) -> Seq<char> {
    let t = s.skip(leading_ws(s) as int);
    t.take(t.len() - trailing_ws(t))
}

proof fn lemma_ws_bounds(s: Seq<char>)
    ensures
        leading_ws(s) <= s.len(),
        trailing_ws(s) <= s.len(),
    decreases s.len(),
{
    if s.len() > 0 {
        lemma_ws_bounds(s.drop_first());
        lemma_ws_bounds(s.drop_last());
    }
}

pub fn trim_chars(v: &Vec<char>) -> (r: Vec<char>)
    ensures
        r@ == trimmed(v@),
{
    let mut lo: usize = 0;
    assert(v@.skip(0) =~= v@);
    while lo < v.len() && is_unicode_whitespace_exec(v[lo])
        invariant
            lo <= v@.len(),
            leading_ws(v@) == lo + leading_ws(v@.skip(lo as int)),
        decreases v@.len() - lo,
    {
        assert(v@.skip(lo as int).drop_first() =~= v@.skip(lo + 1));
        lo += 1;
    }
    proof {
        if lo < v@.len() {
            assert(v@.skip(lo as int)[0] == v@[lo as int]);
        }
    }
    let ghost t = v@.skip(lo as int);
    let mut hi: usize = v.len();
    assert(t.take(t.len() as int) =~= t);
    while hi > lo && is_unicode_whitespace_exec(v[hi - 1])
        invariant
            lo <= hi <= v@.len(),
            t == v@.skip(lo as int),
            trailing_ws(t) == (v@.len() - hi) + trailing_ws(t.take(hi - lo)),
        decreases hi,
    {
        assert(t.take(hi - lo).drop_last() =~= t.take(hi - 1 - lo));
        assert(t.take(hi - lo).last() == v@[hi - 1]);
        hi -= 1;
    }
    proof {
        if hi > lo {
            assert(t.take(hi - lo).last() == v@[hi - 1]);
        }
    }
    let mut r: Vec<char> = Vec::new();
    let mut k = lo;
    while k < hi
        invariant
            lo <= k <= hi <= v@.len(),
            r@ == v@.subrange(lo as int, k as int),
        decreases hi - k,
    {
        r.push(v[k]);
        k += 1;
        assert(r@ =~= v@.subrange(lo as int, k as int));
    }
    assert(r@ =~= trimmed(v@));
    r
}

/// An ASCII decimal digit byte.
pub open spec fn is_digit_byte(b: u8) -> bool {
    0x30 <= b <= 0x39
}

/// The value of a sequence of decimal digit bytes.
pub open spec fn digits_value(s: Seq<u8>) -> nat
    decreases s.len(),
{
    if s.len() == 0 {
        0
    } else {
        digits_value(s.drop_last()) * 10 + (s.last() - 0x30) as nat
    }
}

/// Length of the sign (`+` or `-`) at the start of `s`: 0 or 1.
pub open spec fn sign_len(s: Seq<u8>) -> int {
    if s.len() > 0 && (s[0] == 0x2bu8 || s[0] == 0x2du8) {
        1
    } else {
        0
    }
}

/// Every byte of `d` is an ASCII digit.
pub open spec fn all_digits(d: Seq<u8>) -> bool {
    forall|k: int| 0 <= k < d.len() ==> is_digit_byte(#[trigger] d[k])
}

/// `i64::from_str` on bytes: an optional `+` or `-`, then one or more ASCII digits.
pub open spec fn parse_int(s: Seq<u8>) -> Option<int> {
    let digits = s.skip(sign_len(s));
    if digits.len() == 0 || !all_digits(digits) {
        None
    } else if sign_len(s) == 1 && s[0] == 0x2du8 {
        Some(-(digits_value(digits) as int))
    } else {
        Some(digits_value(digits) as int)
    }
}

proof fn lemma_digits_value_bound(s: Seq<u8>)
    requires
        forall|k: int| 0 <= k < s.len() ==> is_digit_byte(#[trigger] s[k]),
        s.len() <= 4,
    ensures
        digits_value(s) <= 9999,
    decreases s.len(),
{
    if s.len() > 0 {
        let t = s.drop_last();
        assert forall|k: int| 0 <= k < t.len() implies is_digit_byte(#[trigger] t[k]) by {
            assert(t[k] == s[k]);
        }
        lemma_digits_value_bound(t);
        assert(is_digit_byte(s[s.len() - 1]));
        if s.len() == 1 {
            assert(t.len() == 0);
        } else if s.len() == 2 {
            lemma_digits_small(t, 1);
        } else if s.len() == 3 {
            lemma_digits_small(t, 2);
        } else {
            lemma_digits_small(t, 3);
        }
    }
}

proof fn lemma_digits_small(s: Seq<u8>, n: nat)
    requires
        forall|k: int| 0 <= k < s.len() ==> is_digit_byte(#[trigger] s[k]),
        s.len() == n,
        n <= 3,
    ensures
        n == 0 ==> digits_value(s) == 0,
        n == 1 ==> digits_value(s) <= 9,
        n == 2 ==> digits_value(s) <= 99,
        n == 3 ==> digits_value(s) <= 999,
    decreases n,
{
    if n > 0 {
        let t = s.drop_last();
        assert forall|k: int| 0 <= k < t.len() implies is_digit_byte(#[trigger] t[k]) by {
            assert(t[k] == s[k]);
        }
        lemma_digits_small(t, (n - 1) as nat);
        assert(is_digit_byte(s[s.len() - 1]));
    }
}

/// Parses `b[lo..hi]` (at most 4 bytes) as `i64::from_str` would.
fn parse_field(b: &[u8], lo: usize, hi: usize) -> (r: Option<i64>)
    requires
        lo <= hi <= b@.len(),
        hi - lo <= 4,
    ensures
        match r {
            Some(v) => parse_int(b@.subrange(lo as int, hi as int)) == Some(v as int),
            None => parse_int(b@.subrange(lo as int, hi as int)) is None,
        },
        r matches Some(v) ==> -9999 <= v <= 9999,
{
    let ghost s = b@.subrange(lo as int, hi as int);
    if lo == hi {
        return None;
    }
    let neg = b[lo] == 0x2d;
    let signed = b[lo] == 0x2b || b[lo] == 0x2d;
    assert(s[0] == b@[lo as int]);
    let start = if signed { lo + 1 } else { lo };
    let ghost digits = s.skip(sign_len(s));
    assert(digits =~= b@.subrange(start as int, hi as int));
    if start == hi {
        assert(digits.len() == 0);
        return None;
    }
    let mut v: i64 = 0;
    let mut k = start;
    while k < hi
        invariant
            lo <= start <= k <= hi <= b@.len(),
            hi - start <= 4,
            digits == b@.subrange(start as int, hi as int),
            s == b@.subrange(lo as int, hi as int),
            digits == s.skip(sign_len(s)),
            neg == (s.len() > 0 && s[0] == 0x2du8),
            forall|m: int| 0 <= m < k - start ==> is_digit_byte(#[trigger] digits[m]),
            v as int == digits_value(digits.take(k - start)),
            0 <= v <= 9999,
        decreases hi - k,
    {
        let c = b[k];
        assert(digits[k - start] == c);
        if !(c >= 0x30 && c <= 0x39) {
            assert(!is_digit_byte(digits[k - start]));
            assert(!all_digits(digits));
            return None;
        }
        proof {
            let pre = digits.take(k - start + 1);
            assert(pre.drop_last() =~= digits.take(k - start));
            assert forall|m: int| 0 <= m < pre.len() implies is_digit_byte(#[trigger] pre[m]) by {
                assert(pre[m] == digits[m]);
            }
            lemma_digits_value_bound(pre);
        }
        v = v * 10 + (c - 0x30) as i64;
        k += 1;
    }
    assert(digits.take(k - start) =~= digits);
    assert(all_digits(digits));
    if neg {
        Some(-v)
    } else {
        Some(v)
    }
}

/// `y` is a leap year in the proleptic Gregorian calendar.
pub open spec fn is_leap(y: int) -> bool {
    (y % 4 == 0 && y % 100 != 0) || y % 400 == 0
}

fn divisible(y: i64, k: i64) -> (r: bool)
    requires
        k > 0,
        y > i64::MIN,
    ensures
        r == (y as int % k as int == 0),
{
    if y >= 0 {
        y % k == 0
    } else {
        let m = -y;
        proof {
            let q = m as int / k as int;
            let rr = m as int % k as int;
            vstd::arithmetic::div_mod::lemma_fundamental_div_mod(m as int, k as int);
            assert(m as int == k * q + rr);
            assert(0 <= rr < k);
            if rr == 0 {
                assert(y as int == (-q) * k) by (nonlinear_arith)
                    requires
                        m as int == k * q + rr,
                        rr == 0,
                        y as int == -(m as int);
                vstd::arithmetic::div_mod::lemma_mod_multiples_basic(-q, k as int);
            } else {
                assert(y as int == (-q - 1) * k + (k - rr)) by (nonlinear_arith)
                    requires
                        m as int == k * q + rr,
                        y as int == -(m as int);
                vstd::arithmetic::div_mod::lemma_fundamental_div_mod_converse(
                    y as int,
                    k as int,
                    -q - 1,
                    k - rr,
                );
            }
        }
        m % k == 0
    }
}

fn is_leap_year(y: i64) -> (r: bool)
    requires
        y > i64::MIN,
    ensures
        r == is_leap(y as int),
{
    (divisible(y, 4) && !divisible(y, 100)) || divisible(y, 400)
}

/// Days in month `m` (1-based) of a non-leap year.
pub open spec fn month_days(m: int) -> int {
    if m == 2 {
        28
    } else if m == 4 || m == 6 || m == 9 || m == 11 {
        30
    } else {
        31
    }
}

/// Days from 1970-01-01 to January 1 of `year` (zero for years up to 1970).
pub open spec fn days_before_year(year: int) -> int
    decreases year - 1970,
{
    if year <= 1970 {
        0
    } else {
        days_before_year(year - 1) + if is_leap(year - 1) { 366int } else { 365int }
    }
}

/// Days in the months before `month` of `year` (zero for months up to January).
pub open spec fn days_before_month(year: int, month: int) -> int
    decreases month,
{
    if month <= 1 {
        0
    } else {
        days_before_month(year, month - 1) + month_days(month - 1) + if month - 1 == 2 && is_leap(year) {
            1int
        } else {
            0int
        }
    }
}

/// Seconds since the epoch of the given UTC date and time.
pub open spec fn utc_epoch(year: int, month: int, day: int, hour: int, min: int, sec: int) -> int {
    (days_before_year(year) + days_before_month(year, month) + day - 1) * 86400 + hour * 3600 + min
        * 60 + sec
}

proof fn lemma_days_before_year_bound(year: int)
    ensures
        0 <= days_before_year(year) <= 366 * (if year > 1970 { year - 1970 } else { 0 }),
    decreases year - 1970,
{
    if year > 1970 {
        lemma_days_before_year_bound(year - 1);
    }
}

proof fn lemma_days_before_month_bound(year: int, month: int)
    requires
        month <= 13,
    ensures
        0 <= days_before_month(year, month) <= 31 * (if month > 1 { month - 1 } else { 0 }),
    decreases month,
{
    if month > 1 {
        lemma_days_before_month_bound(year, month - 1);
    }
}

/// Convert a UTC date/time to a Unix epoch timestamp.
fn utc_to_epoch(year: i64, month: i64, day: i64, hour: i64, min: i64, sec: i64) -> (r: i64)
    requires
        -9999 <= year <= 9999,
        -9999 <= month <= 13,
        -9999 <= day <= 9999,
        -9999 <= hour <= 9999,
        -9999 <= min <= 9999,
        -9999 <= sec <= 9999,
    ensures
        r == utc_epoch(year as int, month as int, day as int, hour as int, min as int, sec as int),
        -1099511627776 <= r <= 1099511627776,
{
    let mut days: i64 = 0;
    let mut y: i64 = 1970;
    proof {
        lemma_days_before_year_bound(year as int);
    }
    while y < year
        invariant
            1970 <= y,
            y <= year || year < 1970,
            year < 1970 ==> y == 1970,
            year <= 9999,
            days as int == days_before_year(y as int),
            0 <= days <= 366 * (y - 1970),
        decreases year - y,
    {
        if is_leap_year(y) {
            days += 366;
        } else {
            days += 365;
        }
        y += 1;
    }
    let mut m: i64 = 1;
    let ghost base = days as int;
    while m < month
        invariant
            1 <= m,
            m <= month || month < 1,
            month < 1 ==> m == 1,
            m <= 13,
            month <= 13,
            -9999 <= year <= 9999,
            days as int == base + days_before_month(year as int, m as int),
            0 <= base <= 366 * 8029,
            0 <= days_before_month(year as int, m as int) <= 31 * (m - 1),
        decreases month - m,
    {
        let dim: i64 = if m == 2 { 28 } else if m == 4 || m == 6 || m == 9 || m == 11 { 30 } else { 31 };
        days += dim;
        if m == 2 && is_leap_year(year) {
            days += 1;
        }
        m += 1;
    }
    days += day - 1;
    days * 86400 + hour * 3600 + min * 60 + sec
}

/// The six numeric fields of a timestamp: year, month, day, hour, minute, second, read
/// from fixed byte positions (`YYYY-MM-DDTHH:MM:SS`) of its trimmed text.
pub open spec fn timestamp_fields(iso: Seq<char>) -> Option<(int, int, int, int, int, int)> {
    let b = vstd::utf8::encode_utf8(trimmed(iso));
    if b.len() < 19 {
        None
    } else {
        match (
            parse_int(b.subrange(0, 4)),
            parse_int(b.subrange(5, 7)),
            parse_int(b.subrange(8, 10)),
            parse_int(b.subrange(11, 13)),
            parse_int(b.subrange(14, 16)),
            parse_int(b.subrange(17, 19)),
        ) {
            (Some(y), Some(mo), Some(d), Some(h), Some(mi), Some(s)) => Some((y, mo, d, h, mi, s)),
            _ => None,
        }
    }
}

/// The timestamp can be converted without an out-of-range month (a month above 13
/// would index past the table of month lengths).
pub open spec fn timestamp_month_in_range(iso: Seq<char>) -> bool {
    match timestamp_fields(iso) {
        Some((y, mo, d, h, mi, s)) => mo <= 13,
        None => true,
    }
}

/// Seconds from the timestamp `iso` to `now`.
pub open spec fn seconds_from(iso: Seq<char>, now: int) -> Option<int> {
    match timestamp_fields(iso) {
        Some((y, mo, d, h, mi, s)) => Some(now - utc_epoch(y, mo, d, h, mi, s)),
        None => None,
    }
}

/// Parse an ISO 8601 timestamp and return the seconds from it to `now`.
/// Returns `None` if the timestamp can't be parsed.
pub fn seconds_ago_at(iso_ts: &str, now: i64) -> (r: Option<i64>)
    requires
        timestamp_month_in_range(iso_ts@),
        -4611686018427387904 <= now <= 4611686018427387904,
    ensures
        match r {
            Some(v) => seconds_from(iso_ts@, now as int) == Some(v as int),
            None => seconds_from(iso_ts@, now as int) is None,
        },
{
    let chars = crate::strutil::str_chars(iso_ts);
    let t = trim_chars(&chars);
    let ts = crate::strutil::string_from_chars(t.as_slice());
    let b = ts.as_str().as_bytes();
    if b.len() < 19 {
        return None;
    }
    let year = parse_field(b, 0, 4);
    let month = parse_field(b, 5, 7);
    let day = parse_field(b, 8, 10);
    let hour = parse_field(b, 11, 13);
    let min = parse_field(b, 14, 16);
    let sec = parse_field(b, 17, 19);
    match (year, month, day, hour, min, sec) {
        (Some(y), Some(mo), Some(d), Some(h), Some(mi), Some(s)) => {
            proof {
                lemma_days_before_year_bound(y as int);
                lemma_days_before_month_bound(y as int, mo as int);
            }
            let e = utc_to_epoch(y, mo, d, h, mi, s);
            Some(now - e)
        },
        _ => None,
    }
}

/// The largest clock reading, in seconds since the epoch, that ages are taken from (some
/// 146 billion years): a later reading counts as this one, so that an age always fits.
pub const CLOCK_CEILING: u64 = 4611686018427387904;

/// `iso`'s age could read `age` seconds at some clock reading the ages are taken from.
pub open spec fn age_at_some_clock(iso: Seq<char>, age: int) -> bool {
    exists|now: int| 0 <= now <= CLOCK_CEILING && #[trigger] seconds_from(iso, now) == Some(age)
}

/// Parse an ISO 8601 timestamp and return seconds since that time, by the system clock.
/// Returns `None` exactly when the timestamp can't be parsed; the age is the one at the
/// clock's reading (a reading beyond CLOCK_CEILING counts as CLOCK_CEILING).
pub fn seconds_ago(iso_ts: &str) -> (r: Option<i64>)
    requires
        timestamp_month_in_range(iso_ts@),
    ensures
        r is Some <==> timestamp_fields(iso_ts@) is Some,
        r is Some ==> age_at_some_clock(iso_ts@, r->0 as int),
{
    let clock = now_epoch();
    let now = if clock > CLOCK_CEILING { CLOCK_CEILING } else { clock };
    let r = seconds_ago_at(iso_ts, now as i64);
    proof {
        if r is Some {
            assert(seconds_from(iso_ts@, now as int) == Some(r->0 as int));
        }
    }
    r
}

/// The human-readable age that `relative_time` shows for `secs` seconds (`None`: unparsable).
pub open spec fn relative_text(secs: Option<int>) -> Seq<char> {
    match secs {
        None => seq!['?'],
        Some(s) => if s < 0 {
            "future"@
        } else if s / 60 < 1 {
            "just now"@
        } else if s / 3600 < 1 {
            decimal((s / 60) as nat) + seq!['m']
        } else if s / 86400 < 1 {
            decimal((s / 3600) as nat) + seq!['h']
        } else if s / 86400 < 30 {
            decimal((s / 86400) as nat) + seq!['d']
        } else if (s / 86400) / 30 < 12 {
            decimal(((s / 86400) / 30) as nat) + seq!['m', 'o']
        } else {
            decimal(((s / 86400) / 365) as nat) + seq!['y']
        },
    }
}

/// Format an age in seconds into a human-readable relative time string.
pub fn relative_time_of(secs: Option<i64>) -> (r: String)
    ensures
        r@ == relative_text(match secs { Some(s) => Some(s as int), None => None }),
{
    let secs = match secs {
        None => {
            let mut q = String::new();
            push_char(&mut q, '?');
            return q;
        },
        Some(s) => s,
    };
    if secs < 0 {
        return "future".to_owned();
    }
    let minutes = secs / 60;
    let hours = secs / 3600;
    let days = secs / 86400;
    let months = days / 30;
    let mut out = String::new();
    if minutes < 1 {
        return "just now".to_owned();
    } else if hours < 1 {
        push_padded_decimal(&mut out, minutes as u64, 0);
        push_char(&mut out, 'm');
    } else if days < 1 {
        push_padded_decimal(&mut out, hours as u64, 0);
        push_char(&mut out, 'h');
    } else if days < 30 {
        push_padded_decimal(&mut out, days as u64, 0);
        push_char(&mut out, 'd');
    } else if months < 12 {
        push_padded_decimal(&mut out, months as u64, 0);
        push_char(&mut out, 'm');
        push_char(&mut out, 'o');
    } else {
        push_padded_decimal(&mut out, (days / 365) as u64, 0);
        push_char(&mut out, 'y');
    }
    assert(out@ =~= relative_text(Some(secs as int)));
    out
}

/// Format an ISO timestamp into a human-readable relative time string, by the system clock.
pub fn relative_time(iso_ts: &str) -> (r: String)
    requires
        timestamp_month_in_range(iso_ts@),
    ensures
        timestamp_fields(iso_ts@) is None ==> r@ == relative_text(None),
        timestamp_fields(iso_ts@) is Some ==> exists|now: int|
            0 <= now <= CLOCK_CEILING && r@ == relative_text(#[trigger] seconds_from(iso_ts@, now)),
{
    let secs = seconds_ago(iso_ts);
    let r = relative_time_of(secs);
    proof {
        if secs is Some {
            let now = choose|now: int| 0 <= now <= CLOCK_CEILING && #[trigger] seconds_from(iso_ts@, now) == Some(secs->0 as int);
            assert(r@ == relative_text(seconds_from(iso_ts@, now)));
        }
    }
    r
}

/// Whether an age in seconds (`None`: unparsable) is more than `threshold_secs` old.
pub fn is_stale_age(secs: Option<i64>, threshold_secs: u64) -> (r: bool)
    ensures
        r == match secs {
            Some(s) => s as int > (threshold_secs as i64) as int,
            None => false,
        },
{
    match secs {
        Some(s) => s > threshold_secs as i64,
        None => false,
    }
}

/// Check if a timestamp is stale (more than `threshold_secs` seconds old), by the system
/// clock: never for an unparsable timestamp; otherwise by its age at the clock's reading
/// (see `seconds_ago`).
pub fn is_stale(iso_ts: &str, threshold_secs: u64) -> (r: bool)
    requires
        timestamp_month_in_range(iso_ts@),
    ensures
        timestamp_fields(iso_ts@) is None ==> !r,
        r ==> exists|a: int| age_at_some_clock(iso_ts@, a) && a > (threshold_secs as i64) as int,
        timestamp_fields(iso_ts@) is Some && !r ==> exists|a: int| age_at_some_clock(iso_ts@, a) && a <= (threshold_secs as i64) as int,
{
    let secs = seconds_ago(iso_ts);
    let r = is_stale_age(secs, threshold_secs);
    proof {
        if secs is Some {
            assert(age_at_some_clock(iso_ts@, secs->0 as int));
        }
    }
    r
}

// ---------------------------------------------------------------------------
// The civil date of a day, read back
// ---------------------------------------------------------------------------

proof fn lemma_div_step(x: int, k: int)
    requires
        k > 0,
    ensures
        x / k - (x - 1) / k == if x % k == 0 { 1int } else { 0int },
{
    lemma_fundamental_div_mod(x - 1, k);
    let q = (x - 1) / k;
    let r = (x - 1) % k;
    assert(x - 1 == q * k + r) by (nonlinear_arith)
        requires
            x - 1 == k * q + r,
    ;
    assert(0 <= r < k);
    if r == k - 1 {
        assert(x == (q + 1) * k + 0) by (nonlinear_arith)
            requires
                x - 1 == q * k + r,
                r == k - 1,
        ;
        lemma_fundamental_div_mod_converse(x, k, q + 1, 0);
    } else {
        lemma_fundamental_div_mod_converse(x, k, q, r + 1);
    }
}

/// Leap days counted up to year `x`: `x/4 - x/100 + x/400`.
pub open spec fn leaps(x: int) -> int {
    x / 4 - x / 100 + x / 400
}

proof fn lemma_leaps_step(y: int)
    ensures
        leaps(y) - leaps(y - 1) == if is_leap(y) { 1int } else { 0int },
{
    lemma_div_step(y, 4);
    lemma_div_step(y, 100);
    lemma_div_step(y, 400);
    if y % 400 == 0 {
        lemma_fundamental_div_mod(y, 400);
        lemma_fundamental_div_mod_converse(y, 100, 4 * (y / 400), 0);
        lemma_fundamental_div_mod_converse(y, 4, 100 * (y / 400), 0);
    } else if y % 100 == 0 {
        lemma_fundamental_div_mod(y, 100);
        lemma_fundamental_div_mod_converse(y, 4, 25 * (y / 100), 0);
    }
}

proof fn lemma_days_before_year_closed(y: int)
    requires
        y >= 1970,
    ensures
        days_before_year(y) == 365 * (y - 1970) + leaps(y - 1) - 477,
    decreases y - 1970,
{
    if y > 1970 {
        lemma_days_before_year_closed(y - 1);
        lemma_leaps_step(y - 1);
    } else {
        assert(leaps(1969) == 477);
    }
}

proof fn lemma_days_before_month_table(y: int, m: int)
    requires
        1 <= m <= 12,
    ensures
        m == 1 ==> days_before_month(y, m) == 0,
        m == 2 ==> days_before_month(y, m) == 31,
        m >= 3 ==> days_before_month(y, m) == 59 + (if is_leap(y) { 1int } else { 0int }) + (153 * (m - 3) + 2) / 5,
{
    reveal_with_fuel(days_before_month, 13);
}

/// Law: the civil date that `epoch_to_ymd` gives for a day is a real date (its month is
/// one of twelve, its day a day of that month, February having 29 days in leap years only),
/// and it is read back as that day by the date arithmetic of the timestamp parser
/// (`utc_epoch`); so a time of day on that date reads back as the seconds it was made from.
pub proof fn lemma_civil_date_round_trip(days: int, secs_of_day: int)
    requires
        days >= 0,
    ensures
        ({
            let (y, m, d) = civil_from_days(days);
            &&& 1 <= m <= 12
            &&& 1 <= d <= days_in_month(y, m)
            &&& utc_epoch(y, m, d, secs_of_day / 3600, (secs_of_day % 3600) / 60, secs_of_day % 60) == days * 86400
                + (secs_of_day / 3600) * 3600 + ((secs_of_day % 3600) / 60) * 60 + secs_of_day % 60
            &&& utc_epoch(y, m, d, 0, 0, 0) == days * 86400
        }),
{
    lemma_day_fits_month(days);
    let z = days + 719468;
    let era = z / 146097;
    let doe = z - era * 146097;
    lemma_fundamental_div_mod(z, 146097);
    assert(0 <= doe < 146097);
    assert(era >= 4);
    let yoe = (doe - doe / 1460 + doe / 36524 - doe / 146096) / 365;
    lemma_year_of_era(doe as u32);
    assert(yoe == ((doe as u32 - doe as u32 / 1460 + doe as u32 / 36524 - doe as u32 / 146096) / 365) as int);
    let yy = yoe + era * 400;
    let doy = doe - (365 * yoe + yoe / 4 - yoe / 100);
    lemma_day_of_year(doy as u32);
    let mp = (5 * doy + 2) / 153;
    let d = doy - (153 * mp + 2) / 5 + 1;
    let m = if mp < 10 { mp + 3 } else { mp - 9 };
    let y2 = if m <= 2 { yy + 1 } else { yy };
    assert(civil_from_days(days) == (y2, m, d));
    // the March-based year: 365 * yy + leaps(yy) in terms of era and year of era
    lemma_fundamental_div_mod(yoe, 4);
    lemma_fundamental_div_mod(yoe, 100);
    lemma_fundamental_div_mod_converse(yy, 4, 100 * era + yoe / 4, yoe % 4);
    lemma_fundamental_div_mod_converse(yy, 100, 4 * era + yoe / 100, yoe % 100);
    lemma_fundamental_div_mod_converse(yy, 400, era, yoe);
    assert(days == 365 * yy + leaps(yy) + doy - 719468);
    // how early the date can be: no earlier than January 1970
    let (ye, de, dy) = (yoe as u32, doy as u32, mp as u32);
    assert(yoe <= 368 ==> 365 * yoe + yoe / 4 - yoe / 100 + doy < 135080) by {
        assert(ye <= 368 && de <= 365 ==> 365 * ye + ye / 4 - ye / 100 + de < 135080) by (bit_vector);
    }
    assert(mp <= 9 ==> doy <= 305) by {
        assert(dy == (5 * de + 2) / 153 && dy <= 9 && de <= 365 ==> de <= 305) by (bit_vector);
    }
    assert(mp >= 10 ==> doy >= 306) by {
        assert(dy == (5 * de + 2) / 153 && dy >= 10 && de <= 365 ==> de >= 306) by (bit_vector);
    }
    lemma_leaps_step(yy);
    if m >= 3 {
        assert(yy >= 1970);
        lemma_days_before_year_closed(yy);
        lemma_days_before_month_table(yy, m);
        assert(m - 3 == mp);
    } else {
        assert(yy + 1 >= 1970);
        lemma_days_before_year_closed(yy + 1);
        lemma_days_before_month_table(yy + 1, m);
        assert((153 * 10 + 2) / 5 == 306);
        assert((153 * 11 + 2) / 5 == 337);
    }
}

// ---------------------------------------------------------------------------
// A timestamp, read back
// ---------------------------------------------------------------------------

/// Digits read as bytes (`char as u8`) have the value they have as characters.
proof fn lemma_digit_bytes(s: Seq<char>, b: Seq<u8>)
    requires
        b.len() == s.len(),
        forall|i: int| 0 <= i < s.len() ==> crate::textscan::is_digit(#[trigger] s[i]),
        forall|i: int| 0 <= i < s.len() ==> #[trigger] b[i] == s[i] as u8,
    ensures
        all_digits(b),
        digits_value(b) == crate::textscan::digits_value(s),
    decreases s.len(),
{
    if s.len() > 0 {
        lemma_digit_bytes(s.drop_last(), b.drop_last());
        let c = s.last();
        assert(b.last() == c as u8);
        assert('0' <= c <= '9');
        assert((c as u8) as int == c as u32 as int);
    }
    assert forall|k: int| 0 <= k < b.len() implies is_digit_byte(#[trigger] b[k]) by {
        assert(b[k] == s[k] as u8);
        assert('0' <= s[k] <= '9');
    }
}

/// Leading zeros do not change a run of digits' value.
proof fn lemma_leading_zeros(k: nat, s: Seq<char>)
    ensures
        crate::textscan::digits_value(Seq::new(k, |i: int| '0') + s) == crate::textscan::digits_value(s),
    decreases s.len(),
{
    let z = Seq::new(k, |i: int| '0');
    if s.len() == 0 {
        assert(z + s =~= z);
        lemma_zeros_value(k);
    } else {
        lemma_leading_zeros(k, s.drop_last());
        assert((z + s).drop_last() =~= z + s.drop_last());
        assert((z + s).last() == s.last());
    }
}

proof fn lemma_zeros_value(k: nat)
    ensures
        crate::textscan::digits_value(Seq::new(k, |i: int| '0')) == 0,
    decreases k,
{
    if k > 0 {
        lemma_zeros_value((k - 1) as nat);
        assert(Seq::new(k, |i: int| '0').drop_last() =~= Seq::new((k - 1) as nat, |i: int| '0'));
    }
}

proof fn lemma_decimal_len(n: nat, bound: nat, w: nat)
    requires
        n < bound,
        w >= 1,
        w == 1 ==> bound == 10,
        w == 2 ==> bound == 100,
        w == 3 ==> bound == 1000,
        w == 4 ==> bound == 10000,
        w <= 4,
    ensures
        decimal(n).len() <= w,
    decreases w,
{
    if n >= 10 {
        lemma_decimal_len(n / 10, bound / 10, (w - 1) as nat);
    }
}

/// The zero-padded decimal form of a number, `w` (2 or 4) wide, reads back as the number.
proof fn lemma_padded_reads_back(n: nat, w: nat)
    requires
        w == 2 || w == 4,
        w == 2 ==> n < 100,
        w == 4 ==> n < 10000,
    ensures
        zero_padded(decimal(n), w).len() == w,
        forall|i: int| 0 <= i < w ==> crate::textscan::is_digit(#[trigger] zero_padded(decimal(n), w)[i]),
        crate::textscan::digits_value(zero_padded(decimal(n), w)) == n,
{
    lemma_decimal_reads_back(n);
    if w == 2 {
        lemma_decimal_len(n, 100, 2);
    } else {
        lemma_decimal_len(n, 10000, 4);
    }
    let d = decimal(n);
    let k = (w - d.len()) as nat;
    let p = zero_padded(d, w);
    if d.len() < w {
        assert(p == Seq::new(k, |i: int| '0') + d);
        lemma_leading_zeros(k, d);
        assert forall|i: int| 0 <= i < w implies crate::textscan::is_digit(#[trigger] p[i]) by {
            if i >= k {
                assert(p[i] == d[i - k]);
            }
        }
    } else {
        assert(p == d);
    }
}

proof fn lemma_days_before_year_from_10000(y: int)
    requires
        y >= 10000,
    ensures
        days_before_year(y) >= 2932897,
    decreases y - 10000,
{
    if y > 10000 {
        lemma_days_before_year_from_10000(y - 1);
    } else {
        lemma_days_before_year_closed(10000);
        assert(leaps(9999) == 2424);
    }
}

proof fn lemma_days_before_month_nonneg(y: int, m: int)
    ensures
        days_before_month(y, m) >= 0,
    decreases m,
{
    if m > 1 {
        lemma_days_before_month_nonneg(y, m - 1);
    }
}

proof fn lemma_end_of_year_of_era(doe: u32)
    requires
        doe < 146097,
    ensures
        ({
            let yoe = (doe - doe / 1460 + doe / 36524 - doe / 146096) / 365;
            let doy = doe - (365 * yoe + yoe / 4 - yoe / 100);
            doy == 365 ==> (yoe + 1) % 4 == 0 && ((yoe + 1) % 100 != 0 || yoe + 1 == 400)
        }),
{
    assert(({
        let yoe = (doe - doe / 1460 + doe / 36524 - doe / 146096) / 365;
        let doy = doe - (365 * yoe + yoe / 4 - yoe / 100);
        doy == 365 ==> (yoe + 1) % 4 == 0 && ((yoe + 1) % 100 != 0 || yoe + 1 == 400)
    })) by (bit_vector)
        requires
            doe < 146097u32,
    ;
}

proof fn lemma_day_in_month_of_march_year(doy: u32)
    requires
        doy <= 365,
    ensures
        ({
            let mp = (5 * doy + 2) / 153;
            let d = doy - (153 * mp + 2) / 5 + 1;
            &&& (mp == 1 || mp == 3 || mp == 6 || mp == 8) ==> d <= 30
            &&& mp == 11 ==> d <= 29
            &&& (mp == 11 && d == 29) ==> doy == 365
        }),
{
    assert(({
        let mp = (5 * doy + 2) / 153;
        let d = doy - (153 * mp + 2) / 5 + 1;
        &&& (mp == 1 || mp == 3 || mp == 6 || mp == 8) ==> d <= 30
        &&& mp == 11 ==> d <= 29
        &&& (mp == 11 && d == 29) ==> doy == 365
    })) by (bit_vector)
        requires
            doy <= 365u32,
    ;
}

/// The days in month `m` of year `y`.
pub open spec fn days_in_month(y: int, m: int) -> int {
    month_days(m) + if m == 2 && is_leap(y) { 1int } else { 0int }
}

/// The day of the civil date of a day is a day of its month.
proof fn lemma_day_fits_month(days: int)
    requires
        days >= 0,
    ensures
        ({
            let (y, m, d) = civil_from_days(days);
            1 <= d <= days_in_month(y, m)
        }),
{
    let z = days + 719468;
    let era = z / 146097;
    let doe = z - era * 146097;
    lemma_fundamental_div_mod(z, 146097);
    lemma_year_of_era(doe as u32);
    lemma_end_of_year_of_era(doe as u32);
    let yoe = (doe - doe / 1460 + doe / 36524 - doe / 146096) / 365;
    assert(yoe == ((doe as u32 - doe as u32 / 1460 + doe as u32 / 36524 - doe as u32 / 146096) / 365) as int);
    let doy = doe - (365 * yoe + yoe / 4 - yoe / 100);
    lemma_day_of_year(doy as u32);
    lemma_day_in_month_of_march_year(doy as u32);
    let mp = (5 * doy + 2) / 153;
    let d = doy - (153 * mp + 2) / 5 + 1;
    let m = if mp < 10 { mp + 3 } else { mp - 9 };
    let yy = yoe + era * 400;
    let (y2, m2, d2) = civil_from_days(days);
    assert(m2 == m && d2 == d);
    if mp == 11 && d == 29 {
        // the last day of a March-based year that ends a leap February
        assert(y2 == yy + 1);
        let k = yoe + 1;
        assert(k % 4 == 0 && (k % 100 != 0 || k == 400));
        lemma_fundamental_div_mod(k, 4);
        lemma_fundamental_div_mod_converse(y2, 4, 100 * era + k / 4, 0);
        if k == 400 {
            lemma_fundamental_div_mod_converse(y2, 400, era + 1, 0);
        } else {
            lemma_fundamental_div_mod(k, 100);
            lemma_fundamental_div_mod_converse(y2, 100, 4 * era + k / 100, k % 100);
        }
        assert(is_leap(y2));
    }
}

/// The civil date of a day up to the end of year 9999 has a four-digit year, a month and
/// a day of month.
proof fn lemma_civil_in_range(days: int)
    requires
        0 <= days <= 2932896,
    ensures
        ({
            let (y, m, d) = civil_from_days(days);
            1970 <= y <= 9999 && 1 <= m <= 12 && 1 <= d <= 31
        }),
{
    let (y, m, d) = civil_from_days(days);
    lemma_civil_date_round_trip(days, 0);
    let z = days + 719468;
    let era = z / 146097;
    let doe = z - era * 146097;
    lemma_fundamental_div_mod(z, 146097);
    lemma_year_of_era(doe as u32);
    let yoe = (doe - doe / 1460 + doe / 36524 - doe / 146096) / 365;
    assert(yoe == ((doe as u32 - doe as u32 / 1460 + doe as u32 / 36524 - doe as u32 / 146096) / 365) as int);
    let doy = doe - (365 * yoe + yoe / 4 - yoe / 100);
    lemma_day_of_year(doy as u32);
    if y < 1970 {
        assert(days_before_year(y) == 0);
        lemma_days_before_month_nonneg(y, m);
    }
    if y >= 10000 {
        lemma_days_before_year_from_10000(y);
        lemma_days_before_month_nonneg(y, m);
    }
}

/// The text of a timestamp: `YYYY-MM-DDTHH:MM:SSZ`, each field zero-padded.
pub open spec fn timestamp_text(y: nat, m: nat, d: nat, h: nat, mi: nat, s: nat) -> Seq<char> {
    zero_padded(decimal(y), 4) + seq!['-'] + zero_padded(decimal(m), 2) + seq!['-'] + zero_padded(decimal(d), 2)
        + seq!['T'] + zero_padded(decimal(h), 2) + seq![':'] + zero_padded(decimal(mi), 2) + seq![':']
        + zero_padded(decimal(s), 2) + seq!['Z']
}

/// A field of a timestamp's bytes that holds a zero-padded number reads as that number.
proof fn lemma_field_reads(b: Seq<u8>, lo: int, f: Seq<char>, n: nat)
    requires
        0 <= lo,
        lo + f.len() <= b.len(),
        f.len() > 0,
        forall|i: int| 0 <= i < f.len() ==> crate::textscan::is_digit(#[trigger] f[i]),
        crate::textscan::digits_value(f) == n,
        forall|i: int| 0 <= i < f.len() ==> #[trigger] b[lo + i] == f[i] as u8,
    ensures
        parse_int(b.subrange(lo, lo + f.len())) == Some(n as int),
{
    let sub = b.subrange(lo, lo + f.len());
    assert forall|i: int| 0 <= i < f.len() implies #[trigger] sub[i] == f[i] as u8 by {
        assert(sub[i] == b[lo + i]);
    }
    lemma_digit_bytes(f, sub);
    assert(is_digit_byte(sub[0]));
    assert(sign_len(sub) == 0);
    assert(sub.skip(0) =~= sub);
}

/// The fields of a timestamp's text read back as the fields.
#[verifier::rlimit(50)]
#[verifier::spinoff_prover]
proof fn lemma_timestamp_text_reads(y: nat, m: nat, d: nat, h: nat, mi: nat, s: nat)
    requires
        y < 10000,
        m < 100,
        d < 100,
        h < 100,
        mi < 100,
        s < 100,
    ensures
        timestamp_fields(timestamp_text(y, m, d, h, mi, s)) == Some((y as int, m as int, d as int, h as int, mi as int, s as int)),
{
    let ys = zero_padded(decimal(y), 4);
    let ms = zero_padded(decimal(m), 2);
    let ds = zero_padded(decimal(d), 2);
    let hs = zero_padded(decimal(h), 2);
    let mis = zero_padded(decimal(mi), 2);
    let ss = zero_padded(decimal(s), 2);
    lemma_padded_reads_back(y, 4);
    lemma_padded_reads_back(m, 2);
    lemma_padded_reads_back(d, 2);
    lemma_padded_reads_back(h, 2);
    lemma_padded_reads_back(mi, 2);
    lemma_padded_reads_back(s, 2);
    let iso = timestamp_text(y, m, d, h, mi, s);
    assert(iso.len() == 20);
    assert(iso[0] == ys[0]);
    assert(iso[19] == 'Z');
    assert forall|i: int| 0 <= i < iso.len() implies '\0' <= #[trigger] iso[i] <= '\u{7f}' by {
        if i < 4 {
            assert(iso[i] == ys[i]);
        } else if 5 <= i < 7 {
            assert(iso[i] == ms[i - 5]);
        } else if 8 <= i < 10 {
            assert(iso[i] == ds[i - 8]);
        } else if 11 <= i < 13 {
            assert(iso[i] == hs[i - 11]);
        } else if 14 <= i < 16 {
            assert(iso[i] == mis[i - 14]);
        } else if 17 <= i < 19 {
            assert(iso[i] == ss[i - 17]);
        }
    }
    assert(vstd::utf8::is_ascii_chars(iso));
    assert(leading_ws(iso) == 0);
    assert(iso.last() == 'Z');
    assert(trailing_ws(iso) == 0);
    assert(trimmed(iso) =~= iso);
    vstd::utf8::is_ascii_chars_encode_utf8(iso);
    let b = vstd::utf8::encode_utf8(iso);
    assert(b.len() == 20);
    assert forall|i: int| 0 <= i < 4 implies #[trigger] b[0 + i] == ys[i] as u8 by { assert(iso[i] == ys[i]); }
    assert forall|i: int| 0 <= i < 2 implies #[trigger] b[5 + i] == ms[i] as u8 by { assert(iso[5 + i] == ms[i]); }
    assert forall|i: int| 0 <= i < 2 implies #[trigger] b[8 + i] == ds[i] as u8 by { assert(iso[8 + i] == ds[i]); }
    assert forall|i: int| 0 <= i < 2 implies #[trigger] b[11 + i] == hs[i] as u8 by { assert(iso[11 + i] == hs[i]); }
    assert forall|i: int| 0 <= i < 2 implies #[trigger] b[14 + i] == mis[i] as u8 by { assert(iso[14 + i] == mis[i]); }
    assert forall|i: int| 0 <= i < 2 implies #[trigger] b[17 + i] == ss[i] as u8 by { assert(iso[17 + i] == ss[i]); }
    lemma_field_reads(b, 0, ys, y);
    lemma_field_reads(b, 5, ms, m);
    lemma_field_reads(b, 8, ds, d);
    lemma_field_reads(b, 11, hs, h);
    lemma_field_reads(b, 14, mis, mi);
    lemma_field_reads(b, 17, ss, s);
}

/// The ISO text of a time is the timestamp text of its date and time of day.
proof fn lemma_iso_is_timestamp_text(secs: nat)
    ensures
        ({
            let (y, m, d) = civil_from_days((secs / 86400) as int);
            let t = secs % 86400;
            iso_of(secs) == timestamp_text(y as nat, m as nat, d as nat, t / 3600, (t % 3600) / 60, t % 60)
        }),
{
}

/// Law: the ISO text of a time up to the end of year 9999 reads back as that time: its age
/// at any `now` is `now` less the time.
#[verifier::rlimit(50)]
#[verifier::spinoff_prover]
pub proof fn lemma_iso_round_trip(secs: nat, now: int)
    requires
        secs <= 253402300799,
    ensures
        timestamp_month_in_range(iso_of(secs)),
        seconds_from(iso_of(secs), now) == Some(now - secs),
{
    let days = (secs / 86400) as int;
    let t = secs % 86400;
    let ti = t as int;
    let (y, m, d) = civil_from_days(days);
    let (h, mi, s) = (ti / 3600, (ti % 3600) / 60, ti % 60);
    lemma_civil_in_range(days);
    assert(0 <= h < 24 && 0 <= mi < 60 && 0 <= s < 60 && secs == days * 86400 + h * 3600 + mi * 60 + s) by {
        lemma_fundamental_div_mod(secs as int, 86400);
        lemma_fundamental_div_mod(ti, 3600);
        lemma_fundamental_div_mod(ti % 3600, 60);
    }
    let text = timestamp_text(y as nat, m as nat, d as nat, h as nat, mi as nat, s as nat);
    assert(iso_of(secs) == text) by {
        lemma_iso_is_timestamp_text(secs);
    }
    assert(timestamp_fields(text) == Some((y, m, d, h, mi, s))) by {
        lemma_timestamp_text_reads(y as nat, m as nat, d as nat, h as nat, mi as nat, s as nat);
    }
    assert(utc_epoch(y, m, d, h, mi, s) == secs) by {
        lemma_civil_date_round_trip(days, ti);
    }
}

} // verus!
