//! The collection schedule: how often a sync runs, read from a setting such as
//! `2h` or `15m`.

use vstd::prelude::*;
use crate::text::chars_of;

verus! {

/// `c` is one of the ASCII digits `0` to `9`.
pub open spec fn is_decimal_digit(c: char) -> bool {
    '0' <= c && c <= '9'
}

/// The value of an ASCII digit.
pub open spec fn digit_value(c: char) -> int {
    (c as int) - ('0' as int)
}

/// The value of a string of decimal digits, most significant first.
pub open spec fn decimal_value(s: Seq<char>) -> int
    decreases s.len(),
{
    if s.len() == 0 {
        0
    } else {
        decimal_value(s.drop_last()) * 10 + digit_value(s.last())
    }
}

/// `s` is one or more decimal digits.
pub open spec fn all_decimal_digits(s: Seq<char>) -> bool {
    s.len() > 0 && forall|i: int| 0 <= i < s.len() ==> is_decimal_digit(#[trigger] s[i])
}

/// The digits of an unsigned number: the text after one optional leading `+`.
pub open spec fn unsigned_digits(s: Seq<char>) -> Seq<char> {
    if s.len() > 0 && s[0] == '+' {
        s.drop_first()
    } else {
        s
    }
}

/// How `u64`'s `FromStr` reads `s`: an optional `+` and then one or more
/// decimal digits whose value fits in a `u64`; anything else is refused.
pub open spec fn spec_parse_u64(s: Seq<char>) -> Option<u64> {
    let d = unsigned_digits(s);
    if all_decimal_digits(d) && decimal_value(d) <= u64::MAX {
        Some(decimal_value(d) as u64)
    } else {
        None
    }
}

proof fn lemma_decimal_value_nonnegative(s: Seq<char>)
    requires
        forall|i: int| 0 <= i < s.len() ==> is_decimal_digit(#[trigger] s[i]),
    ensures
        decimal_value(s) >= 0,
    decreases s.len(),
{
    if s.len() > 0 {
        assert(is_decimal_digit(s[s.len() - 1]));
        lemma_decimal_value_nonnegative(s.drop_last());
    }
}

/// A string of digits is worth at least as much as any of its prefixes.
proof fn lemma_decimal_value_prefix(s: Seq<char>, k: int)
    requires
        0 <= k <= s.len(),
        forall|i: int| 0 <= i < s.len() ==> is_decimal_digit(#[trigger] s[i]),
    ensures
        decimal_value(s.take(k)) <= decimal_value(s),
    decreases s.len(),
{
    if k < s.len() {
        let t = s.drop_last();
        assert(t.take(k) =~= s.take(k));
        lemma_decimal_value_prefix(t, k);
        lemma_decimal_value_nonnegative(t);
        assert(is_decimal_digit(s[s.len() - 1]));
    } else {
        assert(s.take(k) =~= s);
    }
}

/// Reads an unsigned decimal number as `u64`'s `FromStr` does.
pub fn parse_u64_chars(s: &[char]) -> (parsed: Option<u64>)
    ensures
        parsed == spec_parse_u64(s@),
{
    let mut start: usize = 0;
    if s.len() > 0 && s[0] == '+' {
        start = 1;
    }
    let ghost d = unsigned_digits(s@);
    assert(d =~= s@.subrange(start as int, s@.len() as int));
    if start >= s.len() {
        return None;
    }
    let mut value: u64 = 0;
    let mut i: usize = start;
    while i < s.len()
        invariant
            start <= i <= s.len(),
            start < s.len(),
            d == s@.subrange(start as int, s@.len() as int),
            d == unsigned_digits(s@),
            forall|k: int| 0 <= k < i - start ==> is_decimal_digit(#[trigger] d[k]),
            value as int == decimal_value(d.take(i - start)),
        decreases s.len() - i,
    {
        let c = s[i];
        if !('0' <= c && c <= '9') {
            assert(d[i - start] == c);
            return None;
        }
        let digit: u64 = (c as u32 - '0' as u32) as u64;
        let ghost prefix = d.take(i - start);
        let ghost next = d.take(i - start + 1);
        assert(next.drop_last() =~= prefix);
        assert(next.last() == c);
        proof {
            assert forall|k: int| 0 <= k < i + 1 - start implies is_decimal_digit(#[trigger] d[k]) by {
                if k == i - start {
                    assert(d[k] == c);
                }
            }
        }
        match value.checked_mul(10) {
            None => {
                proof {
                    assert(decimal_value(next) > u64::MAX);
                    reject_after_prefix(d, i - start + 1);
                }
                return None;
            },
            Some(tens) => match tens.checked_add(digit) {
                None => {
                    proof {
                        assert(decimal_value(next) > u64::MAX);
                        reject_after_prefix(d, i - start + 1);
                    }
                    return None;
                },
                Some(v) => {
                    value = v;
                },
            },
        }
        i = i + 1;
    }
    assert(d.take(i - start) =~= d);
    Some(value)
}

/// Where a prefix of the digits already exceeds `u64::MAX`, the whole does
/// too, or a later character is not a digit.
proof fn reject_after_prefix(d: Seq<char>, k: int)
    requires
        0 <= k <= d.len(),
        forall|i: int| 0 <= i < k ==> is_decimal_digit(#[trigger] d[i]),
        decimal_value(d.take(k)) > u64::MAX,
    ensures
        !(all_decimal_digits(d) && decimal_value(d) <= u64::MAX),
{
    if all_decimal_digits(d) {
        lemma_decimal_value_prefix(d, k);
    }
}

/// The number of seconds that a sync interval names, before the one-minute
/// floor: `<n>h` is `n` hours, else `<m>m` is `m` minutes, else one hour.
/// `None` where the hours or minutes, counted in seconds, overflow a `u64`.
pub open spec fn spec_interval_seconds(raw: Seq<char>) -> Option<int> {
    let hours = if raw.len() > 0 && raw.last() == 'h' {
        spec_parse_u64(raw.drop_last())
    } else {
        None
    };
    let minutes = if raw.len() > 0 && raw.last() == 'm' {
        spec_parse_u64(raw.drop_last())
    } else {
        None
    };
    match hours {
        Some(h) => if h * 3600 <= u64::MAX { Some(h * 3600) } else { None },
        None => match minutes {
            Some(m) => if m * 60 <= u64::MAX { Some(m * 60) } else { None },
            None => Some(3600),
        },
    }
}

/// The sync interval in seconds that the setting `raw` names, raised to one
/// minute where it is shorter.
pub open spec fn spec_sync_interval(raw: Seq<char>) -> Option<int> {
    match spec_interval_seconds(raw) {
        Some(n) => Some(if n < 60 {
            60
        } else {
            n
        }),
        None => None,
    }
}

/// A sync interval is never shorter than a minute, and always fits in a `u64`.
pub proof fn law_interval_is_at_least_a_minute(raw: Seq<char>)
    ensures
        spec_sync_interval(raw) matches Some(n) ==> 60 <= n <= u64::MAX,
{
}

/// The sync interval in seconds that the setting `raw` names, never less than
/// one minute: `2h` is 7200, `15m` is 900, and anything unreadable is one hour.
/// `None` exactly where the named number of seconds does not fit in a `u64`.
pub fn parse_sync_interval(raw: &str) -> (seconds: Option<u64>)
    ensures
        match spec_sync_interval(raw@) {
            Some(n) => seconds == Some(n as u64),
            None => seconds is None,
        },
{
    let chars = chars_of(raw);
    let n = chars.len();
    if n == 0 {
        return Some(3600);
    }
    let last = chars[n - 1];
    let body = chars_prefix(&chars, n - 1);
    assert(body@ =~= raw@.drop_last());
    let mut named: u64 = 3600;
    if last == 'h' {
        match parse_u64_chars(body.as_slice()) {
            Some(hours) => match hours.checked_mul(3600) {
                Some(s) => {
                    named = s;
                },
                None => {
                    return None;
                },
            },
            None => {},
        }
    } else if last == 'm' {
        match parse_u64_chars(body.as_slice()) {
            Some(minutes) => match minutes.checked_mul(60) {
                Some(s) => {
                    named = s;
                },
                None => {
                    return None;
                },
            },
            None => {},
        }
    }
    if named < 60 {
        Some(60)
    } else {
        Some(named)
    }
}

/// The first `len` characters of `s`.
fn chars_prefix(s: &Vec<char>, len: usize) -> (out: Vec<char>)
    requires
        len <= s.len(),
    ensures
        out@ == s@.take(len as int),
{
    let mut out: Vec<char> = Vec::new();
    let mut i: usize = 0;
    while i < len
        invariant
            i <= len <= s.len(),
            out@ == s@.take(i as int),
        decreases len - i,
    {
        out.push(s[i]);
        i = i + 1;
        assert(out@ =~= s@.take(i as int));
    }
    out
}

} // verus!
