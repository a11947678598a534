//! ISO-8601 durations as the flight search answers them (`PT2H15M`, `P1DT3H`), in
//! minutes.
use vstd::prelude::*;
use crate::text::{to_upper, upper, trim, trim_spec, chars_of, string_from};
use crate::places::{first_at, lemma_first_at_prefix};
use crate::times::trunc_div;

verus! {

/// Whether a character is an ASCII digit.
pub open spec fn is_digit(c: char) -> bool {
    '0' <= c && c <= '9'
}

/// Every character is an ASCII digit.
pub open spec fn all_digits(s: Seq<char>) -> bool {
    forall|i: int| 0 <= i < s.len() ==> is_digit(#[trigger] s[i])
}

/// The number the digits spell.
pub open spec fn digits_value(s: Seq<char>) -> int
    decreases s.len(),
{
    if s.len() == 0 { 0 } else { 10 * digits_value(s.drop_last()) + (s.last() as int - 48) }
}

/// What `str::parse::<i32>` gives: an optional `+` or `-`, then one or more ASCII
/// digits, the value within `i32`.
pub open spec fn parse_i32_spec(s: Seq<char>) -> Option<i32> {
    if s.len() == 0 {
        None
    } else {
        let neg = s[0] == '-';
        let body = if s[0] == '-' || s[0] == '+' { s.drop_first() } else { s };
        let v = if neg { -digits_value(body) } else { digits_value(body) };
        if body.len() == 0 || !all_digits(body) || v < i32::MIN || v > i32::MAX {
            None
        } else {
            Some(v as i32)
        }
    }
}

proof fn lemma_digits_grow(s: Seq<char>, n: int)
    requires
        0 <= n <= s.len(),
        all_digits(s),
    ensures
        digits_value(s.subrange(0, n)) <= digits_value(s),
        0 <= digits_value(s.subrange(0, n)),
    decreases s.len() - n,
{
    if n < s.len() {
        assert(s.subrange(0, n + 1).drop_last() =~= s.subrange(0, n));
        lemma_digits_grow(s, n + 1);
        assert(s.subrange(0, n + 1).last() == s[n]);
    } else {
        assert(s.subrange(0, n) =~= s);
        lemma_digits_nonneg(s);
    }
}

proof fn lemma_digits_nonneg(s: Seq<char>)
    requires
        all_digits(s),
    ensures
        digits_value(s) >= 0,
    decreases s.len(),
{
    if s.len() > 0 {
        assert(all_digits(s.drop_last()));
        lemma_digits_nonneg(s.drop_last());
        assert(is_digit(s[s.len() - 1]));
    }
}

/// See [`parse_i32_spec`].
pub fn parse_i32(s: &str) -> (r: Option<i32>)
    ensures
        r == parse_i32_spec(s@),
{
    let x = chars_of(s);
    if x.len() == 0 {
        return None;
    }
    let neg = x[0] == '-';
    let start: usize = if x[0] == '-' || x[0] == '+' { 1 } else { 0 };
    let ghost body = if x@[0] == '-' || x@[0] == '+' { s@.drop_first() } else { s@ };
    assert(body =~= s@.subrange(start as int, s@.len() as int));
    if start == x.len() {
        return None;
    }
    let mut v: i64 = 0;
    let mut i: usize = start;
    while i < x.len()
        invariant
            x@ == s@,
            start <= i <= x@.len(),
            body == s@.subrange(start as int, s@.len() as int),
            s@.len() > 0,
            body == (if s@[0] == '-' || s@[0] == '+' { s@.drop_first() } else { s@ }),
            neg == (s@[0] == '-'),
            body.len() > 0,
            all_digits(body.subrange(0, i - start)),
            v == digits_value(body.subrange(0, i - start)),
            0 <= v <= 0x1_0000_0000,
        decreases x@.len() - i,
    {
        let c = x[i];
        assert(body.subrange(0, i + 1 - start).drop_last() =~= body.subrange(0, i - start));
        if c < '0' || c > '9' {
            assert(!is_digit(body[i - start]));
            assert(!all_digits(body));
            return None;
        }
        let d: i64 = (c as u32 - 48) as i64;
        let nv = 10 * v + d;
        if nv > 0x1_0000_0000 {
            proof {
                assert(all_digits(body.subrange(0, i + 1 - start)));
                if all_digits(body) {
                    lemma_digits_grow(body, i + 1 - start);
                }
            }
            return None;
        }
        v = nv;
        i = i + 1;
    }
    assert(body.subrange(0, body.len() as int) =~= body);
    let signed: i64 = if neg { -v } else { v };
    if signed < -2147483648 || signed > 2147483647 {
        None
    } else {
        Some(signed as i32)
    }
}

/// A duration count: nothing is zero, otherwise as `str::parse::<i32>` reads it.
pub open spec fn count_spec(s: Seq<char>) -> Option<i32> {
    if s.len() == 0 { Some(0) } else { parse_i32_spec(s) }
}

fn parse_count(s: &str) -> (r: Option<i32>)
    ensures
        r == count_spec(s@),
{
    if s.is_empty() { Some(0) } else { parse_i32(s) }
}

/// The text before and after the first occurrence of a character (`str::split_once`).
pub open spec fn split_once_spec(s: Seq<char>, c: char) -> Option<(Seq<char>, Seq<char>)> {
    match first_at(s, c) {
        Some(k) => Some((s.subrange(0, k), s.subrange(k + 1, s.len() as int))),
        None => None,
    }
}

fn split_once(s: &str, c: char) -> (r: Option<(String, String)>)
    ensures
        match (r, split_once_spec(s@, c)) {
            (Some(a), Some(b)) => a.0@ == b.0 && a.1@ == b.1,
            (None, None) => true,
            _ => false,
        },
{
    let x = chars_of(s);
    let mut i: usize = 0;
    while i < x.len()
        invariant
            x@ == s@,
            i <= x@.len(),
            first_at(x@.subrange(0, i as int), c) is None,
        decreases x@.len() - i,
    {
        assert(x@.subrange(0, i + 1).drop_last() =~= x@.subrange(0, i as int));
        if x[i] == c {
            proof { lemma_first_at_prefix(x@, c, i + 1); }
            let a = string_from(&x.as_slice()[0..i]);
            let b = string_from(&x.as_slice()[i + 1..x.len()]);
            return Some((a, b));
        }
        i = i + 1;
    }
    assert(x@.subrange(0, x@.len() as int) =~= x@);
    None
}

/// The parts of a duration: days, hours, minutes and seconds, or `None` when a part
/// does not read as a number. Texts that do not start with `P` (after trimming and
/// upper-casing) have no parts and read as zero.
pub open spec fn dur_parts(iso: Seq<char>) -> Option<(i32, i32, i32, i32)> {
    let raw = to_upper(trim_spec(iso));
    if iso.len() == 0 || raw.len() == 0 || raw[0] != 'P' {
        Some((0i32, 0i32, 0i32, 0i32))
    } else {
        let body = raw.drop_first();
        let (date_part, time_part) = match split_once_spec(body, 'T') {
            Some(p) => p,
            None => (body, Seq::empty()),
        };
        let days = match split_once_spec(date_part, 'D') { Some(p) => count_spec(p.0), None => Some(0i32) };
        let (hours, rest1) = match split_once_spec(time_part, 'H') {
            Some(p) => (count_spec(p.0), p.1),
            None => (Some(0i32), time_part),
        };
        let (minutes, rest2) = match split_once_spec(rest1, 'M') {
            Some(p) => (count_spec(p.0), p.1),
            None => (Some(0i32), rest1),
        };
        let seconds = match split_once_spec(rest2, 'S') { Some(p) => count_spec(p.0), None => Some(0i32) };
        if days is None || hours is None || minutes is None || seconds is None {
            None
        } else {
            Some((days->0, hours->0, minutes->0, seconds->0))
        }
    }
}

/// The minutes of duration parts: days, hours and minutes, and whole minutes of the
/// seconds (rounded toward zero).
pub open spec fn parts_minutes(p: (i32, i32, i32, i32)) -> int {
    p.0 * 1440 + p.1 * 60 + p.2 + trunc_div(p.3 as int, 60)
}

/// The minutes of a duration stay within `i32` on the way (the sum is taken in
/// `i32`, days first).
pub open spec fn dur_fits(iso: Seq<char>) -> bool {
    dur_parts(iso) matches Some(p) ==> {
        let a = p.0 * 1440;
        let b = a + p.1 * 60;
        let c = b + p.2;
        &&& i32::MIN <= a <= i32::MAX
        &&& i32::MIN <= p.1 * 60 <= i32::MAX
        &&& i32::MIN <= b <= i32::MAX
        &&& i32::MIN <= c <= i32::MAX
        &&& i32::MIN <= c + trunc_div(p.3 as int, 60) <= i32::MAX
    }
}

/// The minutes of a duration text; zero when a part does not read as a number.
pub open spec fn dur_spec(iso: Seq<char>) -> int {
    match dur_parts(iso) {
        Some(p) => parts_minutes(p),
        None => 0,
    }
}

fn parse_parts(iso: &str) -> (r: Option<(i32, i32, i32, i32)>)
    ensures
        r == dur_parts(iso@),
{
    if iso.is_empty() {
        return Some((0, 0, 0, 0));
    }
    let t = trim(iso);
    let raw = upper(t.as_str());
    let x = chars_of(raw.as_str());
    if x.len() == 0 || x[0] != 'P' {
        return Some((0, 0, 0, 0));
    }
    let body = string_from(&x.as_slice()[1..x.len()]);
    assert(body@ =~= raw@.drop_first());
    let (date_part, time_part) = match split_once(body.as_str(), 'T') {
        Some(p) => p,
        None => (body.clone(), String::new()),
    };
    let days = match split_once(date_part.as_str(), 'D') {
        Some(p) => match parse_count(p.0.as_str()) { Some(v) => v, None => return None },
        None => 0,
    };
    let (hours, rest1) = match split_once(time_part.as_str(), 'H') {
        Some(p) => match parse_count(p.0.as_str()) { Some(v) => (v, p.1), None => return None },
        None => (0, time_part.clone()),
    };
    let (minutes, rest2) = match split_once(rest1.as_str(), 'M') {
        Some(p) => match parse_count(p.0.as_str()) { Some(v) => (v, p.1), None => return None },
        None => (0, rest1.clone()),
    };
    let seconds = match split_once(rest2.as_str(), 'S') {
        Some(p) => match parse_count(p.0.as_str()) { Some(v) => v, None => return None },
        None => 0,
    };
    Some((days, hours, minutes, seconds))
}

/// The minutes of an ISO-8601 duration text (see [`dur_spec`]).
pub fn _dur(iso: &str) -> (r: i32)
    requires
        dur_fits(iso@),
    ensures
        r == dur_spec(iso@),
{
    match parse_parts(iso) {
        Some(p) => {
            let secs = p.3 / 60;
            assert(secs == trunc_div(p.3 as int, 60));
            p.0 * 1440 + p.1 * 60 + p.2 + secs
        },
        None => 0,
    }
}

/// The minutes of an optional duration text; none reads as zero.
pub fn dur(iso: Option<&str>) -> (r: i32)
    requires
        dur_fits(match iso { Some(s) => s@, None => Seq::empty() }),
    ensures
        r == dur_spec(match iso { Some(s) => s@, None => Seq::empty() }),
{
    match iso {
        Some(s) => _dur(s),
        None => {
            proof { reveal_strlit(""); }
            _dur("")
        },
    }
}

/// The minutes of an optional duration text, or `None` when the sum would not fit
/// in `i32`.
pub fn dur_checked(iso: Option<&str>) -> (r: Option<i32>)
    ensures
        match iso {
            Some(s) => if dur_fits(s@) { r == Some(dur_spec(s@) as i32) } else { r is None },
            None => r == Some(0i32),
        },
{
    proof { reveal_strlit(""); }
    let s = match iso { Some(s) => s, None => "" };
    let p = match parse_parts(s) {
        Some(p) => p,
        None => return Some(0),
    };
    let a: i64 = p.0 as i64 * 1440;
    let b: i64 = a + p.1 as i64 * 60;
    let c: i64 = b + p.2 as i64;
    let q: i32 = p.3 / 60;
    assert(q == trunc_div(p.3 as int, 60));
    let d: i64 = c + q as i64;
    let h: i64 = p.1 as i64 * 60;
    if h < -2147483648 || h > 2147483647 || a < -2147483648 || a > 2147483647 || b < -2147483648 || b > 2147483647
        || c < -2147483648 || c > 2147483647 || d < -2147483648 || d > 2147483647 {
        return None;
    }
    Some(_dur(s))
}

} // verus!
