//! Instants parsed from supplier text, and the minutes between them.
use vstd::prelude::*;
use crate::text::{chars_of, push_char};

verus! {

/// An instant: whole seconds since 1970-01-01T00:00:00Z and the nanoseconds past them.
#[derive(Clone, Copy)]
pub struct Instant {
    pub secs: i64,
    pub nanos: u32,
}

/// The range chrono's `DateTime` covers (years -262144 to 262143), in seconds, with room.
pub open spec fn secs_bound() -> int {
    8796093022208
}

pub open spec fn instant_ok(t: Instant) -> bool {
    -secs_bound() < t.secs < secs_bound() && t.nanos < 2_000_000_000
}

/// Nanoseconds since the epoch.
pub open spec fn nanos_of(t: Instant) -> int {
    t.secs * 1_000_000_000 + t.nanos
}

/// Integer division that truncates toward zero, as Rust's `/` on integers does.
pub open spec fn trunc_div(x: int, d: int) -> int {
    if x >= 0 { x / d } else { -((-x) / d) }
}

/// `a` comes after `b` in chrono's order: by second, then by the fraction (a leap
/// second's fraction runs past one second).
pub open spec fn is_after(a: Instant, b: Instant) -> bool {
    a.secs > b.secs || (a.secs == b.secs && a.nanos > b.nanos)
}

/// See [`is_after`].
pub fn later(a: &Instant, b: &Instant) -> (r: bool)
    ensures
        r == is_after(*a, *b),
{
    a.secs > b.secs || (a.secs == b.secs && a.nanos > b.nanos)
}

/// Whole seconds from `a` to `b`, truncated toward zero, as `(b - a).num_seconds()`
/// (without chrono's correction for a leap second).
pub open spec fn seconds_between(a: Instant, b: Instant) -> int {
    trunc_div(nanos_of(b) - nanos_of(a), 1_000_000_000)
}

/// What `DateTime::parse_from_rfc3339` gives for a text, as an instant in UTC.
pub uninterp spec fn rfc3339_instant(s: Seq<char>) -> Option<Instant>;

/// What `NaiveDateTime::parse_from_str` gives for a text and a format, read as UTC.
pub uninterp spec fn naive_instant(s: Seq<char>, fmt: Seq<char>) -> Option<Instant>;

/// What `DateTime::parse_from_str` gives for a text and a format (with an offset), in UTC.
pub uninterp spec fn offset_instant(s: Seq<char>, fmt: Seq<char>) -> Option<Instant>;

/// Parses RFC 3339 text with `chrono::DateTime::parse_from_rfc3339`. The parsed value
/// is named by `rfc3339_instant`; it lies in chrono's documented year range.
#[verifier::external_body]
pub fn parse_rfc3339(s: &str) -> (r: Option<Instant>)
    ensures
        r == rfc3339_instant(s@),
        r matches Some(t) ==> instant_ok(t),
{
    match chrono::DateTime::parse_from_rfc3339(s) {
        Ok(d) => Some(Instant { secs: d.timestamp(), nanos: d.timestamp_subsec_nanos() }),
        Err(_) => None,
    }
}

/// Parses text without an offset with `chrono::NaiveDateTime::parse_from_str`, read as
/// UTC. The parsed value is named by `naive_instant`.
#[verifier::external_body]
pub fn parse_naive(s: &str, fmt: &str) -> (r: Option<Instant>)
    ensures
        r == naive_instant(s@, fmt@),
        r matches Some(t) ==> instant_ok(t),
{
    match chrono::NaiveDateTime::parse_from_str(s, fmt) {
        Ok(n) => {
            let d = n.and_utc();
            Some(Instant { secs: d.timestamp(), nanos: d.timestamp_subsec_nanos() })
        },
        Err(_) => None,
    }
}

/// Parses text with an offset with `chrono::DateTime::parse_from_str`. The parsed
/// value is named by `offset_instant`.
#[verifier::external_body]
pub fn parse_with_offset(s: &str, fmt: &str) -> (r: Option<Instant>)
    ensures
        r == offset_instant(s@, fmt@),
        r matches Some(t) ==> instant_ok(t),
{
    match chrono::DateTime::parse_from_str(s, fmt) {
        Ok(d) => Some(Instant { secs: d.timestamp(), nanos: d.timestamp_subsec_nanos() }),
        Err(_) => None,
    }
}

/// The current time from `chrono::Utc::now`. Nothing is known of it but that it
/// lies in chrono's range.
#[verifier::external_body]
pub(crate) fn now_instant() -> (r: Instant)
    ensures
        instant_ok(r),
{
    let d = chrono::Utc::now();
    Instant { secs: d.timestamp(), nanos: d.timestamp_subsec_nanos() }
}

/// What `NaiveDate::parse_from_str(s, "%Y-%m-%d")` accepts.
pub uninterp spec fn iso_date_parses(s: Seq<char>) -> bool;

/// Whether `chrono::NaiveDate::parse_from_str` reads `s` as `%Y-%m-%d`.
#[verifier::external_body]
pub fn parses_as_iso_date(s: &str) -> (r: bool)
    ensures
        r == iso_date_parses(s@),
{
    chrono::NaiveDate::parse_from_str(s, "%Y-%m-%d").is_ok()
}

/// What `NaiveDate::parse_from_str(s, "%Y-%m-%d")` followed by adding one day and
/// formatting as `%Y-%m-%d` gives.
pub uninterp spec fn iso_next_day(s: Seq<char>) -> Option<Seq<char>>;

/// The calendar day after an ISO date, with `chrono::NaiveDate` parsing, day arithmetic
/// and formatting. The result is named by `iso_next_day`.
#[verifier::external_body]
pub fn day_after(s: &str) -> (r: Option<String>)
    ensures
        match (r, iso_next_day(s@)) {
            (Some(a), Some(b)) => a@ == b,
            (None, None) => true,
            _ => false,
        },
{
    chrono::NaiveDate::parse_from_str(s, "%Y-%m-%d")
        .ok()
        .and_then(|d| d.checked_add_signed(chrono::Duration::days(1)))
        .map(|d| d.format("%Y-%m-%d").to_string())
}

/// `s` with every `Z` replaced by `+00:00`.
pub open spec fn z_to_offset(s: Seq<char>) -> Seq<char>
    decreases s.len(),
{
    if s.len() == 0 {
        s
    } else {
        z_to_offset(s.drop_last()) + if s.last() == 'Z' {
            seq!['+', '0', '0', ':', '0', '0']
        } else {
            seq![s.last()]
        }
    }
}

/// `str::replace('Z', "+00:00")`, over the characters.
pub fn replace_z(s: &str) -> (r: String)
    ensures
        r@ == z_to_offset(s@),
{
    let x = chars_of(s);
    let mut out = String::new();
    let mut i: usize = 0;
    while i < x.len()
        invariant
            x@ == s@,
            i <= x@.len(),
            out@ == z_to_offset(s@.subrange(0, i as int)),
        decreases x@.len() - i,
    {
        let ghost pre = s@.subrange(0, i as int);
        assert(s@.subrange(0, i + 1).drop_last() =~= pre);
        if x[i] == 'Z' {
            push_char(&mut out, '+');
            push_char(&mut out, '0');
            push_char(&mut out, '0');
            push_char(&mut out, ':');
            push_char(&mut out, '0');
            push_char(&mut out, '0');
        } else {
            push_char(&mut out, x[i]);
        }
        i = i + 1;
        assert(out@ =~= z_to_offset(s@.subrange(0, i as int)));
    }
    assert(s@.subrange(0, x@.len() as int) =~= s@);
    out
}

/// Whole seconds from `a` to `b`, truncated toward zero.
pub fn secs_between(a: &Instant, b: &Instant) -> (r: i64)
    requires
        instant_ok(*a),
        instant_ok(*b),
    ensures
        r == seconds_between(*a, *b),
{
    let na: i128 = (a.secs as i128) * 1_000_000_000 + (a.nanos as i128);
    let nb: i128 = (b.secs as i128) * 1_000_000_000 + (b.nanos as i128);
    let d: i128 = nb - na;
    let q: i128 = if d >= 0 { d / 1_000_000_000 } else { -((-d) / 1_000_000_000) };
    assert(-2 * secs_bound() - 2 <= q <= 2 * secs_bound() + 2) by (nonlinear_arith)
        requires
            d == nb - na,
            na == a.secs * 1_000_000_000 + a.nanos,
            nb == b.secs * 1_000_000_000 + b.nanos,
            -secs_bound() < a.secs < secs_bound(),
            -secs_bound() < b.secs < secs_bound(),
            a.nanos < 2_000_000_000,
            b.nanos < 2_000_000_000,
            q == if d >= 0 { d / 1_000_000_000 } else { -((-d) / 1_000_000_000) },
            secs_bound() == 8796093022208,
    ;
    q as i64
}

} // verus!
