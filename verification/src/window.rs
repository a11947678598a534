//! How long a hidden-city fare is likely to last: urgency, a label, a headline and a
//! sparkline of the fare's recent prices (cents).
use vstd::prelude::*;
use crate::models::Offer;
use crate::text::{to_upper, upper, decimal, int_text, cat, str_eq, prefix_bytes, byte_prefix};
use crate::times::{Instant, instant_ok, is_after, later, nanos_of, trunc_div};
use crate::expiry::{offer_time, opt_view, parse_offer_time, opt_str};
use crate::hidden::{itinerary_fingerprint, fingerprint_of, fingerprint_ok};
use crate::fx::round_half_away;
use crate::order::{sorted_by, is_perm, sort_order};
use crate::picks::key_views;

verus! {

/// One observed price of a through ticket (cents).
pub struct FarePoint {
    pub fingerprint: String,
    pub origin: String,
    pub ticketed: String,
    pub date: String,
    pub price: i64,
    pub observed_at: Instant,
}

impl Clone for FarePoint {
    fn clone(&self) -> (r: Self)
        ensures
            r == *self,
    {
        FarePoint {
            fingerprint: self.fingerprint.clone(),
            origin: self.origin.clone(),
            ticketed: self.ticketed.clone(),
            date: self.date.clone(),
            price: self.price,
            observed_at: self.observed_at,
        }
    }
}

/// One point of a sparkline: when (RFC 3339) and the price (cents).
pub struct PricePoint {
    pub t: String,
    pub price: i64,
}

/// The buying window of a fare.
pub struct FareWindow {
    pub urgency: String,
    pub label: String,
    pub headline: String,
    pub minutes_to_depart: Option<i64>,
    pub minutes_to_expire: Option<i64>,
    pub seats: Option<i32>,
    pub trend: String,
    pub current: Option<i64>,
    pub low: Option<i64>,
    pub high: Option<i64>,
    pub low_at: Option<String>,
    pub points: Vec<PricePoint>,
}

/// The most points a sparkline keeps.
pub open spec fn max_points() -> int {
    24
}

/// What `DateTime::to_rfc3339` writes for an instant (empty when chrono cannot hold it).
pub uninterp spec fn rfc3339_text(secs: i64, nanos: u32) -> Seq<char>;

/// An instant as RFC 3339 text, with `chrono::DateTime::from_timestamp` and
/// `to_rfc3339`; the text is named by `rfc3339_text`.
#[verifier::external_body]
fn instant_text(t: &Instant) -> (r: String)
    ensures
        r@ == rfc3339_text(t.secs, t.nanos),
{
    match chrono::DateTime::from_timestamp(t.secs, t.nanos) {
        Some(d) => d.to_rfc3339(),
        None => String::new(),
    }
}

/// Whole minutes from `a` to `b`, truncated toward zero, as `(b - a).num_minutes()`
/// (without chrono's correction for a leap second).
pub open spec fn minutes_between(a: Instant, b: Instant) -> int {
    trunc_div(nanos_of(b) - nanos_of(a), 60_000_000_000)
}

fn mins_between(a: &Instant, b: &Instant) -> (r: i64)
    requires
        instant_ok(*a),
        instant_ok(*b),
    ensures
        r == minutes_between(*a, *b),
{
    let na: i128 = (a.secs as i128) * 1_000_000_000 + (a.nanos as i128);
    let nb: i128 = (b.secs as i128) * 1_000_000_000 + (b.nanos as i128);
    let d: i128 = nb - na;
    let q: i128 = if d >= 0 { d / 60_000_000_000 } else { -((-d) / 60_000_000_000) };
    assert(-1_000_000_000_000 <= q <= 1_000_000_000_000) by (nonlinear_arith)
        requires
            d == nb - na,
            na == a.secs * 1_000_000_000 + a.nanos,
            nb == b.secs * 1_000_000_000 + b.nanos,
            -8796093022208 < a.secs < 8796093022208,
            -8796093022208 < b.secs < 8796093022208,
            a.nanos < 2_000_000_000,
            b.nanos < 2_000_000_000,
            q == if d >= 0 { d / 60_000_000_000 } else { -((-d) / 60_000_000_000) },
    ;
    q as i64
}

/// The rank of an urgency: `now` 3, `soon` 2, `watch` 1, anything else 0.
pub open spec fn rank_of(u: Seq<char>) -> u8 {
    if u == "now"@ { 3 } else if u == "soon"@ { 2 } else if u == "watch"@ { 1 } else { 0 }
}

pub fn urgency_rank(urgency: &str) -> (r: u8)
    ensures
        r == rank_of(urgency@),
{
    if str_eq(urgency, "now") {
        3
    } else if str_eq(urgency, "soon") {
        2
    } else if str_eq(urgency, "watch") {
        1
    } else {
        0
    }
}

/// The more urgent of two urgencies (the first when they rank alike).
pub open spec fn max_urg(a: Seq<char>, b: Seq<char>) -> Seq<char> {
    if rank_of(b) > rank_of(a) { b } else { a }
}

/// One step more urgent: open to watch, watch to soon, anything else to now.
pub open spec fn bump_urg(u: Seq<char>) -> Seq<char> {
    if u == "open"@ { "watch"@ } else if u == "watch"@ { "soon"@ } else { "now"@ }
}

fn max_u(a: &'static str, b: &'static str) -> (r: &'static str)
    ensures
        r@ == max_urg(a@, b@),
{
    if urgency_rank(b) > urgency_rank(a) { b } else { a }
}

fn bump(urgency: &str) -> (r: &'static str)
    ensures
        r@ == bump_urg(urgency@),
{
    if str_eq(urgency, "open") {
        "watch"
    } else if str_eq(urgency, "watch") {
        "soon"
    } else {
        "now"
    }
}

/// The urgency of a fare: by minutes to departure (18 hours now, 3 days soon, 10
/// days watch), raised by few seats (2 now, 5 soon), by a quote about to end (20
/// minutes now, 90 soon), and one step more when the price rose 8% over the low.
pub open spec fn urgency_spec(seats: Option<i32>, depart: Option<i64>, expire: Option<i64>, trend: Seq<char>,
    current: Option<i64>, low: Option<i64>) -> Seq<char> {
    let u0 = match depart {
        Some(d) => if d <= 1080 { "now"@ } else if d <= 4320 { "soon"@ } else if d <= 14400 { "watch"@ } else { "open"@ },
        None => "open"@,
    };
    let u1 = match seats {
        Some(s) => if s <= 2 { max_urg(u0, "now"@) } else if s <= 5 { max_urg(u0, "soon"@) } else { u0 },
        None => u0,
    };
    let u2 = match expire {
        Some(e) => if e <= 20 { max_urg(u1, "now"@) } else if e <= 90 { max_urg(u1, "soon"@) } else { u1 },
        None => u1,
    };
    if trend == "rising"@ && current is Some && low is Some && low->0 > 0 && 100 * current->0 >= 108 * low->0 {
        max_urg(u2, bump_urg(u2))
    } else {
        u2
    }
}

/// Minutes in words: under 90 as minutes, then hours (under 36 hours), days (under
/// two weeks), weeks (under 60 days), months; each rounded half away from zero.
pub open spec fn human_text(minutes: int) -> Seq<char> {
    let m = if minutes < 0 { 0 } else { minutes };
    if m < 90 {
        decimal(m) + " min"@
    } else if m < 36 * 60 {
        decimal(round_half_away(m, 60)) + "h"@
    } else if m < 14 * 24 * 60 {
        decimal(round_half_away(m, 1440)) + "d"@
    } else if m < 60 * 24 * 60 {
        decimal(round_half_away(m, 10_080)) + "wk"@
    } else {
        let mo = round_half_away(m, 43_800);
        decimal(if mo < 1 { 1 } else { mo }) + "mo"@
    }
}

/// See [`human_text`]. The division is meant as a floating-point one; for minute
/// counts up to 2^53 that rounding is the exact one computed here.
pub fn human_mins(minutes: i64) -> (r: String)
    requires
        minutes <= 9_007_199_254_740_992,
    ensures
        r@ == human_text(minutes as int),
{
    let m: i64 = if minutes < 0 { 0 } else { minutes };
    proof {
        reveal_strlit(" min");
        reveal_strlit("h");
        reveal_strlit("d");
        reveal_strlit("wk");
        reveal_strlit("mo");
    }
    if m < 90 {
        cat(int_text(m).as_str(), " min")
    } else if m < 36 * 60 {
        cat(int_text((m + 30) / 60).as_str(), "h")
    } else if m < 14 * 24 * 60 {
        cat(int_text((m + 720) / 1440).as_str(), "d")
    } else if m < 60 * 24 * 60 {
        cat(int_text((m + 5040) / 10_080).as_str(), "wk")
    } else {
        let mo = (m + 21_900) / 43_800;
        cat(int_text(if mo < 1 { 1 } else { mo }).as_str(), "mo")
    }
}

/// The short label of a window.
pub open spec fn label_spec(seats: Option<i32>, depart: Option<i64>, expire: Option<i64>, trend: Seq<char>, urgency: Seq<char>) -> Seq<char> {
    if seats is Some && seats->0 <= 2 {
        decimal(seats->0 as int) + " seats left"@
    } else if expire is Some && expire->0 <= 20 {
        "Quote ends in "@ + human_text(expire->0 as int)
    } else if depart is Some && depart->0 <= 1080 {
        "Departs in "@ + human_text(depart->0 as int)
    } else if seats is Some && seats->0 <= 5 {
        decimal(seats->0 as int) + " seats left"@
    } else if expire is Some && expire->0 <= 90 {
        "Quote live "@ + human_text(expire->0 as int)
    } else if depart is Some && depart->0 <= 4320 {
        "Departs in "@ + human_text(depart->0 as int)
    } else if urgency == "watch"@ {
        "This week"@
    } else if trend == "rising"@ {
        "Price rising"@
    } else {
        "Window open"@
    }
}

/// The headline of a window.
pub open spec fn headline_spec(seats: Option<i32>, depart: Option<i64>, expire: Option<i64>, trend: Seq<char>,
    current: Option<i64>, low: Option<i64>) -> Seq<char> {
    if expire is Some && expire->0 <= 20 {
        "This quote dies in "@ + human_text(expire->0 as int) + ". Recheck, then buy on a booker — we never hold the seat."@
    } else if seats is Some && seats->0 <= 5 {
        decimal(seats->0 as int) + " seat"@ + (if seats->0 == 1 { ""@ } else { "s"@ })
            + " left on the through ticket. Hidden-city ends when that class sells — the unused leg fills first."@
    } else if depart is Some && depart->0 <= 1080 {
        "Departs in "@ + human_text(depart->0 as int)
            + ". Cheap connecting buckets are usually gone this close in. If it is still inverted, it will not last."@
    } else if depart is Some && depart->0 <= 4320 {
        "Departs in "@ + human_text(depart->0 as int) + ". This is when A→C inventory tightens and the skiplag window closes."@
    } else if depart is Some && depart->0 <= 14400 {
        "Typical hidden-city window. Recheck the morning you buy — one fill on the unused leg and the fare is gone."@
    } else if depart is Some && depart->0 > 30240 {
        "More than "@ + human_text(depart->0 as int) + " out. The inversion can vanish as the plane fills. Do not wait until the week of."@
    } else if trend == "rising"@ {
        if current is Some && low is Some && low->0 > 0 && current->0 > low->0 {
            "Up "@ + decimal(round_half_away(100 * (current->0 - low->0), low->0 as int)) + "% from the recent low. The unused segment is filling."@
        } else {
            "The through fare is rising. Book while it is still cheaper than flying only to your stop."@
        }
    } else if trend == "new"@ {
        "First time we have priced this ticket. Recheck before you buy — inventory moves by the hour."@
    } else {
        "Still cheaper than the honest A→B ticket. Recheck before you buy; we do not hold inventory."@
    }
}

/// A price bound that keeps the window's arithmetic exact (ten trillion dollars).
pub open spec fn price_ok(p: i64) -> bool {
    -1_000_000_000_000_000 <= p <= 1_000_000_000_000_000
}

/// Urgency, label and headline together.
fn decide(
    seats: Option<i32>,
    depart: Option<i64>,
    expire: Option<i64>,
    trend: &str,
    current: Option<i64>,
    low: Option<i64>,
) -> (r: (String, String, String))
    requires
        current matches Some(c) ==> price_ok(c),
        low matches Some(l) ==> price_ok(l),
        depart matches Some(d) ==> -1_000_000_000_000 <= d <= 1_000_000_000_000,
        expire matches Some(e) ==> -1_000_000_000_000 <= e <= 1_000_000_000_000,
    ensures
        r.0@ == urgency_spec(seats, depart, expire, trend@, current, low),
        r.1@ == label_spec(seats, depart, expire, trend@, urgency_spec(seats, depart, expire, trend@, current, low)),
        r.2@ == headline_spec(seats, depart, expire, trend@, current, low),
{
    let mut urgency: &'static str = "open";
    proof {
        reveal_strlit("open");
        reveal_strlit("watch");
        reveal_strlit("soon");
        reveal_strlit("now");
    }
    match depart {
        Some(d) => {
            if d <= 18 * 60 {
                urgency = "now";
            } else if d <= 72 * 60 {
                urgency = "soon";
            } else if d <= 10 * 24 * 60 {
                urgency = "watch";
            }
        },
        None => {},
    }
    match seats {
        Some(s) => {
            if s <= 2 {
                urgency = max_u(urgency, "now");
            } else if s <= 5 {
                urgency = max_u(urgency, "soon");
            }
        },
        None => {},
    }
    match expire {
        Some(e) => {
            if e <= 20 {
                urgency = max_u(urgency, "now");
            } else if e <= 90 {
                urgency = max_u(urgency, "soon");
            }
        },
        None => {},
    }
    if str_eq(trend, "rising") {
        match (current, low) {
            (Some(c), Some(l)) => {
                if l > 0 && 100 * (c as i128) >= 108 * (l as i128) {
                    urgency = max_u(urgency, bump(urgency));
                }
            },
            _ => {},
        }
    }
    let label = label_text(seats, depart, expire, trend, urgency);
    let headline = headline_text(seats, depart, expire, trend, current, low);
    (urgency.to_owned(), label, headline)
}

fn label_text(seats: Option<i32>, depart: Option<i64>, expire: Option<i64>, trend: &str, urgency: &str) -> (r: String)
    requires
        depart matches Some(d) ==> d <= 1_000_000_000_000,
        expire matches Some(e) ==> e <= 1_000_000_000_000,
    ensures
        r@ == label_spec(seats, depart, expire, trend@, urgency@),
{
    proof {
        reveal_strlit(" seats left");
        reveal_strlit("Quote ends in ");
        reveal_strlit("Departs in ");
        reveal_strlit("Quote live ");
    }
    if seats.is_some() && seats.unwrap() <= 2 {
        cat(int_text(seats.unwrap() as i64).as_str(), " seats left")
    } else if expire.is_some() && expire.unwrap() <= 20 {
        cat("Quote ends in ", human_mins(expire.unwrap()).as_str())
    } else if depart.is_some() && depart.unwrap() <= 18 * 60 {
        cat("Departs in ", human_mins(depart.unwrap()).as_str())
    } else if seats.is_some() && seats.unwrap() <= 5 {
        cat(int_text(seats.unwrap() as i64).as_str(), " seats left")
    } else if expire.is_some() && expire.unwrap() <= 90 {
        cat("Quote live ", human_mins(expire.unwrap()).as_str())
    } else if depart.is_some() && depart.unwrap() <= 72 * 60 {
        cat("Departs in ", human_mins(depart.unwrap()).as_str())
    } else if str_eq(urgency, "watch") {
        "This week".to_owned()
    } else if str_eq(trend, "rising") {
        "Price rising".to_owned()
    } else {
        "Window open".to_owned()
    }
}

fn headline_text(seats: Option<i32>, depart: Option<i64>, expire: Option<i64>, trend: &str, current: Option<i64>,
    low: Option<i64>) -> (r: String)
    requires
        current matches Some(c) ==> price_ok(c),
        low matches Some(l) ==> price_ok(l),
        depart matches Some(d) ==> d <= 1_000_000_000_000,
        expire matches Some(e) ==> e <= 1_000_000_000_000,
    ensures
        r@ == headline_spec(seats, depart, expire, trend@, current, low),
{
    proof {
        reveal_strlit("This quote dies in ");
        reveal_strlit(". Recheck, then buy on a booker — we never hold the seat.");
        reveal_strlit(" seat");
        reveal_strlit("");
        reveal_strlit("s");
        reveal_strlit(" left on the through ticket. Hidden-city ends when that class sells — the unused leg fills first.");
        reveal_strlit("Departs in ");
        reveal_strlit(". Cheap connecting buckets are usually gone this close in. If it is still inverted, it will not last.");
        reveal_strlit(". This is when A→C inventory tightens and the skiplag window closes.");
        reveal_strlit("More than ");
        reveal_strlit(" out. The inversion can vanish as the plane fills. Do not wait until the week of.");
        reveal_strlit("Up ");
        reveal_strlit("% from the recent low. The unused segment is filling.");
    }
    if expire.is_some() && expire.unwrap() <= 20 {
        let h = cat("This quote dies in ", human_mins(expire.unwrap()).as_str());
        return cat(h.as_str(), ". Recheck, then buy on a booker — we never hold the seat.");
    }
    if seats.is_some() && seats.unwrap() <= 5 {
        let s = seats.unwrap();
        let a = cat(int_text(s as i64).as_str(), " seat");
        let b = cat(a.as_str(), if s == 1 { "" } else { "s" });
        return cat(b.as_str(), " left on the through ticket. Hidden-city ends when that class sells — the unused leg fills first.");
    }
    match depart {
        Some(d) => {
            if d <= 18 * 60 {
                let h = cat("Departs in ", human_mins(d).as_str());
                return cat(h.as_str(), ". Cheap connecting buckets are usually gone this close in. If it is still inverted, it will not last.");
            }
            if d <= 72 * 60 {
                let h = cat("Departs in ", human_mins(d).as_str());
                return cat(h.as_str(), ". This is when A→C inventory tightens and the skiplag window closes.");
            }
            if d <= 10 * 24 * 60 {
                return "Typical hidden-city window. Recheck the morning you buy — one fill on the unused leg and the fare is gone.".to_owned();
            }
            if d > 21 * 24 * 60 {
                let h = cat("More than ", human_mins(d).as_str());
                return cat(h.as_str(), " out. The inversion can vanish as the plane fills. Do not wait until the week of.");
            }
        },
        None => {},
    }
    if str_eq(trend, "rising") {
        match (current, low) {
            (Some(c), Some(l)) => {
                if l > 0 && c > l {
                    let x: i128 = 100 * ((c as i128) - (l as i128));
                    let pct: i128 = (x + (l as i128) / 2) / (l as i128);
                    assert(0 <= pct <= 200_000_000_000_000_000) by (nonlinear_arith)
                        requires
                            x == 100 * (c - l),
                            0 < l,
                            l < c,
                            price_ok(c),
                            pct == (x + (l as int) / 2) / (l as int);
                    let a = cat("Up ", int_text(pct as i64).as_str());
                    return cat(a.as_str(), "% from the recent low. The unused segment is filling.");
                }
            },
            _ => {},
        }
        return "The through fare is rising. Book while it is still cheaper than flying only to your stop.".to_owned();
    }
    if str_eq(trend, "new") {
        return "First time we have priced this ticket. Recheck before you buy — inventory moves by the hour.".to_owned();
    }
    "Still cheaper than the honest A→B ticket. Recheck before you buy; we do not hold inventory.".to_owned()
}

/// The series points for a through ticket: those with its fingerprint when two or
/// more, else those of its origin, ticketed airport and day when two or more, else
/// whichever of the two lists is not empty (fingerprint first), else those of its
/// origin and ticketed airport on any day.
pub open spec fn pick_series_spec(fp: Seq<char>, origin: Seq<char>, ticketed: Seq<char>, date: Seq<char>,
    series: Seq<FarePoint>) -> Seq<FarePoint> {
    let exact = series.filter(|p: FarePoint| fp.len() > 0 && p.fingerprint@ == fp);
    let same_day = series.filter(|p: FarePoint| p.origin@ == origin && p.ticketed@ == ticketed && p.date@ == date);
    if exact.len() >= 2 {
        exact
    } else if same_day.len() >= 2 {
        same_day
    } else if exact.len() > 0 {
        exact
    } else if same_day.len() > 0 {
        same_day
    } else {
        series.filter(|p: FarePoint| p.origin@ == origin && p.ticketed@ == ticketed)
    }
}

/// The points whose mark is set.
fn filter_points(series: &[FarePoint], mask: &Vec<bool>, Ghost(pred): Ghost<spec_fn(FarePoint) -> bool>) -> (r: Vec<FarePoint>)
    requires
        mask@.len() == series@.len(),
        forall|i: int| 0 <= i < series@.len() ==> mask@[i] == pred(#[trigger] series@[i]),
    ensures
        r@ == series@.filter(pred),
{
    let mut out: Vec<FarePoint> = Vec::new();
    let mut i: usize = 0;
    assert(series@.subrange(0, 0) =~= Seq::<FarePoint>::empty());
    while i < series.len()
        invariant
            i <= series@.len(),
            mask@.len() == series@.len(),
            forall|k: int| 0 <= k < series@.len() ==> mask@[k] == pred(#[trigger] series@[k]),
            out@ == series@.subrange(0, i as int).filter(pred),
        decreases series@.len() - i,
    {
        assert(series@.subrange(0, i + 1).drop_last() =~= series@.subrange(0, i as int));
        assert(series@.subrange(0, i + 1).last() == series@[i as int]);
        proof {
            reveal(Seq::filter);
        }
        if mask[i] {
            out.push(series[i].clone());
        }
        i = i + 1;
    }
    assert(series@.subrange(0, series@.len() as int) =~= series@);
    out
}

/// See [`pick_series_spec`].
fn pick_series(fingerprint: &str, origin: &str, ticketed: &str, date: &str, series: &[FarePoint]) -> (r: Vec<FarePoint>)
    ensures
        r@ == pick_series_spec(fingerprint@, origin@, ticketed@, date@, series@),
{
    let mut m1: Vec<bool> = Vec::new();
    let mut m2: Vec<bool> = Vec::new();
    let mut m3: Vec<bool> = Vec::new();
    let has_fp = !fingerprint.is_empty();
    let mut i: usize = 0;
    while i < series.len()
        invariant
            i <= series@.len(),
            has_fp == (fingerprint@.len() > 0),
            m1@.len() == i,
            m2@.len() == i,
            m3@.len() == i,
            forall|k: int| 0 <= k < i ==> #[trigger] m1@[k] == (fingerprint@.len() > 0 && series@[k].fingerprint@ == fingerprint@),
            forall|k: int| 0 <= k < i ==> m2@[k] == ((#[trigger] series@[k]).origin@ == origin@ && series@[k].ticketed@ == ticketed@
                && series@[k].date@ == date@),
            forall|k: int| 0 <= k < i ==> m3@[k] == ((#[trigger] series@[k]).origin@ == origin@ && series@[k].ticketed@ == ticketed@),
        decreases series@.len() - i,
    {
        let p = &series[i];
        let same_fp = str_eq(p.fingerprint.as_str(), fingerprint);
        assert(same_fp == (series@[i as int].fingerprint@ == fingerprint@));
        assert(has_fp == (fingerprint@.len() > 0));
        m1.push(has_fp && same_fp);
        assert(m1@[i as int] == (fingerprint@.len() > 0 && series@[i as int].fingerprint@ == fingerprint@));
        let route = str_eq(p.origin.as_str(), origin) && str_eq(p.ticketed.as_str(), ticketed);
        m2.push(route && str_eq(p.date.as_str(), date));
        m3.push(route);
        i = i + 1;
    }
    let exact = filter_points(series, &m1, Ghost(|p: FarePoint| fingerprint@.len() > 0 && p.fingerprint@ == fingerprint@));
    if exact.len() >= 2 {
        return exact;
    }
    let same_day = filter_points(series, &m2,
        Ghost(|p: FarePoint| p.origin@ == origin@ && p.ticketed@ == ticketed@ && p.date@ == date@));
    if same_day.len() >= 2 {
        return same_day;
    }
    if exact.len() > 0 {
        return exact;
    }
    if same_day.len() > 0 {
        return same_day;
    }
    filter_points(series, &m3, Ghost(|p: FarePoint| p.origin@ == origin@ && p.ticketed@ == ticketed@))
}

/// `rows` is `picked` with the current price added when it is positive and the last
/// point is missing, over 20 minutes away from `now`, or more than 50 cents off.
pub open spec fn with_current(picked: Seq<FarePoint>, current: Option<i64>, now: Instant, rows: Seq<FarePoint>) -> bool {
    let adds = current is Some && current->0 > 0 && (picked.len() == 0 || {
        let p = picked.last();
        let m = minutes_between(p.observed_at, now);
        (m > 20 || m < -20) || (p.price - current->0 > 50 || current->0 - p.price > 50)
    });
    if adds {
        &&& rows.len() == picked.len() + 1
        &&& rows.drop_last() == picked
        &&& rows.last().price == current->0
        &&& rows.last().observed_at == now
        &&& rows.last().fingerprint@.len() == 0
        &&& rows.last().origin@.len() == 0
        &&& rows.last().ticketed@.len() == 0
        &&& rows.last().date@.len() == 0
    } else {
        rows == picked
    }
}

/// The sort key of a point: when it was observed.
pub open spec fn time_keys(rows: Seq<FarePoint>) -> Seq<Seq<i64>> {
    rows.map_values(|p: FarePoint| seq![p.observed_at.secs, p.observed_at.nanos as i64])
}

/// Points in the order a permutation gives.
pub open spec fn arranged(rows: Seq<FarePoint>, p: Seq<usize>) -> Seq<FarePoint> {
    Seq::new(p.len(), |k: int| rows[p[k] as int])
}

/// Row `i` holds the first lowest price.
pub open spec fn cheapest_row(rows: Seq<FarePoint>, i: int) -> bool {
    &&& 0 <= i < rows.len()
    &&& forall|j: int| 0 <= j < i ==> (#[trigger] rows[j]).price > rows[i].price
    &&& forall|j: int| i < j < rows.len() ==> (#[trigger] rows[j]).price >= rows[i].price
}

/// The row a sparkline samples for step `n` of 23: `n` twenty-thirds of the way,
/// rounded.
pub open spec fn sample_at(len: int, n: int) -> int {
    let x = round_half_away(n * (len - 1), 23);
    if x < len - 1 { x } else { len - 1 }
}

/// Whether a sparkline keeps row `i`: every row when there are at most 24; else the
/// first, the last, the first cheapest and the 23 evenly spaced samples.
pub open spec fn kept_row(rows: Seq<FarePoint>, i: int) -> bool {
    ||| rows.len() <= max_points()
    ||| i == 0
    ||| i == rows.len() - 1
    ||| cheapest_row(rows, i)
    ||| exists|n: int| 1 <= n < max_points() && #[trigger] sample_at(rows.len() as int, n) == i
}

/// A sparkline point: its time as text and its price.
pub type PointView = (Seq<char>, i64);

/// The sparkline of the first `k` rows.
pub open spec fn sampled(rows: Seq<FarePoint>, k: int) -> Seq<PointView>
    decreases k,
{
    if k <= 0 {
        Seq::empty()
    } else if kept_row(rows, k - 1) {
        sampled(rows, k - 1).push((rfc3339_text(rows[k - 1].observed_at.secs, rows[k - 1].observed_at.nanos), rows[k - 1].price))
    } else {
        sampled(rows, k - 1)
    }
}

pub open spec fn point_views(ps: Seq<PricePoint>) -> Seq<PointView> {
    ps.map_values(|p: PricePoint| (p.t@, p.price))
}

/// The lowest price of a non-empty sparkline.
pub open spec fn min_price(ps: Seq<PointView>) -> i64
    decreases ps.len(),
{
    if ps.len() <= 1 {
        ps[0].1
    } else {
        let m = min_price(ps.drop_last());
        if ps.last().1 < m { ps.last().1 } else { m }
    }
}

/// The highest price of a non-empty sparkline.
pub open spec fn max_price(ps: Seq<PointView>) -> i64
    decreases ps.len(),
{
    if ps.len() <= 1 {
        ps[0].1
    } else {
        let m = max_price(ps.drop_last());
        if ps.last().1 > m { ps.last().1 } else { m }
    }
}

/// The time of the first point with the lowest price of a non-empty sparkline.
pub open spec fn low_time(ps: Seq<PointView>) -> Seq<char>
    decreases ps.len(),
{
    if ps.len() <= 1 {
        ps[0].0
    } else if ps.last().1 < min_price(ps.drop_last()) {
        ps.last().0
    } else {
        low_time(ps.drop_last())
    }
}

/// `new` under two points; else `rising` when the last is over 104% of the first,
/// `falling` when under 96%, `stable` otherwise.
pub open spec fn trend_spec(ps: Seq<PointView>) -> Seq<char> {
    if ps.len() < 2 {
        "new"@
    } else if 100 * ps.last().1 > 104 * ps[0].1 {
        "rising"@
    } else if 100 * ps.last().1 < 96 * ps[0].1 {
        "falling"@
    } else {
        "stable"@
    }
}

/// The earlier of an offer's expiry and last ticketing date.
pub open spec fn deadline(o: Offer) -> Option<Instant> {
    match (offer_time(opt_view(o.expires_at)), offer_time(opt_view(o.last_ticketing_date))) {
        (Some(a), Some(b)) => if is_after(a, b) { Some(b) } else { Some(a) },
        (Some(a), None) => Some(a),
        (None, Some(b)) => Some(b),
        (None, None) => None,
    }
}

/// When the first flight of an offer leaves.
pub open spec fn departure(o: Offer) -> Option<Instant> {
    if o.segments@.len() > 0 { offer_time(Some(o.segments@[0].dep@)) } else { None }
}

/// The window of `through` from its sorted price rows.
pub open spec fn window_of(through: Offer, current: Option<i64>, rows: Seq<FarePoint>, now: Instant, w: FareWindow) -> bool {
    let ps = sampled(rows, rows.len() as int);
    let low = if ps.len() == 0 { None } else { Some(min_price(ps)) };
    let trend = trend_spec(ps);
    let seats = if through.seats is Some && through.seats->0 > 0 { through.seats } else { None };
    let depart = match departure(through) { Some(d) => Some(minutes_between(now, d) as i64), None => None };
    let expire = match deadline(through) {
        Some(d) => if is_after(d, now) { Some(minutes_between(now, d) as i64) } else { None },
        None => None,
    };
    &&& point_views(w.points@) == ps
    &&& w.low == low
    &&& w.high == (if ps.len() == 0 { None } else { Some(max_price(ps)) })
    &&& (match w.low_at { Some(t) => ps.len() > 0 && t@ == low_time(ps), None => ps.len() == 0 })
    &&& w.trend@ == trend
    &&& w.seats == seats
    &&& w.current == current
    &&& w.minutes_to_depart == (if depart is Some && depart->0 > 0 { depart } else { None })
    &&& w.minutes_to_expire == expire
    &&& w.urgency@ == urgency_spec(seats, depart, expire, trend, current, low)
    &&& w.label@ == label_spec(seats, depart, expire, trend, urgency_spec(seats, depart, expire, trend, current, low))
    &&& w.headline@ == headline_spec(seats, depart, expire, trend, current, low)
}

/// The row sampled for step `n` of 23 among `len` rows.
fn sample_index(len: usize, n: usize) -> (r: usize)
    requires
        len >= 1,
        1 <= n < 24,
    ensures
        r == sample_at(len as int, n as int),
        r < len,
{
    let a: u128 = n as u128;
    let b: u128 = (len - 1) as u128;
    assert(a * b <= 24 * 0xffff_ffff_ffff_ffff) by (nonlinear_arith)
        requires
            a < 24,
            b <= 0xffff_ffff_ffff_ffff;
    let x: u128 = (a * b + 11) / 23;
    if x < (len - 1) as u128 { x as usize } else { len - 1 }
}

proof fn lemma_cheapest_unique(rows: Seq<FarePoint>, i: int, j: int)
    requires
        cheapest_row(rows, i),
        cheapest_row(rows, j),
    ensures
        i == j,
{
    if i < j {
        assert(rows[i].price > rows[j].price);
        assert(rows[j].price >= rows[i].price);
    } else if j < i {
        assert(rows[j].price > rows[i].price);
        assert(rows[i].price >= rows[j].price);
    }
}

/// The sparkline of the rows (see `kept_row`).
fn downsample(rows: &Vec<FarePoint>) -> (r: Vec<PricePoint>)
    ensures
        point_views(r@) == sampled(rows@, rows@.len() as int),
{
    let n = rows.len();
    let mut out: Vec<PricePoint> = Vec::new();
    if n == 0 {
        assert(point_views(out@) =~= sampled(rows@, 0));
        return out;
    }
    // the first cheapest row
    let mut best: usize = 0;
    let mut i: usize = 1;
    while i < n
        invariant
            n == rows@.len(),
            1 <= i <= n,
            best < i,
            forall|j: int| 0 <= j < best ==> (#[trigger] rows@[j]).price > rows@[best as int].price,
            forall|j: int| best < j < i ==> (#[trigger] rows@[j]).price >= rows@[best as int].price,
        decreases n - i,
    {
        if rows[i].price < rows[best].price {
            best = i;
        }
        i = i + 1;
    }
    assert(cheapest_row(rows@, best as int));
    let mut k: usize = 0;
    while k < n
        invariant
            n == rows@.len(),
            n >= 1,
            k <= n,
            cheapest_row(rows@, best as int),
            point_views(out@) == sampled(rows@, k as int),
        decreases n - k,
    {
        let mut keep = n <= 24 || k == 0 || k == n - 1 || k == best;
        let mut s: usize = 1;
        while s < 24
            invariant
                n == rows@.len(),
                n >= 1,
                k < n,
                1 <= s <= 24,
                keep == (n <= 24 || k == 0 || k == n - 1 || k == best
                    || exists|m: int| 1 <= m < s && #[trigger] sample_at(n as int, m) == k),
            decreases 24 - s,
        {
            if sample_index(n, s) == k {
                keep = true;
            }
            s = s + 1;
        }
        proof {
            if cheapest_row(rows@, k as int) {
                lemma_cheapest_unique(rows@, k as int, best as int);
            }
            assert(keep == kept_row(rows@, k as int));
        }
        if keep {
            let t = instant_text(&rows[k].observed_at);
            let ghost before = out@;
            out.push(PricePoint { t, price: rows[k].price });
            assert(point_views(out@) =~= point_views(before).push((rfc3339_text(rows@[k as int].observed_at.secs,
                rows@[k as int].observed_at.nanos), rows@[k as int].price)));
        }
        k = k + 1;
    }
    out
}

/// Lowest price, highest price, and the time of the first lowest.
fn extrema(points: &Vec<PricePoint>) -> (r: (Option<i64>, Option<i64>, Option<String>))
    ensures
        ({
            let ps = point_views(points@);
            &&& r.0 == (if ps.len() == 0 { None } else { Some(min_price(ps)) })
            &&& r.1 == (if ps.len() == 0 { None } else { Some(max_price(ps)) })
            &&& (match r.2 { Some(t) => ps.len() > 0 && t@ == low_time(ps), None => ps.len() == 0 })
        }),
{
    let ghost ps = point_views(points@);
    let mut low: Option<i64> = None;
    let mut high: Option<i64> = None;
    let mut low_at: Option<String> = None;
    let mut i: usize = 0;
    while i < points.len()
        invariant
            ps == point_views(points@),
            i <= points@.len(),
            i == 0 ==> low is None && high is None && low_at is None,
            i > 0 ==> low == Some(min_price(ps.subrange(0, i as int))) && high == Some(max_price(ps.subrange(0, i as int)))
                && (low_at matches Some(t) && t@ == low_time(ps.subrange(0, i as int))),
        decreases points@.len() - i,
    {
        let p = &points[i];
        let ghost pre = ps.subrange(0, i as int);
        let ghost next = ps.subrange(0, i + 1);
        assert(next.drop_last() =~= pre);
        assert(next.last() == (p.t@, p.price));
        let lower = match low { Some(n) => p.price < n, None => true };
        if lower {
            low = Some(p.price);
            low_at = Some(p.t.clone());
        }
        let higher = match high { Some(n) => p.price > n, None => true };
        if higher {
            high = Some(p.price);
        }
        i = i + 1;
    }
    assert(ps.subrange(0, points@.len() as int) =~= ps);
    (low, high, low_at)
}

/// See [`trend_spec`].
fn trend_of(points: &Vec<PricePoint>) -> (r: &'static str)
    requires
        forall|i: int| 0 <= i < points@.len() ==> price_ok(#[trigger] points@[i].price),
    ensures
        r@ == trend_spec(point_views(points@)),
{
    proof {
        reveal_strlit("new");
        reveal_strlit("rising");
        reveal_strlit("falling");
        reveal_strlit("stable");
    }
    let n = points.len();
    if n < 2 {
        return "new";
    }
    let first = points[0].price as i128;
    let last = points[n - 1].price as i128;
    if 100 * last > 104 * first {
        "rising"
    } else if 100 * last < 96 * first {
        "falling"
    } else {
        "stable"
    }
}

/// See [`deadline`].
fn soonest_deadline(offer: &Offer) -> (r: Option<Instant>)
    ensures
        r == deadline(*offer),
        r matches Some(t) ==> instant_ok(t),
{
    let exp = parse_offer_time(opt_str(&offer.expires_at));
    let ticket = parse_offer_time(opt_str(&offer.last_ticketing_date));
    match (exp, ticket) {
        (Some(a), Some(b)) => if later(&a, &b) { Some(b) } else { Some(a) },
        (Some(a), None) => Some(a),
        (None, Some(b)) => Some(b),
        (None, None) => None,
    }
}

/// The window of a through ticket from its picked price rows, the current price
/// (cents) and the time.
pub fn finish_window(through: &Offer, current: Option<i64>, picked: Vec<FarePoint>, now: &Instant) -> (r: FareWindow)
    requires
        instant_ok(*now),
        current matches Some(c) ==> price_ok(c),
        forall|i: int| 0 <= i < picked@.len() ==> instant_ok((#[trigger] picked@[i]).observed_at) && price_ok(picked@[i].price),
    ensures
        exists|rows: Seq<FarePoint>, p: Seq<usize>| #[trigger] with_current(picked@, current, *now, rows)
            && #[trigger] sorted_by(time_keys(rows), p) && window_of(*through, current, arranged(rows, p), *now, r),
{
    let mut rows = picked;
    let ghost before = rows@;
    match current {
        Some(c) => {
            if c > 0 {
                let stale = if rows.len() == 0 {
                    true
                } else {
                    let last = &rows[rows.len() - 1];
                    let m = mins_between(&last.observed_at, now);
                    (m > 20 || m < -20) || (last.price - c > 50 || c - last.price > 50)
                };
                if stale {
                    rows.push(FarePoint {
                        fingerprint: String::new(),
                        origin: String::new(),
                        ticketed: String::new(),
                        date: String::new(),
                        price: c,
                        observed_at: *now,
                    });
                    assert(rows@.drop_last() =~= before);
                }
            }
        },
        None => {},
    }
    assert(with_current(before, current, *now, rows@));
    // order by time observed
    let mut keys: Vec<Vec<i64>> = Vec::new();
    let mut i: usize = 0;
    while i < rows.len()
        invariant
            i <= rows@.len(),
            keys@.len() == i,
            forall|k: int| 0 <= k < i ==> (#[trigger] keys@[k])@ == seq![rows@[k].observed_at.secs, rows@[k].observed_at.nanos as i64],
        decreases rows@.len() - i,
    {
        let mut key: Vec<i64> = Vec::new();
        key.push(rows[i].observed_at.secs);
        key.push(rows[i].observed_at.nanos as i64);
        assert(key@ =~= seq![rows@[i as int].observed_at.secs, rows@[i as int].observed_at.nanos as i64]);
        keys.push(key);
        i = i + 1;
    }
    assert(key_views(keys@) =~= time_keys(rows@));
    let p = sort_order(&keys);
    let mut sorted: Vec<FarePoint> = Vec::new();
    let mut q: usize = 0;
    while q < p.len()
        invariant
            is_perm(p@, rows@.len() as int),
            q <= p@.len(),
            sorted@ == arranged(rows@, p@).subrange(0, q as int),
        decreases p@.len() - q,
    {
        let idx = p[q];
        assert((p@[q as int] as int) < rows@.len());
        sorted.push(rows[idx].clone());
        q = q + 1;
        assert(sorted@ =~= arranged(rows@, p@).subrange(0, q as int));
    }
    assert(sorted@ =~= arranged(rows@, p@));
    assert forall|k: int| 0 <= k < sorted@.len() implies price_ok((#[trigger] sorted@[k]).price) by {
        let j = p@[k] as int;
        if j < before.len() {
            assert(rows@[j] == before[j]);
        }
    }
    let points = downsample(&sorted);
    proof {
        lemma_sampled_prices(sorted@, sorted@.len() as int);
    }
    assert forall|i: int| 0 <= i < points@.len() implies price_ok(#[trigger] points@[i].price) by {
        assert(point_views(points@)[i].1 == points@[i].price);
    }
    let (low, high, low_at) = extrema(&points);
    proof {
        if point_views(points@).len() > 0 {
            assert forall|i: int| 0 <= i < point_views(points@).len() implies price_ok(#[trigger] point_views(points@)[i].1) by {
                assert(point_views(points@)[i].1 == points@[i].price);
            }
            lemma_min_price_ok(point_views(points@));
        }
    }
    let trend = trend_of(&points);
    let seats: Option<i32> = match through.seats {
        Some(n) => if n > 0 { Some(n) } else { None },
        None => None,
    };
    let depart: Option<Instant> = if through.segments.len() > 0 {
        parse_offer_time(Some(through.segments[0].dep.as_str()))
    } else {
        None
    };
    let expire = soonest_deadline(through);
    let to_depart: Option<i64> = match depart {
        Some(d) => Some(mins_between(now, &d)),
        None => None,
    };
    let to_expire: Option<i64> = match expire {
        Some(d) => if later(&d, now) { Some(mins_between(now, &d)) } else { None },
        None => None,
    };
    let (urgency, label, headline) = decide(seats, to_depart, to_expire, trend, current, low);
    let shown_depart = match to_depart {
        Some(m) => if m > 0 { Some(m) } else { None },
        None => None,
    };
    FareWindow {
        urgency,
        label,
        headline,
        minutes_to_depart: shown_depart,
        minutes_to_expire: to_expire,
        seats,
        trend: trend.to_owned(),
        current,
        low,
        high,
        low_at,
        points,
    }
}

/// Every price of a sparkline is one of its rows' prices.
proof fn lemma_sampled_prices(rows: Seq<FarePoint>, k: int)
    requires
        0 <= k <= rows.len(),
        forall|i: int| 0 <= i < rows.len() ==> price_ok(#[trigger] rows[i].price),
    ensures
        forall|i: int| 0 <= i < sampled(rows, k).len() ==> price_ok(#[trigger] sampled(rows, k)[i].1),
    decreases k,
{
    if k > 0 {
        lemma_sampled_prices(rows, k - 1);
        let prev = sampled(rows, k - 1);
        if kept_row(rows, k - 1) {
            assert forall|i: int| 0 <= i < sampled(rows, k).len() implies price_ok(#[trigger] sampled(rows, k)[i].1) by {
                if i < prev.len() {
                    assert(sampled(rows, k)[i] == prev[i]);
                } else {
                    assert(sampled(rows, k)[i].1 == rows[k - 1].price);
                }
            }
        }
    }
}

/// The lowest price of a sparkline whose prices are in range is in range.
proof fn lemma_min_price_ok(ps: Seq<PointView>)
    requires
        ps.len() > 0,
        forall|i: int| 0 <= i < ps.len() ==> price_ok(#[trigger] ps[i].1),
    ensures
        price_ok(min_price(ps)),
    decreases ps.len(),
{
    if ps.len() > 1 {
        let d = ps.drop_last();
        assert forall|i: int| 0 <= i < d.len() implies price_ok(#[trigger] d[i].1) by {
            assert(d[i] == ps[i]);
        }
        lemma_min_price_ok(d);
        assert(price_ok(ps[ps.len() - 1].1));
    } else {
        assert(price_ok(ps[0].1));
    }
}

/// The date of a departure time: its first ten bytes, or nothing when the tenth
/// byte does not end a character.
pub open spec fn dep_date(dep: Seq<char>) -> Seq<char> {
    match prefix_bytes(dep, 10) {
        Some(d) => d,
        None => Seq::empty(),
    }
}

/// The series a through ticket is judged by (see `pick_series_spec`): by its
/// fingerprint, its origin and final airport (upper-cased) and its departure date.
pub open spec fn series_for(through: Offer, series: Seq<FarePoint>) -> Seq<FarePoint> {
    let segs = through.segments@;
    let origin = if segs.len() > 0 { to_upper(segs[0].origin@) } else { Seq::empty() };
    let last = if segs.len() > 0 { to_upper(segs.last().dest@) } else { Seq::empty() };
    let date = if segs.len() > 0 { dep_date(segs[0].dep@) } else { Seq::empty() };
    pick_series_spec(fingerprint_of(segs), origin, last, date, series)
}

/// The buying window of a through ticket at `now`, from the observed prices of the
/// same ticket (or route) and the current price (cents).
pub fn window_for(through: &Offer, current: Option<i64>, series: &[FarePoint], now: &Instant) -> (r: FareWindow)
    requires
        fingerprint_ok(*through),
        instant_ok(*now),
        current matches Some(c) ==> price_ok(c),
        forall|i: int| 0 <= i < series@.len() ==> instant_ok((#[trigger] series@[i]).observed_at) && price_ok(series@[i].price),
    ensures
        exists|rows: Seq<FarePoint>, p: Seq<usize>| #[trigger] with_current(series_for(*through, series@), current, *now, rows)
            && #[trigger] sorted_by(time_keys(rows), p) && window_of(*through, current, arranged(rows, p), *now, r),
{
    let fp = itinerary_fingerprint(through);
    let n = through.segments.len();
    let origin = if n > 0 { upper(through.segments[0].origin.as_str()) } else { String::new() };
    let last = if n > 0 { upper(through.segments[n - 1].dest.as_str()) } else { String::new() };
    let date = if n > 0 {
        match byte_prefix(through.segments[0].dep.as_str(), 10) {
            Some(d) => d,
            None => String::new(),
        }
    } else {
        String::new()
    };
    let picked = pick_series(fp.as_str(), origin.as_str(), last.as_str(), date.as_str(), series);
    proof {
        assert(picked@ == series_for(*through, series@));
        let exact = series@.filter(|p: FarePoint| fp@.len() > 0 && p.fingerprint@ == fp@);
        let same_day = series@.filter(|p: FarePoint| p.origin@ == origin@ && p.ticketed@ == last@ && p.date@ == date@);
        let route = series@.filter(|p: FarePoint| p.origin@ == origin@ && p.ticketed@ == last@);
        assert forall|i: int| 0 <= i < series@.len() implies point_ok(#[trigger] series@[i]) by {}
        lemma_filter_ok(series@, |p: FarePoint| fp@.len() > 0 && p.fingerprint@ == fp@);
        lemma_filter_ok(series@, |p: FarePoint| p.origin@ == origin@ && p.ticketed@ == last@ && p.date@ == date@);
        lemma_filter_ok(series@, |p: FarePoint| p.origin@ == origin@ && p.ticketed@ == last@);
        assert forall|i: int| 0 <= i < picked@.len() implies point_ok(#[trigger] picked@[i]) by {}
    }
    finish_window(through, current, picked, now)
}

/// A point that can enter a window: a time chrono can hold and a price in range.
pub open spec fn point_ok(p: FarePoint) -> bool {
    instant_ok(p.observed_at) && price_ok(p.price)
}

/// Filtering keeps points that can enter a window.
proof fn lemma_filter_ok(s: Seq<FarePoint>, pred: spec_fn(FarePoint) -> bool)
    requires
        forall|i: int| 0 <= i < s.len() ==> point_ok(#[trigger] s[i]),
    ensures
        forall|i: int| 0 <= i < s.filter(pred).len() ==> point_ok(#[trigger] s.filter(pred)[i]),
    decreases s.len(),
{
    reveal(Seq::filter);
    if s.len() > 0 {
        let d = s.drop_last();
        assert forall|i: int| 0 <= i < d.len() implies point_ok(#[trigger] d[i]) by {
            assert(d[i] == s[i]);
        }
        lemma_filter_ok(d, pred);
        assert(point_ok(s[s.len() - 1]));
        let f = d.filter(pred);
        assert(s.filter(pred) == if pred(s.last()) { f.push(s.last()) } else { f });
        assert forall|i: int| 0 <= i < s.filter(pred).len() implies point_ok(#[trigger] s.filter(pred)[i]) by {
            if i < f.len() {
                assert(s.filter(pred)[i] == f[i]);
            } else {
                assert(s.filter(pred)[i] == s.last());
            }
        }
    }
}

} // verus!
