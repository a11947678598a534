//! Time spent between flights on the outbound part of a ticket.
use vstd::prelude::*;
use crate::models::{Offer, Segment};
use crate::times::{
    Instant, instant_ok, rfc3339_instant, naive_instant, offset_instant, parse_rfc3339, parse_naive,
    parse_with_offset, replace_z, z_to_offset, seconds_between, secs_between, trunc_div,
};
use crate::hidden::clamp;

verus! {

/// The leg-time formats tried after RFC 3339, in order.
pub open spec fn leg_format(i: int) -> Seq<char> {
    if i == 0 {
        "%Y-%m-%dT%H:%M:%S%.f%:z"@
    } else if i == 1 {
        "%Y-%m-%dT%H:%M:%S%:z"@
    } else if i == 2 {
        "%Y-%m-%dT%H:%M:%S%.f"@
    } else if i == 3 {
        "%Y-%m-%dT%H:%M:%S"@
    } else {
        "%Y-%m-%dT%H:%M"@
    }
}

/// Each format from `i` on, first as UTC wall time, then with an offset.
pub open spec fn try_formats(raw: Seq<char>, i: int) -> Option<Instant>
    decreases 5 - i,
{
    if i < 0 || i >= 5 {
        None
    } else {
        match naive_instant(raw, leg_format(i)) {
            Some(t) => Some(t),
            None => match offset_instant(raw, leg_format(i)) {
                Some(t) => Some(t),
                None => try_formats(raw, i + 1),
            },
        }
    }
}

/// The instant of a leg time: RFC 3339 once `Z` reads `+00:00`, else the formats.
pub open spec fn leg_time(v: Seq<char>) -> Option<Instant> {
    if v.len() == 0 {
        None
    } else {
        match rfc3339_instant(z_to_offset(v)) {
            Some(t) => Some(t),
            None => try_formats(z_to_offset(v), 0),
        }
    }
}

fn format_at(i: usize) -> (r: &'static str)
    requires
        i < 5,
    ensures
        r@ == leg_format(i as int),
{
    if i == 0 {
        "%Y-%m-%dT%H:%M:%S%.f%:z"
    } else if i == 1 {
        "%Y-%m-%dT%H:%M:%S%:z"
    } else if i == 2 {
        "%Y-%m-%dT%H:%M:%S%.f"
    } else if i == 3 {
        "%Y-%m-%dT%H:%M:%S"
    } else {
        "%Y-%m-%dT%H:%M"
    }
}

pub fn parse_leg_time(value: &str) -> (r: Option<Instant>)
    ensures
        r == leg_time(value@),
        r matches Some(t) ==> instant_ok(t),
{
    if value.is_empty() {
        return None;
    }
    let raw = replace_z(value);
    if let Some(t) = parse_rfc3339(raw.as_str()) {
        return Some(t);
    }
    let mut i: usize = 0;
    while i < 5
        invariant
            i <= 5,
            raw@ == z_to_offset(value@),
            value@.len() > 0,
            rfc3339_instant(raw@) is None,
            try_formats(raw@, 0) == try_formats(raw@, i as int),
        decreases 5 - i,
    {
        let f = format_at(i);
        if let Some(t) = parse_naive(raw.as_str(), f) {
            return Some(t);
        }
        if let Some(t) = parse_with_offset(raw.as_str(), f) {
            return Some(t);
        }
        i = i + 1;
    }
    None
}

/// The outbound segments: up to `outbound_end` when the ticket names it.
pub open spec fn outbound_segments(o: Offer) -> Seq<Segment> {
    let segs = o.segments@;
    if o.outbound_end is Some && segs.len() > 0 {
        segs.subrange(0, clamp(o.outbound_end->0 as int, 0, segs.len() - 1) + 1)
    } else {
        segs
    }
}

/// The whole minutes of the connection between segment `k` and `k + 1`, when both
/// times parse.
pub open spec fn gap_at(segs: Seq<Segment>, k: int) -> Option<i32> {
    match (leg_time(segs[k].arr@), leg_time(segs[k + 1].dep@)) {
        (Some(a), Some(b)) => Some(trunc_div(seconds_between(a, b), 60) as i32),
        _ => None,
    }
}

/// The positive connections among the first `k` pairs: their wrapping sum and count.
pub open spec fn gaps_upto(segs: Seq<Segment>, k: int) -> (i32, int)
    decreases k,
{
    if k <= 0 {
        (0, 0)
    } else {
        let prev = gaps_upto(segs, k - 1);
        match gap_at(segs, k - 1) {
            Some(g) if g > 0 => (prev.0.wrapping_add(g), prev.1 + 1),
            _ => prev,
        }
    }
}

/// The wrapping sum of the flying minutes of the first `k` segments.
pub open spec fn air_upto(segs: Seq<Segment>, k: int) -> i32
    decreases k,
{
    if k <= 0 { 0 } else { air_upto(segs, k - 1).wrapping_add(segs[k - 1].duration_min) }
}

/// Minutes on the ground between outbound flights: the sum of the positive
/// connections that parse; failing that, the ticket's duration less its flying time
/// when positive; failing that, a day. A single flight has none.
pub open spec fn layover_spec(o: Offer) -> i32 {
    let segs = outbound_segments(o);
    let m = segs.len() as int;
    if m < 2 {
        0
    } else if gaps_upto(segs, m - 1).1 > 0 {
        gaps_upto(segs, m - 1).0
    } else {
        let inferred = o.duration_min.wrapping_sub(air_upto(segs, m));
        if inferred > 0 { inferred } else { 1440 }
    }
}

pub fn layover_minutes(offer: &Offer) -> (r: i32)
    ensures
        r == layover_spec(*offer),
{
    let n = offer.segments.len();
    let mut m = n;
    if let Some(end) = offer.outbound_end {
        if n > 0 {
            let idx: usize = if end < 0 { 0 } else if (end as usize) > n - 1 { n - 1 } else { end as usize };
            m = idx + 1;
        }
    }
    let ghost segs = outbound_segments(*offer);
    assert(segs =~= offer.segments@.subrange(0, m as int));
    if m < 2 {
        return 0;
    }
    let mut total: i32 = 0;
    let mut parsed: usize = 0;
    let mut k: usize = 0;
    while k + 1 < m
        invariant
            m <= n,
            n == offer.segments@.len(),
            segs == offer.segments@.subrange(0, m as int),
            m >= 2,
            k + 1 <= m,
            (total, parsed as int) == gaps_upto(segs, k as int),
            parsed <= k,
        decreases m - k,
    {
        let arr = parse_leg_time(offer.segments[k].arr.as_str());
        let dep = parse_leg_time(offer.segments[k + 1].dep.as_str());
        assert(segs[k as int] == offer.segments@[k as int]);
        assert(segs[k + 1] == offer.segments@[k + 1]);
        match (arr, dep) {
            (Some(a), Some(b)) => {
                let s = secs_between(&a, &b);
                let q: i64 = if s >= 0 { s / 60 } else { -((-s) / 60) };
                let gap = q as i32;
                if gap > 0 {
                    total = total.wrapping_add(gap);
                    parsed = parsed + 1;
                }
            },
            _ => {},
        }
        k = k + 1;
    }
    if parsed > 0 {
        return total;
    }
    let mut air: i32 = 0;
    let mut j: usize = 0;
    while j < m
        invariant
            m <= n,
            n == offer.segments@.len(),
            segs == offer.segments@.subrange(0, m as int),
            j <= m,
            air == air_upto(segs, j as int),
        decreases m - j,
    {
        assert(segs[j as int] == offer.segments@[j as int]);
        air = air.wrapping_add(offer.segments[j].duration_min);
        j = j + 1;
    }
    let inferred = offer.duration_min.wrapping_sub(air);
    if inferred > 0 {
        inferred
    } else {
        24 * 60
    }
}

} // verus!
