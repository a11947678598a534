//! When a supplier's quote stops being valid.
use vstd::prelude::*;
use crate::models::{Offer, same_offer, kept, keep_where};
use crate::text::{trim, trim_spec, cat};
use crate::times::{
    Instant, instant_ok, nanos_of, rfc3339_instant, naive_instant, parse_rfc3339, parse_naive, replace_z,
    z_to_offset, now_instant, is_after, later,
};

verus! {

/// The characters `+00:00`.
pub open spec fn utc_offset() -> Seq<char> {
    seq!['+', '0', '0', ':', '0', '0']
}

/// The characters of the plain date-time format `%Y-%m-%dT%H:%M:%S`.
pub open spec fn plain_format() -> Seq<char> {
    "%Y-%m-%dT%H:%M:%S"@
}

/// An offer time read from supplier text: trimmed, `Z` made `+00:00`, then RFC 3339
/// as written, RFC 3339 with `+00:00` appended, or a plain date-time read as UTC.
pub open spec fn offer_time(raw: Option<Seq<char>>) -> Option<Instant> {
    match raw {
        None => None,
        Some(r) => {
            let t = trim_spec(r);
            if t.len() == 0 {
                None
            } else {
                let z = z_to_offset(t);
                if rfc3339_instant(z) is Some {
                    rfc3339_instant(z)
                } else if rfc3339_instant(z + utc_offset()) is Some {
                    rfc3339_instant(z + utc_offset())
                } else {
                    naive_instant(z, plain_format())
                }
            }
        },
    }
}

/// The characters of an optional string.
pub open spec fn opt_view(s: Option<String>) -> Option<Seq<char>> {
    match s {
        Some(x) => Some(x@),
        None => None,
    }
}

/// See [`offer_time`].
pub fn parse_offer_time(raw: Option<&str>) -> (r: Option<Instant>)
    ensures
        r == offer_time(match raw { Some(x) => Some(x@), None => None }),
        r matches Some(t) ==> instant_ok(t),
{
    let text = match raw {
        Some(x) => trim(x),
        None => return None,
    };
    if text.as_str().is_empty() {
        return None;
    }
    let z = replace_z(text.as_str());
    if let Some(t) = parse_rfc3339(z.as_str()) {
        return Some(t);
    }
    proof {
        reveal_strlit("+00:00");
        assert("+00:00"@ =~= utc_offset());
        reveal_strlit("%Y-%m-%dT%H:%M:%S");
    }
    let with_offset = cat(z.as_str(), "+00:00");
    if let Some(t) = parse_rfc3339(with_offset.as_str()) {
        return Some(t);
    }
    parse_naive(z.as_str(), "%Y-%m-%dT%H:%M:%S")
}

/// The text of an optional string.
pub fn opt_str(s: &Option<String>) -> (r: Option<&str>)
    ensures
        match (r, *s) {
            (Some(a), Some(b)) => a@ == b@,
            (None, None) => true,
            _ => false,
        },
{
    match s {
        Some(x) => Some(x.as_str()),
        None => None,
    }
}

/// An offer is still valid at `now`: it has no readable expiry, or expires after `now`.
pub open spec fn unexpired_spec(o: Offer, now: Instant) -> bool {
    match offer_time(opt_view(o.expires_at)) {
        None => true,
        Some(exp) => is_after(exp, now),
    }
}

/// Whether the offer is still valid at `now` (the current time when `None`; the clock
/// is then read once).
pub fn offer_unexpired_at(offer: &Offer, now: Option<Instant>) -> (r: bool)
    requires
        now matches Some(t) ==> instant_ok(t),
    ensures
        now matches Some(t) ==> r == unexpired_spec(*offer, t),
        now is None ==> exists|t: Instant| instant_ok(t) && r == #[trigger] unexpired_spec(*offer, t),
{
    let exp = match parse_offer_time(opt_str(&offer.expires_at)) {
        Some(e) => e,
        None => {
            let epoch = Instant { secs: 0, nanos: 0 };
            assert(instant_ok(epoch) && unexpired_spec(*offer, epoch));
            return true;
        },
    };
    let moment = match now {
        Some(t) => t,
        None => now_instant(),
    };
    let r = later(&exp, &moment);
    assert(instant_ok(moment) && r == unexpired_spec(*offer, moment));
    r
}

/// `out` holds the offers of `offers` still valid at `t`, in order.
pub open spec fn kept_valid(offers: Seq<Offer>, out: Seq<Offer>, t: Instant) -> bool {
    kept(offers, out, |o: Offer| unexpired_spec(o, t))
}

/// Whether the offer is still valid now.
pub fn offer_unexpired(offer: &Offer) -> (r: bool)
    ensures
        exists|t: Instant| instant_ok(t) && r == #[trigger] unexpired_spec(*offer, t),
{
    offer_unexpired_at(offer, None)
}

/// The offers still valid at `now` (the current time when `None`, read once).
pub fn unexpired_at(offers: &[Offer], now: Option<Instant>) -> (r: Vec<Offer>)
    requires
        now matches Some(t) ==> instant_ok(t),
    ensures
        exists|t: Instant| instant_ok(t) && (now matches Some(n) ==> t == n)
            && #[trigger] kept_valid(offers@, r@, t),
{
    let moment = match now {
        Some(t) => t,
        None => now_instant(),
    };
    let mut mask: Vec<bool> = Vec::new();
    let mut i: usize = 0;
    while i < offers.len()
        invariant
            instant_ok(moment),
            i <= offers@.len(),
            mask@.len() == i,
            forall|k: int| 0 <= k < i ==> mask@[k] == unexpired_spec(#[trigger] offers@[k], moment),
        decreases offers@.len() - i,
    {
        mask.push(offer_unexpired_at(&offers[i], Some(moment)));
        i = i + 1;
    }
    let r = keep_where(offers, &mask, Ghost(|o: Offer| unexpired_spec(o, moment)));
    assert(kept_valid(offers@, r@, moment));
    r
}

/// The offers still valid now.
pub fn unexpired(offers: &[Offer]) -> (r: Vec<Offer>)
    ensures
        exists|t: Instant| instant_ok(t) && #[trigger] kept_valid(offers@, r@, t),
{
    unexpired_at(offers, None)
}

/// See [`unexpired`]; the clock is read once for all offers.
pub fn take_unexpired(offers: Vec<Offer>) -> (r: Vec<Offer>)
    ensures
        exists|t: Instant| instant_ok(t) && #[trigger] kept_valid(offers@, r@, t),
{
    unexpired_at(offers.as_slice(), None)
}

} // verus!
