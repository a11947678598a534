//! What using a hidden-city ticket risks, and the match record shown for it.
use vstd::prelude::*;
use crate::models::{Offer, RiskItem, RiskAssessment, HiddenCityMatch, BookerLink, cents_ok, max_cents, same_offer};
use crate::text::{to_upper, upper, str_eq, cat};
use crate::times::{Instant, instant_ok, rfc3339_instant, parse_rfc3339, replace_z, z_to_offset, seconds_between, secs_between, trunc_div};
use crate::fx::{round_half_away, abs};
use crate::hidden::{ticketed, ticketed_destination};

verus! {

/// The warnings every hidden-city match carries.
pub fn hidden_city_warnings() -> (r: Vec<String>)
    ensures
        r@.len() == 6,
{
    let mut v: Vec<String> = Vec::new();
    v.push("Hidden-city itineraries carry special restrictions.".to_owned());
    v.push("Do not check baggage unless your baggage is confirmed to be delivered at your intended stop.".to_owned());
    v.push("Skipping a segment may cancel all subsequent segments on the same ticket.".to_owned());
    v.push("Airline contracts and policies may restrict hidden-city ticketing.".to_owned());
    v.push("Schedule changes may alter the connection airport.".to_owned());
    v.push("This prototype does not provide legal or contractual advice.".to_owned());
    v
}

fn item(id: &str, label: &str, severity: &str, predictability: &str, why: &str) -> (r: RiskItem)
    ensures
        r.id@ == id@,
        r.label@ == label@,
        r.severity@ == severity@,
        r.predictability@ == predictability@,
        r.why@ == why@,
{
    RiskItem {
        id: id.to_owned(),
        label: label.to_owned(),
        severity: severity.to_owned(),
        predictability: predictability.to_owned(),
        why: why.to_owned(),
    }
}

/// An instant read from a leg time: RFC 3339 after `Z` becomes `+00:00`, or the same
/// text with `+00:00` appended.
pub open spec fn leg_instant(raw: Seq<char>) -> Option<Instant> {
    let a = z_to_offset(raw);
    match rfc3339_instant(a) {
        Some(t) => Some(t),
        None => rfc3339_instant(a + seq!['+', '0', '0', ':', '0', '0']),
    }
}

fn parse_leg(raw: &str) -> (r: Option<Instant>)
    ensures
        r == leg_instant(raw@),
        r matches Some(t) ==> instant_ok(t),
{
    let a = replace_z(raw);
    match parse_rfc3339(a.as_str()) {
        Some(t) => Some(t),
        None => {
            let b = cat(a.as_str(), "+00:00");
            proof {
                reveal_strlit("+00:00");
                assert("+00:00"@ =~= seq!['+', '0', '0', ':', '0', '0']);
            }
            parse_rfc3339(b.as_str())
        },
    }
}

/// Minutes between the first arrival and the second departure of a ticket.
pub open spec fn connect_spec(o: Offer) -> Option<int> {
    if o.segments@.len() < 2 {
        None
    } else {
        match (leg_instant(o.segments@[0].arr@), leg_instant(o.segments@[1].dep@)) {
            (Some(a), Some(b)) => Some((trunc_div(seconds_between(a, b), 60) as i32) as int),
            _ => None,
        }
    }
}

pub fn connect_minutes(offer: &Offer) -> (r: Option<i32>)
    ensures
        match (r, connect_spec(*offer)) {
            (Some(a), Some(b)) => a as int == b,
            (None, None) => true,
            _ => false,
        },
{
    if offer.segments.len() < 2 {
        return None;
    }
    let a = match parse_leg(offer.segments[0].arr.as_str()) {
        Some(t) => t,
        None => return None,
    };
    let b = match parse_leg(offer.segments[1].dep.as_str()) {
        Some(t) => t,
        None => return None,
    };
    let s = secs_between(&a, &b);
    let m: i64 = if s >= 0 { s / 60 } else { -((-s) / 60) };
    Some(m as i32)
}

/// Origin and ticketed destination lie in different countries (both known).
pub open spec fn international(origin_country: Seq<char>, hidden_country: Seq<char>) -> bool {
    origin_country.len() > 0 && hidden_country.len() > 0 && origin_country != hidden_country
}

pub open spec fn price_or_zero(p: Option<i64>) -> int {
    match p { Some(v) => v as int, None => 0 }
}

/// The saving counted for risk: local minus through, not below zero.
pub open spec fn risk_gross(local: Offer, through: Offer) -> int {
    let g = price_or_zero(local.price) - price_or_zero(through.price);
    if g > 0 { g } else { 0 }
}

/// Expected cost of a disruption: 22% of the saving, at most 18% of the local fare,
/// plus 25 dollars abroad.
pub open spec fn disruption_spec(local: Offer, through: Offer, intl: bool) -> int {
    let g = risk_gross(local, through);
    let l = price_or_zero(local.price);
    let base = round_half_away(if g * 22 < l * 18 { g * 22 } else { l * 18 }, 100);
    if intl { base + 2500 } else { base }
}

/// Expected cost of enforcement: 12% of the saving, at most 80 dollars, plus 20
/// dollars abroad.
pub open spec fn enforcement_spec(local: Offer, through: Offer, intl: bool) -> int {
    let g = risk_gross(local, through);
    let base = round_half_away(if g * 12 < 800_000 { g * 12 } else { 800_000 }, 100);
    if intl { base + 2000 } else { base }
}

/// The saving left after a bag fee (18 dollars when no bag is included), disruption
/// and enforcement.
pub open spec fn net_spec(local: Offer, through: Offer, intl: bool) -> int {
    risk_gross(local, through) - (if through.bags_included == 0 { 1800int } else { 0 })
        - disruption_spec(local, through, intl) - enforcement_spec(local, through, intl)
}

/// The usability score: 40, less 14 abroad, less 10 for three or more flights, less 8
/// for a connection under 50 minutes, kept within 8..=72.
pub open spec fn score_spec(through: Offer, intl: bool) -> int {
    let s = 40 - (if intl { 14int } else { 0 }) - (if through.segments@.len() > 2 { 10int } else { 0 })
        - (if through.duration_min > 0 && through.segments@.len() > 0 && (connect_spec(through) matches Some(c) && c < 50) {
            8int
        } else {
            0
        });
    if s < 8 { 8 } else if s > 72 { 72 } else { s }
}

/// `it` is the risk with these texts.
pub open spec fn item_is(it: RiskItem, id: Seq<char>, label: Seq<char>, severity: Seq<char>, predictability: Seq<char>, why: Seq<char>) -> bool {
    it.id@ == id && it.label@ == label && it.severity@ == severity && it.predictability@ == predictability && it.why@ == why
}

/// The risks listed for a hidden-city ticket, in order: six always, the documents
/// risk when the trip crosses a border, and the enforcement risk last.
pub open spec fn risk_items(items: Seq<RiskItem>, intl: bool) -> bool {
    &&& items.len() == if intl { 8int } else { 7int }
    &&& item_is(items[0], "baggage"@, "Checked bag continues to C"@, "high"@, "high"@, "Baggage is tagged to the ticketed itinerary, not the passenger's private destination."@)
    &&& item_is(items[1], "gate-check"@, "Carry-on unexpectedly gate-checked"@, "high"@, "medium"@, "Overhead capacity or operational limits can force a cabin bag into the hold toward C."@)
    &&& item_is(items[2], "irrops"@, "Reroute avoids B"@, "very-high"@, "low"@, "During disruption the carrier protects ticketed C, not intermediate B. The hidden city can vanish."@)
    &&& item_is(items[3], "coupons"@, "Later coupons cancelled"@, "very-high"@, "high"@, "Sequential coupon use treats the ticket as one product. Skipping B→C can void everything after it."@)
    &&& item_is(items[4], "return"@, "Return or continuing travel lost"@, "very-high"@, "high"@, "A one-way A→B→C ticket is structurally different from a return. Do not attach later coupons."@)
    &&& item_is(items[5], "flexibility"@, "Lost flexibility during disruption"@, "very-high"@, "inherent"@, "The passenger values B; the carrier values C. Those objectives diverge the moment the plan breaks."@)
    &&& (intl ==> item_is(items[6], "documents"@, "International documentation for C"@, "high"@, "high"@, "The airline processes the passenger as travelling to ticketed C, including passport and visa checks."@))
    &&& item_is(items.last(), "enforcement"@, "Questioning, repricing, or refusal"@, if intl { "high"@ } else { "medium"@ }, "low"@, "Carrier contracts of carriage may allow cancellation, repricing, refusal of carriage or fare-difference collection when a passenger does not complete the ticketed itinerary."@)
}

/// The risk summary for leaving `through` early instead of flying `local`; `intl`
/// when the trip crosses a border.
pub open spec fn risk_of(local: Offer, through: Offer, intl: bool, r: RiskAssessment) -> bool {
    &&& r.score == score_spec(through, intl)
    &&& r.net_saving_estimate == net_spec(local, through, intl)
    &&& r.expected_disruption_cost == disruption_spec(local, through, intl)
    &&& r.expected_enforcement_cost == enforcement_spec(local, through, intl)
    &&& r.one_way_only
    &&& r.carry_on_only
    &&& risk_items(r.items@, intl)
    &&& r.headline@ == (if r.score >= 50 {
        "Usable only as a fragile one-way, carry-on itinerary"@
    } else if r.score >= 35 {
        "High operational fragility — savings can disappear"@
    } else {
        "Poor candidate — document, coupon or disruption risk dominates"@
    })
}

fn round_cents(x: i64) -> (r: i64)
    requires
        -4 * max_cents() * 100 <= x <= 4 * max_cents() * 100,
    ensures
        r == round_half_away(x as int, 100),
{
    if x >= 0 { (x + 50) / 100 } else { -((-x + 50) / 100) }
}

/// The risks of leaving `through` at the hidden city instead of flying `local`.
pub fn assess(
    local: &Offer,
    through: &Offer,
    _hidden_city: &str,
    _true_dest: &str,
    origin_country: &str,
    hidden_country: &str,
) -> (r: RiskAssessment)
    requires
        cents_ok(local.price),
        cents_ok(through.price),
    ensures
        risk_of(*local, *through, international(origin_country@, hidden_country@), r),
{
    let mut items: Vec<RiskItem> = Vec::new();
    items.push(item("baggage", "Checked bag continues to C", "high", "high",
        "Baggage is tagged to the ticketed itinerary, not the passenger's private destination."));
    items.push(item("gate-check", "Carry-on unexpectedly gate-checked", "high", "medium",
        "Overhead capacity or operational limits can force a cabin bag into the hold toward C."));
    items.push(item("irrops", "Reroute avoids B", "very-high", "low",
        "During disruption the carrier protects ticketed C, not intermediate B. The hidden city can vanish."));
    items.push(item("coupons", "Later coupons cancelled", "very-high", "high",
        "Sequential coupon use treats the ticket as one product. Skipping B→C can void everything after it."));
    items.push(item("return", "Return or continuing travel lost", "very-high", "high",
        "A one-way A→B→C ticket is structurally different from a return. Do not attach later coupons."));
    items.push(item("flexibility", "Lost flexibility during disruption", "very-high", "inherent",
        "The passenger values B; the carrier values C. Those objectives diverge the moment the plan breaks."));
    let intl = !origin_country.is_empty() && !hidden_country.is_empty() && !str_eq(origin_country, hidden_country);
    if intl {
        items.push(item("documents", "International documentation for C", "high", "high",
            "The airline processes the passenger as travelling to ticketed C, including passport and visa checks."));
    }
    items.push(item("enforcement", "Questioning, repricing, or refusal", if intl { "high" } else { "medium" }, "low",
        "Carrier contracts of carriage may allow cancellation, repricing, refusal of carriage or fare-difference collection when a passenger does not complete the ticketed itinerary."));

    let l: i64 = match local.price { Some(v) => v, None => 0 };
    let t: i64 = match through.price { Some(v) => v, None => 0 };
    let g0 = l - t;
    let gross: i64 = if g0 > 0 { g0 } else { 0 };
    let extra_fees: i64 = if through.bags_included == 0 { 1800 } else { 0 };
    let d22 = gross * 22;
    let l18 = l * 18;
    let mut disruption = round_cents(if d22 < l18 { d22 } else { l18 });
    let g12 = gross * 12;
    let mut enforcement = round_cents(if g12 < 800_000 { g12 } else { 800_000 });
    if intl {
        disruption = disruption + 2500;
        enforcement = enforcement + 2000;
    }
    let net = gross - extra_fees - disruption - enforcement;

    let mut score: i32 = 58;
    score = score - 18;
    if intl {
        score = score - 14;
    }
    if through.segments.len() > 2 {
        score = score - 10;
    }
    if through.duration_min > 0 && through.segments.len() > 0 {
        if let Some(c) = connect_minutes(through) {
            if c < 50 {
                score = score - 8;
            }
        }
    }
    if score < 8 {
        score = 8;
    }
    if score > 72 {
        score = 72;
    }
    let headline = if score >= 50 {
        "Usable only as a fragile one-way, carry-on itinerary"
    } else if score >= 35 {
        "High operational fragility — savings can disappear"
    } else {
        "Poor candidate — document, coupon or disruption risk dominates"
    };
    RiskAssessment {
        score,
        headline: headline.to_owned(),
        one_way_only: true,
        carry_on_only: true,
        items,
        net_saving_estimate: net,
        expected_disruption_cost: disruption,
        expected_enforcement_cost: enforcement,
    }
}

/// The first flight of the through ticket is the local ticket's flight: same first
/// flight number, or (without one) the same first origin, destination and carrier.
pub open spec fn first_match_spec(local: Offer, through: Offer) -> bool {
    (local.first_flight@.len() > 0 && local.first_flight@ == through.first_flight@)
        || (local.segments@.len() > 0 && through.segments@.len() > 0
            && local.segments@[0].origin@ == through.segments@[0].origin@
            && local.segments@[0].dest@ == through.segments@[0].dest@
            && local.segments@[0].carrier@ == through.segments@[0].carrier@)
}

/// The saving in tenths of a percent of the local fare; zero without a local fare.
pub open spec fn pct_spec(local: Offer, through: Offer) -> int {
    match local.price {
        Some(lp) if lp != 0 => round_half_away(1000 * (price_or_zero(local.price) - price_or_zero(through.price)), lp as int),
        _ => 0,
    }
}

pub(crate) fn round_div(x: i128, d: i128) -> (r: i128)
    requires
        d != 0,
        -0x1000_0000_0000_0000_0000_0000 <= x <= 0x1000_0000_0000_0000_0000_0000,
        -0x1000_0000_0000_0000_0000_0000 <= d <= 0x1000_0000_0000_0000_0000_0000,
    ensures
        r == round_half_away(x as int, d as int),
{
    if d < 0 {
        let nx = -x;
        let nd = -d;
        if nx >= 0 { (nx + nd / 2) / nd } else { -((-nx + nd / 2) / nd) }
    } else if x >= 0 {
        (x + d / 2) / d
    } else {
        -((-x + d / 2) / d)
    }
}

/// `r` records a hidden-city match of its through ticket against its local ticket.
pub open spec fn match_record(
    r: HiddenCityMatch,
    id: Seq<char>,
    hidden_city: Seq<char>,
    hidden_name: Seq<char>,
    true_dest: Seq<char>,
    intl: bool,
    exit_segment_index: i32,
) -> bool {
    let local = r.local_offer;
    let through = r.through_offer;
    &&& r.id@ == id
    &&& r.hidden_city@ == hidden_city
    &&& r.hidden_city_name@ == hidden_name
    &&& r.first_flight_match == first_match_spec(local, through)
    &&& r.gross_saving == price_or_zero(local.price) - price_or_zero(through.price)
    &&& r.saving_pct == pct_spec(local, through)
    &&& r.currency == through.currency
    &&& risk_of(local, through, intl, r.risk)
    &&& r.bookers@.len() == 0
    &&& r.ticketed_destination@ == ticketed(through)
    &&& r.intended_destination@ == to_upper(true_dest)
    &&& r.exit_segment_index == exit_segment_index
    &&& r.warnings@.len() == 6
    &&& r.result_type@ == "hidden_city"@
}

/// The match record for a hidden-city ticket.
pub fn attach_risk(
    match_id: &str,
    hidden_city: &str,
    hidden_name: &str,
    local: &Offer,
    through: &Offer,
    true_dest: &str,
    origin_country: &str,
    hidden_country: &str,
    exit_segment_index: i32,
) -> (r: HiddenCityMatch)
    requires
        cents_ok(local.price),
        cents_ok(through.price),
    ensures
        same_offer(r.local_offer, *local),
        same_offer(r.through_offer, *through),
        match_record(r, match_id@, hidden_city@, hidden_name@, true_dest@,
            international(origin_country@, hidden_country@), exit_segment_index),
{
    let mut first_match = !local.first_flight.as_str().is_empty() && local.first_flight == through.first_flight;
    if !first_match && local.segments.len() > 0 && through.segments.len() > 0 {
        first_match = local.segments[0].origin == through.segments[0].origin
            && local.segments[0].dest == through.segments[0].dest
            && local.segments[0].carrier == through.segments[0].carrier;
    }
    let l: i64 = match local.price { Some(v) => v, None => 0 };
    let t: i64 = match through.price { Some(v) => v, None => 0 };
    let gross = l - t;
    let pct: i64 = match local.price {
        Some(lp) => {
            if lp != 0 {
                round_div((gross as i128) * 1000, lp as i128) as i64
            } else {
                0
            }
        },
        None => 0,
    };
    proof {
        if local.price is Some && local.price->0 != 0 {
            let lp = local.price->0;
            crate::fx::lemma_round_bound(1000 * gross, lp as int);
        }
    }
    let risk = assess(local, through, hidden_city, true_dest, origin_country, hidden_country);
    HiddenCityMatch {
        id: match_id.to_owned(),
        hidden_city: hidden_city.to_owned(),
        hidden_city_name: hidden_name.to_owned(),
        local_offer: local.clone(),
        through_offer: through.clone(),
        first_flight_match: first_match,
        gross_saving: gross,
        saving_pct: pct,
        currency: through.currency.clone(),
        risk,
        bookers: Vec::new(),
        ticketed_destination: ticketed_destination(through),
        intended_destination: upper(true_dest),
        exit_segment_index,
        warnings: hidden_city_warnings(),
        result_type: "hidden_city".to_owned(),
    }
}

} // verus!
