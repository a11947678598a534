//! The offline provider that answers from fixed itineraries.
use vstd::prelude::*;
use crate::models::{Offer, Segment, ShopRequest, clone_segments};
use crate::text::{cat, upper, to_upper, str_eq};
use crate::times::{Instant, now_instant};
use crate::fx::round_half_away;

verus! {

/// A flight of a fixture by its texts: origin, destination, departure, arrival,
/// flight number, carrier, and its minutes.
pub type SegRow = (Seq<char>, Seq<char>, Seq<char>, Seq<char>, Seq<char>, Seq<char>, i32);

/// A fixture flight: the carrier also operates it, economy class `Y`.
pub open spec fn fixture_seg(s: Segment, row: SegRow) -> bool {
    &&& s.origin@ == row.0
    &&& s.dest@ == row.1
    &&& s.dep@ == row.2
    &&& s.arr@ == row.3
    &&& s.flight_number@ == row.4
    &&& s.carrier@ == row.5
    &&& s.operating_carrier matches Some(c) && c@ == row.5
    &&& s.duration_min == row.6
    &&& s.rbd@ == "Y"@
    &&& s.aircraft@.len() == 0
    &&& s.fare_basis is None
}

fn seg(origin: &str, dest: &str, dep: &str, arr: &str, flight: &str, carrier: &str, minutes: i32) -> (r: Segment)
    ensures
        fixture_seg(r, (origin@, dest@, dep@, arr@, flight@, carrier@, minutes)),
{
    Segment {
        origin: origin.to_owned(),
        dest: dest.to_owned(),
        carrier: carrier.to_owned(),
        operating_carrier: Some(carrier.to_owned()),
        flight_number: flight.to_owned(),
        dep: dep.to_owned(),
        arr: arr.to_owned(),
        duration_min: minutes,
        rbd: "Y".to_owned(),
        aircraft: String::new(),
        fare_basis: None,
    }
}

/// What `to_rfc3339_opts(SecondsFormat::Secs, true)` writes for a Unix second
/// (empty when chrono cannot hold it).
pub uninterp spec fn rfc3339_secs(secs: i64) -> Seq<char>;

/// A Unix second as RFC 3339 text to the second with a `Z`, with
/// `chrono::DateTime::from_timestamp` and `to_rfc3339_opts`; named by
/// `rfc3339_secs`.
#[verifier::external_body]
fn secs_text(secs: i64) -> (r: String)
    ensures
        r@ == rfc3339_secs(secs),
{
    match chrono::DateTime::from_timestamp(secs, 0) {
        Some(d) => d.to_rfc3339_opts(chrono::SecondsFormat::Secs, true),
        None => String::new(),
    }
}

/// A fixture offer: a complete priced USD economy itinerary of these flights, base
/// fare 82% and taxes 18% of the price (rounded to the cent), forty minutes added
/// for a connection, retrieved now.
pub open spec fn fixture_offer(r: Offer, id: Seq<char>, price: i64, segs: Seq<SegRow>) -> bool {
    let n = segs.len();
    &&& r.id@ == id
    &&& r.kind@ == (if n == 1 { "nonstop"@ } else { "connecting"@ })
    &&& r.channel@ == "ndc"@
    &&& r.source@ == "mock"@
    &&& r.layer@ == "priced-offer"@
    &&& r.segments@.len() == n
    &&& forall|i: int| 0 <= i < n ==> fixture_seg(#[trigger] r.segments@[i], segs[i])
    &&& r.price == Some(price)
    &&& r.base_price == Some(round_half_away(price * 82, 100) as i64)
    &&& r.taxes == Some(round_half_away(price * 18, 100) as i64)
    &&& r.currency@ == "USD"@
    &&& r.cabin@ == "ECONOMY"@
    &&& r.fare_basis@ == "Y"@
    &&& r.seats == Some(7i32)
    &&& r.validating_airline matches Some(v) && v@ == segs[0].5
    &&& r.carrier@ == segs[0].5
    &&& r.duration_min == total_minutes(segs) + (if n > 1 { 40int } else { 0int })
    &&& r.stops == n - 1
    &&& r.first_flight@ == segs[0].4
    &&& r.retrieved_at is Some
    &&& r.note matches Some(t) && t@ == "Mock fixture. Complete priced itinerary — not a reconstructed segment sum."@
    &&& r.adults == 1 && r.quoted_usd is None && r.last_ticketing_date is None && r.instant_ticketing is None
    &&& !r.refundable && r.bags_included == 0 && r.expires_at is None && r.live is None
    &&& r.return_date is None && r.outbound_end is None
    &&& r.self_transfer_airports@.len() == 0 && r.separate_tickets@.len() == 0
}

/// The flight minutes of fixture flights.
pub open spec fn total_minutes(segs: Seq<SegRow>) -> int
    decreases segs.len(),
{
    if segs.len() == 0 { 0 } else { total_minutes(segs.drop_last()) + segs.last().6 }
}

fn percent_of(price: i64, pct: i64) -> (r: i64)
    requires
        0 <= price <= 1_000_000_000,
        0 <= pct <= 100,
    ensures
        r == round_half_away(price * pct, 100),
{
    assert(0 <= price * pct <= 100_000_000_000) by (nonlinear_arith)
        requires
            0 <= price <= 1_000_000_000,
            0 <= pct <= 100;
    let x = price * pct;
    (x + 50) / 100
}

fn fixture(id: &str, price: i64, segs: Vec<Segment>, Ghost(rows): Ghost<Seq<SegRow>>) -> (r: Offer)
    requires
        0 <= price <= 1_000_000_000,
        1 <= segs@.len() <= 4,
        rows.len() == segs@.len(),
        forall|i: int| 0 <= i < rows.len() ==> fixture_seg(#[trigger] segs@[i], rows[i]),
        forall|i: int| 0 <= i < rows.len() ==> 0 <= (#[trigger] rows[i]).6 <= 1000,
    ensures
        fixture_offer(r, id@, price, rows),
{
    let n = segs.len();
    let mut total: i32 = 0;
    let mut i: usize = 0;
    while i < n
        invariant
            n == segs@.len(),
            n <= 4,
            rows.len() == n,
            i <= n,
            forall|k: int| 0 <= k < rows.len() ==> fixture_seg(#[trigger] segs@[k], rows[k]),
            forall|k: int| 0 <= k < rows.len() ==> 0 <= (#[trigger] rows[k]).6 <= 1000,
            total == total_minutes(rows.subrange(0, i as int)),
            0 <= total <= 1000 * i,
        decreases n - i,
    {
        assert(rows.subrange(0, i + 1).drop_last() =~= rows.subrange(0, i as int));
        assert(fixture_seg(segs@[i as int], rows[i as int]));
        total = total + segs[i].duration_min;
        i = i + 1;
    }
    assert(rows.subrange(0, n as int) =~= rows);
    let carrier = segs[0].carrier.clone();
    let first = segs[0].flight_number.clone();
    let now = now_instant();
    Offer {
        id: id.to_owned(),
        kind: if n == 1 { "nonstop".to_owned() } else { "connecting".to_owned() },
        channel: "ndc".to_owned(),
        source: "mock".to_owned(),
        layer: "priced-offer".to_owned(),
        segments: segs,
        price: Some(price),
        base_price: Some(percent_of(price, 82)),
        taxes: Some(percent_of(price, 18)),
        currency: "USD".to_owned(),
        quoted_usd: None,
        cabin: "ECONOMY".to_owned(),
        adults: 1,
        fare_basis: "Y".to_owned(),
        seats: Some(7),
        last_ticketing_date: None,
        validating_airline: Some(carrier.clone()),
        instant_ticketing: None,
        refundable: false,
        bags_included: 0,
        carrier,
        duration_min: total + if n > 1 { 40 } else { 0 },
        stops: (n - 1) as i32,
        first_flight: first,
        retrieved_at: Some(secs_text(now.secs)),
        expires_at: None,
        note: Some("Mock fixture. Complete priced itinerary — not a reconstructed segment sum.".to_owned()),
        live: None,
        return_date: None,
        outbound_end: None,
        self_transfer_airports: Vec::new(),
        separate_tickets: Vec::new(),
    }
}

/// `date` at a time of day, to the second.
pub open spec fn at(date: Seq<char>, hhmm: Seq<char>) -> Seq<char> {
    date + "T"@ + hhmm + ":00"@
}

fn t(date: &str, hhmm: &str) -> (r: String)
    ensures
        r@ == at(date@, hhmm@),
{
    let a = cat(date, "T");
    let b = cat(a.as_str(), hhmm);
    cat(b.as_str(), ":00")
}

/// The nonstop fixture JFK to ORD, $240.
pub fn jfk_ord_nonstop(date: &str) -> (r: Offer)
    ensures
        fixture_offer(r, "mock-jfk-ord-nonstop"@, 24000, seq![
            ("JFK"@, "ORD"@, at(date@, "08:00"@), at(date@, "10:15"@), "AA100"@, "AA"@, 135i32)]),
{
    let mut v: Vec<Segment> = Vec::new();
    v.push(seg("JFK", "ORD", t(date, "08:00").as_str(), t(date, "10:15").as_str(), "AA100", "AA", 135));
    let ghost rows = seq![
        ("JFK"@, "ORD"@, at(date@, "08:00"@), at(date@, "10:15"@), "AA100"@, "AA"@, 135i32)];
    fixture("mock-jfk-ord-nonstop", 24000, v, Ghost(rows))
}

/// The fixture JFK to DEN through ORD, $170 (hidden city at ORD).
pub fn jfk_ord_den(date: &str) -> (r: Offer)
    ensures
        fixture_offer(r, "mock-jfk-ord-den"@, 17000, seq![
            ("JFK"@, "ORD"@, at(date@, "08:00"@), at(date@, "10:15"@), "UA200"@, "UA"@, 135i32),
            ("ORD"@, "DEN"@, at(date@, "11:30"@), at(date@, "13:20"@), "UA300"@, "UA"@, 110i32)]),
{
    let mut v: Vec<Segment> = Vec::new();
    v.push(seg("JFK", "ORD", t(date, "08:00").as_str(), t(date, "10:15").as_str(), "UA200", "UA", 135));
    v.push(seg("ORD", "DEN", t(date, "11:30").as_str(), t(date, "13:20").as_str(), "UA300", "UA", 110));
    let ghost rows = seq![
        ("JFK"@, "ORD"@, at(date@, "08:00"@), at(date@, "10:15"@), "UA200"@, "UA"@, 135i32),
        ("ORD"@, "DEN"@, at(date@, "11:30"@), at(date@, "13:20"@), "UA300"@, "UA"@, 110i32)];
    fixture("mock-jfk-ord-den", 17000, v, Ghost(rows))
}

/// The fixture JFK to SEA through ORD, $185.
pub fn jfk_ord_sea(date: &str) -> (r: Offer)
    ensures
        fixture_offer(r, "mock-jfk-ord-sea"@, 18500, seq![
            ("JFK"@, "ORD"@, at(date@, "09:00"@), at(date@, "11:20"@), "AS400"@, "AS"@, 140i32),
            ("ORD"@, "SEA"@, at(date@, "12:40"@), at(date@, "15:10"@), "AS500"@, "AS"@, 150i32)]),
{
    let mut v: Vec<Segment> = Vec::new();
    v.push(seg("JFK", "ORD", t(date, "09:00").as_str(), t(date, "11:20").as_str(), "AS400", "AS", 140));
    v.push(seg("ORD", "SEA", t(date, "12:40").as_str(), t(date, "15:10").as_str(), "AS500", "AS", 150));
    let ghost rows = seq![
        ("JFK"@, "ORD"@, at(date@, "09:00"@), at(date@, "11:20"@), "AS400"@, "AS"@, 140i32),
        ("ORD"@, "SEA"@, at(date@, "12:40"@), at(date@, "15:10"@), "AS500"@, "AS"@, 150i32)];
    fixture("mock-jfk-ord-sea", 18500, v, Ghost(rows))
}

/// The fixture JFK to LAX through DFW, $150 (it does not pass through ORD).
pub fn jfk_dfw_lax(date: &str) -> (r: Offer)
    ensures
        fixture_offer(r, "mock-jfk-dfw-lax"@, 15000, seq![
            ("JFK"@, "DFW"@, at(date@, "07:00"@), at(date@, "10:30"@), "AA600"@, "AA"@, 210i32),
            ("DFW"@, "LAX"@, at(date@, "11:40"@), at(date@, "13:10"@), "AA700"@, "AA"@, 90i32)]),
{
    let mut v: Vec<Segment> = Vec::new();
    v.push(seg("JFK", "DFW", t(date, "07:00").as_str(), t(date, "10:30").as_str(), "AA600", "AA", 210));
    v.push(seg("DFW", "LAX", t(date, "11:40").as_str(), t(date, "13:10").as_str(), "AA700", "AA", 90));
    let ghost rows = seq![
        ("JFK"@, "DFW"@, at(date@, "07:00"@), at(date@, "10:30"@), "AA600"@, "AA"@, 210i32),
        ("DFW"@, "LAX"@, at(date@, "11:40"@), at(date@, "13:10"@), "AA700"@, "AA"@, 90i32)];
    fixture("mock-jfk-dfw-lax", 15000, v, Ghost(rows))
}

/// The fixture JFK to DEN through DFW, $150.
pub fn jfk_dfw_den(date: &str) -> (r: Offer)
    ensures
        fixture_offer(r, "mock-jfk-dfw-den"@, 15000, seq![
            ("JFK"@, "DFW"@, at(date@, "08:00"@), at(date@, "11:10"@), "UA200"@, "UA"@, 190i32),
            ("DFW"@, "DEN"@, at(date@, "12:20"@), at(date@, "13:40"@), "UA300"@, "UA"@, 80i32)]),
{
    let mut v: Vec<Segment> = Vec::new();
    v.push(seg("JFK", "DFW", t(date, "08:00").as_str(), t(date, "11:10").as_str(), "UA200", "UA", 190));
    v.push(seg("DFW", "DEN", t(date, "12:20").as_str(), t(date, "13:40").as_str(), "UA300", "UA", 80));
    let ghost rows = seq![
        ("JFK"@, "DFW"@, at(date@, "08:00"@), at(date@, "11:10"@), "UA200"@, "UA"@, 190i32),
        ("DFW"@, "DEN"@, at(date@, "12:20"@), at(date@, "13:40"@), "UA300"@, "UA"@, 80i32)];
    fixture("mock-jfk-dfw-den", 15000, v, Ghost(rows))
}

/// The round-trip fixture JFK to ORD and back, $430: a nonstop, outbound ends at the
/// first flight, 270 minutes.
pub fn jfk_ord_roundtrip(date: &str, return_date: &str) -> (r: Offer)
    ensures
        r.id@ == "mock-jfk-ord-roundtrip"@,
        r.price == Some(43000i64),
        r.segments@.len() == 2,
        fixture_seg(r.segments@[0], ("JFK"@, "ORD"@, at(date@, "08:00"@), at(date@, "10:15"@), "AA100"@, "AA"@, 135i32)),
        fixture_seg(r.segments@[1], ("ORD"@, "JFK"@, at(return_date@, "18:00"@), at(return_date@, "21:15"@), "AA101"@, "AA"@, 135i32)),
        r.kind@ == "nonstop"@,
        r.stops == 0,
        r.return_date matches Some(d) && d@ == return_date@,
        r.outbound_end == Some(0i32),
        r.duration_min == 270,
        r.note matches Some(t) && t@ == "Mock round-trip fixture. Hidden-city is one-way only."@,
        r.source@ == "mock"@,
        r.currency@ == "USD"@,
{
    let mut v: Vec<Segment> = Vec::new();
    v.push(seg("JFK", "ORD", t(date, "08:00").as_str(), t(date, "10:15").as_str(), "AA100", "AA", 135));
    v.push(seg("ORD", "JFK", t(return_date, "18:00").as_str(), t(return_date, "21:15").as_str(), "AA101", "AA", 135));
    let ghost rows = seq![
        ("JFK"@, "ORD"@, at(date@, "08:00"@), at(date@, "10:15"@), "AA100"@, "AA"@, 135i32),
        ("ORD"@, "JFK"@, at(return_date@, "18:00"@), at(return_date@, "21:15"@), "AA101"@, "AA"@, 135i32)];
    let mut o = fixture("mock-jfk-ord-roundtrip", 43000, v, Ghost(rows));
    o.kind = "nonstop".to_owned();
    o.stops = 0;
    o.return_date = Some(return_date.to_owned());
    o.outbound_end = Some(0);
    o.duration_min = 270;
    o.note = Some("Mock round-trip fixture. Hidden-city is one-way only.".to_owned());
    o
}

/// The provider of fixed itineraries, for tests and demos without credentials.
pub struct MockProvider {}

/// A destination the fixtures treat as Chicago: ORD, CHI or MDW.
pub open spec fn chicago(d: Seq<char>) -> bool {
    d == "ORD"@ || d == "CHI"@ || d == "MDW"@
}

/// The fixture ids a search gets (origin and destination upper-cased): the round
/// trip for JFK to Chicago with a return date, otherwise the four JFK to Chicago
/// one-ways, or the one that ends at DEN or SEA; nothing else.
pub open spec fn mock_ids(origin: Seq<char>, dest: Seq<char>, round_trip: bool) -> Seq<Seq<char>> {
    let o = to_upper(origin);
    let d = to_upper(dest);
    if round_trip {
        if o == "JFK"@ && chicago(d) { seq!["mock-jfk-ord-roundtrip"@] } else { Seq::empty() }
    } else if o == "JFK"@ && chicago(d) {
        seq!["mock-jfk-ord-nonstop"@, "mock-jfk-ord-den"@, "mock-jfk-ord-sea"@, "mock-jfk-dfw-lax"@]
    } else if o == "JFK"@ && d == "DEN"@ {
        seq!["mock-jfk-ord-den"@]
    } else if o == "JFK"@ && d == "SEA"@ {
        seq!["mock-jfk-ord-sea"@]
    } else {
        Seq::empty()
    }
}

impl MockProvider {
    /// The provider (it holds no state).
    pub fn new() -> (r: Self)
        ensures
            r == (MockProvider {}),
    {
        MockProvider {}
    }

    /// The fixtures for a search, on its date (see [`mock_ids`]).
    pub fn shop(&self, req: &ShopRequest) -> (r: Vec<Offer>)
        ensures
            r@.map_values(|o: Offer| o.id@) == mock_ids(req.origin@, req.dest@, req.return_date is Some),
    {
        let o = upper(req.origin.as_str());
        let d = upper(req.dest.as_str());
        let date = req.date.as_str();
        let jfk = str_eq(o.as_str(), "JFK");
        let chi = str_eq(d.as_str(), "ORD") || str_eq(d.as_str(), "CHI") || str_eq(d.as_str(), "MDW");
        let mut v: Vec<Offer> = Vec::new();
        match &req.return_date {
            Some(ret) => {
                if jfk && chi {
                    v.push(jfk_ord_roundtrip(date, ret.as_str()));
                }
            },
            None => {
                if jfk && chi {
                    v.push(jfk_ord_nonstop(date));
                    v.push(jfk_ord_den(date));
                    v.push(jfk_ord_sea(date));
                    v.push(jfk_dfw_lax(date));
                } else if jfk && str_eq(d.as_str(), "DEN") {
                    v.push(jfk_ord_den(date));
                } else if jfk && str_eq(d.as_str(), "SEA") {
                    v.push(jfk_ord_sea(date));
                }
            },
        }
        assert(v@.map_values(|x: Offer| x.id@) =~= mock_ids(req.origin@, req.dest@, req.return_date is Some));
        v
    }
}

impl Default for MockProvider {
    fn default() -> (r: Self)
        ensures
            r == (MockProvider {}),
    {
        MockProvider {}
    }
}

} // verus!
