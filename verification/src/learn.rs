//! What one search teaches about the route network: every priced fare, the flights
//! seen on outbound legs (counted, with their travel dates), and per route the
//! probes, the hidden-city connections that worked and what they saved.
use vstd::prelude::*;
use crate::text::{upper, str_eq, to_upper, take_chars};
use crate::hidden::{views, ticketed, ticketed_destination, clamp, fingerprint_of, fingerprint_ok, itinerary_fingerprint,
    hidden_exit, detect_hidden_city, Intended};
use crate::fx::round_half_away;
use crate::risk::round_div;
use crate::models::{Offer, Segment, clone_opt_string};
use crate::fx::{Rates, to_usd, to_usd_spec, usd, usd_list, offers_in_usd, already_usd, converted_offer};
use crate::times::{Instant, now_instant, instant_ok};

verus! {

/// One flight seen on the outbound part of offers: how often, and for which travel
/// dates (each date once).
pub struct EdgeObservation {
    pub origin: String,
    pub dest: String,
    pub carrier: String,
    pub flight_number: String,
    pub count: i32,
    pub travel_dates: Vec<String>,
}

fn has_text(v: &Vec<String>, t: &str) -> (r: bool)
    ensures
        r == views(v@).contains(t@),
{
    let mut i: usize = 0;
    while i < v.len()
        invariant
            i <= v@.len(),
            forall|k: int| 0 <= k < i ==> v@[k]@ != t@,
        decreases v@.len() - i,
    {
        if str_eq(v[i].as_str(), t) {
            assert(views(v@)[i as int] == t@);
            return true;
        }
        i = i + 1;
    }
    false
}

impl EdgeObservation {
    /// The dates are distinct.
    pub open spec fn well_formed(&self) -> bool {
        views(self.travel_dates@).no_duplicates()
    }

    /// A flight not seen yet: airports and carrier upper-cased, no sightings.
    pub fn new(origin: &str, dest: &str, carrier: &str, flight_number: &str) -> (r: Self)
        ensures
            r.origin@ == to_upper(origin@),
            r.dest@ == to_upper(dest@),
            r.carrier@ == to_upper(carrier@),
            r.flight_number@ == flight_number@,
            r.count == 0,
            r.travel_dates@.len() == 0,
            r.well_formed(),
    {
        EdgeObservation {
            origin: upper(origin),
            dest: upper(dest),
            carrier: upper(carrier),
            flight_number: flight_number.to_owned(),
            count: 0,
            travel_dates: Vec::new(),
        }
    }

    /// One more sighting for a travel date: the count goes up by one and the date is
    /// added unless it is there already.
    pub fn observe(&mut self, date: &str)
        requires
            old(self).well_formed(),
            old(self).count < i32::MAX,
        ensures
            final(self).well_formed(),
            final(self).count == old(self).count + 1,
            final(self).origin == old(self).origin,
            final(self).dest == old(self).dest,
            final(self).carrier == old(self).carrier,
            final(self).flight_number == old(self).flight_number,
            views(final(self).travel_dates@).to_set() == views(old(self).travel_dates@).to_set().insert(date@),
            views(old(self).travel_dates@).contains(date@) ==> final(self).travel_dates@ == old(self).travel_dates@,
            !views(old(self).travel_dates@).contains(date@) ==> views(final(self).travel_dates@) == views(old(self).travel_dates@).push(date@),
    {
        self.count = self.count + 1;
        if has_text(&self.travel_dates, date) {
            assert(views(self.travel_dates@).to_set() =~= views(self.travel_dates@).to_set().insert(date@));
            return;
        }
        let ghost before = views(self.travel_dates@);
        assert(!before.contains(date@));
        self.travel_dates.push(date.to_owned());
        assert(views(self.travel_dates@) =~= before.push(date@));
        assert(views(self.travel_dates@).to_set() =~= before.to_set().insert(date@)) by {
            broadcast use vstd::seq_lib::group_seq_properties;
        }
    }
}

/// One priced fare as the learner records it (price in US cents).
pub struct FareObservation {
    pub offer_uid: String,
    pub fingerprint: String,
    pub origin: String,
    pub ticketed: String,
    pub connections: Vec<String>,
    pub stops: i32,
    pub carrier: String,
    pub provider: String,
    pub price: i64,
    pub currency: String,
    pub date: String,
    pub adults: i32,
    pub cabin: String,
    pub fare_brand: Option<String>,
    pub expires_at: Option<String>,
}

/// The index of the last outbound segment of an offer with segments: `outbound_end`
/// (the last segment without one), kept within the segments.
pub open spec fn outbound_last(o: Offer) -> int {
    let n = o.segments@.len() as int;
    clamp(match o.outbound_end { Some(e) => e as int, None => n - 1 }, 0, n - 1)
}

/// The upper-cased airport a segment starts from.
pub open spec fn seg_from(s: Segment) -> Seq<char> {
    to_upper(s.origin@)
}

/// The upper-cased airport a segment lands at.
pub open spec fn seg_to(s: Segment) -> Seq<char> {
    to_upper(s.dest@)
}

/// The airport an offer starts from, upper-cased.
pub open spec fn start_of(o: Offer) -> Seq<char> {
    seg_from(o.segments@[0])
}

/// An offer the learner records: priced, with segments, leaving from one of `os`.
pub open spec fn fare_kept(o: Offer, os: Seq<Seq<char>>) -> bool {
    o.price is Some && o.segments@.len() > 0 && os.contains(start_of(o))
}

/// The offers the learner records, in order.
pub open spec fn kept_fares(p: Seq<Offer>, os: Seq<Seq<char>>) -> Seq<Offer>
    decreases p.len(),
{
    if p.len() == 0 {
        Seq::empty()
    } else if fare_kept(p.last(), os) {
        kept_fares(p.drop_last(), os).push(p.last())
    } else {
        kept_fares(p.drop_last(), os)
    }
}

/// The upper-cased airports the segments land at, in order.
pub open spec fn landings(segs: Seq<Segment>) -> Seq<Seq<char>> {
    segs.map_values(|s: Segment| seg_to(s))
}

/// The connections of an offer: the upper-cased airports before its last outbound one.
pub open spec fn connections_of(o: Offer) -> Seq<Seq<char>> {
    landings(o.segments@.subrange(0, outbound_last(o)))
}

/// `f` records offer `o` shopped for `date`, `adults` and `cabin`.
pub open spec fn fare_matches(f: FareObservation, o: Offer, date: Seq<char>, adults: i32, cabin: Seq<char>) -> bool {
    &&& f.offer_uid@ == o.id@
    &&& f.fingerprint@ == fingerprint_of(o.segments@)
    &&& f.origin@ == start_of(o)
    &&& f.ticketed@ == ticketed(o)
    &&& views(f.connections@) == connections_of(o)
    &&& f.stops == o.stops
    &&& f.carrier@ == to_upper(o.carrier@)
    &&& f.provider@ == o.source@
    &&& Some(f.price) == o.price
    &&& f.currency@ == o.currency@
    &&& f.date@ == date
    &&& f.adults == adults
    &&& f.cabin@ == cabin
    &&& f.fare_brand == (if o.fare_basis@.len() == 0 { None } else { Some(o.fare_basis) })
    &&& f.expires_at == o.expires_at
}

/// Whether one of the texts is `t`.
pub fn has_code_pub(v: &Vec<String>, t: &str) -> (r: bool)
    ensures
        r == views(v@).contains(t@),
{
    has_text(v, t)
}

fn has_code(v: &Vec<String>, t: &str) -> (r: bool)
    ensures
        r == views(v@).contains(t@),
{
    has_text(v, t)
}

fn fare_of(o: &Offer, date: &str, adults: i32, cabin: &str) -> (f: FareObservation)
    requires
        o.price is Some,
        o.segments@.len() > 0,
        fingerprint_ok(*o),
    ensures
        fare_matches(f, *o, date@, adults, cabin@),
{
    let n = o.segments.len();
    let last: usize = match o.outbound_end {
        Some(e) => if e < 0 { 0 } else if (e as usize) > n - 1 { n - 1 } else { e as usize },
        None => n - 1,
    };
    assert(last as int == outbound_last(*o));
    let mut conns: Vec<String> = Vec::new();
    let mut j: usize = 0;
    while j < last
        invariant
            j <= last < n,
            n == o.segments@.len(),
            views(conns@) == landings(o.segments@.subrange(0, j as int)),
        decreases last - j,
    {
        let ghost before = conns@;
        let d = upper(o.segments[j].dest.as_str());
        conns.push(d);
        proof {
            assert(views(before).len() == before.len());
            assert(before.len() == j);
            assert(conns@ == before.push(d));
            let want = landings(o.segments@.subrange(0, j + 1));
            assert forall|k: int| 0 <= k < j + 1 implies views(conns@)[k] == want[k] by {
                if k < j {
                    assert(conns@[k] == before[k]);
                    assert(views(before)[k] == landings(o.segments@.subrange(0, j as int))[k]);
                }
            }
            assert(views(conns@) =~= want);
        }
        j = j + 1;
    }
    let brand = if o.fare_basis.as_str().is_empty() { None } else { Some(o.fare_basis.clone()) };
    let price = match o.price { Some(p) => p, None => 0 };
    FareObservation {
        offer_uid: o.id.clone(),
        fingerprint: itinerary_fingerprint(o),
        origin: upper(o.segments[0].origin.as_str()),
        ticketed: ticketed_destination(o),
        connections: conns,
        stops: o.stops,
        carrier: upper(o.carrier.as_str()),
        provider: o.source.clone(),
        price,
        currency: o.currency.clone(),
        date: date.to_string(),
        adults,
        cabin: cabin.to_string(),
        fare_brand: brand,
        expires_at: clone_opt_string(&o.expires_at),
    }
}

/// Records the fares of the priced offers that leave from one of `os`, in order.
pub fn record_fares(priced: &[Offer], os: &Vec<String>, date: &str, adults: i32, cabin: &str) -> (r: Vec<FareObservation>)
    requires
        forall|i: int| 0 <= i < priced@.len() ==> fingerprint_ok(#[trigger] priced@[i]),
    ensures
        r@.len() == kept_fares(priced@, views(os@)).len(),
        forall|i: int| 0 <= i < r@.len() ==> fare_matches(#[trigger] r@[i], kept_fares(priced@, views(os@))[i], date@, adults, cabin@),
{
    let mut out: Vec<FareObservation> = Vec::new();
    let mut i: usize = 0;
    while i < priced.len()
        invariant
            i <= priced@.len(),
            forall|k: int| 0 <= k < priced@.len() ==> fingerprint_ok(#[trigger] priced@[k]),
            out@.len() == kept_fares(priced@.subrange(0, i as int), views(os@)).len(),
            forall|k: int| 0 <= k < out@.len()
                ==> fare_matches(#[trigger] out@[k], kept_fares(priced@.subrange(0, i as int), views(os@))[k], date@, adults, cabin@),
        decreases priced@.len() - i,
    {
        let ghost next = priced@.subrange(0, i + 1);
        assert(next.drop_last() =~= priced@.subrange(0, i as int));
        let o = &priced[i];
        if o.price.is_some() && o.segments.len() > 0 {
            let from = upper(o.segments[0].origin.as_str());
            if has_code(os, from.as_str()) {
                let f = fare_of(o, date, adults, cabin);
                out.push(f);
            }
        }
        i = i + 1;
    }
    assert(priced@.subrange(0, i as int) =~= priced@);
    out
}

/// The outbound segments of the offers, in order.
pub open spec fn outbound_segments(p: Seq<Offer>) -> Seq<Segment>
    decreases p.len(),
{
    if p.len() == 0 {
        Seq::empty()
    } else {
        outbound_segments(p.drop_last()) + p.last().segments@.subrange(0, outbound_last(p.last()) + 1)
    }
}

/// What identifies a flight: origin, destination and carrier upper-cased, and the
/// flight number.
pub open spec fn edge_key(s: Segment) -> (Seq<char>, Seq<char>, Seq<char>, Seq<char>) {
    (seg_from(s), seg_to(s), to_upper(s.carrier@), s.flight_number@)
}

/// The key of a recorded flight.
pub open spec fn key_of_edge(e: EdgeObservation) -> (Seq<char>, Seq<char>, Seq<char>, Seq<char>) {
    (e.origin@, e.dest@, e.carrier@, e.flight_number@)
}

/// How many of `segs` are flight `k`.
pub open spec fn key_count(segs: Seq<Segment>, k: (Seq<char>, Seq<char>, Seq<char>, Seq<char>)) -> int
    decreases segs.len(),
{
    if segs.len() == 0 {
        0
    } else {
        key_count(segs.drop_last(), k) + if edge_key(segs.last()) == k { 1int } else { 0 }
    }
}

/// Some recorded edge is the flight of `s`.
pub open spec fn covered(edges: Seq<EdgeObservation>, s: Segment) -> bool {
    exists|i: int| 0 <= i < edges.len() && key_of_edge(#[trigger] edges[i]) == edge_key(s)
}

/// `edges` records each flight of `segs` once, with how often it was seen and the one
/// travel date.
pub open spec fn edges_of(edges: Seq<EdgeObservation>, segs: Seq<Segment>, date: Seq<char>) -> bool {
    &&& forall|i: int, j: int| 0 <= i < j < edges.len() ==> key_of_edge(#[trigger] edges[i]) != key_of_edge(#[trigger] edges[j])
    &&& forall|i: int| 0 <= i < edges.len() ==> (#[trigger] edges[i]).count == key_count(segs, key_of_edge(edges[i]))
        && views(edges[i].travel_dates@) == seq![date]
    &&& forall|j: int| 0 <= j < segs.len() ==> covered(edges, #[trigger] segs[j])
}

proof fn lemma_key_count_bound(segs: Seq<Segment>, k: (Seq<char>, Seq<char>, Seq<char>, Seq<char>))
    ensures
        0 <= key_count(segs, k) <= segs.len(),
    decreases segs.len(),
{
    if segs.len() > 0 {
        lemma_key_count_bound(segs.drop_last(), k);
    }
}

fn find_edge(edges: &Vec<EdgeObservation>, s: &Segment) -> (r: Option<usize>)
    ensures
        match r {
            Some(i) => i < edges@.len() && key_of_edge(edges@[i as int]) == edge_key(*s),
            None => forall|i: int| 0 <= i < edges@.len() ==> key_of_edge(#[trigger] edges@[i]) != edge_key(*s),
        },
{
    let o = upper(s.origin.as_str());
    let d = upper(s.dest.as_str());
    let c = upper(s.carrier.as_str());
    let mut i: usize = 0;
    while i < edges.len()
        invariant
            i <= edges@.len(),
            o@ == seg_from(*s),
            d@ == seg_to(*s),
            c@ == to_upper(s.carrier@),
            forall|k: int| 0 <= k < i ==> key_of_edge(#[trigger] edges@[k]) != edge_key(*s),
        decreases edges@.len() - i,
    {
        let e = &edges[i];
        if str_eq(e.origin.as_str(), o.as_str()) && str_eq(e.dest.as_str(), d.as_str())
            && str_eq(e.carrier.as_str(), c.as_str()) && str_eq(e.flight_number.as_str(), s.flight_number.as_str()) {
            return Some(i);
        }
        i = i + 1;
    }
    None
}

/// Counts the flights of `segs` (each once, in order of first sighting) for one
/// travel date.
pub fn record_edges(segs: &Vec<Segment>, date: &str) -> (r: Vec<EdgeObservation>)
    requires
        segs@.len() < i32::MAX,
    ensures
        edges_of(r@, segs@, date@),
{
    let mut edges: Vec<EdgeObservation> = Vec::new();
    let mut i: usize = 0;
    while i < segs.len()
        invariant
            i <= segs@.len() < i32::MAX,
            edges_of(edges@, segs@.subrange(0, i as int), date@),
            forall|k: int| 0 <= k < edges@.len() ==> (#[trigger] edges@[k]).well_formed(),
        decreases segs@.len() - i,
    {
        let ghost pre = segs@.subrange(0, i as int);
        let ghost next = segs@.subrange(0, i + 1);
        let ghost before = edges@;
        assert(next.drop_last() =~= pre);
        assert(next.last() == segs@[i as int]);
        let s = &segs[i];
        match find_edge(&edges, s) {
            Some(k) => {
                proof { lemma_key_count_bound(pre, key_of_edge(edges@[k as int])); }
                let mut e = edges.remove(k);
                e.observe(date);
                edges.insert(k, e);
                proof {
                    assert forall|a: int| 0 <= a < edges@.len() implies (#[trigger] edges@[a]).count == key_count(next, key_of_edge(edges@[a]))
                        && views(edges@[a].travel_dates@) == seq![date@] by {
                        if a != k {
                            assert(edges@[a] == before[a]);
                        } else {
                            assert(views(before[a].travel_dates@) == seq![date@]);
                            assert(views(before[a].travel_dates@).contains(date@)) by {
                                assert(views(before[a].travel_dates@)[0] == date@);
                            }
                        }
                    }
                    assert forall|j: int| 0 <= j < next.len() implies covered(edges@, #[trigger] next[j]) by {
                        if j < i {
                            assert(next[j] == pre[j]);
                            assert(covered(before, pre[j]));
                            let a = choose|a: int| 0 <= a < before.len() && key_of_edge(#[trigger] before[a]) == edge_key(pre[j]);
                            assert(key_of_edge(edges@[a]) == key_of_edge(before[a]));
                        } else {
                            assert(key_of_edge(edges@[k as int]) == edge_key(next[j]));
                        }
                    }
                    assert forall|a: int, b: int| 0 <= a < b < edges@.len() implies
                        key_of_edge(#[trigger] edges@[a]) != key_of_edge(#[trigger] edges@[b]) by {
                        assert(key_of_edge(edges@[a]) == key_of_edge(before[a]));
                        assert(key_of_edge(edges@[b]) == key_of_edge(before[b]));
                    }
                }
            },
            None => {
                let mut e = EdgeObservation::new(s.origin.as_str(), s.dest.as_str(), s.carrier.as_str(), s.flight_number.as_str());
                e.observe(date);
                edges.push(e);
                proof {
                    assert forall|a: int| 0 <= a < edges@.len() implies (#[trigger] edges@[a]).count == key_count(next, key_of_edge(edges@[a]))
                        && views(edges@[a].travel_dates@) == seq![date@] by {
                        if a < before.len() {
                            assert(edges@[a] == before[a]);
                        } else {
                            assert(key_count(pre, edge_key(*s)) == 0) by {
                                lemma_absent_count(pre, edge_key(*s), before, date@);
                            }
                            assert(views(edges@[a].travel_dates@) =~= seq![date@]);
                        }
                    }
                    assert forall|j: int| 0 <= j < next.len() implies covered(edges@, #[trigger] next[j]) by {
                        if j < i {
                            assert(next[j] == pre[j]);
                            assert(covered(before, pre[j]));
                            let a = choose|a: int| 0 <= a < before.len() && key_of_edge(#[trigger] before[a]) == edge_key(pre[j]);
                            assert(edges@[a] == before[a]);
                        } else {
                            assert(key_of_edge(edges@[before.len() as int]) == edge_key(next[j]));
                        }
                    }
                }
            },
        }
        i = i + 1;
    }
    assert(segs@.subrange(0, i as int) =~= segs@);
    edges
}

/// A flight that no recorded edge names was not among the segments.
proof fn lemma_absent_count(segs: Seq<Segment>, k: (Seq<char>, Seq<char>, Seq<char>, Seq<char>), edges: Seq<EdgeObservation>, date: Seq<char>)
    requires
        forall|j: int| 0 <= j < segs.len() ==> covered(edges, #[trigger] segs[j]),
        forall|i: int| 0 <= i < edges.len() ==> key_of_edge(#[trigger] edges[i]) != k,
    ensures
        key_count(segs, k) == 0,
    decreases segs.len(),
{
    if segs.len() > 0 {
        let d = segs.drop_last();
        assert forall|j: int| 0 <= j < d.len() implies covered(edges, #[trigger] d[j]) by {
            assert(d[j] == segs[j]);
            assert(covered(edges, segs[j]));
        }
        lemma_absent_count(d, k, edges, date);
        assert(covered(edges, segs[segs.len() - 1]));
    }
}

/// A route row's key: where the ticket starts, the intended airport, the ticketed one.
pub type RouteKey = (Seq<char>, Seq<char>, Seq<char>);

/// The key a row of strings stands for.
pub open spec fn key_view(t: (String, String, String)) -> RouteKey {
    (t.0@, t.1@, t.2@)
}

/// An offer that teaches about routes: recorded as a fare, and sold to an airport
/// that is not one of the intended ones.
pub open spec fn grouped(o: Offer, os: Seq<Seq<char>>, iv: Vec<String>) -> bool {
    fare_kept(o, os) && ticketed(o).len() > 0 && !views(iv@).contains(ticketed(o))
}

/// Offer `o` is a hidden-city ticket for route `k`: it starts at `k.0`, is sold to
/// `k.2`, and the traveller leaves it at the intended airport `k.1`.
pub open spec fn via_hit(o: Offer, k: RouteKey, os: Seq<Seq<char>>, iv: Vec<String>) -> bool {
    &&& grouped(o, os, iv)
    &&& start_of(o) == k.0
    &&& ticketed(o) == k.2
    &&& match hidden_exit(o, &iv) { Some(i) => seg_to(o.segments@[i]) == k.1, None => false }
}

/// Offer `o` shows route `k` with another connection: it starts at `k.0`, is sold to
/// `k.2`, and connects at `k.1`, which is neither intended nor its start.
pub open spec fn other_hit(o: Offer, k: RouteKey, os: Seq<Seq<char>>, iv: Vec<String>) -> bool {
    &&& grouped(o, os, iv)
    &&& start_of(o) == k.0
    &&& ticketed(o) == k.2
    &&& !views(iv@).contains(k.1)
    &&& k.1 != k.0
    &&& connections_of(o).contains(k.1)
}

/// Some offer is a hidden-city ticket for `k`.
pub open spec fn any_via(p: Seq<Offer>, k: RouteKey, os: Seq<Seq<char>>, iv: Vec<String>) -> bool {
    exists|i: int| 0 <= i < p.len() && via_hit(#[trigger] p[i], k, os, iv)
}

/// Some offer shows `k` with another connection.
pub open spec fn any_other(p: Seq<Offer>, k: RouteKey, os: Seq<Seq<char>>, iv: Vec<String>) -> bool {
    exists|i: int| 0 <= i < p.len() && other_hit(#[trigger] p[i], k, os, iv)
}

/// `k` is a probe row: the probe pair `pa`–`pb` and a probed airport that is neither
/// intended nor an origin.
pub open spec fn probe_key(k: RouteKey, pa: Seq<char>, pb: Seq<char>, probed: Seq<Seq<char>>, os: Seq<Seq<char>>, iv: Vec<String>) -> bool {
    &&& pa.len() > 0 && pb.len() > 0
    &&& k.0 == pa && k.1 == pb
    &&& probed.contains(k.2)
    &&& !views(iv@).contains(k.2)
    &&& !os.contains(k.2)
}

/// The routes a batch has a row for.
pub open spec fn route_seen(k: RouteKey, p: Seq<Offer>, pa: Seq<char>, pb: Seq<char>, probed: Seq<Seq<char>>,
    os: Seq<Seq<char>>, iv: Vec<String>) -> bool
{
    probe_key(k, pa, pb, probed, os, iv) || any_via(p, k, os, iv) || any_other(p, k, os, iv)
}

/// The cheapest hidden-city ticket for `k`: the first of the least price.
pub open spec fn best_hit(p: Seq<Offer>, k: RouteKey, os: Seq<Seq<char>>, iv: Vec<String>) -> Option<Offer>
    decreases p.len(),
{
    if p.len() == 0 {
        None
    } else {
        let b = best_hit(p.drop_last(), k, os, iv);
        if via_hit(p.last(), k, os, iv) && (b is None || p.last().price->0 < b->0.price->0) {
            Some(p.last())
        } else {
            b
        }
    }
}

/// The cheapest hidden-city ticket exists exactly when some ticket is one, and is one.
pub proof fn lemma_best_hit(p: Seq<Offer>, k: RouteKey, os: Seq<Seq<char>>, iv: Vec<String>)
    ensures
        best_hit(p, k, os, iv) is Some <==> any_via(p, k, os, iv),
        best_hit(p, k, os, iv) matches Some(b) ==> via_hit(b, k, os, iv),
    decreases p.len(),
{
    if p.len() > 0 {
        let d = p.drop_last();
        lemma_best_hit(d, k, os, iv);
        if any_via(d, k, os, iv) {
            let q = choose|q: int| 0 <= q < d.len() && via_hit(#[trigger] d[q], k, os, iv);
            assert(p[q] == d[q]);
        }
        if any_via(p, k, os, iv) && !via_hit(p.last(), k, os, iv) {
            let q = choose|q: int| 0 <= q < p.len() && via_hit(#[trigger] p[q], k, os, iv);
            assert(q < d.len());
            assert(d[q] == p[q]);
        }
        if via_hit(p.last(), k, os, iv) {
            assert(via_hit(p[p.len() - 1], k, os, iv));
        }
    }
}

/// The saving in hundredths of a percent of the honest price (zero for a zero honest
/// price).
pub open spec fn saving_pct(saving: int, honest: int) -> int {
    if honest != 0 { round_half_away(10000 * saving, honest) } else { 0 }
}

/// The honest price, if any (zero without one).
pub open spec fn honest_price(h: Option<(i64, Seq<char>)>) -> int {
    match h { Some((p, _)) => p as int, None => 0 }
}

/// The honest price's currency, if any (empty without one).
pub open spec fn honest_code(h: Option<(i64, Seq<char>)>) -> Seq<char> {
    match h { Some((_, c)) => c, None => Seq::empty() }
}

/// Whether the cheapest hidden-city ticket for `k` undercuts the honest fare, in its
/// currency.
pub open spec fn undercuts(p: Seq<Offer>, k: RouteKey, os: Seq<Seq<char>>, iv: Vec<String>, honest: Option<(i64, Seq<char>)>) -> bool {
    &&& any_via(p, k, os, iv)
    &&& honest is Some
    &&& best_hit(p, k, os, iv) is Some
    &&& best_hit(p, k, os, iv)->0.currency@ == honest_code(honest)
    &&& best_hit(p, k, os, iv)->0.price->0 < honest_price(honest)
}

/// `r` is the row for route `k`: one observation for a probe, one for a hidden-city
/// ticket not already probed and one for another connection (never fewer than the
/// successes); a success for each kind of hit; and, when the cheapest hidden-city
/// ticket undercuts the honest fare, that saving.
pub open spec fn row_of(r: StatDelta, k: RouteKey, p: Seq<Offer>, pa: Seq<char>, pb: Seq<char>, probed: Seq<Seq<char>>,
    os: Seq<Seq<char>>, iv: Vec<String>, honest: Option<(i64, Seq<char>)>) -> bool
{
    row_fields(r, k, p, pa, pb, probed, os, iv, honest, true)
}

/// The fields of the row for route `k`; `normalized` says whether the observations
/// have been raised to the successes yet.
pub open spec fn row_fields(r: StatDelta, k: RouteKey, p: Seq<Offer>, pa: Seq<char>, pb: Seq<char>, probed: Seq<Seq<char>>,
    os: Seq<Seq<char>>, iv: Vec<String>, honest: Option<(i64, Seq<char>)>, normalized: bool) -> bool
{
    let pr = probe_key(k, pa, pb, probed, os, iv);
    let via = any_via(p, k, os, iv);
    let oth = any_other(p, k, os, iv);
    let obs = (if pr { 1int } else { 0 }) + (if via && !pr { 1int } else { 0 }) + (if oth { 1int } else { 0 });
    let succ = (if via { 1int } else { 0 }) + (if oth { 1int } else { 0 });
    let chp = undercuts(p, k, os, iv, honest);
    let best = best_hit(p, k, os, iv);
    let saving = honest_price(honest) - best->0.price->0;
    &&& key_view((r.origin, r.intended, r.ticketed)) == k
    &&& r.observations == (if normalized && succ > obs { succ } else { obs })
    &&& r.successful_connections == succ
    &&& r.cheaper_than_direct_count == (if chp { 1int } else { 0 })
    &&& r.savings@ == (if chp { seq![saving as i128] } else { Seq::empty() })
    &&& r.saving_pcts@ == (if chp { seq![saving_pct(saving, honest_price(honest)) as i128] } else { Seq::empty() })
    &&& r.currency@ == (if chp { honest_code(honest) } else { Seq::empty() })
    &&& r.best_through_price == (if via { best->0.price } else { None })
    &&& r.success == (via || oth)
    &&& r.cheaper == chp
}

/// What one route learned in a batch (money in US cents, percentages in hundredths).
pub struct StatDelta {
    pub origin: String,
    pub intended: String,
    pub ticketed: String,
    pub observations: i32,
    pub successful_connections: i32,
    pub cheaper_than_direct_count: i32,
    pub savings: Vec<i128>,
    pub saving_pcts: Vec<i128>,
    pub currency: String,
    pub best_through_price: Option<i64>,
    pub success: bool,
    pub cheaper: bool,
}

/// The keys of a list of rows.
pub open spec fn key_views(keys: Seq<(String, String, String)>) -> Seq<RouteKey> {
    keys.map_values(|t: (String, String, String)| key_view(t))
}

fn same_key(a: &(String, String, String), b: &(String, String, String)) -> (r: bool)
    ensures
        r == (key_view(*a) == key_view(*b)),
{
    str_eq(a.0.as_str(), b.0.as_str()) && str_eq(a.1.as_str(), b.1.as_str()) && str_eq(a.2.as_str(), b.2.as_str())
}

fn push_key(keys: &mut Vec<(String, String, String)>, t: (String, String, String))
    requires
        key_views(old(keys)@).no_duplicates(),
    ensures
        key_views(final(keys)@).no_duplicates(),
        forall|k: RouteKey| key_views(final(keys)@).contains(k) <==> (key_views(old(keys)@).contains(k) || k == key_view(t)),
        final(keys)@.len() <= old(keys)@.len() + 1,
{
    let mut i: usize = 0;
    while i < keys.len()
        invariant
            i <= keys@.len(),
            keys@ == old(keys)@,
            key_views(keys@).no_duplicates(),
            forall|j: int| 0 <= j < i ==> key_view(#[trigger] keys@[j]) != key_view(t),
        decreases keys@.len() - i,
    {
        if same_key(&keys[i], &t) {
            assert(key_views(keys@)[i as int] == key_view(t));
            return;
        }
        i = i + 1;
    }
    let ghost before = keys@;
    keys.push(t);
    proof {
        assert(key_views(keys@) =~= key_views(before).push(key_view(t)));
        assert(!key_views(before).contains(key_view(t))) by {
            if key_views(before).contains(key_view(t)) {
                let j = choose|j: int| 0 <= j < key_views(before).len() && key_views(before)[j] == key_view(t);
                assert(key_view(before[j]) == key_view(t));
            }
        }
        assert forall|a: int, b: int| 0 <= a < key_views(keys@).len() && 0 <= b < key_views(keys@).len() && a != b
            implies key_views(keys@)[a] != key_views(keys@)[b] by {
            if a < before.len() && b < before.len() {
                assert(key_views(before)[a] != key_views(before)[b]);
            } else if a < before.len() {
                assert(key_views(before).contains(key_views(before)[a]));
            } else if b < before.len() {
                assert(key_views(before).contains(key_views(before)[b]));
            }
        }
        assert forall|k: RouteKey| key_views(keys@).contains(k) <==> (key_views(before).contains(k) || k == key_view(t)) by {
            if key_views(keys@).contains(k) {
                let j = choose|j: int| 0 <= j < key_views(keys@).len() && key_views(keys@)[j] == k;
                if j < before.len() {
                    assert(key_views(before)[j] == k);
                }
            }
            if key_views(before).contains(k) {
                let j = choose|j: int| 0 <= j < key_views(before).len() && key_views(before)[j] == k;
                assert(key_views(keys@)[j] == k);
            }
            if k == key_view(t) {
                assert(key_views(keys@)[before.len() as int] == k);
            }
        }
    }
}

/// The airport an offer is sold to, when the offer teaches about routes.
fn group_of(o: &Offer, os: &Vec<String>, iv: &Vec<String>) -> (r: Option<String>)
    ensures
        r is Some <==> grouped(*o, views(os@), *iv),
        r matches Some(t) ==> t@ == ticketed(*o),
{
    if o.price.is_none() || o.segments.len() == 0 {
        return None;
    }
    let from = upper(o.segments[0].origin.as_str());
    if !has_code(os, from.as_str()) {
        return None;
    }
    let t = ticketed_destination(o);
    if t.as_str().is_empty() || has_code(iv, t.as_str()) {
        return None;
    }
    Some(t)
}

/// The hidden-city route of an offer, if it has one.
fn via_key(o: &Offer, os: &Vec<String>, iv: &Vec<String>) -> (r: Option<(String, String, String)>)
    ensures
        r matches Some(t) ==> via_hit(*o, key_view(t), views(os@), *iv),
        forall|k: RouteKey| via_hit(*o, k, views(os@), *iv) ==> (r matches Some(t) && key_view(t) == k),
{
    let c = match group_of(o, os, iv) { Some(c) => c, None => return None };
    let a = upper(o.segments[0].origin.as_str());
    match detect_hidden_city(o, iv) {
        Some(hit) => Some((a, hit.exit_airport, c)),
        None => None,
    }
}

/// The other-connection routes of an offer, each at most once.
fn other_keys(o: &Offer, os: &Vec<String>, iv: &Vec<String>) -> (r: Vec<(String, String, String)>)
    ensures
        forall|i: int| 0 <= i < r@.len() ==> other_hit(*o, key_view(#[trigger] r@[i]), views(os@), *iv),
        forall|k: RouteKey| other_hit(*o, k, views(os@), *iv) ==> key_views(r@).contains(k),
        r@.len() <= o.segments@.len(),
{
    let mut out: Vec<(String, String, String)> = Vec::new();
    let c = match group_of(o, os, iv) { Some(c) => c, None => return out };
    let a = upper(o.segments[0].origin.as_str());
    let n = o.segments.len();
    let last: usize = match o.outbound_end {
        Some(e) => if e < 0 { 0 } else if (e as usize) > n - 1 { n - 1 } else { e as usize },
        None => n - 1,
    };
    assert(last as int == outbound_last(*o));
    let mut j: usize = 0;
    while j < last
        invariant
            j <= last < n,
            n == o.segments@.len(),
            last as int == outbound_last(*o),
            grouped(*o, views(os@), *iv),
            a@ == start_of(*o),
            c@ == ticketed(*o),
            out@.len() <= j,
            key_views(out@).no_duplicates(),
            forall|i: int| 0 <= i < out@.len() ==> other_hit(*o, key_view(#[trigger] out@[i]), views(os@), *iv),
            forall|k: RouteKey| (k.0 == a@ && k.2 == c@ && !views(iv@).contains(k.1) && k.1 != k.0
                && landings(o.segments@.subrange(0, j as int)).contains(k.1)) ==> key_views(out@).contains(k),
        decreases last - j,
    {
        let x = upper(o.segments[j].dest.as_str());
        let ghost before = out@;
        let ghost lj = landings(o.segments@.subrange(0, j as int));
        let ghost lj1 = landings(o.segments@.subrange(0, j + 1));
        assert(lj1 =~= lj.push(x@));
        assert(connections_of(*o) == landings(o.segments@.subrange(0, last as int)));
        assert(connections_of(*o)[j as int] == x@);
        if !has_code(iv, x.as_str()) && !str_eq(x.as_str(), a.as_str()) {
            let t = (a.clone(), x, c.clone());
            push_key(&mut out, t);
            proof {
                assert forall|i: int| 0 <= i < out@.len() implies other_hit(*o, key_view(#[trigger] out@[i]), views(os@), *iv) by {
                    assert(key_views(out@).contains(key_view(out@[i]))) by {
                        assert(key_views(out@)[i] == key_view(out@[i]));
                    }
                    if key_view(out@[i]) != key_view(t) {
                        let m = choose|m: int| 0 <= m < before.len() && key_views(before)[m] == key_view(out@[i]);
                        assert(key_view(before[m]) == key_view(out@[i]));
                    }
                }
            }
        }
        proof {
            assert forall|k: RouteKey| (k.0 == a@ && k.2 == c@ && !views(iv@).contains(k.1) && k.1 != k.0
                && lj1.contains(k.1)) implies key_views(out@).contains(k) by {
                let m = choose|m: int| 0 <= m < lj1.len() && lj1[m] == k.1;
                if m < j {
                    assert(lj[m] == k.1);
                }
            }
        }
        j = j + 1;
    }
    proof {
        assert forall|k: RouteKey| other_hit(*o, k, views(os@), *iv) implies key_views(out@).contains(k) by {}
    }
    out
}

/// How many segments the offers hold together.
pub open spec fn segments_total(p: Seq<Offer>) -> int
    decreases p.len(),
{
    if p.len() == 0 { 0 } else { segments_total(p.drop_last()) + p.last().segments@.len() }
}

/// Every route the batch has a row for, each once: the probe rows first, then the
/// routes of each offer in order.
fn route_keys(p: &[Offer], os: &Vec<String>, iv: &Vec<String>, pa: &String, pb: &String, probed: &Vec<String>)
    -> (keys: Vec<(String, String, String)>)
    ensures
        key_views(keys@).no_duplicates(),
        forall|k: RouteKey| key_views(keys@).contains(k) <==> route_seen(k, p@, pa@, pb@, views(probed@), views(os@), *iv),
        keys@.len() <= probed@.len() + p@.len() + segments_total(p@),
{
    let mut keys: Vec<(String, String, String)> = Vec::new();
    let ghost ps = views(probed@);
    let ghost osv = views(os@);
    let mut i: usize = 0;
    if !pa.as_str().is_empty() && !pb.as_str().is_empty() {
        while i < probed.len()
            invariant
                i <= probed@.len(),
                pa@.len() > 0 && pb@.len() > 0,
                ps == views(probed@),
                osv == views(os@),
                key_views(keys@).no_duplicates(),
                keys@.len() <= i,
                forall|k: RouteKey| key_views(keys@).contains(k) <==> probe_key(k, pa@, pb@, ps.subrange(0, i as int), osv, *iv),
            decreases probed@.len() - i,
        {
            let c = &probed[i];
            let ghost ps1 = ps.subrange(0, i + 1);
            assert(ps1 =~= ps.subrange(0, i as int).push(c@));
            if !has_code(iv, c.as_str()) && !has_code(os, c.as_str()) {
                push_key(&mut keys, (pa.clone(), pb.clone(), c.clone()));
            }
            proof {
                assert forall|k: RouteKey| key_views(keys@).contains(k) <==> probe_key(k, pa@, pb@, ps1, osv, *iv) by {
                    if ps1.contains(k.2) && !ps.subrange(0, i as int).contains(k.2) {
                        let m = choose|m: int| 0 <= m < ps1.len() && ps1[m] == k.2;
                        if m < i {
                            assert(ps.subrange(0, i as int)[m] == k.2);
                        }
                    }
                    if ps.subrange(0, i as int).contains(k.2) {
                        let m = choose|m: int| 0 <= m < i && ps.subrange(0, i as int)[m] == k.2;
                        assert(ps1[m] == k.2);
                    }
                    if k.2 == c@ {
                        assert(ps1[i as int] == k.2);
                    }
                }
            }
            i = i + 1;
        }
        assert(ps.subrange(0, i as int) =~= ps);
    }
    let mut j: usize = 0;
    while j < p.len()
        invariant
            j <= p@.len(),
            ps == views(probed@),
            osv == views(os@),
            key_views(keys@).no_duplicates(),
            keys@.len() <= probed@.len() + j + segments_total(p@.subrange(0, j as int)),
            forall|k: RouteKey| key_views(keys@).contains(k) <==> (probe_key(k, pa@, pb@, ps, osv, *iv)
                || any_via(p@.subrange(0, j as int), k, osv, *iv) || any_other(p@.subrange(0, j as int), k, osv, *iv)),
        decreases p@.len() - j,
    {
        let ghost pre = p@.subrange(0, j as int);
        let ghost next = p@.subrange(0, j + 1);
        assert(next.drop_last() =~= pre);
        assert(next.last() == p@[j as int]);
        let o = &p[j];
        let ghost k0 = keys@;
        match via_key(o, os, iv) {
            Some(t) => {
                push_key(&mut keys, t);
                proof {
                    assert forall|k: RouteKey| key_views(keys@).contains(k) <==> (key_views(k0).contains(k)
                        || via_hit(*o, k, osv, *iv)) by {
                        if via_hit(*o, k, osv, *iv) {
                            assert(k == key_view(t));
                        }
                    }
                }
            },
            None => {
                proof {
                    assert forall|k: RouteKey| key_views(keys@).contains(k) <==> (key_views(k0).contains(k)
                        || via_hit(*o, k, osv, *iv)) by {}
                }
            },
        }
        let ghost k1 = keys@;
        let others = other_keys(o, os, iv);
        let mut m: usize = 0;
        while m < others.len()
            invariant
                m <= others@.len(),
                others@.len() <= o.segments@.len(),
                key_views(keys@).no_duplicates(),
                keys@.len() <= k1.len() + m,
                key_views(keys@).to_set() == key_views(k1).to_set().union(key_views(others@.subrange(0, m as int)).to_set()),
            decreases others@.len() - m,
        {
            let ghost sub = others@.subrange(0, m as int);
            let ghost sub1 = others@.subrange(0, m + 1);
            proof {
                assert(key_views(sub1) =~= key_views(sub).push(key_view(others@[m as int])));
            }
            let t = (others[m].0.clone(), others[m].1.clone(), others[m].2.clone());
            assert(key_view(t) == key_view(others@[m as int]));
            let ghost kb = keys@;
            push_key(&mut keys, t);
            proof {
                key_views(sub).lemma_push_to_set_commute(key_view(t));
                assert(key_views(sub1).to_set() =~= key_views(sub).to_set().insert(key_view(t)));
                assert(key_views(keys@).to_set() =~= key_views(kb).to_set().insert(key_view(t))) by {
                    assert forall|k: RouteKey| key_views(keys@).to_set().contains(k) <==> key_views(kb).to_set().insert(key_view(t)).contains(k) by {
                        assert(key_views(keys@).contains(k) <==> (key_views(kb).contains(k) || k == key_view(t)));
                    }
                }
                assert(key_views(keys@).to_set() =~= key_views(k1).to_set().union(key_views(sub1).to_set()));
            }
            m = m + 1;
        }
        proof {
            assert(others@.subrange(0, m as int) =~= others@);
            assert forall|k: RouteKey| key_views(keys@).contains(k) <==> (key_views(k1).contains(k) || key_views(others@).contains(k)) by {
                assert(key_views(keys@).to_set().contains(k) == key_views(keys@).contains(k));
                assert(key_views(k1).to_set().contains(k) == key_views(k1).contains(k));
                assert(key_views(others@).to_set().contains(k) == key_views(others@).contains(k));
            }
            assert forall|k: RouteKey| key_views(others@).contains(k) <==> other_hit(*o, k, osv, *iv) by {
                if key_views(others@).contains(k) {
                    let q = choose|q: int| 0 <= q < key_views(others@).len() && key_views(others@)[q] == k;
                    assert(other_hit(*o, key_view(others@[q]), osv, *iv));
                }
            }
            assert(segments_total(next) == segments_total(pre) + o.segments@.len());
            assert forall|k: RouteKey| key_views(keys@).contains(k) <==> (probe_key(k, pa@, pb@, ps, osv, *iv)
                || any_via(next, k, osv, *iv) || any_other(next, k, osv, *iv)) by {
                assert(key_views(keys@).contains(k) <==> (key_views(k1).contains(k) || key_views(others@).contains(k)));
                assert(key_views(k1).contains(k) <==> (key_views(k0).contains(k) || via_hit(*o, k, osv, *iv)));
                assert(key_views(k0).contains(k) <==> (probe_key(k, pa@, pb@, ps, osv, *iv)
                    || any_via(pre, k, osv, *iv) || any_other(pre, k, osv, *iv)));
                assert(key_views(others@).contains(k) <==> other_hit(*o, k, osv, *iv));
                if any_via(next, k, osv, *iv) && !any_via(pre, k, osv, *iv) {
                    let q = choose|q: int| 0 <= q < next.len() && via_hit(#[trigger] next[q], k, osv, *iv);
                    if q < j {
                        assert(next[q] == pre[q]);
                    } else {
                        assert(next[q] == *o);
                        assert(via_hit(*o, k, osv, *iv));
                    }
                }
                if any_via(pre, k, osv, *iv) {
                    let q = choose|q: int| 0 <= q < pre.len() && via_hit(#[trigger] pre[q], k, osv, *iv);
                    assert(next[q] == pre[q]);
                }
                if any_other(next, k, osv, *iv) && !any_other(pre, k, osv, *iv) {
                    let q = choose|q: int| 0 <= q < next.len() && other_hit(#[trigger] next[q], k, osv, *iv);
                    if q < j {
                        assert(next[q] == pre[q]);
                    } else {
                        assert(next[q] == *o);
                        assert(other_hit(*o, k, osv, *iv));
                        assert(key_views(others@).contains(k));
                    }
                }
                if any_other(pre, k, osv, *iv) {
                    let q = choose|q: int| 0 <= q < pre.len() && other_hit(#[trigger] pre[q], k, osv, *iv);
                    assert(next[q] == pre[q]);
                }
                if key_views(others@).contains(k) {
                    let q = choose|q: int| 0 <= q < key_views(others@).len() && key_views(others@)[q] == k;
                    assert(other_hit(*o, key_view(others@[q]), osv, *iv));
                    assert(other_hit(next[j as int], k, osv, *iv));
                }
                if via_hit(*o, k, osv, *iv) {
                    assert(via_hit(next[j as int], k, osv, *iv));
                }
            }
        }
        j = j + 1;
    }
    assert(p@.subrange(0, j as int) =~= p@);
    keys
}

/// The honest fare as the rows compare it.
pub open spec fn honest_view(h: Option<(i64, String)>) -> Option<(i64, Seq<char>)> {
    match h { Some((p, c)) => Some((p, c@)), None => None }
}

fn probe_row(k: &(String, String, String), pa: &String, pb: &String, probed: &Vec<String>, os: &Vec<String>, iv: &Vec<String>) -> (r: bool)
    ensures
        r == probe_key(key_view(*k), pa@, pb@, views(probed@), views(os@), *iv),
{
    !pa.as_str().is_empty() && !pb.as_str().is_empty() && str_eq(k.0.as_str(), pa.as_str()) && str_eq(k.1.as_str(), pb.as_str())
        && has_code(probed, k.2.as_str()) && !has_code(iv, k.2.as_str()) && !has_code(os, k.2.as_str())
}

fn has_key(keys: &Vec<(String, String, String)>, k: &(String, String, String)) -> (r: bool)
    ensures
        r == key_views(keys@).contains(key_view(*k)),
{
    let mut i: usize = 0;
    while i < keys.len()
        invariant
            i <= keys@.len(),
            forall|j: int| 0 <= j < i ==> key_view(#[trigger] keys@[j]) != key_view(*k),
        decreases keys@.len() - i,
    {
        if same_key(&keys[i], k) {
            assert(key_views(keys@)[i as int] == key_view(*k));
            return true;
        }
        i = i + 1;
    }
    proof {
        if key_views(keys@).contains(key_view(*k)) {
            let j = choose|j: int| 0 <= j < key_views(keys@).len() && key_views(keys@)[j] == key_view(*k);
            assert(key_view(keys@[j]) == key_view(*k));
        }
    }
    false
}

/// The row for one route, its observations not yet raised to its successes.
fn route_row(p: &[Offer], k: &(String, String, String), os: &Vec<String>, iv: &Vec<String>, pa: &String, pb: &String,
    probed: &Vec<String>, honest: &Option<(i64, String)>) -> (r: StatDelta)
    ensures
        row_fields(r, key_view(*k), p@, pa@, pb@, views(probed@), views(os@), *iv, honest_view(*honest), false),
        0 <= r.observations <= 3,
        0 <= r.successful_connections <= 2,
        0 <= r.cheaper_than_direct_count <= 1,
{
    let ghost kv = key_view(*k);
    let ghost osv = views(os@);
    let pr = probe_row(k, pa, pb, probed, os, iv);
    let mut has_via = false;
    let mut has_other = false;
    let mut best: Option<usize> = None;
    let mut i: usize = 0;
    while i < p.len()
        invariant
            i <= p@.len(),
            kv == key_view(*k),
            osv == views(os@),
            has_via == any_via(p@.subrange(0, i as int), kv, osv, *iv),
            has_other == any_other(p@.subrange(0, i as int), kv, osv, *iv),
            match best_hit(p@.subrange(0, i as int), kv, osv, *iv) {
                None => best is None,
                Some(b) => best matches Some(x) && x < i && p@[x as int] == b,
            },
        decreases p@.len() - i,
    {
        let ghost pre = p@.subrange(0, i as int);
        let ghost next = p@.subrange(0, i + 1);
        assert(next.drop_last() =~= pre);
        assert(next.last() == p@[i as int]);
        let o = &p[i];
        let hit = match via_key(o, os, iv) {
            Some(t) => same_key(&t, k),
            None => false,
        };
        assert(hit == via_hit(*o, kv, osv, *iv));
        let others = other_keys(o, os, iv);
        let ohit = has_key(&others, k);
        proof {
            if ohit {
                let q = choose|q: int| 0 <= q < key_views(others@).len() && key_views(others@)[q] == kv;
                assert(other_hit(*o, key_view(others@[q]), osv, *iv));
            }
            assert(ohit == other_hit(*o, kv, osv, *iv));
            if any_via(next, kv, osv, *iv) && !hit {
                let q = choose|q: int| 0 <= q < next.len() && via_hit(#[trigger] next[q], kv, osv, *iv);
                assert(q < i);
                assert(next[q] == pre[q]);
            }
            if any_via(pre, kv, osv, *iv) {
                let q = choose|q: int| 0 <= q < pre.len() && via_hit(#[trigger] pre[q], kv, osv, *iv);
                assert(next[q] == pre[q]);
            }
            if hit {
                assert(via_hit(next[i as int], kv, osv, *iv));
            }
            if any_other(next, kv, osv, *iv) && !ohit {
                let q = choose|q: int| 0 <= q < next.len() && other_hit(#[trigger] next[q], kv, osv, *iv);
                assert(q < i);
                assert(next[q] == pre[q]);
            }
            if any_other(pre, kv, osv, *iv) {
                let q = choose|q: int| 0 <= q < pre.len() && other_hit(#[trigger] pre[q], kv, osv, *iv);
                assert(next[q] == pre[q]);
            }
            if ohit {
                assert(other_hit(next[i as int], kv, osv, *iv));
            }
        }
        proof {
            lemma_best_hit(pre, kv, osv, *iv);
        }
        if hit {
            has_via = true;
            let better = match best {
                None => true,
                Some(x) => {
                    let bp = match p[x].price { Some(v) => v, None => 0 };
                    let op = match o.price { Some(v) => v, None => 0 };
                    op < bp
                },
            };
            if better {
                best = Some(i);
            }
        }
        if ohit {
            has_other = true;
        }
        i = i + 1;
    }
    assert(p@.subrange(0, i as int) =~= p@);
    proof {
        lemma_best_hit(p@, kv, osv, *iv);
    }
    let mut cheaper = false;
    let mut saving: i128 = 0;
    let mut hc = String::new();
    let mut best_price: Option<i64> = None;
    if has_via {
        match best {
            Some(x) => {
                best_price = p[x].price;
                match honest {
                    Some((hp, c)) => {
                        let bp = match p[x].price { Some(v) => v, None => 0 };
                        if str_eq(p[x].currency.as_str(), c.as_str()) && bp < *hp {
                            cheaper = true;
                            saving = *hp as i128 - bp as i128;
                            hc = c.clone();
                        }
                    },
                    None => {},
                }
            },
            None => {},
        }
    }
    let mut savings: Vec<i128> = Vec::new();
    let mut pcts: Vec<i128> = Vec::new();
    if cheaper {
        let hp: i64 = match honest { Some((v, _)) => *v, None => 0 };
        let pct: i128 = if hp != 0 { round_div(10000 * saving, hp as i128) } else { 0 };
        savings.push(saving);
        pcts.push(pct);
    }
    let obs: i32 = (if pr { 1 } else { 0 }) + (if has_via && !pr { 1 } else { 0 }) + (if has_other { 1 } else { 0 });
    let succ: i32 = (if has_via { 1 } else { 0 }) + (if has_other { 1 } else { 0 });
    StatDelta {
        origin: k.0.clone(),
        intended: k.1.clone(),
        ticketed: k.2.clone(),
        observations: obs,
        successful_connections: succ,
        cheaper_than_direct_count: if cheaper { 1 } else { 0 },
        savings,
        saving_pcts: pcts,
        currency: hc,
        best_through_price: best_price,
        success: has_via || has_other,
        cheaper,
    }
}

/// Upper-casing leaves each part of the route as it is (as for ASCII codes).
pub open spec fn route_stable(k: RouteKey) -> bool {
    to_upper(k.0) == k.0 && to_upper(k.1) == k.1 && to_upper(k.2) == k.2
}

/// The routes of a list of rows.
pub open spec fn row_keys(rows: Seq<StatDelta>) -> Seq<RouteKey> {
    rows.map_values(|r: StatDelta| (r.origin@, r.intended@, r.ticketed@))
}

fn find_row(rows: &Vec<StatDelta>, a: &String, b: &String, c: &String) -> (r: Option<usize>)
    ensures
        match r {
            Some(x) => x < rows@.len() && row_keys(rows@)[x as int] == (a@, b@, c@),
            None => !row_keys(rows@).contains((a@, b@, c@)),
        },
{
    let mut i: usize = 0;
    while i < rows.len()
        invariant
            i <= rows@.len(),
            forall|j: int| 0 <= j < i ==> row_keys(rows@)[j] != (a@, b@, c@),
        decreases rows@.len() - i,
    {
        if str_eq(rows[i].origin.as_str(), a.as_str()) && str_eq(rows[i].intended.as_str(), b.as_str())
            && str_eq(rows[i].ticketed.as_str(), c.as_str()) {
            return Some(i);
        }
        i = i + 1;
    }
    None
}

/// A route with each part upper-cased, as the rows are keyed.
pub open spec fn upper_route(k: RouteKey) -> RouteKey {
    (to_upper(k.0), to_upper(k.1), to_upper(k.2))
}

/// The counts of a row are in order: no more successes than observations, no more
/// cheaper fares than successes, and one saving and one percentage per cheaper fare.
pub open spec fn counts_ordered(r: StatDelta) -> bool {
    &&& r.observations >= r.successful_connections >= r.cheaper_than_direct_count >= 0
    &&& r.savings@.len() == r.cheaper_than_direct_count
    &&& r.saving_pcts@.len() == r.cheaper_than_direct_count
}

/// `key` is the upper-cased form of a route seen.
pub open spec fn keyed_from_seen(key: RouteKey, p: Seq<Offer>, pa: Seq<char>, pb: Seq<char>, probed: Seq<Seq<char>>,
    os: Seq<Seq<char>>, iv: Vec<String>) -> bool
{
    exists|k: RouteKey| #[trigger] route_seen(k, p, pa, pb, probed, os, iv) && upper_route(k) == key
}

/// `key` is the upper-cased form of one of the first `n` keys.
pub open spec fn keyed_by(key: RouteKey, keys: Seq<(String, String, String)>, n: int) -> bool {
    exists|j: int| 0 <= j < n && key == #[trigger] upper_route(key_view(keys[j]))
}

/// The route rows of a batch, each key once. Rows are keyed by their route upper-cased
/// again: every row's key is that of a route seen, every route seen has a row under its
/// key, and every row's counts are in order. When upper-casing changes no route (as
/// for ASCII codes), each route seen has exactly its row (see [`row_of`]); otherwise
/// routes that meet under one key share a row.
pub fn learn_routes(p: &[Offer], os: &Vec<String>, iv: &Vec<String>, pa: &String, pb: &String, probed: &Vec<String>,
    honest: &Option<(i64, String)>) -> (rows: Vec<StatDelta>)
    requires
        probed@.len() + p@.len() + segments_total(p@) < 0x1000_0000,
    ensures
        row_keys(rows@).no_duplicates(),
        forall|i: int| 0 <= i < rows@.len() ==> counts_ordered(#[trigger] rows@[i]),
        forall|i: int| 0 <= i < rows@.len()
            ==> keyed_from_seen(#[trigger] row_keys(rows@)[i], p@, pa@, pb@, views(probed@), views(os@), *iv),
        forall|k: RouteKey| route_seen(k, p@, pa@, pb@, views(probed@), views(os@), *iv)
            ==> row_keys(rows@).contains(#[trigger] upper_route(k)),
        (forall|k: RouteKey| route_seen(k, p@, pa@, pb@, views(probed@), views(os@), *iv) ==> route_stable(k)) ==> {
            &&& forall|i: int| 0 <= i < rows@.len() ==> route_seen(row_keys(rows@)[i], p@, pa@, pb@, views(probed@), views(os@), *iv)
                && row_of(#[trigger] rows@[i], row_keys(rows@)[i], p@, pa@, pb@, views(probed@), views(os@), *iv, honest_view(*honest))
            &&& forall|k: RouteKey| route_seen(k, p@, pa@, pb@, views(probed@), views(os@), *iv) ==> row_keys(rows@).contains(k)
        },
{
    let keys = route_keys(p, os, iv, pa, pb, probed);
    let ghost stable = forall|k: RouteKey| route_seen(k, p@, pa@, pb@, views(probed@), views(os@), *iv) ==> route_stable(k);
    let ghost hv = honest_view(*honest);
    let mut rows: Vec<StatDelta> = Vec::new();
    let mut i: usize = 0;
    while i < keys.len()
        invariant
            i <= keys@.len() < 0x1000_0000,
            key_views(keys@).no_duplicates(),
            forall|k: RouteKey| key_views(keys@).contains(k) <==> route_seen(k, p@, pa@, pb@, views(probed@), views(os@), *iv),
            stable == forall|k: RouteKey| route_seen(k, p@, pa@, pb@, views(probed@), views(os@), *iv) ==> route_stable(k),
            hv == honest_view(*honest),
            row_keys(rows@).no_duplicates(),
            rows@.len() <= i,
            forall|r: int| 0 <= r < rows@.len() ==> 0 <= (#[trigger] rows@[r]).observations <= 3 * i
                && 0 <= rows@[r].successful_connections <= 3 * i && 0 <= rows@[r].cheaper_than_direct_count <= 3 * i,
            stable ==> rows@.len() == i,
            stable ==> forall|r: int| 0 <= r < i ==> row_keys(rows@)[r] == key_view(keys@[r])
                && row_fields(#[trigger] rows@[r], key_view(keys@[r]), p@, pa@, pb@, views(probed@), views(os@), *iv, hv, false),
            forall|r: int| 0 <= r < rows@.len() ==> counts_ordered(#[trigger] rows@[r]),
            forall|r: int| 0 <= r < rows@.len() ==> keyed_by(#[trigger] row_keys(rows@)[r], keys@, i as int),
            forall|j: int| 0 <= j < i ==> row_keys(rows@).contains(#[trigger] upper_route(key_view(keys@[j]))),
        decreases keys@.len() - i,
    {
        let raw = route_row(p, &keys[i], os, iv, pa, pb, probed, honest);
        let u0 = upper(keys[i].0.as_str());
        let u1 = upper(keys[i].1.as_str());
        let u2 = upper(keys[i].2.as_str());
        let ghost before = rows@;
        let ghost ui = upper_route(key_view(keys@[i as int]));
        proof {
            assert((u0@, u1@, u2@) == ui);
            assert(counts_ordered(raw));
            assert forall|r: int| 0 <= r < before.len() implies keyed_by(#[trigger] row_keys(before)[r], keys@, i + 1) by {
                assert(keyed_by(row_keys(before)[r], keys@, i as int));
                let j = choose|j: int| 0 <= j < i && row_keys(before)[r] == #[trigger] upper_route(key_view(keys@[j]));
                assert(0 <= j < i + 1 && row_keys(before)[r] == upper_route(key_view(keys@[j])));
            }
            assert(keyed_by(ui, keys@, i + 1)) by {
                assert(0 <= i < i + 1 && ui == upper_route(key_view(keys@[i as int])));
            }
            assert(key_views(keys@)[i as int] == key_view(keys@[i as int]));
            assert(key_views(keys@).contains(key_view(keys@[i as int])));
            assert(route_seen(key_view(keys@[i as int]), p@, pa@, pb@, views(probed@), views(os@), *iv));
        }
        match find_row(&rows, &u0, &u1, &u2) {
            Some(x) => {
                proof {
                    if stable {
                        assert(route_stable(key_view(keys@[i as int])));
                        assert(row_keys(rows@)[x as int] == key_view(keys@[x as int]));
                        assert(key_views(keys@)[x as int] == key_views(keys@)[i as int]);
                    }
                }
                assert(0 <= before[x as int].observations <= 3 * i);
                assert(0 <= before[x as int].successful_connections <= 3 * i);
                assert(0 <= before[x as int].cheaper_than_direct_count <= 3 * i);
                let obs = rows[x].observations + raw.observations;
                let succ = rows[x].successful_connections + raw.successful_connections;
                let chp = rows[x].cheaper_than_direct_count + raw.cheaper_than_direct_count;
                rows[x].observations = obs;
                rows[x].successful_connections = succ;
                rows[x].cheaper_than_direct_count = chp;
                let mut m: usize = 0;
                while m < raw.savings.len()
                    invariant
                        x < rows@.len() == before.len(),
                        row_keys(rows@) == row_keys(before),
                        forall|r: int| 0 <= r < rows@.len() && r != x ==> rows@[r] == before[r],
                        rows@[x as int].observations == obs,
                        rows@[x as int].successful_connections == succ,
                        rows@[x as int].cheaper_than_direct_count == chp,
                        m <= raw.savings@.len(),
                        rows@[x as int].savings@.len() == before[x as int].savings@.len() + m,
                        rows@[x as int].saving_pcts@ == before[x as int].saving_pcts@,
                    decreases raw.savings@.len() - m,
                {
                    rows[x].savings.push(raw.savings[m]);
                    assert(row_keys(rows@) =~= row_keys(before));
                    m = m + 1;
                }
                let mut m: usize = 0;
                while m < raw.saving_pcts.len()
                    invariant
                        x < rows@.len() == before.len(),
                        row_keys(rows@) == row_keys(before),
                        forall|r: int| 0 <= r < rows@.len() && r != x ==> rows@[r] == before[r],
                        rows@[x as int].observations == obs,
                        rows@[x as int].successful_connections == succ,
                        rows@[x as int].cheaper_than_direct_count == chp,
                        m <= raw.saving_pcts@.len(),
                        rows@[x as int].savings@.len() == before[x as int].savings@.len() + raw.savings@.len(),
                        rows@[x as int].saving_pcts@.len() == before[x as int].saving_pcts@.len() + m,
                    decreases raw.saving_pcts@.len() - m,
                {
                    rows[x].saving_pcts.push(raw.saving_pcts[m]);
                    assert(row_keys(rows@) =~= row_keys(before));
                    m = m + 1;
                }
                if raw.cheaper {
                    rows[x].currency = raw.currency;
                    rows[x].cheaper = true;
                }
                match raw.best_through_price {
                    Some(bp) => {
                        let lower = match rows[x].best_through_price { Some(b) => bp < b, None => true };
                        if lower {
                            rows[x].best_through_price = Some(bp);
                        }
                    },
                    None => {},
                }
                if raw.success {
                    rows[x].success = true;
                }
                proof {
                    assert(row_keys(rows@) =~= row_keys(before));
                    assert(counts_ordered(before[x as int]));
                    assert(counts_ordered(rows@[x as int]));
                    assert forall|q: int| 0 <= q < rows@.len() implies counts_ordered(#[trigger] rows@[q]) by {
                        if q != x {
                            assert(rows@[q] == before[q]);
                        }
                    }
                    assert forall|j: int| 0 <= j < i + 1 implies row_keys(rows@).contains(#[trigger] upper_route(key_view(keys@[j]))) by {
                        if j < i {
                            assert(row_keys(before).contains(upper_route(key_view(keys@[j]))));
                        } else {
                            assert(row_keys(rows@)[x as int] == ui);
                        }
                    }
                    assert forall|q: int| 0 <= q < rows@.len() implies 0 <= (#[trigger] rows@[q]).observations <= 3 * (i + 1)
                        && 0 <= rows@[q].successful_connections <= 3 * (i + 1) && 0 <= rows@[q].cheaper_than_direct_count <= 3 * (i + 1) by {
                        if q != x {
                            assert(rows@[q] == before[q]);
                        }
                    }
                }
            },
            None => {
                let mut r = raw;
                r.origin = u0;
                r.intended = u1;
                r.ticketed = u2;
                rows.push(r);
                proof {
                    assert(row_keys(rows@) =~= row_keys(before).push((u0@, u1@, u2@)));
                    assert forall|q: int| 0 <= q < rows@.len() implies counts_ordered(#[trigger] rows@[q]) by {
                        if q < before.len() {
                            assert(rows@[q] == before[q]);
                        }
                    }
                    assert forall|q: int| 0 <= q < rows@.len() implies keyed_by(#[trigger] row_keys(rows@)[q], keys@, i + 1) by {
                        if q < before.len() {
                            assert(row_keys(rows@)[q] == row_keys(before)[q]);
                        }
                    }
                    assert forall|j: int| 0 <= j < i + 1 implies row_keys(rows@).contains(#[trigger] upper_route(key_view(keys@[j]))) by {
                        if j < i {
                            let q = choose|q: int| 0 <= q < row_keys(before).len() && row_keys(before)[q] == upper_route(key_view(keys@[j]));
                            assert(row_keys(rows@)[q] == row_keys(before)[q]);
                        } else {
                            assert(row_keys(rows@)[before.len() as int] == ui);
                        }
                    }
                    assert forall|a: int, b: int| 0 <= a < row_keys(rows@).len() && 0 <= b < row_keys(rows@).len() && a != b
                        implies row_keys(rows@)[a] != row_keys(rows@)[b] by {
                        if a < before.len() && b < before.len() {
                            assert(row_keys(before)[a] != row_keys(before)[b]);
                        } else if a < before.len() {
                            assert(row_keys(before).contains(row_keys(before)[a]));
                        } else if b < before.len() {
                            assert(row_keys(before).contains(row_keys(before)[b]));
                        }
                    }
                    assert forall|q: int| 0 <= q < rows@.len() implies 0 <= (#[trigger] rows@[q]).observations <= 3 * (i + 1)
                        && 0 <= rows@[q].successful_connections <= 3 * (i + 1) && 0 <= rows@[q].cheaper_than_direct_count <= 3 * (i + 1) by {
                        if q < before.len() {
                            assert(rows@[q] == before[q]);
                        }
                    }
                    if stable {
                        assert(route_stable(key_view(keys@[i as int])));
                        assert(row_keys(rows@)[i as int] == key_view(keys@[i as int]));
                        assert forall|q: int| 0 <= q < i + 1 implies row_keys(rows@)[q] == key_view(keys@[q])
                            && row_fields(#[trigger] rows@[q], key_view(keys@[q]), p@, pa@, pb@, views(probed@), views(os@), *iv, hv, false) by {
                            if q < i {
                                assert(rows@[q] == before[q]);
                            }
                        }
                    }
                }
            },
        }
        i = i + 1;
    }
    let ghost mid = rows@;
    let mut r: usize = 0;
    while r < rows.len()
        invariant
            r <= rows@.len() == mid.len(),
            stable ==> mid.len() == keys@.len(),
            row_keys(rows@) == row_keys(mid),
            forall|q: int| r <= q < rows@.len() ==> rows@[q] == mid[q],
            stable ==> forall|q: int| 0 <= q < mid.len() ==> row_keys(mid)[q] == key_view(keys@[q])
                && row_fields(#[trigger] mid[q], key_view(keys@[q]), p@, pa@, pb@, views(probed@), views(os@), *iv, hv, false),
            stable ==> forall|q: int| 0 <= q < r ==> row_fields(#[trigger] rows@[q], key_view(keys@[q]), p@, pa@, pb@, views(probed@), views(os@), *iv, hv, true),
            forall|q: int| 0 <= q < mid.len() ==> counts_ordered(#[trigger] mid[q]),
            forall|q: int| 0 <= q < r ==> counts_ordered(#[trigger] rows@[q]),
            forall|q: int| 0 <= q < mid.len() ==> keyed_by(#[trigger] row_keys(mid)[q], keys@, keys@.len() as int),
            forall|j: int| 0 <= j < keys@.len() ==> row_keys(mid).contains(#[trigger] upper_route(key_view(keys@[j]))),
            forall|k: RouteKey| key_views(keys@).contains(k) <==> route_seen(k, p@, pa@, pb@, views(probed@), views(os@), *iv),
        decreases rows@.len() - r,
    {
        let ghost pre = rows@;
        if rows[r].successful_connections > rows[r].observations {
            let s = rows[r].successful_connections;
            rows[r].observations = s;
        }
        if rows[r].cheaper_than_direct_count > rows[r].successful_connections {
            let c = rows[r].cheaper_than_direct_count;
            rows[r].successful_connections = c;
        }
        proof {
            assert(row_keys(rows@) =~= row_keys(mid));
            assert forall|q: int| 0 <= q < rows@.len() && q != r implies rows@[q] == pre[q] by {}
            assert(counts_ordered(mid[r as int]));
            assert(rows@[r as int] == mid[r as int]);
            if stable {
                assert(row_fields(mid[r as int], key_view(keys@[r as int]), p@, pa@, pb@, views(probed@), views(os@), *iv, hv, false));
                assert(row_fields(rows@[r as int], key_view(keys@[r as int]), p@, pa@, pb@, views(probed@), views(os@), *iv, hv, true));
            }
        }
        r = r + 1;
    }
    proof {
        if stable {
            assert forall|q: int| 0 <= q < rows@.len() implies route_seen(row_keys(rows@)[q], p@, pa@, pb@, views(probed@), views(os@), *iv)
                && row_of(#[trigger] rows@[q], row_keys(rows@)[q], p@, pa@, pb@, views(probed@), views(os@), *iv, honest_view(*honest)) by {
                assert(key_views(keys@)[q] == key_view(keys@[q]));
                assert(key_views(keys@).contains(key_view(keys@[q])));
                assert(row_keys(rows@)[q] == row_keys(mid)[q]);
                assert(row_fields(rows@[q], key_view(keys@[q]), p@, pa@, pb@, views(probed@), views(os@), *iv, hv, true));
            }
            assert forall|k: RouteKey| route_seen(k, p@, pa@, pb@, views(probed@), views(os@), *iv) implies row_keys(rows@).contains(k) by {
                assert(key_views(keys@).contains(k));
                let q = choose|q: int| 0 <= q < key_views(keys@).len() && key_views(keys@)[q] == k;
                assert(row_keys(rows@)[q] == row_keys(mid)[q]);
                assert(row_keys(rows@)[q] == k);
            }
        }
    }
    proof {
        assert forall|q: int| 0 <= q < rows@.len()
            implies keyed_from_seen(#[trigger] row_keys(rows@)[q], p@, pa@, pb@, views(probed@), views(os@), *iv) by {
            assert(row_keys(rows@)[q] == row_keys(mid)[q]);
            assert(keyed_by(row_keys(mid)[q], keys@, keys@.len() as int));
            let j = choose|j: int| 0 <= j < keys@.len() && row_keys(mid)[q] == #[trigger] upper_route(key_view(keys@[j]));
            let k = key_view(keys@[j]);
            assert(key_views(keys@)[j] == k);
            assert(key_views(keys@).contains(k));
            assert(route_seen(k, p@, pa@, pb@, views(probed@), views(os@), *iv));
        }
        assert forall|k: RouteKey| route_seen(k, p@, pa@, pb@, views(probed@), views(os@), *iv)
            implies row_keys(rows@).contains(#[trigger] upper_route(k)) by {
            assert(key_views(keys@).contains(k));
            let j = choose|j: int| 0 <= j < key_views(keys@).len() && key_views(keys@)[j] == k;
            assert(key_view(keys@[j]) == k);
            assert(row_keys(mid).contains(upper_route(key_view(keys@[j]))));
        }
    }
    rows
}

/// `a` sorts before `b`, character by character (for UTF-8 text the byte order
/// `String` compares by).
pub open spec fn text_less(a: Seq<char>, b: Seq<char>) -> bool
    decreases a.len(),
{
    if a.len() == 0 {
        b.len() > 0
    } else if b.len() == 0 {
        false
    } else if a[0] != b[0] {
        a[0] < b[0]
    } else {
        text_less(a.subrange(1, a.len() as int), b.subrange(1, b.len() as int))
    }
}

/// The least of some texts, if any.
pub open spec fn least_text(v: Seq<Seq<char>>) -> Option<Seq<char>>
    decreases v.len(),
{
    if v.len() == 0 {
        None
    } else {
        match least_text(v.drop_last()) {
            None => Some(v.last()),
            Some(m) => if text_less(v.last(), m) { Some(v.last()) } else { Some(m) },
        }
    }
}

pub(crate) fn less_text(a: &str, b: &str) -> (r: bool)
    ensures
        r == text_less(a@, b@),
{
    let x = crate::text::chars_of(a);
    let y = crate::text::chars_of(b);
    let mut i: usize = 0;
    assert(x@.subrange(0, x@.len() as int) =~= x@);
    assert(y@.subrange(0, y@.len() as int) =~= y@);
    while i < x.len() && i < y.len()
        invariant
            i <= x@.len(),
            i <= y@.len(),
            x@.subrange(0, i as int) == y@.subrange(0, i as int),
            text_less(a@, b@) == text_less(x@.subrange(i as int, x@.len() as int), y@.subrange(i as int, y@.len() as int)),
        decreases x@.len() - i,
    {
        let ghost xs = x@.subrange(i as int, x@.len() as int);
        let ghost ys = y@.subrange(i as int, y@.len() as int);
        assert(xs[0] == x@[i as int]);
        assert(ys[0] == y@[i as int]);
        if x[i] != y[i] {
            return x[i] < y[i];
        }
        assert(xs.subrange(1, xs.len() as int) =~= x@.subrange(i + 1, x@.len() as int));
        assert(ys.subrange(1, ys.len() as int) =~= y@.subrange(i + 1, y@.len() as int));
        assert(x@.subrange(0, i + 1) =~= x@.subrange(0, i as int).push(x@[i as int]));
        assert(y@.subrange(0, i + 1) =~= y@.subrange(0, i as int).push(y@[i as int]));
        i = i + 1;
    }
    i == x.len() && i < y.len()
}

fn least_of(v: &Vec<String>) -> (r: Option<String>)
    ensures
        match r { Some(m) => least_text(views(v@)) == Some(m@), None => least_text(views(v@)) is None },
{
    let mut best: Option<String> = None;
    let mut i: usize = 0;
    while i < v.len()
        invariant
            i <= v@.len(),
            match best { Some(m) => least_text(views(v@.subrange(0, i as int))) == Some(m@),
                None => least_text(views(v@.subrange(0, i as int))) is None },
        decreases v@.len() - i,
    {
        assert(views(v@.subrange(0, i + 1)).drop_last() =~= views(v@.subrange(0, i as int)));
        assert(views(v@.subrange(0, i + 1)).last() == v@[i as int]@);
        best = match best {
            None => Some(v[i].clone()),
            Some(m) => if less_text(v[i].as_str(), m.as_str()) { Some(v[i].clone()) } else { Some(m) },
        };
        i = i + 1;
    }
    assert(v@.subrange(0, i as int) =~= v@);
    best
}

/// The first three characters of a text upper-cased.
pub open spec fn code3(s: Seq<char>) -> Seq<char> {
    let u = to_upper(s);
    u.subrange(0, if 3 < u.len() { 3 } else { u.len() as int })
}

/// The origin codes a batch is learned for.
pub open spec fn origin_codes(origins: Seq<String>) -> Seq<Seq<char>> {
    origins.map_values(|s: String| code3(s@))
}

/// The intended codes a batch is learned for.
pub open spec fn upper_codes(v: Seq<String>) -> Seq<Seq<char>> {
    v.map_values(|s: String| to_upper(s@))
}

fn code3_of(s: &str) -> (r: String)
    ensures
        r@ == code3(s@),
{
    let u = upper(s);
    take_chars(u.as_str(), 3)
}

fn map_code3(v: &Vec<String>) -> (r: Vec<String>)
    ensures
        views(r@) == origin_codes(v@),
{
    let mut out: Vec<String> = Vec::new();
    let mut i: usize = 0;
    while i < v.len()
        invariant
            i <= v@.len(),
            views(out@) == origin_codes(v@.subrange(0, i as int)),
        decreases v@.len() - i,
    {
        let ghost before = out@;
        let c = code3_of(v[i].as_str());
        out.push(c);
        proof {
            assert(views(before).len() == before.len());
            let want = origin_codes(v@.subrange(0, i + 1));
            assert forall|k: int| 0 <= k < i + 1 implies views(out@)[k] == want[k] by {
                if k < i {
                    assert(out@[k] == before[k]);
                    assert(views(before)[k] == origin_codes(v@.subrange(0, i as int))[k]);
                }
            }
            assert(views(out@) =~= want);
        }
        i = i + 1;
    }
    assert(v@.subrange(0, i as int) =~= v@);
    out
}

fn map_upper(v: &[String]) -> (r: Vec<String>)
    ensures
        views(r@) == upper_codes(v@),
{
    let mut out: Vec<String> = Vec::new();
    let mut i: usize = 0;
    while i < v.len()
        invariant
            i <= v@.len(),
            views(out@) == upper_codes(v@.subrange(0, i as int)),
        decreases v@.len() - i,
    {
        let ghost before = out@;
        let c = upper(v[i].as_str());
        out.push(c);
        proof {
            assert(views(before).len() == before.len());
            let want = upper_codes(v@.subrange(0, i + 1));
            assert forall|k: int| 0 <= k < i + 1 implies views(out@)[k] == want[k] by {
                if k < i {
                    assert(out@[k] == before[k]);
                    assert(views(before)[k] == upper_codes(v@.subrange(0, i as int))[k]);
                }
            }
            assert(views(out@) =~= want);
        }
        i = i + 1;
    }
    assert(v@.subrange(0, i as int) =~= v@);
    out
}

/// The probe's origin: the one named (its code), else the least origin code, else
/// none.
pub open spec fn probe_from(named: Option<Seq<char>>, codes: Seq<Seq<char>>) -> Seq<char> {
    match named {
        Some(s) => code3(s),
        None => match least_text(codes) { Some(m) => m, None => Seq::empty() },
    }
}

/// The honest fare in US cents, when it has a price that converts.
pub open spec fn honest_usd(rates: Rates, price: Option<i64>, currency: Option<Seq<char>>) -> Option<(i64, Seq<char>)> {
    match price {
        None => None,
        Some(hp) => match to_usd_spec(rates, Some(hp), match currency { Some(c) => c, None => usd() }) {
            Some(u) => Some((u, usd())),
            None => None,
        },
    }
}

/// What one search taught: when, every fare, every outbound flight and the route rows.
pub struct LearnBatch {
    pub observed_at: Instant,
    pub fares: Vec<FareObservation>,
    pub edges: Vec<EdgeObservation>,
    pub stats: Vec<StatDelta>,
}

/// The offers in US cents, converted ones kept whole: each has the segments of an
/// offer it came from, and there are no more offers and segments than before.
proof fn lemma_usd_shape(rates: Rates, offers: Seq<Offer>, u: Seq<Offer>)
    requires
        usd_list(rates, offers, u),
    ensures
        u.len() <= offers.len(),
        segments_total(u) <= segments_total(offers),
        forall|i: int| 0 <= i < u.len() ==> exists|j: int| 0 <= j < offers.len()
            && (#[trigger] u[i]).segments@ == offers[j].segments@,
    decreases offers.len(),
{
    if offers.len() > 0 {
        let d = offers.drop_last();
        if crate::fx::converts(rates, offers.last()) {
            lemma_usd_shape(rates, d, u.drop_last());
            assert(u.last().segments@ == offers.last().segments@);
            assert forall|i: int| 0 <= i < u.len() implies exists|j: int| 0 <= j < offers.len()
                && (#[trigger] u[i]).segments@ == offers[j].segments@ by {
                if i < u.len() - 1 {
                    assert(u[i] == u.drop_last()[i]);
                    let j = choose|j: int| 0 <= j < d.len() && u.drop_last()[i].segments@ == d[j].segments@;
                    assert(offers[j] == d[j]);
                } else {
                    assert(offers[offers.len() - 1] == offers.last());
                }
            }
        } else {
            lemma_usd_shape(rates, d, u);
            assert forall|i: int| 0 <= i < u.len() implies exists|j: int| 0 <= j < offers.len()
                && (#[trigger] u[i]).segments@ == offers[j].segments@ by {
                let j = choose|j: int| 0 <= j < d.len() && u[i].segments@ == d[j].segments@;
                assert(offers[j] == d[j]);
            }
        }
    }
}

proof fn lemma_kept_shape(p: Seq<Offer>, os: Seq<Seq<char>>)
    ensures
        outbound_segments(kept_fares(p, os)).len() <= segments_total(p),
    decreases p.len(),
{
    if p.len() > 0 {
        lemma_kept_shape(p.drop_last(), os);
        if fare_kept(p.last(), os) {
            assert(kept_fares(p, os).drop_last() =~= kept_fares(p.drop_last(), os));
        }
    }
}

fn outbound_of(priced: &Vec<Offer>, os: &Vec<String>) -> (r: Vec<Segment>)
    ensures
        r@ == outbound_segments(kept_fares(priced@, views(os@))),
{
    let mut out: Vec<Segment> = Vec::new();
    let mut i: usize = 0;
    while i < priced.len()
        invariant
            i <= priced@.len(),
            out@ == outbound_segments(kept_fares(priced@.subrange(0, i as int), views(os@))),
        decreases priced@.len() - i,
    {
        let ghost pre = priced@.subrange(0, i as int);
        let ghost next = priced@.subrange(0, i + 1);
        assert(next.drop_last() =~= pre);
        let o = &priced[i];
        if o.price.is_some() && o.segments.len() > 0 {
            let from = upper(o.segments[0].origin.as_str());
            if has_code(os, from.as_str()) {
                let n = o.segments.len();
                let last: usize = match o.outbound_end {
                    Some(e) => if e < 0 { 0 } else if (e as usize) > n - 1 { n - 1 } else { e as usize },
                    None => n - 1,
                };
                assert(last as int == outbound_last(*o));
                let ghost base = out@;
                assert(kept_fares(next, views(os@)).drop_last() =~= kept_fares(pre, views(os@)));
                let mut j: usize = 0;
                while j <= last
                    invariant
                        j <= last + 1,
                        last < n == o.segments@.len(),
                        out@ == base + o.segments@.subrange(0, j as int),
                    decreases last + 1 - j,
                {
                    out.push(o.segments[j].clone());
                    j = j + 1;
                    assert(out@ =~= base + o.segments@.subrange(0, j as int));
                }
            }
        }
        i = i + 1;
    }
    assert(priced@.subrange(0, i as int) =~= priced@);
    out
}

/// Everything a batch learns from the converted offers `u`.
pub open spec fn batch_from(b: LearnBatch, u: Seq<Offer>, os: Seq<Seq<char>>, iv: Vec<String>, pa: Seq<char>, pb: Seq<char>,
    probed: Seq<Seq<char>>, honest: Option<(i64, Seq<char>)>, date: Seq<char>, adults: i32, cabin: Seq<char>) -> bool
{
    &&& b.fares@.len() == kept_fares(u, os).len()
    &&& forall|i: int| 0 <= i < b.fares@.len() ==> fare_matches(#[trigger] b.fares@[i], kept_fares(u, os)[i], date, adults, cabin)
    &&& edges_of(b.edges@, outbound_segments(kept_fares(u, os)), date)
    &&& row_keys(b.stats@).no_duplicates()
    &&& forall|i: int| 0 <= i < b.stats@.len() ==> counts_ordered(#[trigger] b.stats@[i])
    &&& forall|i: int| 0 <= i < b.stats@.len() ==> keyed_from_seen(#[trigger] row_keys(b.stats@)[i], u, pa, pb, probed, os, iv)
    &&& forall|k: RouteKey| route_seen(k, u, pa, pb, probed, os, iv) ==> row_keys(b.stats@).contains(#[trigger] upper_route(k))
    &&& (forall|k: RouteKey| route_seen(k, u, pa, pb, probed, os, iv) ==> route_stable(k)) ==> {
        &&& forall|i: int| 0 <= i < b.stats@.len() ==> route_seen(row_keys(b.stats@)[i], u, pa, pb, probed, os, iv)
            && row_of(#[trigger] b.stats@[i], row_keys(b.stats@)[i], u, pa, pb, probed, os, iv, honest)
        &&& forall|k: RouteKey| route_seen(k, u, pa, pb, probed, os, iv) ==> row_keys(b.stats@).contains(k)
    }
}

/// The text of an optional string slice.
pub open spec fn opt_text(s: Option<&str>) -> Option<Seq<char>> {
    match s { Some(t) => Some(t@), None => None }
}

/// `b` is what [`build_batch`] learns from these arguments, for some restatement
/// `u` of the offers in US cents.
pub open spec fn learned(b: LearnBatch, rates: Rates, offers: Seq<Offer>, origins: Seq<String>, intended: Seq<String>,
    honest_price: Option<i64>, honest_currency: Option<Seq<char>>, probed: Seq<String>, date: Seq<char>, adults: i32,
    cabin: Seq<char>, probe_origin: Option<Seq<char>>, probe_intended: Option<Seq<char>>) -> bool
{
    exists|u: Seq<Offer>, iv: Vec<String>| #[trigger] usd_list(rates, offers, u) && #[trigger] views(iv@) == upper_codes(intended)
        && batch_from(b, u, origin_codes(origins), iv, probe_from(probe_origin, origin_codes(origins)),
            probe_from(probe_intended, upper_codes(intended)), upper_codes(probed),
            honest_usd(rates, honest_price, honest_currency), date, adults, cabin)
}

/// Learns from one search's offers: the offers are restated in US cents, the fares
/// leaving from `origins` (first three characters, upper-cased) are recorded with
/// their outbound flights, and a row is kept per route: the probe rows (the probe
/// pair is the one named, else the least origin and intended codes) for each probed
/// airport that is neither intended nor an origin, and the hidden-city and other
/// connections the offers show, compared with the honest fare in US cents.
pub fn build_batch(
    rates: &Rates,
    offers: &[Offer],
    origins: &Vec<String>,
    intended: &Vec<String>,
    honest_price: Option<i64>,
    honest_currency: Option<&str>,
    probed: &[String],
    date: &str,
    adults: i32,
    cabin: &str,
    probe_origin: Option<&str>,
    probe_intended: Option<&str>,
    now: Option<Instant>,
) -> (b: LearnBatch)
    requires
        forall|i: int| 0 <= i < offers@.len() ==> fingerprint_ok(#[trigger] offers@[i]),
        probed@.len() + offers@.len() + segments_total(offers@) < 0x1000_0000,
    ensures
        now matches Some(t) ==> b.observed_at == t,
        now is None ==> instant_ok(b.observed_at),
        learned(b, *rates, offers@, origins@, intended@, honest_price, opt_text(honest_currency), probed@, date@, adults, cabin@,
            opt_text(probe_origin), opt_text(probe_intended)),
{
    let observed_at = match now { Some(t) => t, None => now_instant() };
    let os = map_code3(origins);
    let iv = map_upper(intended.as_slice());
    let pa: String = match probe_origin { Some(s) => code3_of(s), None => match least_of(&os) { Some(m) => m, None => String::new() } };
    let pb: String = match probe_intended { Some(s) => code3_of(s), None => match least_of(&iv) { Some(m) => m, None => String::new() } };
    let probed_u = map_upper(probed);
    let honest: Option<(i64, String)> = match honest_price {
        Some(hp) => match to_usd(rates, Some(hp), honest_currency) {
            Some(v) => {
                let u = "USD";
                proof { reveal_strlit("USD"); assert(u@ =~= usd()); }
                Some((v, u.to_string()))
            },
            None => None,
        },
        None => None,
    };
    let priced = offers_in_usd(rates, offers);
    proof {
        lemma_usd_shape(*rates, offers@, priced@);
        lemma_kept_shape(priced@, views(os@));
        assert forall|i: int| 0 <= i < priced@.len() implies fingerprint_ok(#[trigger] priced@[i]) by {
            let j = choose|j: int| 0 <= j < offers@.len() && priced@[i].segments@ == offers@[j].segments@;
            assert(fingerprint_ok(offers@[j]));
        }
    }
    assert(views(probed_u@).len() == probed_u@.len());
    assert(probed_u@.len() == probed@.len());
    let fares = record_fares(priced.as_slice(), &os, date, adults, cabin);
    let segs = outbound_of(&priced, &os);
    let edges = record_edges(&segs, date);
    let stats = learn_routes(priced.as_slice(), &os, &iv, &pa, &pb, &probed_u, &honest);
    let b = LearnBatch { observed_at, fares, edges, stats };
    assert(batch_from(b, priced@, origin_codes(origins@), iv, pa@, pb@, upper_codes(probed@), honest_view(honest), date@, adults, cabin@));
    assert(views(iv@) == upper_codes(intended@));
    b
}

/// How many savings a route keeps.
pub const MAX_SAVINGS_KEPT: usize = 200;

/// The savings kept after adding `new` to `existing`: the latest [`MAX_SAVINGS_KEPT`].
pub open spec fn merged_savings(existing: Seq<i128>, new: Seq<i128>) -> Seq<i128> {
    let m = existing + new;
    if m.len() > MAX_SAVINGS_KEPT { m.subrange(m.len() - MAX_SAVINGS_KEPT, m.len() as int) } else { m }
}

/// See [`merged_savings`].
pub fn merge_savings(existing: &[i128], new: &[i128]) -> (r: Vec<i128>)
    ensures
        r@ == merged_savings(existing@, new@),
{
    let mut all: Vec<i128> = Vec::new();
    let mut i: usize = 0;
    while i < existing.len()
        invariant
            i <= existing@.len(),
            all@ == existing@.subrange(0, i as int),
        decreases existing@.len() - i,
    {
        all.push(existing[i]);
        i = i + 1;
        assert(all@ =~= existing@.subrange(0, i as int));
    }
    let mut j: usize = 0;
    while j < new.len()
        invariant
            j <= new@.len(),
            i == existing@.len(),
            all@ == existing@ + new@.subrange(0, j as int),
        decreases new@.len() - j,
    {
        all.push(new[j]);
        j = j + 1;
        assert(all@ =~= existing@ + new@.subrange(0, j as int));
    }
    assert(existing@.subrange(0, i as int) =~= existing@);
    assert(new@.subrange(0, j as int) =~= new@);
    if all.len() > MAX_SAVINGS_KEPT {
        let from = all.len() - MAX_SAVINGS_KEPT;
        let mut out: Vec<i128> = Vec::new();
        let mut k: usize = from;
        while k < all.len()
            invariant
                from <= k <= all@.len(),
                out@ == all@.subrange(from as int, k as int),
            decreases all@.len() - k,
        {
            out.push(all[k]);
            k = k + 1;
            assert(out@ =~= all@.subrange(from as int, k as int));
        }
        out
    } else {
        all
    }
}

/// The values in order, smallest first.
pub open spec fn ascending(s: Seq<i128>) -> bool {
    forall|i: int, j: int| 0 <= i <= j < s.len() ==> s[i] <= s[j]
}

/// The sum of the values.
pub open spec fn total_of(s: Seq<i128>) -> int
    decreases s.len(),
{
    if s.len() == 0 { 0 } else { total_of(s.drop_last()) + s.last() }
}

/// The median of values in order: the middle one, or the two middle ones averaged
/// and rounded to a whole cent.
pub open spec fn median_of(s: Seq<i128>) -> int {
    let n = s.len() as int;
    if n == 0 { 0 } else if n % 2 == 1 { s[n / 2] as int } else { round_half_away(s[n / 2 - 1] + s[n / 2], 2) }
}

fn sorted_copy(v: &[i128]) -> (r: Vec<i128>)
    ensures
        r@.to_multiset() == v@.to_multiset(),
        ascending(r@),
{
    let mut out: Vec<i128> = Vec::new();
    let mut i: usize = 0;
    assert(v@.subrange(0, 0) =~= out@);
    while i < v.len()
        invariant
            i <= v@.len(),
            out@.to_multiset() == v@.subrange(0, i as int).to_multiset(),
            ascending(out@),
        decreases v@.len() - i,
    {
        let x = v[i];
        let mut j: usize = 0;
        while j < out.len() && out[j] <= x
            invariant
                j <= out@.len(),
                forall|k: int| 0 <= k < j ==> out@[k] <= x,
            decreases out@.len() - j,
        {
            j = j + 1;
        }
        let ghost before = out@;
        out.insert(j, x);
        proof {
            assert(out@ == before.insert(j as int, x));
            assert(v@.subrange(0, i + 1) =~= v@.subrange(0, i as int).push(x));
            vstd::seq_lib::to_multiset_insert(before, j as int, x);
            vstd::seq_lib::to_multiset_build(v@.subrange(0, i as int), x);
            assert forall|a: int, b: int| 0 <= a <= b < out@.len() implies out@[a] <= out@[b] by {
                if a < j && b < j {
                    assert(out@[a] == before[a] && out@[b] == before[b]);
                } else if a < j && b == j {
                    assert(out@[a] == before[a]);
                } else if a < j {
                    assert(out@[a] == before[a] && out@[b] == before[b - 1]);
                } else if a == j && b > j {
                    assert(out@[b] == before[b - 1]);
                    assert(j < before.len());
                    assert(before[j as int] > x);
                } else if a > j {
                    assert(out@[a] == before[a - 1] && out@[b] == before[b - 1]);
                }
            }
        }
        i = i + 1;
    }
    assert(v@.subrange(0, i as int) =~= v@);
    out
}

/// `r` is the average, median and largest of `v` in whole cents (zeros for none):
/// the median and largest read off `v` in ascending order.
pub open spec fn savings_summary(v: Seq<i128>, r: (i128, i128, i128)) -> bool {
    &&& v.len() == 0 ==> r == (0i128, 0i128, 0i128)
    &&& v.len() > 0 ==> exists|s: Seq<i128>| #[trigger] s.to_multiset() == v.to_multiset() && ascending(s)
        && r.0 == round_half_away(total_of(v), v.len() as int)
        && r.1 == median_of(s)
        && r.2 == s.last()
}

pub(crate) fn div_round(x: i128, d: i128) -> (r: i128)
    requires
        d > 0,
        d <= 0x4000_0000_0000_0000,
        -0x4000_0000_0000_0000_0000_0000_0000_0000 <= x <= 0x4000_0000_0000_0000_0000_0000_0000_0000,
    ensures
        r == round_half_away(x as int, d as int),
{
    if x >= 0 { (x + d / 2) / d } else { -((-x + d / 2) / d) }
}

/// Average, median and largest of a route's savings (zeros for none), each in whole
/// cents.
pub fn summarize_savings(savings: &[i128]) -> (r: (i128, i128, i128))
    requires
        forall|i: int| 0 <= i < savings@.len() ==> -0x1_0000_0000_0000_0000 <= #[trigger] savings@[i] <= 0x1_0000_0000_0000_0000,
        savings@.len() < 0x4000_0000_0000_0000,
    ensures
        savings_summary(savings@, r),
{
    if savings.len() == 0 {
        return (0, 0, 0);
    }
    let mut sum: i128 = 0;
    let mut i: usize = 0;
    while i < savings.len()
        invariant
            i <= savings@.len() < 0x4000_0000_0000_0000,
            forall|k: int| 0 <= k < savings@.len() ==> -0x1_0000_0000_0000_0000 <= #[trigger] savings@[k] <= 0x1_0000_0000_0000_0000,
            sum == total_of(savings@.subrange(0, i as int)),
            -0x1_0000_0000_0000_0000 * i <= sum <= 0x1_0000_0000_0000_0000 * i,
        decreases savings@.len() - i,
    {
        assert(savings@.subrange(0, i + 1).drop_last() =~= savings@.subrange(0, i as int));
        sum = sum + savings[i];
        i = i + 1;
    }
    assert(savings@.subrange(0, i as int) =~= savings@);
    let n = savings.len();
    let avg = div_round(sum, n as i128);
    let sorted = sorted_copy(savings);
    proof {
        broadcast use vstd::seq_lib::to_multiset_len, vstd::seq_lib::to_multiset_contains;
        assert(sorted@.len() == savings@.len()) by {
            assert(sorted@.to_multiset().len() == savings@.to_multiset().len());
        }
        assert forall|k: int| 0 <= k < sorted@.len() implies -0x1_0000_0000_0000_0000 <= #[trigger] sorted@[k] <= 0x1_0000_0000_0000_0000 by {
            assert(sorted@.contains(sorted@[k]));
            assert(sorted@.to_multiset().count(sorted@[k]) > 0);
            assert(savings@.contains(sorted@[k]));
        }
    }
    let med: i128 = if n % 2 == 1 {
        sorted[n / 2]
    } else {
        div_round(sorted[n / 2 - 1] + sorted[n / 2], 2)
    };
    let mx = sorted[n - 1];
    (avg, med, mx)
}

/// A route row with nothing learned yet.
pub open spec fn empty_row(r: StatDelta) -> bool {
    &&& r.observations == 0 && r.successful_connections == 0 && r.cheaper_than_direct_count == 0
    &&& r.savings@.len() == 0 && r.saving_pcts@.len() == 0 && r.currency@.len() == 0
    &&& r.best_through_price is None && !r.success && !r.cheaper
}

impl LearnBatch {
    /// Where the row for a route stands, keyed by its parts upper-cased; an empty row
    /// is added for a route not seen yet.
    pub fn stat(&mut self, origin: &str, intended: &str, ticketed: &str) -> (r: usize)
        ensures
            r < final(self).stats@.len(),
            row_keys(final(self).stats@)[r as int] == (to_upper(origin@), to_upper(intended@), to_upper(ticketed@)),
            final(self).observed_at == old(self).observed_at,
            final(self).fares == old(self).fares,
            final(self).edges == old(self).edges,
            row_keys(old(self).stats@).contains((to_upper(origin@), to_upper(intended@), to_upper(ticketed@)))
                ==> final(self).stats == old(self).stats,
            !row_keys(old(self).stats@).contains((to_upper(origin@), to_upper(intended@), to_upper(ticketed@)))
                ==> final(self).stats@ == old(self).stats@.push(final(self).stats@.last())
                    && empty_row(final(self).stats@.last()) && r == old(self).stats@.len(),
    {
        let a = upper(origin);
        let b = upper(intended);
        let c = upper(ticketed);
        match find_row(&self.stats, &a, &b, &c) {
            Some(x) => {
                proof {
                    assert(row_keys(self.stats@).contains((a@, b@, c@)));
                }
                x
            },
            None => {
                let n = self.stats.len();
                self.stats.push(StatDelta {
                    origin: a,
                    intended: b,
                    ticketed: c,
                    observations: 0,
                    successful_connections: 0,
                    cheaper_than_direct_count: 0,
                    savings: Vec::new(),
                    saving_pcts: Vec::new(),
                    currency: String::new(),
                    best_through_price: None,
                    success: false,
                    cheaper: false,
                });
                n
            },
        }
    }
}

/// No text sorts before itself.
pub proof fn lemma_text_irreflexive(a: Seq<char>)
    ensures
        !text_less(a, a),
    decreases a.len(),
{
    if a.len() > 0 {
        lemma_text_irreflexive(a.subrange(1, a.len() as int));
    }
}

/// The text order is transitive.
pub proof fn lemma_text_transitive(a: Seq<char>, b: Seq<char>, c: Seq<char>)
    requires
        text_less(a, b),
        text_less(b, c),
    ensures
        text_less(a, c),
    decreases a.len(),
{
    if a.len() > 0 && b.len() > 0 && c.len() > 0 && a[0] == b[0] && b[0] == c[0] {
        lemma_text_transitive(a.subrange(1, a.len() as int), b.subrange(1, b.len() as int), c.subrange(1, c.len() as int));
    }
}

/// Two different texts are ordered one way or the other.
pub proof fn lemma_text_total(a: Seq<char>, b: Seq<char>)
    requires
        a != b,
    ensures
        text_less(a, b) || text_less(b, a),
    decreases a.len(),
{
    if a.len() > 0 && b.len() > 0 && a[0] == b[0] {
        let ta = a.subrange(1, a.len() as int);
        let tb = b.subrange(1, b.len() as int);
        if ta == tb {
            assert(a =~= seq![a[0]] + ta);
            assert(b =~= seq![b[0]] + tb);
        }
        lemma_text_total(ta, tb);
    } else if a.len() == 0 && b.len() == 0 {
        assert(a =~= b);
    }
}

/// Texts in strictly ascending order (so each at most once).
pub open spec fn strictly_ascending(s: Seq<Seq<char>>) -> bool {
    forall|i: int, j: int| 0 <= i < j < s.len() ==> text_less(s[i], s[j])
}

/// `s` holds the texts of `u`, each once, in ascending order.
pub open spec fn sorted_set_of(s: Seq<Seq<char>>, u: Set<Seq<char>>) -> bool {
    strictly_ascending(s) && s.to_set() == u
}

/// Adds a text to an ascending list unless it is there already.
pub fn insert_sorted(v: &mut Vec<String>, x: &str)
    requires
        strictly_ascending(views(old(v)@)),
    ensures
        strictly_ascending(views(final(v)@)),
        views(final(v)@).to_set() == views(old(v)@).to_set().insert(x@),
{
    let ghost before = views(v@);
    let mut j: usize = 0;
    while j < v.len() && less_text(v[j].as_str(), x)
        invariant
            j <= v@.len(),
            views(v@) == before,
            forall|k: int| 0 <= k < j ==> text_less(before[k], x@),
        decreases v@.len() - j,
    {
        assert(before[j as int] == v@[j as int]@);
        j = j + 1;
    }
    if j < v.len() && str_eq(v[j].as_str(), x) {
        assert(before[j as int] == x@);
        assert(before.to_set() =~= before.to_set().insert(x@));
        return;
    }
    proof {
        if j < before.len() {
            assert(before[j as int] == v@[j as int]@);
            assert(!text_less(before[j as int], x@));
            assert(before[j as int] != x@);
            lemma_text_total(before[j as int], x@);
        }
    }
    v.insert(j, x.to_string());
    proof {
        let after = views(v@);
        assert(after =~= before.insert(j as int, x@));
        assert forall|a: int, b: int| 0 <= a < b < after.len() implies text_less(after[a], after[b]) by {
            if b < j {
            } else if b == j {
            } else if a < j {
                lemma_text_transitive(after[a], x@, before[j as int]);
                if b - 1 > j {
                    lemma_text_transitive(after[a], before[j as int], before[b - 1]);
                }
            } else if a == j {
                if b - 1 > j {
                    lemma_text_transitive(x@, before[j as int], before[b - 1]);
                }
            } else {
            }
        }
        assert(after.to_set() =~= before.to_set().insert(x@)) by {
            assert forall|t: Seq<char>| after.to_set().contains(t) <==> before.to_set().insert(x@).contains(t) by {
                if after.contains(t) {
                    let q = choose|q: int| 0 <= q < after.len() && after[q] == t;
                    if q < j { assert(before[q] == t); } else if q > j { assert(before[q - 1] == t); }
                }
                if before.contains(t) {
                    let q = choose|q: int| 0 <= q < before.len() && before[q] == t;
                    if q < j { assert(after[q] == t); } else { assert(after[q + 1] == t); }
                }
                if t == x@ { assert(after[j as int] == t); }
            }
        }
    }
}

/// The last `n` of a list (all of it when shorter).
pub open spec fn last_n<A>(s: Seq<A>, n: int) -> Seq<A> {
    if s.len() > n { s.subrange(s.len() - n, s.len() as int) } else { s }
}

/// The most travel dates an edge keeps.
pub const MAX_TRAVEL_DATES: usize = 60;

fn add_all(v: &mut Vec<String>, xs: &Vec<String>)
    requires
        strictly_ascending(views(old(v)@)),
    ensures
        strictly_ascending(views(final(v)@)),
        views(final(v)@).to_set() == views(old(v)@).to_set() + views(xs@).to_set(),
{
    let ghost start = views(v@).to_set();
    let mut i: usize = 0;
    while i < xs.len()
        invariant
            i <= xs@.len(),
            strictly_ascending(views(v@)),
            views(v@).to_set() == start + views(xs@.subrange(0, i as int)).to_set(),
        decreases xs@.len() - i,
    {
        insert_sorted(v, xs[i].as_str());
        proof {
            let a = views(xs@.subrange(0, i as int));
            let b = views(xs@.subrange(0, i + 1));
            assert(b =~= a.push(xs@[i as int]@));
            a.lemma_push_to_set_commute(xs@[i as int]@);
            assert(views(v@).to_set() =~= start + b.to_set());
        }
        i = i + 1;
    }
    assert(xs@.subrange(0, i as int) =~= xs@);
}

/// The travel dates an edge keeps after a batch: the latest
/// [`MAX_TRAVEL_DATES`] of the dates seen before and now, each once, in order.
pub fn merge_travel_dates(old: &Vec<String>, new: &Vec<String>) -> (r: Vec<String>)
    ensures
        exists|all: Seq<Seq<char>>| #[trigger] sorted_set_of(all, views(old@).to_set() + views(new@).to_set())
            && views(r@) == last_n(all, MAX_TRAVEL_DATES as int),
{
    let mut all: Vec<String> = Vec::new();
    assert(views(all@).to_set() =~= Set::<Seq<char>>::empty());
    add_all(&mut all, old);
    add_all(&mut all, new);
    assert(views(all@).to_set() =~= views(old@).to_set() + views(new@).to_set());
    let n = all.len();
    let from: usize = if n > MAX_TRAVEL_DATES { n - MAX_TRAVEL_DATES } else { 0 };
    let mut out: Vec<String> = Vec::new();
    let mut k: usize = from;
    while k < n
        invariant
            from <= k <= n == all@.len(),
            views(out@) == views(all@).subrange(from as int, k as int),
        decreases n - k,
    {
        let ghost before = out@;
        out.push(all[k].clone());
        proof {
            assert(views(before).len() == before.len());
            assert forall|q: int| 0 <= q < out@.len() implies views(out@)[q] == views(all@).subrange(from as int, k + 1)[q] by {
                if q < before.len() { assert(out@[q] == before[q]); assert(views(before)[q] == views(all@).subrange(from as int, k as int)[q]); }
            }
            assert(views(out@) =~= views(all@).subrange(from as int, k + 1));
        }
        k = k + 1;
    }
    proof {
        if n <= MAX_TRAVEL_DATES { assert(views(all@).subrange(0, n as int) =~= views(all@)); }
        assert(sorted_set_of(views(all@), views(old@).to_set() + views(new@).to_set()));
    }
    out
}

} // verus!
