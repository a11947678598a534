//! The pieces of the overnight deal scan that decide: where a ticket may be left,
//! and which ticket to a destination is cheapest.
use vstd::prelude::*;
use crate::models::{Offer, same_offer, same_offers};
use crate::text::{to_upper, upper, str_eq};
use crate::hidden::{ticketed, ticketed_destination, clamp};
use crate::fx::{Rates, usd};
use crate::picks::{_priced_in_currency, priced_in_currency, pick_keys, price_keys, key_views, cheapest_at, all_marked};
use crate::order::first_min_index;
use crate::learn::{insert_sorted, sorted_set_of, strictly_ascending};
use crate::hidden::views;

verus! {

/// The last outbound flight of a ticket: its outbound end when given, else its last
/// flight, within the flights.
pub open spec fn outbound_last_index(o: Offer) -> int {
    let n = o.segments@.len() as int;
    let raw = match o.outbound_end { Some(e) => e as int, None => if n > 0 { n - 1 } else { 0 } };
    if n == 0 { 0 } else { clamp(raw, 0, n - 1) }
}

/// The stops where the traveller could leave a ticket before its ticketed
/// destination: `(flight index, airport)` for each outbound flight before the last
/// one that lands neither at the origin nor at the ticketed destination.
pub open spec fn via_list(o: Offer, origin_u: Seq<char>, k: int) -> Seq<(i32, Seq<char>)>
    decreases k,
{
    if k <= 0 {
        Seq::empty()
    } else {
        let init = via_list(o, origin_u, k - 1);
        let d = to_upper(o.segments@[k - 1].dest@);
        if d != origin_u && d != ticketed(o) { init.push(((k - 1) as i32, d)) } else { init }
    }
}

/// The ticketed destination of a ticket and where it could be left (see
/// [`via_list`]).
pub fn _via_stops(offer: &Offer, origin: &str) -> (r: (String, Vec<(i32, String)>))
    requires
        offer.segments@.len() <= i32::MAX,
    ensures
        r.0@ == ticketed(*offer),
        r.1@.map_values(|p: (i32, String)| (p.0, p.1@))
            == via_list(*offer, to_upper(origin@), outbound_last_index(*offer)),
{
    let t = ticketed_destination(offer);
    let n = offer.segments.len();
    let end: usize = if n == 0 {
        0
    } else {
        let raw: i32 = match offer.outbound_end { Some(e) => e, None => (n - 1) as i32 };
        if raw < 0 { 0 } else if raw as usize > n - 1 { n - 1 } else { raw as usize }
    };
    assert(end as int == outbound_last_index(*offer));
    let o = upper(origin);
    let mut vias: Vec<(i32, String)> = Vec::new();
    let mut i: usize = 0;
    while i < end
        invariant
            end <= n,
            n == offer.segments@.len(),
            n <= i32::MAX,
            i <= end,
            t@ == ticketed(*offer),
            o@ == to_upper(origin@),
            vias@.map_values(|p: (i32, String)| (p.0, p.1@)) == via_list(*offer, o@, i as int),
        decreases end - i,
    {
        let d = upper(offer.segments[i].dest.as_str());
        if !str_eq(d.as_str(), o.as_str()) && !str_eq(d.as_str(), t.as_str()) {
            let ghost before = vias@.map_values(|p: (i32, String)| (p.0, p.1@));
            vias.push((i as i32, d));
            assert(vias@.map_values(|p: (i32, String)| (p.0, p.1@)) =~= before.push((i as i32, to_upper(offer.segments@[i as int].dest@))));
        }
        i = i + 1;
    }
    (t, vias)
}

/// The priced tickets sold to a destination (upper-cased), in order.
pub open spec fn sold_to(offers: Seq<Offer>, dest_u: Seq<char>) -> Seq<Offer>
    decreases offers.len(),
{
    if offers.len() == 0 {
        offers
    } else {
        let o = offers.last();
        let init = sold_to(offers.drop_last(), dest_u);
        if o.price is Some && o.segments@.len() > 0 && ticketed(o) == dest_u { init.push(o) } else { init }
    }
}

/// The cheapest ticket sold to a destination: among the priced tickets sold there,
/// compared in USD ([`priced_in_currency`]), the first least by price, then time on
/// the ground, then duration.
pub fn _cheapest_to(rates: &Rates, offers: &[Offer], dest: &str) -> (r: Option<Offer>)
    ensures
        exists|f: Seq<Offer>, pc: Seq<Offer>| {
            &&& same_offers(f, sold_to(offers@, to_upper(dest@)))
            &&& #[trigger] priced_in_currency(*rates, f, usd(), pc)
            &&& (r is None <==> pc.len() == 0)
            &&& (r matches Some(o) ==> exists|i: int| cheapest_at(pc, i) && same_offer(o, #[trigger] pc[i]))
        },
{
    let d = upper(dest);
    let mut f: Vec<Offer> = Vec::new();
    let mut i: usize = 0;
    while i < offers.len()
        invariant
            i <= offers@.len(),
            d@ == to_upper(dest@),
            same_offers(f@, sold_to(offers@.subrange(0, i as int), d@)),
        decreases offers@.len() - i,
    {
        assert(offers@.subrange(0, i + 1).drop_last() =~= offers@.subrange(0, i as int));
        let o = &offers[i];
        if o.price.is_some() && o.segments.len() > 0 {
            let t = ticketed_destination(o);
            if str_eq(t.as_str(), d.as_str()) {
                f.push(o.clone());
            }
        }
        i = i + 1;
    }
    assert(offers@.subrange(0, offers@.len() as int) =~= offers@);
    let pc = _priced_in_currency(rates, f.as_slice(), None);
    let keys = pick_keys(pc.as_slice());
    let mut mask: Vec<bool> = Vec::new();
    let mut k: usize = 0;
    while k < pc.len()
        invariant
            k <= pc@.len(),
            mask@.len() == k,
            forall|j: int| 0 <= j < k ==> mask@[j],
        decreases pc@.len() - k,
    {
        mask.push(true);
        k = k + 1;
    }
    assert(mask@ =~= all_marked(pc@.len()));
    match first_min_index(&keys, &mask) {
        Some(idx) => {
            let o = pc[idx].clone();
            assert(cheapest_at(pc@, idx as int));
            Some(o)
        },
        None => {
            assert(pc@.len() == 0) by {
                if pc@.len() > 0 {
                    assert(mask@[0]);
                }
            }
            None
        },
    }
}

/// Why the deal scan does not run: no supplier token, or a token whose fares must not
/// be published (test inventory); `None` when it may run.
pub fn scan_gate(duffel_enabled: bool, publish: bool) -> (r: Option<&'static str>)
    ensures
        !duffel_enabled ==> r == Some("No Duffel token"),
        duffel_enabled && !publish ==> r == Some("Need a Duffel live token (duffel_live_…) to publish deals. Test inventory is not saved."),
        duffel_enabled && publish ==> r is None,
{
    if !duffel_enabled {
        Some("No Duffel token")
    } else if !publish {
        Some("Need a Duffel live token (duffel_live_…) to publish deals. Test inventory is not saved.")
    } else {
        None
    }
}

/// The airports where a ticket could be left.
pub open spec fn via_airports(o: Offer, origin_u: Seq<char>) -> Seq<Seq<char>> {
    via_list(o, origin_u, outbound_last_index(o)).map_values(|p: (i32, Seq<char>)| p.1)
}

/// `b` is a stop of a priced connecting ticket among `offers` that was neither shopped
/// as a destination nor skipped.
pub open spec fn missing_via(offers: Seq<Offer>, origin_u: Seq<char>, shopped: Seq<Seq<char>>, skip: Seq<Seq<char>>, b: Seq<char>) -> bool {
    &&& exists|i: int| 0 <= i < offers.len() && (#[trigger] offers[i]).price is Some && offers[i].segments@.len() >= 2
        && via_airports(offers[i], origin_u).contains(b)
    &&& !skip.contains(b)
    &&& !shopped.contains(b)
}

/// The stops still to shop (see [`missing_via`]).
pub open spec fn missing_set(offers: Seq<Offer>, origin_u: Seq<char>, shopped: Seq<Seq<char>>, skip: Seq<Seq<char>>) -> Set<Seq<char>> {
    Set::new(|b: Seq<char>| missing_via(offers, origin_u, shopped, skip, b))
}

/// The stops of `vs` that are neither skipped nor shopped.
pub open spec fn allowed_stops(vs: Seq<Seq<char>>, skip: Seq<Seq<char>>, shopped: Seq<Seq<char>>) -> Set<Seq<char>> {
    Set::new(|x: Seq<char>| vs.contains(x) && !skip.contains(x) && !shopped.contains(x))
}

/// The first `n` of a list (all of it when shorter).
pub open spec fn first_n_texts(s: Seq<Seq<char>>, n: int) -> Seq<Seq<char>> {
    if s.len() > n { s.subrange(0, n) } else { s }
}

/// The most stops a scan shops for one origin.
pub const MAX_MISSING_VIAS: usize = 20;

/// The stops to shop next for one origin: the first [`MAX_MISSING_VIAS`], in
/// order, of the distinct stops of priced connecting tickets that were neither
/// shopped nor skipped.
pub fn missing_vias(offers: &[Offer], origin: &str, shopped: &Vec<String>, skip: &Vec<String>) -> (r: Vec<String>)
    requires
        forall|i: int| 0 <= i < offers@.len() ==> (#[trigger] offers@[i]).segments@.len() <= i32::MAX,
    ensures
        exists|all: Seq<Seq<char>>| #[trigger] sorted_set_of(all,
            missing_set(offers@, to_upper(origin@), views(shopped@), views(skip@)))
            && views(r@) == first_n_texts(all, MAX_MISSING_VIAS as int),
{
    let ghost ou = to_upper(origin@);
    let ghost target = missing_set(offers@, ou, views(shopped@), views(skip@));
    let mut all: Vec<String> = Vec::new();
    assert(views(all@).to_set() =~= Set::<Seq<char>>::empty());
    let mut i: usize = 0;
    while i < offers.len()
        invariant
            i <= offers@.len(),
            ou == to_upper(origin@),
            forall|q: int| 0 <= q < offers@.len() ==> (#[trigger] offers@[q]).segments@.len() <= i32::MAX,
            strictly_ascending(views(all@)),
            forall|b: Seq<char>| views(all@).to_set().contains(b) <==>
                missing_via(offers@.subrange(0, i as int), ou, views(shopped@), views(skip@), b),
        decreases offers@.len() - i,
    {
        let ghost pre = offers@.subrange(0, i as int);
        let ghost next = offers@.subrange(0, i + 1);
        let o = &offers[i];
        let ghost s0 = views(all@).to_set();
        assert(s0 =~= s0 + allowed_stops(Seq::<Seq<char>>::empty(), views(skip@), views(shopped@)));
        if o.price.is_some() && o.segments.len() >= 2 {
            let (_t, vias) = _via_stops(o, origin);
            let ghost vs = via_airports(*o, ou);
            assert(vias@.len() == vs.len());
            let mut k: usize = 0;
            assert(vs.subrange(0, 0) =~= Seq::<Seq<char>>::empty());
            while k < vias.len()
                invariant
                    k <= vias@.len() == vs.len(),
                    vs == via_airports(*o, ou),
                    forall|q: int| 0 <= q < vs.len() ==> vs[q] == (#[trigger] vias@[q]).1@,
                    strictly_ascending(views(all@)),
                views(all@).to_set() == s0 + allowed_stops(vs.subrange(0, k as int), views(skip@), views(shopped@)),
                decreases vias@.len() - k,
            {
                let b = &vias[k].1;
                let ghost s1 = views(all@).to_set();
                assert(vs[k as int] == b@);
                assert(vs.subrange(0, k + 1) =~= vs.subrange(0, k as int).push(b@));
                let ok_b = !crate::learn::has_code_pub(skip, b.as_str()) && !crate::learn::has_code_pub(shopped, b.as_str());
                if ok_b {
                    insert_sorted(&mut all, b.as_str());
                }
                proof {
                    assert(views(all@).to_set() == (if ok_b { s1.insert(b@) } else { s1 }));
                    let want = s0 + allowed_stops(vs.subrange(0, k + 1), views(skip@), views(shopped@));
                    assert forall|x: Seq<char>| views(all@).to_set().contains(x) <==> want.contains(x) by {
                        assert(s1.contains(x) <==> (s0.contains(x)
                            || allowed_stops(vs.subrange(0, k as int), views(skip@), views(shopped@)).contains(x)));
                        if vs.subrange(0, k + 1).contains(x) && x != b@ {
                            let q = choose|q: int| 0 <= q < k + 1 && #[trigger] vs.subrange(0, k + 1)[q] == x;
                            assert(vs.subrange(0, k as int)[q] == x);
                        }
                        if vs.subrange(0, k as int).contains(x) {
                            let q = choose|q: int| 0 <= q < k && #[trigger] vs.subrange(0, k as int)[q] == x;
                            assert(vs.subrange(0, k + 1)[q] == x);
                        }
                        if x == b@ { assert(vs.subrange(0, k + 1)[k as int] == x); }
                    }
                    assert(views(all@).to_set() =~= want);
                }
                k = k + 1;
            }
            assert(vs.subrange(0, k as int) =~= vs);
            assert forall|x: Seq<char>| views(all@).to_set().contains(x) <==> (s0.contains(x)
                || (vs.contains(x) && !views(skip@).contains(x) && !views(shopped@).contains(x))) by {
                assert(allowed_stops(vs, views(skip@), views(shopped@)).contains(x)
                    <==> (vs.contains(x) && !views(skip@).contains(x) && !views(shopped@).contains(x)));
            }
        }
        proof {
            assert forall|b: Seq<char>| views(all@).to_set().contains(b) <==>
                missing_via(next, ou, views(shopped@), views(skip@), b) by {
                assert(s0.contains(b) <==> missing_via(pre, ou, views(shopped@), views(skip@), b));
                assert(views(all@).to_set().contains(b) <==> (s0.contains(b) || (o.price is Some && o.segments@.len() >= 2
                    && via_airports(*o, ou).contains(b) && !views(skip@).contains(b) && !views(shopped@).contains(b))));
                if missing_via(next, ou, views(shopped@), views(skip@), b) {
                    let q = choose|q: int| 0 <= q < next.len() && (#[trigger] next[q]).price is Some && next[q].segments@.len() >= 2
                        && via_airports(next[q], ou).contains(b);
                    if q < i { assert(next[q] == pre[q]); } else { assert(next[q] == *o); }
                }
                if missing_via(pre, ou, views(shopped@), views(skip@), b) {
                    let q = choose|q: int| 0 <= q < pre.len() && (#[trigger] pre[q]).price is Some && pre[q].segments@.len() >= 2
                        && via_airports(pre[q], ou).contains(b);
                    assert(next[q] == pre[q]);
                }
                if o.price is Some && o.segments@.len() >= 2 && via_airports(*o, ou).contains(b) {
                    assert(next[i as int] == *o);
                }
            }
        }
        i = i + 1;
    }
    assert(offers@.subrange(0, i as int) =~= offers@);
    assert(views(all@).to_set() =~= target);
    let n = all.len();
    let m: usize = if n > MAX_MISSING_VIAS { MAX_MISSING_VIAS } else { n };
    let mut out: Vec<String> = Vec::new();
    let mut k: usize = 0;
    while k < m
        invariant
            k <= m <= n == all@.len(),
            views(out@) == views(all@).subrange(0, k as int),
        decreases m - k,
    {
        let ghost before = out@;
        out.push(all[k].clone());
        proof {
            assert(views(before).len() == before.len());
            assert forall|q: int| 0 <= q < out@.len() implies views(out@)[q] == views(all@).subrange(0, k + 1)[q] by {
                if q < before.len() { assert(out@[q] == before[q]); assert(views(before)[q] == views(all@).subrange(0, k as int)[q]); }
            }
            assert(views(out@) =~= views(all@).subrange(0, k + 1));
        }
        k = k + 1;
    }
    proof {
        if n <= MAX_MISSING_VIAS { assert(views(all@).subrange(0, n as int) =~= views(all@)); }
        assert(sorted_set_of(views(all@), target));
    }
    out
}

/// Where the overnight deal scan stands: which date and origin hub, and which
/// shop within the current pair.
#[derive(Clone, Copy)]
pub enum DealPhase {
    /// Waiting for the destinations of the current pair.
    LoadingDests,
    /// Shopping destination `k` of `n`.
    ShoppingDests { k: usize, n: usize },
    /// Waiting for the stops still to shop (see [`missing_vias`]).
    FindingMissing,
    /// Shopping missing stop `k` of `n`.
    ShoppingMissing { k: usize, n: usize },
    /// Waiting for the comparison of the pair's offers.
    Comparing,
    /// Every pair is scanned.
    Done,
}

/// What the deal scan knows between steps.
#[derive(Clone, Copy)]
pub struct DealScanState {
    pub phase: DealPhase,
    pub date_i: usize,
    pub hub_i: usize,
    pub dates: usize,
    pub hubs: usize,
    pub scanned: u64,
    pub shops: u64,
    pub empty_shops: u64,
    pub found: u64,
}

/// What came of the last action of the scan.
pub enum DealScanEvent {
    /// Begin.
    Begin,
    /// The current pair has `n` destinations to shop.
    DestsLoaded { n: usize },
    /// A shop ended, with offers or without.
    Shopped { nonempty: bool },
    /// The current pair has `n` stops still to shop.
    MissingFound { n: usize },
    /// The comparison found `hits` deals.
    Compared { hits: u64 },
}

/// What the caller of the scan does next.
pub enum DealScanAction {
    /// Load the destinations of date `date_i` and hub `hub_i`.
    LoadDests { date_i: usize, hub_i: usize },
    /// Shop destination `k` of the current pair.
    ShopDest { k: usize },
    /// Find the stops still to shop.
    FindMissing,
    /// Shop missing stop `k`.
    ShopMissing { k: usize },
    /// Compare the pair's through fares with the local fares.
    Compare,
    /// Report the run.
    Finish,
    /// The event does not fit the phase.
    Ignore,
}

/// Load the pair at `(d, h)`, or finish once the dates are done (every date is
/// scanned over every hub, hubs first).
pub open spec fn load_or_finish(s: DealScanState, d: usize, h: usize) -> (DealScanState, DealScanAction) {
    if d < s.dates && h < s.hubs {
        (DealScanState { phase: DealPhase::LoadingDests, date_i: d, hub_i: h, ..s }, DealScanAction::LoadDests { date_i: d, hub_i: h })
    } else {
        (DealScanState { phase: DealPhase::Done, date_i: d, hub_i: h, ..s }, DealScanAction::Finish)
    }
}

/// Move on to the pair after the current one.
pub open spec fn next_pair(s: DealScanState) -> (DealScanState, DealScanAction) {
    if s.hub_i + 1 < s.hubs { load_or_finish(s, s.date_i, (s.hub_i + 1) as usize) }
    else { load_or_finish(s, (s.date_i + 1) as usize, 0) }
}

/// The counters leave room for one more step.
pub open spec fn counters_fit(s: DealScanState) -> bool {
    s.scanned < u64::MAX && s.shops < u64::MAX && s.empty_shops < u64::MAX && s.date_i < usize::MAX && s.hub_i < usize::MAX
}

/// The next state and action of the deal scan: each pair shops its destinations,
/// then the stops still missing, then compares; a pair without destinations is
/// skipped and not counted as scanned.
pub open spec fn deal_scan_next(s: DealScanState, e: DealScanEvent) -> (DealScanState, DealScanAction) {
    match (s.phase, e) {
        (DealPhase::LoadingDests, DealScanEvent::Begin) => load_or_finish(s, s.date_i, s.hub_i),
        (DealPhase::LoadingDests, DealScanEvent::DestsLoaded { n }) => {
            if n == 0 { next_pair(s) } else {
                (DealScanState { phase: DealPhase::ShoppingDests { k: 0, n }, scanned: (s.scanned + 1) as u64, ..s },
                    DealScanAction::ShopDest { k: 0 })
            }
        },
        (DealPhase::ShoppingDests { k, n }, DealScanEvent::Shopped { nonempty }) => {
            let t = DealScanState { shops: (s.shops + 1) as u64,
                empty_shops: if nonempty { s.empty_shops } else { (s.empty_shops + 1) as u64 }, ..s };
            if k + 1 < n { (DealScanState { phase: DealPhase::ShoppingDests { k: (k + 1) as usize, n }, ..t }, DealScanAction::ShopDest { k: (k + 1) as usize }) }
            else { (DealScanState { phase: DealPhase::FindingMissing, ..t }, DealScanAction::FindMissing) }
        },
        (DealPhase::FindingMissing, DealScanEvent::MissingFound { n }) => {
            if n > 0 { (DealScanState { phase: DealPhase::ShoppingMissing { k: 0, n }, ..s }, DealScanAction::ShopMissing { k: 0 }) }
            else { (DealScanState { phase: DealPhase::Comparing, ..s }, DealScanAction::Compare) }
        },
        (DealPhase::ShoppingMissing { k, n }, DealScanEvent::Shopped { nonempty }) => {
            let t = DealScanState { shops: (s.shops + 1) as u64,
                empty_shops: if nonempty { s.empty_shops } else { (s.empty_shops + 1) as u64 }, ..s };
            if k + 1 < n { (DealScanState { phase: DealPhase::ShoppingMissing { k: (k + 1) as usize, n }, ..t }, DealScanAction::ShopMissing { k: (k + 1) as usize }) }
            else { (DealScanState { phase: DealPhase::Comparing, ..t }, DealScanAction::Compare) }
        },
        (DealPhase::Comparing, DealScanEvent::Compared { hits }) => {
            let found = if s.found as int + hits as int <= u64::MAX { (s.found + hits) as u64 } else { u64::MAX };
            next_pair(DealScanState { found, ..s })
        },
        _ => (s, DealScanAction::Ignore),
    }
}

fn load_or_finish_exec(s: DealScanState, d: usize, h: usize) -> (r: (DealScanState, DealScanAction))
    ensures
        r == load_or_finish(s, d, h),
{
    if d < s.dates && h < s.hubs {
        (DealScanState { phase: DealPhase::LoadingDests, date_i: d, hub_i: h, ..s }, DealScanAction::LoadDests { date_i: d, hub_i: h })
    } else {
        (DealScanState { phase: DealPhase::Done, date_i: d, hub_i: h, ..s }, DealScanAction::Finish)
    }
}

fn next_pair_exec(s: DealScanState) -> (r: (DealScanState, DealScanAction))
    requires
        s.date_i < usize::MAX,
        s.hub_i < usize::MAX,
    ensures
        r == next_pair(s),
{
    if s.hub_i + 1 < s.hubs { load_or_finish_exec(s, s.date_i, s.hub_i + 1) } else { load_or_finish_exec(s, s.date_i + 1, 0) }
}

fn copy_deal_phase(p: &DealPhase) -> (r: DealPhase)
    ensures
        r == *p,
{
    match p {
        DealPhase::LoadingDests => DealPhase::LoadingDests,
        DealPhase::ShoppingDests { k, n } => DealPhase::ShoppingDests { k: *k, n: *n },
        DealPhase::FindingMissing => DealPhase::FindingMissing,
        DealPhase::ShoppingMissing { k, n } => DealPhase::ShoppingMissing { k: *k, n: *n },
        DealPhase::Comparing => DealPhase::Comparing,
        DealPhase::Done => DealPhase::Done,
    }
}

/// One step of the deal scan; see [`deal_scan_next`].
pub fn deal_scan_step(state: &DealScanState, event: DealScanEvent) -> (r: (DealScanState, DealScanAction))
    requires
        counters_fit(*state),
    ensures
        r == deal_scan_next(*state, event),
{
    let s = DealScanState { phase: copy_deal_phase(&state.phase), ..*state };
    match (&state.phase, event) {
        (DealPhase::LoadingDests, DealScanEvent::Begin) => load_or_finish_exec(s, s.date_i, s.hub_i),
        (DealPhase::LoadingDests, DealScanEvent::DestsLoaded { n }) => {
            if n == 0 { next_pair_exec(s) } else {
                (DealScanState { phase: DealPhase::ShoppingDests { k: 0, n }, scanned: s.scanned + 1, ..s },
                    DealScanAction::ShopDest { k: 0 })
            }
        },
        (DealPhase::ShoppingDests { k, n }, DealScanEvent::Shopped { nonempty }) => {
            let (k, n) = (*k, *n);
            let t = DealScanState { shops: s.shops + 1, empty_shops: if nonempty { s.empty_shops } else { s.empty_shops + 1 }, ..s };
            if k < n && k + 1 < n { (DealScanState { phase: DealPhase::ShoppingDests { k: k + 1, n }, ..t }, DealScanAction::ShopDest { k: k + 1 }) }
            else { (DealScanState { phase: DealPhase::FindingMissing, ..t }, DealScanAction::FindMissing) }
        },
        (DealPhase::FindingMissing, DealScanEvent::MissingFound { n }) => {
            if n > 0 { (DealScanState { phase: DealPhase::ShoppingMissing { k: 0, n }, ..s }, DealScanAction::ShopMissing { k: 0 }) }
            else { (DealScanState { phase: DealPhase::Comparing, ..s }, DealScanAction::Compare) }
        },
        (DealPhase::ShoppingMissing { k, n }, DealScanEvent::Shopped { nonempty }) => {
            let (k, n) = (*k, *n);
            let t = DealScanState { shops: s.shops + 1, empty_shops: if nonempty { s.empty_shops } else { s.empty_shops + 1 }, ..s };
            if k < n && k + 1 < n { (DealScanState { phase: DealPhase::ShoppingMissing { k: k + 1, n }, ..t }, DealScanAction::ShopMissing { k: k + 1 }) }
            else { (DealScanState { phase: DealPhase::Comparing, ..t }, DealScanAction::Compare) }
        },
        (DealPhase::Comparing, DealScanEvent::Compared { hits }) => {
            let found = s.found.saturating_add(hits);
            next_pair_exec(DealScanState { found, ..s })
        },
        _ => (s, DealScanAction::Ignore),
    }
}

/// A scan about to begin with the first date and hub.
pub fn start_deal_scan(dates: usize, hubs: usize) -> (r: DealScanState)
    ensures
        r == (DealScanState { phase: DealPhase::LoadingDests, date_i: 0, hub_i: 0, dates, hubs, scanned: 0, shops: 0,
            empty_shops: 0, found: 0 }),
{
    DealScanState { phase: DealPhase::LoadingDests, date_i: 0, hub_i: 0, dates, hubs, scanned: 0, shops: 0, empty_shops: 0, found: 0 }
}

} // verus!
