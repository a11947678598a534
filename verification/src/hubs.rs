//! Self-transfer trips built at hubs: the cheapest tickets into each hub joined with
//! the cheapest out of it (and, through a middle ticket, two hubs), ranked.
use vstd::prelude::*;
use crate::models::{Offer, Segment, SeparateTicket, same_offer, same_offers, clone_offers};
use crate::order::{sorted_by, is_perm, sort_order};
use crate::picks::{key_views, price_or_big, no_price};
use crate::dedupe::{permuted, first_of_each, lemma_first_of_each_same, arrange, keep_first, first16};
use crate::hidden::{Intended, views, code_set, standard_to, is_standard_to, hidden_exit, detect_hidden_city};
use crate::models::{kept, keep_where};
use crate::shop::{prefer_real, take_prefer_real_carriers};
use crate::text::{str_eq, take_chars};
use crate::self_transfer::{chain_accepts, chain_offer, chain_result, parts_fit, stitch_with, date_cut_ok, all_segments,
    lemma_few_flights_fit};
use crate::models::cents_ok;

verus! {

/// A ticket can take part in a self-transfer trip: its price within range, its
/// first departure cut after ten bytes, its flight minutes within a hundred million.
pub open spec fn offer_fits(o: Offer) -> bool {
    &&& cents_ok(o.price)
    &&& (o.segments@.len() > 0 ==> date_cut_ok(o.segments@[0].dep@))
    &&& forall|j: int| 0 <= j < o.segments@.len() ==> -100_000_000 <= (#[trigger] o.segments@[j]).duration_min <= 100_000_000
}

/// Every ticket of a list can take part in a trip.
pub open spec fn all_fit(s: Seq<Offer>) -> bool {
    forall|i: int| 0 <= i < s.len() ==> offer_fits(#[trigger] s[i])
}

/// The order of tickets into or out of a hub: stops, then price (no price last),
/// then duration.
pub open spec fn cheap_key(o: Offer) -> Seq<i64> {
    seq![o.stops as i64, price_or_big(o.price), o.duration_min as i64]
}

/// The cheap keys of a list.
pub open spec fn cheap_keys(s: Seq<Offer>) -> Seq<Seq<i64>> {
    s.map_values(|o: Offer| cheap_key(o))
}

/// The order of trips: price (no price last), then flights, then tickets, then
/// duration.
pub open spec fn trip_key(o: Offer) -> Seq<i64> {
    seq![price_or_big(o.price), o.segments@.len() as i64, o.separate_tickets@.len() as i64, o.duration_min as i64]
}

/// The trip keys of a list.
pub open spec fn trip_keys(s: Seq<Offer>) -> Seq<Seq<i64>> {
    s.map_values(|o: Offer| trip_key(o))
}

/// A list stably sorted by keys (the stable order is unique).
pub open spec fn stably_sorted(s: Seq<Offer>, keys: Seq<Seq<i64>>) -> Seq<Offer> {
    permuted(s, choose|p: Seq<usize>| sorted_by(keys, p))
}

/// At most the first `n`.
pub open spec fn first_n_of(s: Seq<Offer>, n: int) -> Seq<Offer> {
    if s.len() <= n { s } else { s.subrange(0, n) }
}

/// The `n` best tickets of a list by [`cheap_key`].
pub open spec fn cheapest_spec(s: Seq<Offer>, n: int) -> Seq<Offer> {
    first_n_of(stably_sorted(s, cheap_keys(s)), n)
}

proof fn lemma_sorted_unique(keys: Seq<Seq<i64>>, p: Seq<usize>, q: Seq<usize>)
    requires
        sorted_by(keys, p),
        sorted_by(keys, q),
    ensures
        p == q,
{
    crate::order::lemma_sorted_by_unique(keys, p, q);
}

fn cheap_keys_of(s: &[Offer]) -> (r: Vec<Vec<i64>>)
    ensures
        key_views(r@) == cheap_keys(s@),
{
    let mut v: Vec<Vec<i64>> = Vec::new();
    let mut i: usize = 0;
    while i < s.len()
        invariant
            i <= s@.len(),
            v@.len() == i,
            forall|k: int| 0 <= k < i ==> (#[trigger] v@[k])@ == cheap_key(s@[k]),
        decreases s@.len() - i,
    {
        let o = &s[i];
        let p: i64 = match o.price { Some(x) => x, None => 100_000_000_000_000 };
        let mut k: Vec<i64> = Vec::new();
        k.push(o.stops as i64);
        k.push(p);
        k.push(o.duration_min as i64);
        assert(k@ =~= cheap_key(s@[i as int]));
        v.push(k);
        i = i + 1;
    }
    assert(key_views(v@) =~= cheap_keys(s@));
    v
}

/// See [`cheapest_spec`].
fn cheapest(s: &[Offer], n: usize) -> (r: Vec<Offer>)
    ensures
        same_offers(r@, cheapest_spec(s@, n as int)),
        all_fit(s@) ==> all_fit(r@),
{
    let keys = cheap_keys_of(s);
    let p = sort_order(&keys);
    assert(sorted_by(cheap_keys(s@), p@));
    proof {
        let q = choose|q: Seq<usize>| sorted_by(cheap_keys(s@), q);
        lemma_sorted_unique(cheap_keys(s@), p@, q);
    }
    let sorted = arrange(s, &p);
    assert(all_fit(s@) ==> all_fit(sorted@)) by {
        assert forall|k: int| all_fit(s@) && 0 <= k < sorted@.len() implies offer_fits(#[trigger] sorted@[k]) by {
            assert(same_offer(sorted@[k], s@[p@[k] as int]));
            assert(offer_fits(s@[p@[k] as int]));
        }
    }
    let mut out: Vec<Offer> = Vec::new();
    let mut i: usize = 0;
    let m: usize = if sorted.len() < n { sorted.len() } else { n };
    while i < m
        invariant
            m <= sorted@.len(),
            i <= m,
            out@.len() == i,
            all_fit(s@) ==> all_fit(sorted@),
            forall|k: int| 0 <= k < i ==> same_offer(#[trigger] out@[k], sorted@[k]),
            all_fit(s@) ==> all_fit(out@),
        decreases m - i,
    {
        out.push(sorted[i].clone());
        i = i + 1;
    }
    out
}

/// The most flights on one leg of a self-transfer trip.
pub const MAX_LEG_FLIGHTS: usize = 3;

/// A ticket usable as one leg of a self-transfer trip toward `dest_ok`: it is
/// ticketed to one of those codes, skips no airport of `intended`, and has one to
/// [`MAX_LEG_FLIGHTS`] flights.
pub open spec fn usable_leg(o: Offer, dest_ok: Vec<String>, intended: Vec<String>) -> bool {
    &&& standard_to(o, &dest_ok)
    &&& hidden_exit(o, &intended) is None
    &&& o.segments@.len() > 0
    &&& o.segments@.len() <= MAX_LEG_FLIGHTS
}

/// [`usable_leg`] as a filter.
pub open spec fn leg_filter(dest_ok: Vec<String>, intended: Vec<String>) -> spec_fn(Offer) -> bool {
    |o: Offer| usable_leg(o, dest_ok, intended)
}

/// The legs kept from one shop: the usable ones, test carriers dropped when a real
/// one is there, then the four best by [`cheap_key`] (stops, price, duration).
pub open spec fn legs_kept(offers: Seq<Offer>, dest_ok: Vec<String>, intended: Vec<String>, r: Seq<Offer>) -> bool {
    exists|usable: Seq<Offer>, genuine: Seq<Offer>|
        #[trigger] kept(offers, usable, leg_filter(dest_ok, intended))
            && #[trigger] prefer_real(usable, genuine)
            && same_offers(r, cheapest_spec(genuine, 4))
}

/// See [`legs_kept`].
pub fn keep_legs(offers: Vec<Offer>, dest_ok: &Vec<String>, intended: &Vec<String>) -> (r: Vec<Offer>)
    ensures
        legs_kept(offers@, *dest_ok, *intended, r@),
{
    let mut mask: Vec<bool> = Vec::new();
    let mut i: usize = 0;
    while i < offers.len()
        invariant
            i <= offers@.len(),
            mask@.len() == i,
            forall|k: int| 0 <= k < i ==> mask@[k] == leg_filter(*dest_ok, *intended)(#[trigger] offers@[k]),
        decreases offers@.len() - i,
    {
        let o = &offers[i];
        let ok = is_standard_to(o, dest_ok) && detect_hidden_city(o, intended).is_none()
            && o.segments.len() > 0 && o.segments.len() <= MAX_LEG_FLIGHTS;
        mask.push(ok);
        i = i + 1;
    }
    let usable = keep_where(offers.as_slice(), &mask, Ghost(leg_filter(*dest_ok, *intended)));
    let ghost u = usable@;
    let genuine = take_prefer_real_carriers(usable);
    let r = cheapest(genuine.as_slice(), 4);
    assert(kept(offers@, u, leg_filter(*dest_ok, *intended)) && prefer_real(u, genuine@) && same_offers(r@, cheapest_spec(genuine@, 4)));
    r
}

/// The flights of tickets that can take part in trips are each within a hundred
/// million minutes.
proof fn lemma_all_fit_minutes(ps: Seq<Offer>)
    requires
        all_fit(ps),
    ensures
        forall|j: int| 0 <= j < all_segments(ps).len()
            ==> -100_000_000 <= (#[trigger] all_segments(ps)[j]).duration_min <= 100_000_000,
    decreases ps.len(),
{
    if ps.len() > 0 {
        let d = ps.drop_last();
        assert(all_fit(d)) by {
            assert forall|k: int| 0 <= k < d.len() implies offer_fits(#[trigger] d[k]) by {
                assert(d[k] == ps[k]);
            }
        }
        lemma_all_fit_minutes(d);
        assert(offer_fits(ps[ps.len() - 1]));
        let a = all_segments(d);
        let b = ps.last().segments@;
        assert(all_segments(ps) == a + b);
        assert forall|j: int| 0 <= j < all_segments(ps).len()
            implies -100_000_000 <= (#[trigger] all_segments(ps)[j]).duration_min <= 100_000_000 by {
            if j >= a.len() {
                assert(all_segments(ps)[j] == b[j - a.len()]);
            } else {
                assert(all_segments(ps)[j] == a[j]);
            }
        }
    }
}

/// One flight as trips are told apart: origin, destination, flight number and the
/// departure to the minute (its first sixteen characters).
pub type TripLeg = (Seq<char>, Seq<char>, Seq<char>, Seq<char>);

/// The flights of a trip, as trips are told apart.
pub open spec fn trip_flights(o: Offer) -> Seq<TripLeg> {
    o.segments@.map_values(|s: Segment| (s.origin@, s.dest@, s.flight_number@, first16(s.dep@)))
}

/// The trips of at most two tickets.
pub open spec fn twos(s: Seq<Offer>) -> Seq<Offer>
    decreases s.len(),
{
    if s.len() == 0 {
        s
    } else if s.last().separate_tickets@.len() <= 2 {
        twos(s.drop_last()).push(s.last())
    } else {
        twos(s.drop_last())
    }
}

/// The trips of three tickets or more.
pub open spec fn threes(s: Seq<Offer>) -> Seq<Offer>
    decreases s.len(),
{
    if s.len() == 0 {
        s
    } else if s.last().separate_tickets@.len() >= 3 {
        threes(s.drop_last()).push(s.last())
    } else {
        threes(s.drop_last())
    }
}

/// The lowest price among the priced trips.
pub open spec fn best_price(s: Seq<Offer>) -> Option<i64>
    decreases s.len(),
{
    if s.len() == 0 {
        None
    } else {
        let b = best_price(s.drop_last());
        match s.last().price {
            None => b,
            Some(p) => match b {
                Some(q) => if p < q { Some(p) } else { Some(q) },
                None => Some(p),
            },
        }
    }
}

/// The trips cheaper than `best` (no price counting as dearest); all when there is
/// no `best`.
pub open spec fn below(s: Seq<Offer>, best: Option<i64>) -> Seq<Offer>
    decreases s.len(),
{
    if s.len() == 0 {
        s
    } else {
        let init = below(s.drop_last(), best);
        match best {
            Some(b) => if price_or_big(s.last().price) < b { init.push(s.last()) } else { init },
            None => init.push(s.last()),
        }
    }
}

/// The trips kept after telling them apart: those of one or two tickets, then those
/// of more tickets that beat the cheapest of the former.
pub open spec fn kept_trips(dd: Seq<Offer>) -> Seq<Offer> {
    twos(dd) + below(threes(dd), best_price(twos(dd)))
}

/// `dd` keeps, in order, the first trip of each set of flights.
pub open spec fn distinct_trips(sorted: Seq<Offer>, dd: Seq<Offer>) -> bool {
    first_of_each(sorted, dd, |o: Offer| trip_flights(o))
}

/// `r` ranks the candidate trips: sorted by [`trip_key`], the first of each set of
/// flights kept, trips of three tickets or more only when cheaper than every trip
/// of fewer, sorted again, at most `limit`.
pub open spec fn ranked_rel(cands: Seq<Offer>, limit: int, r: Seq<Offer>) -> bool {
    exists|dd: Seq<Offer>| #[trigger] distinct_trips(stably_sorted(cands, trip_keys(cands)), dd)
        && same_offers(r, first_n_of(stably_sorted(kept_trips(dd), trip_keys(kept_trips(dd))), limit))
}

fn trip_keys_of(s: &Vec<Offer>) -> (r: Vec<Vec<i64>>)
    ensures
        key_views(r@) == trip_keys(s@),
{
    let mut v: Vec<Vec<i64>> = Vec::new();
    let mut i: usize = 0;
    while i < s.len()
        invariant
            i <= s@.len(),
            v@.len() == i,
            forall|k: int| 0 <= k < i ==> (#[trigger] v@[k])@ == trip_key(s@[k]),
        decreases s@.len() - i,
    {
        let o = &s[i];
        let p: i64 = match o.price { Some(x) => x, None => 100_000_000_000_000 };
        let mut k: Vec<i64> = Vec::new();
        k.push(p);
        k.push(o.segments.len() as i64);
        k.push(o.separate_tickets.len() as i64);
        k.push(o.duration_min as i64);
        assert(k@ =~= trip_key(s@[i as int]));
        v.push(k);
        i = i + 1;
    }
    assert(key_views(v@) =~= trip_keys(s@));
    v
}

/// The list stably sorted by trip keys (its copies).
fn sort_trips(s: &Vec<Offer>) -> (r: Vec<Offer>)
    ensures
        same_offers(r@, stably_sorted(s@, trip_keys(s@))),
        exists|q: Seq<usize>| sorted_by(trip_keys(s@), q),
{
    let keys = trip_keys_of(s);
    let p = sort_order(&keys);
    assert(sorted_by(trip_keys(s@), p@));
    proof {
        let q = choose|q: Seq<usize>| sorted_by(trip_keys(s@), q);
        lemma_sorted_unique(trip_keys(s@), p@, q);
    }
    arrange(s.as_slice(), &p)
}

fn same_flights(a: &Offer, b: &Offer) -> (r: bool)
    ensures
        r == (trip_flights(*a) == trip_flights(*b)),
{
    let ghost ga = trip_flights(*a);
    let ghost gb = trip_flights(*b);
    if a.segments.len() != b.segments.len() {
        assert(ga.len() != gb.len());
        return false;
    }
    let mut i: usize = 0;
    while i < a.segments.len()
        invariant
            a.segments@.len() == b.segments@.len(),
            ga == trip_flights(*a),
            gb == trip_flights(*b),
            i <= a.segments@.len(),
            forall|k: int| 0 <= k < i ==> ga[k] == gb[k],
        decreases a.segments@.len() - i,
    {
        let x = &a.segments[i];
        let y = &b.segments[i];
        let dx = take_chars(x.dep.as_str(), 16);
        let dy = take_chars(y.dep.as_str(), 16);
        assert(dx@ =~= first16(x.dep@));
        assert(dy@ =~= first16(y.dep@));
        assert(ga[i as int] == (x.origin@, x.dest@, x.flight_number@, first16(x.dep@)));
        assert(gb[i as int] == (y.origin@, y.dest@, y.flight_number@, first16(y.dep@)));
        if !(str_eq(x.origin.as_str(), y.origin.as_str()) && str_eq(x.dest.as_str(), y.dest.as_str())
            && str_eq(x.flight_number.as_str(), y.flight_number.as_str()) && str_eq(dx.as_str(), dy.as_str())) {
            assert(ga[i as int] != gb[i as int]);
            return false;
        }
        i = i + 1;
    }
    assert(ga =~= gb);
    true
}

fn flight_dups(sorted: &Vec<Offer>) -> (r: Vec<bool>)
    ensures
        r@.len() == sorted@.len(),
        forall|i: int| 0 <= i < sorted@.len() ==> #[trigger] r@[i] == exists|j: int| 0 <= j < i
            && trip_flights(#[trigger] sorted@[j]) == trip_flights(sorted@[i]),
{
    let mut dup: Vec<bool> = Vec::new();
    let mut a: usize = 0;
    while a < sorted.len()
        invariant
            a <= sorted@.len(),
            dup@.len() == a,
            forall|x: int| 0 <= x < a ==> #[trigger] dup@[x] == exists|j: int| 0 <= j < x
                && trip_flights(#[trigger] sorted@[j]) == trip_flights(sorted@[x]),
        decreases sorted@.len() - a,
    {
        let mut seen = false;
        let mut b: usize = 0;
        while b < a
            invariant
                a < sorted@.len(),
                b <= a,
                seen == exists|j: int| 0 <= j < b && trip_flights(#[trigger] sorted@[j]) == trip_flights(sorted@[a as int]),
            decreases a - b,
        {
            if same_flights(&sorted[b], &sorted[a]) {
                seen = true;
            }
            b = b + 1;
        }
        dup.push(seen);
        a = a + 1;
    }
    dup
}

proof fn lemma_same_trip_keys(a: Seq<Offer>, b: Seq<Offer>)
    requires
        same_offers(a, b),
    ensures
        trip_keys(a) == trip_keys(b),
{
    assert forall|i: int| 0 <= i < a.len() implies trip_keys(a)[i] == trip_keys(b)[i] by {
        assert(same_offer(a[i], b[i]));
    }
    assert(trip_keys(a) =~= trip_keys(b));
}

proof fn lemma_same_permuted(a: Seq<Offer>, b: Seq<Offer>, p: Seq<usize>)
    requires
        same_offers(a, b),
        forall|k: int| 0 <= k < p.len() ==> (#[trigger] p[k] as int) < a.len(),
    ensures
        same_offers(permuted(a, p), permuted(b, p)),
{
    assert forall|k: int| 0 <= k < p.len() implies same_offer(#[trigger] permuted(a, p)[k], permuted(b, p)[k]) by {
        assert(same_offer(a[p[k] as int], b[p[k] as int]));
    }
}

fn split_kept(dd: &Vec<Offer>) -> (r: Vec<Offer>)
    ensures
        same_offers(r@, kept_trips(dd@)),
{
    let mut two: Vec<Offer> = Vec::new();
    let mut three: Vec<Offer> = Vec::new();
    let mut best: Option<i64> = None;
    let mut i: usize = 0;
    while i < dd.len()
        invariant
            i <= dd@.len(),
            same_offers(two@, twos(dd@.subrange(0, i as int))),
            same_offers(three@, threes(dd@.subrange(0, i as int))),
            best == best_price(twos(dd@.subrange(0, i as int))),
        decreases dd@.len() - i,
    {
        let ghost pre = dd@.subrange(0, i as int);
        assert(dd@.subrange(0, i + 1).drop_last() =~= pre);
        let o = &dd[i];
        if o.separate_tickets.len() <= 2 {
            let ghost t = twos(pre);
            two.push(o.clone());
            assert(twos(pre).push(dd@[i as int]).drop_last() =~= t);
            match o.price {
                Some(p) => {
                    best = match best {
                        Some(q) => if p < q { Some(p) } else { Some(q) },
                        None => Some(p),
                    };
                },
                None => {},
            }
        } else {
            three.push(o.clone());
        }
        i = i + 1;
    }
    assert(dd@.subrange(0, dd@.len() as int) =~= dd@);
    let ghost tw = twos(dd@);
    let ghost th = threes(dd@);
    let mut out = two;
    let ghost head = out@;
    let mut j: usize = 0;
    while j < three.len()
        invariant
            j <= three@.len(),
            same_offers(three@, th),
            same_offers(head, tw),
            best == best_price(tw),
            out@.len() == head.len() + below(th.subrange(0, j as int), best).len(),
            forall|k: int| 0 <= k < head.len() ==> same_offer(#[trigger] out@[k], head[k]),
            forall|k: int| 0 <= k < below(th.subrange(0, j as int), best).len() ==>
                same_offer(#[trigger] out@[head.len() + k], below(th.subrange(0, j as int), best)[k]),
        decreases three@.len() - j,
    {
        let ghost pre = th.subrange(0, j as int);
        assert(th.subrange(0, j + 1).drop_last() =~= pre);
        assert(same_offer(three@[j as int], th[j as int]));
        let o = &three[j];
        let keep = match best {
            Some(b) => {
                let p: i64 = match o.price { Some(x) => x, None => 100_000_000_000_000 };
                p < b
            },
            None => true,
        };
        if keep {
            out.push(o.clone());
        }
        j = j + 1;
    }
    assert(th.subrange(0, three@.len() as int) =~= th);
    assert forall|k: int| 0 <= k < out@.len() implies same_offer(#[trigger] out@[k], kept_trips(dd@)[k]) by {
        if k < head.len() {
            assert(same_offer(out@[k], head[k]));
            assert(same_offer(head[k], tw[k]));
        } else {
            assert(same_offer(out@[head.len() + (k - head.len())], below(th, best)[k - head.len()]));
        }
    }
    out
}

/// See [`ranked_rel`].
pub fn rank_trips(cands: &Vec<Offer>, limit: usize) -> (r: Vec<Offer>)
    ensures
        ranked_rel(cands@, limit as int, r@),
{
    let sorted = sort_trips(cands);
    let dup = flight_dups(&sorted);
    let dd = keep_first::<Seq<TripLeg>>(&sorted, &dup, Ghost(|o: Offer| trip_flights(o)));
    proof {
        let f = |o: Offer| trip_flights(o);
        assert forall|x: Offer, y: Offer| same_offer(x, y) implies f(x) == f(y) by {
            assert(x.segments@ == y.segments@);
        }
        lemma_first_of_each_same(sorted@, stably_sorted(cands@, trip_keys(cands@)), dd@, f);
    }
    let kept = split_kept(&dd);
    let ranked = sort_trips(&kept);
    proof {
        let kt = kept_trips(dd@);
        lemma_same_trip_keys(kept@, kt);
        let p = choose|q: Seq<usize>| sorted_by(trip_keys(kt), q);
        assert(sorted_by(trip_keys(kt), p));
        lemma_same_permuted(kept@, kt, p);
        assert forall|k: int| 0 <= k < ranked@.len() implies same_offer(#[trigger] ranked@[k], stably_sorted(kt, trip_keys(kt))[k]) by {
            assert(same_offer(ranked@[k], stably_sorted(kept@, trip_keys(kept@))[k]));
            assert(same_offer(permuted(kept@, p)[k], permuted(kt, p)[k]));
        }
    }
    let mut out: Vec<Offer> = Vec::new();
    let m: usize = if ranked.len() < limit { ranked.len() } else { limit };
    let mut i: usize = 0;
    while i < m
        invariant
            m <= ranked@.len(),
            i <= m,
            out@.len() == i,
            forall|k: int| 0 <= k < i ==> same_offer(#[trigger] out@[k], ranked@[k]),
        decreases m - i,
    {
        out.push(ranked[i].clone());
        i = i + 1;
    }
    assert(ranked_rel(cands@, limit as int, out@)) by {
        assert(distinct_trips(stably_sorted(cands@, trip_keys(cands@)), dd@));
        let kt = kept_trips(dd@);
        let target = first_n_of(stably_sorted(kt, trip_keys(kt)), limit as int);
        assert forall|k: int| 0 <= k < out@.len() implies same_offer(#[trigger] out@[k], target[k]) by {
            assert(same_offer(out@[k], ranked@[k]));
            assert(same_offer(ranked@[k], stably_sorted(kt, trip_keys(kt))[k]));
        }
    }
    out
}

/// The tickets listed under a hub (the first entry with that code; none when the
/// hub is not listed).
pub open spec fn offers_at(m: Seq<(String, Vec<Offer>)>, key: Seq<char>) -> Seq<Offer>
    decreases m.len(),
{
    if m.len() == 0 {
        Seq::empty()
    } else if m[0].0@ == key {
        m[0].1@
    } else {
        offers_at(m.drop_first(), key)
    }
}

/// A left ticket joined with each right ticket.
pub open spec fn pair_row(l: Offer, rs: Seq<Offer>) -> Seq<Seq<Offer>> {
    Seq::new(rs.len(), |j: int| seq![l, rs[j]])
}

/// Every left ticket with every right ticket, lefts outermost.
pub open spec fn pair_grid(ls: Seq<Offer>, rs: Seq<Offer>) -> Seq<Seq<Offer>>
    decreases ls.len(),
{
    if ls.len() == 0 { Seq::empty() } else { pair_grid(ls.drop_last(), rs) + pair_row(ls.last(), rs) }
}

/// A left and a middle ticket with each right ticket.
pub open spec fn triple_row(l: Offer, m: Offer, rs: Seq<Offer>) -> Seq<Seq<Offer>> {
    Seq::new(rs.len(), |j: int| seq![l, m, rs[j]])
}

/// A left ticket with every middle and every right ticket.
pub open spec fn triple_mids(l: Offer, ms: Seq<Offer>, rs: Seq<Offer>) -> Seq<Seq<Offer>>
    decreases ms.len(),
{
    if ms.len() == 0 { Seq::empty() } else { triple_mids(l, ms.drop_last(), rs) + triple_row(l, ms.last(), rs) }
}

/// Every left, middle and right ticket, lefts outermost, rights innermost.
pub open spec fn triple_grid(ls: Seq<Offer>, ms: Seq<Offer>, rs: Seq<Offer>) -> Seq<Seq<Offer>>
    decreases ls.len(),
{
    if ls.len() == 0 { Seq::empty() } else { triple_grid(ls.drop_last(), ms, rs) + triple_mids(ls.last(), ms, rs) }
}

/// The ticket lists tried at the first `k` hubs: the four best tickets into the hub
/// with the four best out of it.
pub open spec fn hub_tries(inb: Seq<(String, Vec<Offer>)>, outb: Seq<(String, Vec<Offer>)>, k: int) -> Seq<Seq<Offer>>
    decreases k,
{
    if k <= 0 {
        Seq::empty()
    } else {
        hub_tries(inb, outb, k - 1)
            + pair_grid(cheapest_spec(inb[k - 1].1@, 4), cheapest_spec(offers_at(outb, inb[k - 1].0@), 4))
    }
}

/// The ticket lists tried at the first `k` hub pairs: four best into the first hub,
/// three best between the hubs, four best out of the second.
pub open spec fn mid_tries(inb: Seq<(String, Vec<Offer>)>, outb: Seq<(String, Vec<Offer>)>,
    mids: Seq<((String, String), Vec<Offer>)>, k: int) -> Seq<Seq<Offer>>
    decreases k,
{
    if k <= 0 {
        Seq::empty()
    } else {
        let e = mids[k - 1];
        mid_tries(inb, outb, mids, k - 1) + triple_grid(cheapest_spec(offers_at(inb, e.0.0@), 4),
            cheapest_spec(e.1@, 3), cheapest_spec(offers_at(outb, e.0.1@), 4))
    }
}

/// Every ticket list tried, in order.
pub open spec fn all_tries(inb: Seq<(String, Vec<Offer>)>, outb: Seq<(String, Vec<Offer>)>,
    mids: Option<Seq<((String, String), Vec<Offer>)>>) -> Seq<Seq<Offer>>
{
    hub_tries(inb, outb, inb.len() as int) + match mids {
        Some(m) => mid_tries(inb, outb, m, m.len() as int),
        None => Seq::empty(),
    }
}

/// Two lists of ticket lists hold the same tickets.
pub open spec fn similar_tries(a: Seq<Seq<Offer>>, b: Seq<Seq<Offer>>) -> bool {
    a.len() == b.len() && forall|i: int| 0 <= i < a.len() ==> same_offers(#[trigger] a[i], b[i])
}

/// `cands` holds, in order, the trip joined from each ticket list of `tries` whose
/// tickets join (see `chain_result`).
pub open spec fn cands_rel(tries: Seq<Seq<Offer>>, dests: Vec<String>, cands: Seq<Offer>) -> bool
    decreases tries.len(),
{
    if tries.len() == 0 {
        cands.len() == 0
    } else {
        let t = tries.last();
        ||| (chain_result(t, dests, None) && cands_rel(tries.drop_last(), dests, cands))
        ||| (cands.len() > 0 && chain_result(t, dests, Some(cands.last()))
            && cands_rel(tries.drop_last(), dests, cands.drop_last()))
    }
}

/// The views of a list of ticket lists.
pub open spec fn tries_view(v: Seq<Vec<Offer>>) -> Seq<Seq<Offer>> {
    v.map_values(|x: Vec<Offer>| x@)
}

proof fn lemma_pair_grid_similar(ls: Seq<Offer>, rs: Seq<Offer>, ls2: Seq<Offer>, rs2: Seq<Offer>)
    requires
        same_offers(ls, ls2),
        same_offers(rs, rs2),
    ensures
        similar_tries(pair_grid(ls, rs), pair_grid(ls2, rs2)),
    decreases ls.len(),
{
    if ls.len() > 0 {
        assert(same_offers(ls.drop_last(), ls2.drop_last())) by {
            assert forall|i: int| 0 <= i < ls.len() - 1 implies same_offer(#[trigger] ls.drop_last()[i], ls2.drop_last()[i]) by {
                assert(same_offer(ls[i], ls2[i]));
            }
        }
        lemma_pair_grid_similar(ls.drop_last(), rs, ls2.drop_last(), rs2);
        let a = pair_grid(ls.drop_last(), rs);
        let b = pair_grid(ls2.drop_last(), rs2);
        assert forall|i: int| 0 <= i < pair_grid(ls, rs).len() implies same_offers(#[trigger] pair_grid(ls, rs)[i], pair_grid(ls2, rs2)[i]) by {
            if i < a.len() {
                assert(same_offers(a[i], b[i]));
            } else {
                let j = i - a.len();
                assert(same_offer(ls.last(), ls2.last()));
                assert(same_offer(rs[j], rs2[j]));
                assert(pair_row(ls.last(), rs)[j] == seq![ls.last(), rs[j]]);
            }
        }
    }
}

proof fn lemma_triple_mids_similar(l: Offer, ms: Seq<Offer>, rs: Seq<Offer>, l2: Offer, ms2: Seq<Offer>, rs2: Seq<Offer>)
    requires
        same_offer(l, l2),
        same_offers(ms, ms2),
        same_offers(rs, rs2),
    ensures
        similar_tries(triple_mids(l, ms, rs), triple_mids(l2, ms2, rs2)),
    decreases ms.len(),
{
    if ms.len() > 0 {
        assert(same_offers(ms.drop_last(), ms2.drop_last())) by {
            assert forall|i: int| 0 <= i < ms.len() - 1 implies same_offer(#[trigger] ms.drop_last()[i], ms2.drop_last()[i]) by {
                assert(same_offer(ms[i], ms2[i]));
            }
        }
        lemma_triple_mids_similar(l, ms.drop_last(), rs, l2, ms2.drop_last(), rs2);
        let a = triple_mids(l, ms.drop_last(), rs);
        let b = triple_mids(l2, ms2.drop_last(), rs2);
        assert forall|i: int| 0 <= i < triple_mids(l, ms, rs).len() implies same_offers(#[trigger] triple_mids(l, ms, rs)[i], triple_mids(l2, ms2, rs2)[i]) by {
            if i < a.len() {
                assert(same_offers(a[i], b[i]));
            } else {
                let j = i - a.len();
                assert(same_offer(ms.last(), ms2.last()));
                assert(same_offer(rs[j], rs2[j]));
            }
        }
    }
}

proof fn lemma_triple_grid_similar(ls: Seq<Offer>, ms: Seq<Offer>, rs: Seq<Offer>, ls2: Seq<Offer>, ms2: Seq<Offer>, rs2: Seq<Offer>)
    requires
        same_offers(ls, ls2),
        same_offers(ms, ms2),
        same_offers(rs, rs2),
    ensures
        similar_tries(triple_grid(ls, ms, rs), triple_grid(ls2, ms2, rs2)),
    decreases ls.len(),
{
    if ls.len() > 0 {
        assert(same_offers(ls.drop_last(), ls2.drop_last())) by {
            assert forall|i: int| 0 <= i < ls.len() - 1 implies same_offer(#[trigger] ls.drop_last()[i], ls2.drop_last()[i]) by {
                assert(same_offer(ls[i], ls2[i]));
            }
        }
        lemma_triple_grid_similar(ls.drop_last(), ms, rs, ls2.drop_last(), ms2, rs2);
        lemma_triple_mids_similar(ls.last(), ms, rs, ls2.last(), ms2, rs2);
        let a = triple_grid(ls.drop_last(), ms, rs);
        let b = triple_grid(ls2.drop_last(), ms2, rs2);
        let c = triple_mids(ls.last(), ms, rs);
        let d = triple_mids(ls2.last(), ms2, rs2);
        assert forall|i: int| 0 <= i < triple_grid(ls, ms, rs).len() implies same_offers(#[trigger] triple_grid(ls, ms, rs)[i], triple_grid(ls2, ms2, rs2)[i]) by {
            if i < a.len() {
                assert(same_offers(a[i], b[i]));
            } else {
                assert(same_offers(c[i - a.len()], d[i - a.len()]));
            }
        }
    }
}

fn pair_grid_of(ls: &Vec<Offer>, rs: &Vec<Offer>) -> (r: Vec<Vec<Offer>>)
    requires
        all_fit(ls@),
        all_fit(rs@),
    ensures
        similar_tries(tries_view(r@), pair_grid(ls@, rs@)),
        forall|i: int| 0 <= i < r@.len() ==> all_fit(#[trigger] r@[i]@),
{
    let mut out: Vec<Vec<Offer>> = Vec::new();
    let mut a: usize = 0;
    while a < ls.len()
        invariant
            a <= ls@.len(),
            similar_tries(tries_view(out@), pair_grid(ls@.subrange(0, a as int), rs@)),
            all_fit(ls@),
            all_fit(rs@),
            forall|i: int| 0 <= i < out@.len() ==> all_fit(#[trigger] out@[i]@),
        decreases ls@.len() - a,
    {
        assert(ls@.subrange(0, a + 1).drop_last() =~= ls@.subrange(0, a as int));
        let ghost base = pair_grid(ls@.subrange(0, a as int), rs@);
        let ghost row = pair_row(ls@[a as int], rs@);
        let ghost start = out@.len();
        let mut b: usize = 0;
        while b < rs.len()
            invariant
                a < ls@.len(),
                b <= rs@.len(),
                start == base.len(),
                row == pair_row(ls@[a as int], rs@),
                all_fit(ls@),
                all_fit(rs@),
                forall|i: int| 0 <= i < out@.len() ==> all_fit(#[trigger] out@[i]@),
                tries_view(out@).len() == base.len() + b,
                forall|i: int| 0 <= i < base.len() ==> same_offers(#[trigger] tries_view(out@)[i], base[i]),
                forall|j: int| 0 <= j < b ==> same_offers(#[trigger] tries_view(out@)[base.len() + j], row[j]),
            decreases rs@.len() - b,
        {
            let mut parts: Vec<Offer> = Vec::new();
            parts.push(ls[a].clone());
            parts.push(rs[b].clone());
            assert(same_offers(parts@, row[b as int]));
            let ghost before = tries_view(out@);
            out.push(parts);
            assert(tries_view(out@) =~= before.push(parts@));
            b = b + 1;
        }
        assert(similar_tries(tries_view(out@), pair_grid(ls@.subrange(0, a + 1), rs@))) by {
            assert forall|i: int| 0 <= i < tries_view(out@).len() implies same_offers(#[trigger] tries_view(out@)[i], pair_grid(ls@.subrange(0, a + 1), rs@)[i]) by {
                if i >= base.len() {
                    assert(same_offers(tries_view(out@)[base.len() + (i - base.len())], row[i - base.len()]));
                }
            }
        }
        a = a + 1;
    }
    assert(ls@.subrange(0, ls@.len() as int) =~= ls@);
    out
}

fn triple_grid_of(ls: &Vec<Offer>, ms: &Vec<Offer>, rs: &Vec<Offer>) -> (r: Vec<Vec<Offer>>)
    requires
        all_fit(ls@),
        all_fit(ms@),
        all_fit(rs@),
    ensures
        similar_tries(tries_view(r@), triple_grid(ls@, ms@, rs@)),
        forall|i: int| 0 <= i < r@.len() ==> all_fit(#[trigger] r@[i]@),
{
    let mut out: Vec<Vec<Offer>> = Vec::new();
    let mut a: usize = 0;
    while a < ls.len()
        invariant
            a <= ls@.len(),
            similar_tries(tries_view(out@), triple_grid(ls@.subrange(0, a as int), ms@, rs@)),
            all_fit(ls@),
            all_fit(ms@),
            all_fit(rs@),
            forall|i: int| 0 <= i < out@.len() ==> all_fit(#[trigger] out@[i]@),
        decreases ls@.len() - a,
    {
        assert(ls@.subrange(0, a + 1).drop_last() =~= ls@.subrange(0, a as int));
        let ghost base = triple_grid(ls@.subrange(0, a as int), ms@, rs@);
        let ghost l = ls@[a as int];
        let mut m: usize = 0;
        while m < ms.len()
            invariant
                a < ls@.len(),
                l == ls@[a as int],
                m <= ms@.len(),
                all_fit(ls@),
                all_fit(ms@),
                all_fit(rs@),
                forall|i: int| 0 <= i < out@.len() ==> all_fit(#[trigger] out@[i]@),
                similar_tries(tries_view(out@), base + triple_mids(l, ms@.subrange(0, m as int), rs@)),
            decreases ms@.len() - m,
        {
            assert(ms@.subrange(0, m + 1).drop_last() =~= ms@.subrange(0, m as int));
            let ghost base2 = base + triple_mids(l, ms@.subrange(0, m as int), rs@);
            let ghost row = triple_row(l, ms@[m as int], rs@);
            let mut b: usize = 0;
            while b < rs.len()
                invariant
                    a < ls@.len(),
                    m < ms@.len(),
                    l == ls@[a as int],
                    b <= rs@.len(),
                    row == triple_row(l, ms@[m as int], rs@),
                    all_fit(ls@),
                    all_fit(ms@),
                    all_fit(rs@),
                    forall|i: int| 0 <= i < out@.len() ==> all_fit(#[trigger] out@[i]@),
                    tries_view(out@).len() == base2.len() + b,
                    forall|i: int| 0 <= i < base2.len() ==> same_offers(#[trigger] tries_view(out@)[i], base2[i]),
                    forall|j: int| 0 <= j < b ==> same_offers(#[trigger] tries_view(out@)[base2.len() + j], row[j]),
                decreases rs@.len() - b,
            {
                let mut parts: Vec<Offer> = Vec::new();
                parts.push(ls[a].clone());
                parts.push(ms[m].clone());
                parts.push(rs[b].clone());
                assert(same_offers(parts@, row[b as int]));
                let ghost before = tries_view(out@);
                out.push(parts);
                assert(tries_view(out@) =~= before.push(parts@));
                b = b + 1;
            }
            assert(similar_tries(tries_view(out@), base + triple_mids(l, ms@.subrange(0, m + 1), rs@))) by {
                assert(base + triple_mids(l, ms@.subrange(0, m + 1), rs@) =~= base2 + row);
                assert forall|i: int| 0 <= i < tries_view(out@).len() implies same_offers(#[trigger] tries_view(out@)[i], (base2 + row)[i]) by {
                    if i >= base2.len() {
                        assert(same_offers(tries_view(out@)[base2.len() + (i - base2.len())], row[i - base2.len()]));
                    }
                }
            }
            m = m + 1;
        }
        assert(ms@.subrange(0, ms@.len() as int) =~= ms@);
        assert(base + triple_mids(l, ms@, rs@) =~= triple_grid(ls@.subrange(0, a + 1), ms@, rs@));
        a = a + 1;
    }
    assert(ls@.subrange(0, ls@.len() as int) =~= ls@);
    out
}

/// Every list of a hub table can take part in trips.
pub open spec fn table_fits(m: Seq<(String, Vec<Offer>)>) -> bool {
    forall|i: int| 0 <= i < m.len() ==> all_fit(#[trigger] m[i].1@)
}

/// Every list of a hub-pair table can take part in trips.
pub open spec fn pair_table_fits(m: Seq<((String, String), Vec<Offer>)>) -> bool {
    forall|i: int| 0 <= i < m.len() ==> all_fit(#[trigger] m[i].1@)
}

fn offers_index(m: &Vec<(String, Vec<Offer>)>, key: &str) -> (r: Option<usize>)
    ensures
        match r {
            Some(k) => k < m@.len() && offers_at(m@, key@) == m@[k as int].1@,
            None => offers_at(m@, key@) == Seq::<Offer>::empty(),
        },
{
    let n = m.len();
    let mut i: usize = 0;
    assert(m@.subrange(0, n as int) =~= m@);
    while i < n
        invariant
            n == m@.len(),
            i <= n,
            offers_at(m@.subrange(i as int, n as int), key@) == offers_at(m@, key@),
        decreases n - i,
    {
        assert(m@.subrange(i as int, n as int)[0] == m@[i as int]);
        if str_eq(m[i].0.as_str(), key) {
            return Some(i);
        }
        assert(m@.subrange(i as int, n as int).drop_first() =~= m@.subrange(i + 1, n as int));
        i = i + 1;
    }
    None
}

proof fn lemma_similar_append(a: Seq<Seq<Offer>>, b: Seq<Seq<Offer>>, c: Seq<Seq<Offer>>, d: Seq<Seq<Offer>>)
    requires
        similar_tries(a, b),
        similar_tries(c, d),
    ensures
        similar_tries(a + c, b + d),
{
    assert forall|i: int| 0 <= i < (a + c).len() implies same_offers(#[trigger] (a + c)[i], (b + d)[i]) by {
        if i < a.len() {
            assert(same_offers(a[i], b[i]));
        } else {
            assert(same_offers(c[i - a.len()], d[i - a.len()]));
        }
    }
}

fn stitch_all(tries: &Vec<Vec<Offer>>, dests: &Vec<String>) -> (r: Vec<Offer>)
    requires
        forall|i: int| 0 <= i < tries@.len() ==> all_fit(#[trigger] tries@[i]@),
    ensures
        cands_rel(tries_view(tries@), *dests, r@),
{
    let mut out: Vec<Offer> = Vec::new();
    let mut i: usize = 0;
    while i < tries.len()
        invariant
            i <= tries@.len(),
            forall|k: int| 0 <= k < tries@.len() ==> all_fit(#[trigger] tries@[k]@),
            cands_rel(tries_view(tries@).subrange(0, i as int), *dests, out@),
        decreases tries@.len() - i,
    {
        let ghost pre = tries_view(tries@).subrange(0, i as int);
        let ghost next = tries_view(tries@).subrange(0, i + 1);
        assert(next.drop_last() =~= pre);
        assert(next.last() == tries@[i as int]@);
        assert(all_fit(tries@[i as int]@));
        assert(parts_fit(tries@[i as int]@)) by {
            let ps = tries@[i as int]@;
            assert forall|k: int| 0 <= k < ps.len() implies {
                let p = #[trigger] ps[k];
                &&& cents_ok(p.price)
                &&& (p.segments@.len() > 0 ==> date_cut_ok(p.segments@[0].dep@))
            } by {
                assert(offer_fits(ps[k]));
            }
        }
        proof {
            lemma_all_fit_minutes(tries@[i as int]@);
            if all_segments(tries@[i as int]@).len() <= 5 {
                lemma_few_flights_fit(all_segments(tries@[i as int]@));
            }
        }
        let ghost before = out@;
        match stitch_with(tries[i].as_slice(), dests) {
            Some(o) => {
                out.push(o);
                assert(out@.drop_last() =~= before);
            },
            None => {},
        }
        i = i + 1;
    }
    assert(tries_view(tries@).subrange(0, tries@.len() as int) =~= tries_view(tries@));
    out
}

/// The self-transfer trips at the hubs, ranked: every ticket list of
/// [`all_tries`] (up to copies of the same tickets) is tried, the trips that join
/// are collected in that order, and [`ranked_rel`] ranks them.
pub open spec fn combine_rel(inb: Seq<(String, Vec<Offer>)>, outb: Seq<(String, Vec<Offer>)>,
    mids: Option<Seq<((String, String), Vec<Offer>)>>, dests: Vec<String>, limit: int, r: Seq<Offer>) -> bool
{
    exists|tl: Seq<Seq<Offer>>, cands: Seq<Offer>| similar_tries(tl, all_tries(inb, outb, mids))
        && #[trigger] cands_rel(tl, dests, cands) && ranked_rel(cands, limit, r) && cands.len() <= usize::MAX
}

/// An optional table by its entries.
pub open spec fn opt_table(m: Option<&Vec<((String, String), Vec<Offer>)>>) -> Option<Seq<((String, String), Vec<Offer>)>> {
    match m {
        Some(v) => Some(v@),
        None => None,
    }
}

/// See [`combine_rel`]: tickets into each hub (`inbound`) and out of it
/// (`outbound`), optionally tickets between two hubs (`mids`), joined and ranked,
/// at most `limit` trips.
pub fn combine_at_hubs(inbound: &Vec<(String, Vec<Offer>)>, outbound: &Vec<(String, Vec<Offer>)>,
    intended: &Vec<String>, mids: Option<&Vec<((String, String), Vec<Offer>)>>, limit: usize) -> (r: Vec<Offer>)
    requires
        table_fits(inbound@),
        table_fits(outbound@),
        mids matches Some(m) ==> pair_table_fits(m@),
    ensures
        exists|dests: Vec<String>| code_set(dests@) == intended.upper_codes()
            && #[trigger] combine_rel(inbound@, outbound@, opt_table(mids), dests, limit as int, r@),
{
    let dests = intended.codes();
    let empty: Vec<Offer> = Vec::new();
    let mut tries: Vec<Vec<Offer>> = Vec::new();
    let mut i: usize = 0;
    while i < inbound.len()
        invariant
            i <= inbound@.len(),
            table_fits(inbound@),
            table_fits(outbound@),
            empty@.len() == 0,
            similar_tries(tries_view(tries@), hub_tries(inbound@, outbound@, i as int)),
            forall|k: int| 0 <= k < tries@.len() ==> all_fit(#[trigger] tries@[k]@),
        decreases inbound@.len() - i,
    {
        assert(all_fit(inbound@[i as int].1@));
        let ls = cheapest(inbound[i].1.as_slice(), 4);
        let src: &Vec<Offer> = match offers_index(outbound, inbound[i].0.as_str()) {
            Some(k) => {
                assert(all_fit(outbound@[k as int].1@));
                &outbound[k].1
            },
            None => &empty,
        };
        assert(src@ =~= offers_at(outbound@, inbound@[i as int].0@));
        let rs = cheapest(src.as_slice(), 4);
        let mut g = pair_grid_of(&ls, &rs);
        proof {
            lemma_pair_grid_similar(ls@, rs@, cheapest_spec(inbound@[i as int].1@, 4),
                cheapest_spec(offers_at(outbound@, inbound@[i as int].0@), 4));
        }
        let ghost (t0, g0) = (tries@, g@);
        tries.append(&mut g);
        proof {
            lemma_similar_append(tries_view(t0), hub_tries(inbound@, outbound@, i as int), tries_view(g0),
                pair_grid(cheapest_spec(inbound@[i as int].1@, 4), cheapest_spec(offers_at(outbound@, inbound@[i as int].0@), 4)));
            assert(tries_view(tries@) =~= tries_view(t0) + tries_view(g0));
        }
        i = i + 1;
    }
    let ghost head = tries@;
    match mids {
        Some(m) => {
            let mut j: usize = 0;
            while j < m.len()
                invariant
                    j <= m@.len(),
                    table_fits(inbound@),
                    table_fits(outbound@),
                    pair_table_fits(m@),
                    empty@.len() == 0,
                    similar_tries(tries_view(head), hub_tries(inbound@, outbound@, inbound@.len() as int)),
                    tries@.len() >= head.len(),
                    tries@.subrange(0, head.len() as int) == head,
                    similar_tries(tries_view(tries@.subrange(head.len() as int, tries@.len() as int)),
                        mid_tries(inbound@, outbound@, m@, j as int)),
                    forall|k: int| 0 <= k < tries@.len() ==> all_fit(#[trigger] tries@[k]@),
                decreases m@.len() - j,
            {
                let e = &m[j];
                let src1: &Vec<Offer> = match offers_index(inbound, e.0.0.as_str()) {
                    Some(k) => {
                        assert(all_fit(inbound@[k as int].1@));
                        &inbound[k].1
                    },
                    None => &empty,
                };
                assert(src1@ =~= offers_at(inbound@, e.0.0@));
                let src2: &Vec<Offer> = match offers_index(outbound, e.0.1.as_str()) {
                    Some(k) => {
                        assert(all_fit(outbound@[k as int].1@));
                        &outbound[k].1
                    },
                    None => &empty,
                };
                assert(src2@ =~= offers_at(outbound@, e.0.1@));
                assert(all_fit(m@[j as int].1@));
                let ls = cheapest(src1.as_slice(), 4);
                let ms = cheapest(e.1.as_slice(), 3);
                let rs = cheapest(src2.as_slice(), 4);
                let mut g = triple_grid_of(&ls, &ms, &rs);
                proof {
                    lemma_triple_grid_similar(ls@, ms@, rs@, cheapest_spec(offers_at(inbound@, e.0.0@), 4),
                        cheapest_spec(e.1@, 3), cheapest_spec(offers_at(outbound@, e.0.1@), 4));
                }
                let ghost (t0, g0) = (tries@, g@);
                tries.append(&mut g);
                proof {
                    let tail0 = t0.subrange(head.len() as int, t0.len() as int);
                    lemma_similar_append(tries_view(tail0), mid_tries(inbound@, outbound@, m@, j as int), tries_view(g0),
                        triple_grid(cheapest_spec(offers_at(inbound@, e.0.0@), 4), cheapest_spec(e.1@, 3),
                            cheapest_spec(offers_at(outbound@, e.0.1@), 4)));
                    assert(tries@.subrange(head.len() as int, tries@.len() as int) =~= tail0 + g0);
                    assert(tries_view(tail0 + g0) =~= tries_view(tail0) + tries_view(g0));
                    assert(tries@.subrange(0, head.len() as int) =~= head);
                }
                j = j + 1;
            }
            proof {
                let tail = tries@.subrange(head.len() as int, tries@.len() as int);
                lemma_similar_append(tries_view(head), hub_tries(inbound@, outbound@, inbound@.len() as int),
                    tries_view(tail), mid_tries(inbound@, outbound@, m@, m@.len() as int));
                assert(tries@ =~= head + tail);
                assert(tries_view(head + tail) =~= tries_view(head) + tries_view(tail));
            }
        },
        None => {
            assert(hub_tries(inbound@, outbound@, inbound@.len() as int) + Seq::<Seq<Offer>>::empty()
                =~= hub_tries(inbound@, outbound@, inbound@.len() as int));
        },
    }
    assert(similar_tries(tries_view(tries@), all_tries(inbound@, outbound@, opt_table(mids))));
    let cands = stitch_all(&tries, &dests);
    let r = rank_trips(&cands, limit);
    assert(combine_rel(inbound@, outbound@, opt_table(mids), dests, limit as int, r@)) by {
        assert(cands_rel(tries_view(tries@), dests, cands@));
    }
    r
}

} // verus!
