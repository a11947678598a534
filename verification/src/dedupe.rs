//! Collapsing offers that sell the same flights: sort, then keep the first of each key.
use vstd::prelude::*;
use crate::models::{Offer, Segment, same_offer, same_offers};
use crate::text::{to_upper, upper, take_chars, str_eq};
use crate::order::{sorted_by, is_perm, sort_order};
use crate::picks::{price_keys, key_views, pick_keys, no_price, price_or_big};

verus! {

/// A list of offers in the order a permutation gives.
pub open spec fn permuted(s: Seq<Offer>, p: Seq<usize>) -> Seq<Offer> {
    Seq::new(p.len(), |k: int| s[p[k] as int])
}

/// `out` holds, in order, each offer of `src` whose key no earlier offer has.
pub open spec fn first_of_each<K>(src: Seq<Offer>, out: Seq<Offer>, key: spec_fn(Offer) -> K) -> bool
    decreases src.len(),
{
    if src.len() == 0 {
        out.len() == 0
    } else if exists|j: int| 0 <= j < src.len() - 1 && key(#[trigger] src[j]) == key(src.last()) {
        first_of_each(src.drop_last(), out, key)
    } else {
        out.len() > 0 && same_offer(out.last(), src.last()) && first_of_each(src.drop_last(), out.drop_last(), key)
    }
}

/// Keeping the first of each key gives the same result on lists of the same offers.
pub proof fn lemma_first_of_each_same<K>(a: Seq<Offer>, b: Seq<Offer>, out: Seq<Offer>, key: spec_fn(Offer) -> K)
    requires
        same_offers(a, b),
        first_of_each(a, out, key),
        forall|x: Offer, y: Offer| same_offer(x, y) ==> key(x) == key(y),
    ensures
        first_of_each(b, out, key),
    decreases a.len(),
{
    if a.len() > 0 {
        assert(same_offer(a.last(), b.last()));
        assert(same_offers(a.drop_last(), b.drop_last())) by {
            assert forall|i: int| 0 <= i < a.drop_last().len() implies same_offer(#[trigger] a.drop_last()[i], b.drop_last()[i]) by {
                assert(same_offer(a[i], b[i]));
            }
        }
        let da = exists|j: int| 0 <= j < a.len() - 1 && key(#[trigger] a[j]) == key(a.last());
        let db = exists|j: int| 0 <= j < b.len() - 1 && key(#[trigger] b[j]) == key(b.last());
        assert(da == db) by {
            if da {
                let j = choose|j: int| 0 <= j < a.len() - 1 && key(#[trigger] a[j]) == key(a.last());
                assert(same_offer(a[j], b[j]));
                assert(key(b[j]) == key(b.last()));
            }
            if db {
                let j = choose|j: int| 0 <= j < b.len() - 1 && key(#[trigger] b[j]) == key(b.last());
                assert(same_offer(a[j], b[j]));
                assert(key(a[j]) == key(a.last()));
            }
        }
        if da {
            lemma_first_of_each_same(a.drop_last(), b.drop_last(), out, key);
        } else {
            lemma_first_of_each_same(a.drop_last(), b.drop_last(), out.drop_last(), key);
        }
    }
}

/// The offers at the positions a permutation lists.
pub(crate) fn arrange(offers: &[Offer], p: &Vec<usize>) -> (r: Vec<Offer>)
    requires
        is_perm(p@, offers@.len() as int),
    ensures
        same_offers(r@, permuted(offers@, p@)),
{
    let mut out: Vec<Offer> = Vec::new();
    let mut k: usize = 0;
    while k < p.len()
        invariant
            is_perm(p@, offers@.len() as int),
            k <= p@.len(),
            out@.len() == k,
            forall|x: int| 0 <= x < k ==> same_offer(#[trigger] out@[x], offers@[p@[x] as int]),
        decreases p@.len() - k,
    {
        let idx = p[k];
        assert((p@[k as int] as int) < offers@.len());
        out.push(offers[idx].clone());
        k = k + 1;
    }
    out
}

/// Keeps the offers whose entry in `dup` is clear.
pub(crate) fn keep_first<K>(sorted: &Vec<Offer>, dup: &Vec<bool>, Ghost(key): Ghost<spec_fn(Offer) -> K>) -> (r: Vec<Offer>)
    requires
        dup@.len() == sorted@.len(),
        forall|i: int| 0 <= i < sorted@.len() ==> #[trigger] dup@[i] == exists|j: int| 0 <= j < i && key(#[trigger] sorted@[j]) == key(sorted@[i]),
    ensures
        first_of_each(sorted@, r@, key),
{
    let mut out: Vec<Offer> = Vec::new();
    let mut i: usize = 0;
    while i < sorted.len()
        invariant
            i <= sorted@.len(),
            dup@.len() == sorted@.len(),
            forall|k: int| 0 <= k < sorted@.len() ==> #[trigger] dup@[k] == exists|j: int| 0 <= j < k && key(#[trigger] sorted@[j]) == key(sorted@[k]),
            first_of_each(sorted@.subrange(0, i as int), out@, key),
        decreases sorted@.len() - i,
    {
        let ghost pre = sorted@.subrange(0, i as int);
        let ghost next = sorted@.subrange(0, i + 1);
        assert(next.drop_last() =~= pre);
        let ghost d = exists|j: int| 0 <= j < next.len() - 1 && key(#[trigger] next[j]) == key(next.last());
        assert(d == dup@[i as int]) by {
            if d {
                let j = choose|j: int| 0 <= j < next.len() - 1 && key(#[trigger] next[j]) == key(next.last());
                assert(key(sorted@[j]) == key(sorted@[i as int]));
            }
            if dup@[i as int] {
                let j = choose|j: int| 0 <= j < i && key(#[trigger] sorted@[j]) == key(sorted@[i as int]);
                assert(key(next[j]) == key(next.last()));
            }
        }
        if !dup[i] {
            let ghost before = out@;
            out.push(sorted[i].clone());
            assert(out@.drop_last() =~= before);
        }
        i = i + 1;
    }
    assert(sorted@.subrange(0, sorted@.len() as int) =~= sorted@);
    out
}

/// The first 16 characters of a time (all of it when shorter).
pub open spec fn first16(s: Seq<char>) -> Seq<char> {
    if s.len() <= 16 { s } else { s.subrange(0, 16) }
}

/// One flight as code-share grouping sees it: origin and destination upper-cased,
/// departure and arrival to the minute.
pub type LegKey = (Seq<char>, Seq<char>, Seq<char>, Seq<char>);

pub open spec fn leg_key(s: Segment) -> LegKey {
    (to_upper(s.origin@), to_upper(s.dest@), first16(s.dep@), first16(s.arr@))
}

/// The flights an offer sells, whoever markets them.
pub open spec fn codeshare_spec(o: Offer) -> Seq<LegKey> {
    o.segments@.map_values(|s: Segment| leg_key(s))
}

/// The views of a list of leg keys.
pub open spec fn leg_views(v: Seq<(String, String, String, String)>) -> Seq<LegKey> {
    v.map_values(|t: (String, String, String, String)| (t.0@, t.1@, t.2@, t.3@))
}

/// See [`codeshare_spec`].
pub fn codeshare_key(offer: &Offer) -> (r: Vec<(String, String, String, String)>)
    ensures
        leg_views(r@) == codeshare_spec(*offer),
{
    let mut out: Vec<(String, String, String, String)> = Vec::new();
    let mut i: usize = 0;
    while i < offer.segments.len()
        invariant
            i <= offer.segments@.len(),
            out@.len() == i,
            forall|k: int| 0 <= k < i ==> {
                let t = #[trigger] out@[k];
                (t.0@, t.1@, t.2@, t.3@) == leg_key(offer.segments@[k])
            },
        decreases offer.segments@.len() - i,
    {
        let s = &offer.segments[i];
        out.push((upper(s.origin.as_str()), upper(s.dest.as_str()), take_chars(s.dep.as_str(), 16), take_chars(s.arr.as_str(), 16)));
        i = i + 1;
    }
    assert(leg_views(out@) =~= codeshare_spec(*offer));
    out
}

pub(crate) fn same_legs(a: &Vec<(String, String, String, String)>, b: &Vec<(String, String, String, String)>) -> (r: bool)
    ensures
        r == (leg_views(a@) == leg_views(b@)),
{
    if a.len() != b.len() {
        assert(leg_views(a@).len() != leg_views(b@).len());
        return false;
    }
    let mut i: usize = 0;
    while i < a.len()
        invariant
            a@.len() == b@.len(),
            i <= a@.len(),
            forall|k: int| 0 <= k < i ==> leg_views(a@)[k] == leg_views(b@)[k],
        decreases a@.len() - i,
    {
        let x = &a[i];
        let y = &b[i];
        if !(str_eq(x.0.as_str(), y.0.as_str()) && str_eq(x.1.as_str(), y.1.as_str())
            && str_eq(x.2.as_str(), y.2.as_str()) && str_eq(x.3.as_str(), y.3.as_str())) {
            assert(leg_views(a@)[i as int] != leg_views(b@)[i as int]);
            return false;
        }
        i = i + 1;
    }
    assert(leg_views(a@) =~= leg_views(b@));
    true
}

/// Which offers repeat the flights of an earlier one.
fn codeshare_dups(sorted: &Vec<Offer>) -> (r: Vec<bool>)
    ensures
        r@.len() == sorted@.len(),
        forall|i: int| 0 <= i < sorted@.len() ==> #[trigger] r@[i] == exists|j: int| 0 <= j < i
            && codeshare_spec(#[trigger] sorted@[j]) == codeshare_spec(sorted@[i]),
{
    let mut keys: Vec<Vec<(String, String, String, String)>> = Vec::new();
    let mut i: usize = 0;
    while i < sorted.len()
        invariant
            i <= sorted@.len(),
            keys@.len() == i,
            forall|k: int| 0 <= k < i ==> leg_views(#[trigger] keys@[k]@) == codeshare_spec(sorted@[k]),
        decreases sorted@.len() - i,
    {
        keys.push(codeshare_key(&sorted[i]));
        i = i + 1;
    }
    let mut dup: Vec<bool> = Vec::new();
    let mut a: usize = 0;
    while a < sorted.len()
        invariant
            a <= sorted@.len(),
            keys@.len() == sorted@.len(),
            forall|k: int| 0 <= k < sorted@.len() ==> leg_views(#[trigger] keys@[k]@) == codeshare_spec(sorted@[k]),
            dup@.len() == a,
            forall|x: int| 0 <= x < a ==> #[trigger] dup@[x] == exists|j: int| 0 <= j < x
                && codeshare_spec(#[trigger] sorted@[j]) == codeshare_spec(sorted@[x]),
        decreases sorted@.len() - a,
    {
        let mut seen = false;
        let mut b: usize = 0;
        while b < a
            invariant
                a < sorted@.len(),
                b <= a,
                keys@.len() == sorted@.len(),
                forall|k: int| 0 <= k < sorted@.len() ==> leg_views(#[trigger] keys@[k]@) == codeshare_spec(sorted@[k]),
                seen == exists|j: int| 0 <= j < b && codeshare_spec(#[trigger] sorted@[j]) == codeshare_spec(sorted@[a as int]),
            decreases a - b,
        {
            if same_legs(&keys[b], &keys[a]) {
                seen = true;
            }
            b = b + 1;
        }
        dup.push(seen);
        a = a + 1;
    }
    dup
}

/// The offers sorted by price, then minutes on the ground, then duration (stably),
/// keeping the first offer of each set of flights: code shares of one flight collapse
/// to their cheapest listing.
pub fn _dedupe_itineraries(offers: &[Offer]) -> (r: Vec<Offer>)
    ensures
        exists|p: Seq<usize>| #[trigger] sorted_by(price_keys(offers@), p)
            && first_of_each(permuted(offers@, p), r@, |o: Offer| codeshare_spec(o)),
{
    let keys = pick_keys(offers);
    let p = sort_order(&keys);
    assert(sorted_by(price_keys(offers@), p@));
    let sorted = arrange(offers, &p);
    let dup = codeshare_dups(&sorted);
    let out = keep_first::<Seq<LegKey>>(&sorted, &dup, Ghost(|o: Offer| codeshare_spec(o)));
    proof {
        let f = |o: Offer| codeshare_spec(o);
        assert forall|x: Offer, y: Offer| same_offer(x, y) implies f(x) == f(y) by {
            assert(x.segments@ == y.segments@);
        }
        assert(same_offers(permuted(offers@, p@), sorted@));
        lemma_first_of_each_same(sorted@, permuted(offers@, p@), out@, f);
    }
    out
}

/// See [`_dedupe_itineraries`].
pub fn take_dedupe_itineraries(ordered: Vec<Offer>) -> (r: Vec<Offer>)
    ensures
        exists|p: Seq<usize>| #[trigger] sorted_by(price_keys(ordered@), p)
            && first_of_each(permuted(ordered@, p), r@, |o: Offer| codeshare_spec(o)),
{
    _dedupe_itineraries(ordered.as_slice())
}

/// Price alone as a sort key (a trillion dollars for an offer without one).
pub open spec fn price_only_keys(offers: Seq<Offer>) -> Seq<Seq<i64>> {
    offers.map_values(|o: Offer| seq![price_or_big(o.price)])
}

/// What makes two listings the same: source, first flight, price, and each flight's
/// origin, destination and number.
pub type ListingKey = (Seq<char>, Seq<char>, Option<i64>, Seq<(Seq<char>, Seq<char>, Seq<char>)>);

pub open spec fn listing_key(o: Offer) -> ListingKey {
    (o.source@, o.first_flight@, o.price, o.segments@.map_values(|s: Segment| (s.origin@, s.dest@, s.flight_number@)))
}

fn price_only_keys_of(offers: &[Offer]) -> (r: Vec<Vec<i64>>)
    ensures
        r@.len() == offers@.len(),
        key_views(r@) == price_only_keys(offers@),
{
    let mut v: Vec<Vec<i64>> = Vec::new();
    let mut i: usize = 0;
    while i < offers.len()
        invariant
            i <= offers@.len(),
            v@.len() == i,
            forall|k: int| 0 <= k < i ==> (#[trigger] v@[k])@ == seq![price_or_big(offers@[k].price)],
        decreases offers@.len() - i,
    {
        let p: i64 = match offers[i].price { Some(x) => x, None => 100_000_000_000_000 };
        let mut k: Vec<i64> = Vec::new();
        k.push(p);
        assert(k@ =~= seq![price_or_big(offers@[i as int].price)]);
        v.push(k);
        i = i + 1;
    }
    assert(key_views(v@) =~= price_only_keys(offers@));
    v
}

fn same_listing(a: &Offer, b: &Offer) -> (r: bool)
    ensures
        r == (listing_key(*a) == listing_key(*b)),
{
    let ghost ga = a.segments@.map_values(|s: Segment| (s.origin@, s.dest@, s.flight_number@));
    let ghost gb = b.segments@.map_values(|s: Segment| (s.origin@, s.dest@, s.flight_number@));
    if !str_eq(a.source.as_str(), b.source.as_str()) || !str_eq(a.first_flight.as_str(), b.first_flight.as_str())
        || a.price != b.price || a.segments.len() != b.segments.len() {
        assert(ga.len() == a.segments@.len());
        return false;
    }
    let mut i: usize = 0;
    while i < a.segments.len()
        invariant
            a.segments@.len() == b.segments@.len(),
            i <= a.segments@.len(),
            ga == a.segments@.map_values(|s: Segment| (s.origin@, s.dest@, s.flight_number@)),
            gb == b.segments@.map_values(|s: Segment| (s.origin@, s.dest@, s.flight_number@)),
            forall|k: int| 0 <= k < i ==> ga[k] == gb[k],
        decreases a.segments@.len() - i,
    {
        let x = &a.segments[i];
        let y = &b.segments[i];
        if !(str_eq(x.origin.as_str(), y.origin.as_str()) && str_eq(x.dest.as_str(), y.dest.as_str())
            && str_eq(x.flight_number.as_str(), y.flight_number.as_str())) {
            assert(ga[i as int] != gb[i as int]);
            return false;
        }
        i = i + 1;
    }
    assert(ga =~= gb);
    true
}

/// Which offers repeat the listing of an earlier one.
fn listing_dups(sorted: &Vec<Offer>) -> (r: Vec<bool>)
    ensures
        r@.len() == sorted@.len(),
        forall|i: int| 0 <= i < sorted@.len() ==> #[trigger] r@[i] == exists|j: int| 0 <= j < i
            && listing_key(#[trigger] sorted@[j]) == listing_key(sorted@[i]),
{
    let mut dup: Vec<bool> = Vec::new();
    let mut a: usize = 0;
    while a < sorted.len()
        invariant
            a <= sorted@.len(),
            dup@.len() == a,
            forall|x: int| 0 <= x < a ==> #[trigger] dup@[x] == exists|j: int| 0 <= j < x
                && listing_key(#[trigger] sorted@[j]) == listing_key(sorted@[x]),
        decreases sorted@.len() - a,
    {
        let mut seen = false;
        let mut b: usize = 0;
        while b < a
            invariant
                a < sorted@.len(),
                b <= a,
                seen == exists|j: int| 0 <= j < b && listing_key(#[trigger] sorted@[j]) == listing_key(sorted@[a as int]),
            decreases a - b,
        {
            if same_listing(&sorted[b], &sorted[a]) {
                seen = true;
            }
            b = b + 1;
        }
        dup.push(seen);
        a = a + 1;
    }
    dup
}

/// `out` is `src` sorted by price (stably), keeping the first of each listing.
pub open spec fn deduped(src: Seq<Offer>, out: Seq<Offer>) -> bool {
    exists|p: Seq<usize>| #[trigger] sorted_by(price_only_keys(src), p)
        && first_of_each(permuted(src, p), out, |o: Offer| listing_key(o))
}

/// The offers sorted by price (stably), keeping the first of each listing.
pub fn _dedupe(offers: &[Offer]) -> (r: Vec<Offer>)
    ensures
        exists|p: Seq<usize>| #[trigger] sorted_by(price_only_keys(offers@), p)
            && first_of_each(permuted(offers@, p), r@, |o: Offer| listing_key(o)),
        deduped(offers@, r@),
{
    let keys = price_only_keys_of(offers);
    let p = sort_order(&keys);
    assert(sorted_by(price_only_keys(offers@), p@));
    let sorted = arrange(offers, &p);
    let dup = listing_dups(&sorted);
    let out = keep_first::<ListingKey>(&sorted, &dup, Ghost(|o: Offer| listing_key(o)));
    proof {
        let f = |o: Offer| listing_key(o);
        assert forall|x: Offer, y: Offer| same_offer(x, y) implies f(x) == f(y) by {
            assert(x.segments@ == y.segments@);
        }
        assert(same_offers(permuted(offers@, p@), sorted@));
        lemma_first_of_each_same(sorted@, permuted(offers@, p@), out@, f);
    }
    out
}

/// See [`_dedupe`].
pub fn take_dedupe(ordered: Vec<Offer>) -> (r: Vec<Offer>)
    ensures
        exists|p: Seq<usize>| #[trigger] sorted_by(price_only_keys(ordered@), p)
            && first_of_each(permuted(ordered@, p), r@, |o: Offer| listing_key(o)),
{
    _dedupe(ordered.as_slice())
}

} // verus!
