//! What the offer index records of a priced offer, and how it files an offer for a
//! search.
use vstd::prelude::*;
use crate::models::{Offer, cents_ok};
use crate::text::{to_upper, upper};
use crate::hidden::{
    Intended, views, code_set, contains_string, ticketed, ticketed_destination, hidden_exit, detect_hidden_city,
    standard_to, is_standard_to, fingerprint_of, fingerprint_ok, itinerary_fingerprint, clamp,
};

verus! {

/// What the index keeps of a priced offer (price in cents).
pub struct ObservationMeta {
    pub origin: String,
    pub ticketed: String,
    pub connections: Vec<String>,
    pub fingerprint: String,
    pub price: i64,
    pub currency: String,
    pub source: String,
}

/// The last index of the outbound part: `outbound_end` when given, else the last
/// segment, kept within the segments.
pub open spec fn outbound_last(o: Offer) -> int {
    let n = o.segments@.len() as int;
    clamp(match o.outbound_end { Some(e) => e as int, None => ((n - 1) as i32) as int }, 0, n - 1)
}

/// `m` records `o`: its origin and ticketed airport (upper-cased), the airports it
/// connects through on the way out, its fingerprint, price, currency and source.
pub open spec fn meta_of(o: Offer, m: ObservationMeta) -> bool {
    let k = outbound_last(o);
    &&& m.origin@ == to_upper(o.segments@[0].origin@)
    &&& m.ticketed@ == ticketed(o)
    &&& m.connections@.len() == k
    &&& forall|i: int| 0 <= i < k ==> (#[trigger] m.connections@[i])@ == to_upper(o.segments@[i].dest@)
    &&& m.fingerprint@ == fingerprint_of(o.segments@)
    &&& Some(m.price) == o.price
    &&& m.currency == o.currency
    &&& m.source == o.source
}

/// The record of a priced offer with flights; none otherwise.
pub fn observation_meta(offer: &Offer) -> (r: Option<ObservationMeta>)
    requires
        fingerprint_ok(*offer),
    ensures
        r is Some <==> (offer.segments@.len() > 0 && offer.price is Some),
        r matches Some(m) ==> meta_of(*offer, m),
{
    let n = offer.segments.len();
    if n == 0 {
        return None;
    }
    let price = match offer.price {
        Some(p) => p,
        None => return None,
    };
    let ticketed = ticketed_destination(offer);
    let end: i32 = match offer.outbound_end {
        Some(e) => e,
        None => (n - 1) as i32,
    };
    let last: usize = if end < 0 { 0 } else if (end as usize) > n - 1 { n - 1 } else { end as usize };
    assert(last as int == outbound_last(*offer));
    let mut connections: Vec<String> = Vec::new();
    let mut i: usize = 0;
    while i < last
        invariant
            last < n,
            n == offer.segments@.len(),
            i <= last,
            connections@.len() == i,
            forall|k: int| 0 <= k < i ==> (#[trigger] connections@[k])@ == to_upper(offer.segments@[k].dest@),
        decreases last - i,
    {
        connections.push(upper(offer.segments[i].dest.as_str()));
        i = i + 1;
    }
    Some(ObservationMeta {
        origin: upper(offer.segments[0].origin.as_str()),
        ticketed,
        connections,
        fingerprint: itinerary_fingerprint(offer),
        price,
        currency: offer.currency.clone(),
        source: offer.source.clone(),
    })
}

/// How an offer files for a search from `origins` to the intended places.
pub enum SearchClass {
    Standard,
    HiddenCity,
}

/// An offer leaving from one of the origins files as standard when sold to an
/// intended place, else as hidden city when it stops at one; otherwise it does not file.
pub open spec fn class_of<I: Intended>(o: Offer, origins: Seq<String>, intended: &I) -> Option<SearchClass> {
    if o.segments@.len() == 0 {
        None
    } else if !upper_all(origins).contains(to_upper(o.segments@[0].origin@)) {
        None
    } else if standard_to(o, intended) {
        Some(SearchClass::Standard)
    } else if hidden_exit(o, intended) is Some {
        Some(SearchClass::HiddenCity)
    } else {
        None
    }
}

/// The upper-cased codes of a list.
pub open spec fn upper_all(v: Seq<String>) -> Set<Seq<char>> {
    Set::new(|c: Seq<char>| exists|i: int| 0 <= i < v.len() && c == to_upper(#[trigger] v[i]@))
}

/// Whether a list's upper-cased codes include `c`.
pub(crate) fn in_upper(v: &Vec<String>, c: &String) -> (r: bool)
    ensures
        r == upper_all(v@).contains(c@),
{
    let mut i: usize = 0;
    while i < v.len()
        invariant
            i <= v@.len(),
            forall|k: int| 0 <= k < i ==> to_upper(#[trigger] v@[k]@) != c@,
        decreases v@.len() - i,
    {
        let u = upper(v[i].as_str());
        if u == *c {
            return true;
        }
        i = i + 1;
    }
    false
}

/// See [`class_of`].
pub fn classify_for_search<I: Intended>(offer: &Offer, origins: &Vec<String>, intended: &I) -> (r: Option<SearchClass>)
    ensures
        r == class_of(*offer, origins@, intended),
{
    if offer.segments.len() == 0 {
        return None;
    }
    let o = upper(offer.segments[0].origin.as_str());
    if !in_upper(origins, &o) {
        return None;
    }
    if is_standard_to(offer, intended) {
        return Some(SearchClass::Standard);
    }
    if detect_hidden_city(offer, intended).is_some() {
        return Some(SearchClass::HiddenCity);
    }
    None
}

/// The ticketed airports of the hidden-city tickets among `offers`: each once, in the
/// order first met.
pub open spec fn covered_codes<I: Intended>(offers: Seq<Offer>, intended: &I) -> Set<Seq<char>> {
    Set::new(|c: Seq<char>| exists|i: int| 0 <= i < offers.len() && hidden_exit(#[trigger] offers[i], intended) is Some
        && ticketed(offers[i]) == c)
}

pub fn ticketed_dests_through<I: Intended>(offers: &[Offer], intended: &I) -> (r: Vec<String>)
    ensures
        code_set(r@) == covered_codes(offers@, intended),
        views(r@).no_duplicates(),
{
    let mut covered: Vec<String> = Vec::new();
    let mut i: usize = 0;
    while i < offers.len()
        invariant
            i <= offers@.len(),
            code_set(covered@) == covered_codes(offers@.subrange(0, i as int), intended),
            views(covered@).no_duplicates(),
        decreases offers@.len() - i,
    {
        let ghost pre = offers@.subrange(0, i as int);
        let ghost next = offers@.subrange(0, i + 1);
        let ghost before0 = covered@;
        if detect_hidden_city(&offers[i], intended).is_some() {
            let t = ticketed_destination(&offers[i]);
            if !contains_string(&covered, &t) {
                let ghost before = covered@;
                covered.push(t);
                assert(views(covered@) =~= views(before).push(t@));
                assert(views(covered@)[views(covered@).len() - 1] == t@);
            }
            assert(code_set(covered@).contains(ticketed(offers@[i as int])));
        }
        assert(forall|c: Seq<char>| code_set(before0).contains(c) ==> code_set(covered@).contains(c)) by {
            assert forall|c: Seq<char>| code_set(before0).contains(c) implies code_set(covered@).contains(c) by {
                let j = choose|j: int| 0 <= j < views(before0).len() && views(before0)[j] == c;
                assert(views(covered@)[j] == c);
            }
        }
        assert(code_set(covered@) =~= covered_codes(next, intended)) by {
            assert forall|c: Seq<char>| covered_codes(next, intended).contains(c) implies code_set(covered@).contains(c) by {
                let j = choose|j: int| 0 <= j < next.len() && hidden_exit(#[trigger] next[j], intended) is Some
                    && ticketed(next[j]) == c;
                if j < i {
                    assert(pre[j] == next[j]);
                    assert(covered_codes(pre, intended).contains(c));
                } else {
                    assert(next[j] == offers@[i as int]);
                }
            }
            assert forall|c: Seq<char>| code_set(covered@).contains(c) implies covered_codes(next, intended).contains(c) by {
                if code_set(before0).contains(c) {
                    let j = choose|j: int| 0 <= j < pre.len() && hidden_exit(#[trigger] pre[j], intended) is Some
                        && ticketed(pre[j]) == c;
                    assert(next[j] == pre[j]);
                } else {
                    assert(next[i as int] == offers@[i as int]);
                }
            }
        }
        i = i + 1;
    }
    assert(offers@.subrange(0, offers@.len() as int) =~= offers@);
    covered
}

} // verus!
