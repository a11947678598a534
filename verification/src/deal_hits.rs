//! The comparison step of the overnight deal scan: a through ticket from the origin
//! that stops at B on its way to C is a deal when it is cheaper, in US dollars, than
//! the cheapest ticket sold to B, both live fares, by at least the minimum saving;
//! one deal per (B, C) for an origin and date.
use vstd::prelude::*;
use crate::models::{Offer, HiddenCityMatch, same_offer, cents_ok};
use crate::text::{to_upper, str_eq, cat};
use crate::hidden::ticketed;
use crate::fx::{Rates, converts, usd_price, usd_form, offer_in_usd};
use crate::sandbox::{live_fare, is_live_fare};
use crate::discover::{via_list, outbound_last_index, _via_stops};
use crate::risk::{attach_risk, match_record, international};
use crate::bookers::{booker_links, booker_rows, links_ok, link_row};
use crate::links::opt_text;
use crate::models::BookerLink;

verus! {

/// A place a ticket could be left: the ticket's index, the flight index of the exit,
/// the exit airport B and the ticketed destination C.
pub type DealTry = (int, i32, Seq<char>, Seq<char>);

/// The places ticket `i` could be left, when it is priced, has two flights or more
/// and a ticketed destination.
pub open spec fn tries_of(o: Offer, i: int, origin_u: Seq<char>) -> Seq<DealTry> {
    if o.price is Some && o.segments@.len() >= 2 && ticketed(o).len() > 0 {
        via_list(o, origin_u, outbound_last_index(o)).map_values(|v: (i32, Seq<char>)| (i, v.0, v.1, ticketed(o)))
    } else {
        Seq::empty()
    }
}

/// The places the first `n` tickets could be left, ticket by ticket.
pub open spec fn scan_tries(offers: Seq<Offer>, origin_u: Seq<char>, n: int) -> Seq<DealTry>
    decreases n,
{
    if n <= 0 {
        Seq::empty()
    } else {
        scan_tries(offers, origin_u, n - 1) + tries_of(offers[n - 1], n - 1, origin_u)
    }
}

/// The first ticket listed for `b` among the cheapest tickets per destination.
pub open spec fn local_for(cheapest: Seq<(String, Offer)>, b: Seq<char>) -> Option<Offer>
    decreases cheapest.len(),
{
    if cheapest.len() == 0 {
        None
    } else if cheapest[0].0@ == b {
        Some(cheapest[0].1)
    } else {
        local_for(cheapest.drop_first(), b)
    }
}

/// Leaving ticket `o` at `b` is a deal: the cheapest ticket to `b` is priced, both
/// are live fares, both convert to US dollars with a price, and the through ticket
/// is cheaper by at least `min_saving` cents.
pub open spec fn deal_ok(rates: Rates, o: Offer, b: Seq<char>, cheapest: Seq<(String, Offer)>, min_saving: i64) -> bool {
    match local_for(cheapest, b) {
        None => false,
        Some(l) => {
            &&& l.price is Some
            &&& live_fare(o)
            &&& live_fare(l)
            &&& converts(rates, o)
            &&& converts(rates, l)
            &&& usd_price(rates, o) is Some
            &&& usd_price(rates, l) is Some
            &&& usd_price(rates, o)->0 < usd_price(rates, l)->0
            &&& usd_price(rates, l)->0 - usd_price(rates, o)->0 >= min_saving
        },
    }
}

/// Some try of `hits` is at (`b`, `c`).
pub open spec fn has_pair(hits: Seq<DealTry>, b: Seq<char>, c: Seq<char>) -> bool {
    exists|k: int| 0 <= k < hits.len() && (#[trigger] hits[k]).2 == b && hits[k].3 == c
}

/// The deals among `tries`, in order, the first of each (B, C).
pub open spec fn hits_among(rates: Rates, offers: Seq<Offer>, tries: Seq<DealTry>, cheapest: Seq<(String, Offer)>,
    min_saving: i64) -> Seq<DealTry>
    decreases tries.len(),
{
    if tries.len() == 0 {
        Seq::empty()
    } else {
        let prev = hits_among(rates, offers, tries.drop_last(), cheapest, min_saving);
        let t = tries.last();
        if deal_ok(rates, offers[t.0], t.2, cheapest, min_saving) && !has_pair(prev, t.2, t.3) {
            prev.push(t)
        } else {
            prev
        }
    }
}

/// The deals of a scan of one origin: see [`hits_among`] over [`scan_tries`].
pub open spec fn deal_hits_spec(rates: Rates, offers: Seq<Offer>, origin: Seq<char>, cheapest: Seq<(String, Offer)>,
    min_saving: i64) -> Seq<DealTry>
{
    hits_among(rates, offers, scan_tries(offers, to_upper(origin), offers.len() as int), cheapest, min_saving)
}

/// A deal found: the ticket's id, where it is left (B), where it is ticketed (C),
/// the exit flight, and both tickets restated in US dollars.
pub struct DealHit {
    pub ticket_id: String,
    pub dest_b: String,
    pub dest_c: String,
    pub exit_index: i32,
    pub through: Offer,
    pub local: Offer,
}

/// `h` is the deal `t` of `offers`.
pub open spec fn hit_is(rates: Rates, offers: Seq<Offer>, cheapest: Seq<(String, Offer)>, t: DealTry, h: DealHit) -> bool {
    &&& h.ticket_id@ == offers[t.0].id@
    &&& h.exit_index == t.1
    &&& h.dest_b@ == t.2
    &&& h.dest_c@ == t.3
    &&& usd_form(rates, offers[t.0], h.through)
    &&& h.through.price == usd_price(rates, offers[t.0])
    &&& usd_form(rates, local_for(cheapest, t.2)->0, h.local)
    &&& h.local.price == usd_price(rates, local_for(cheapest, t.2)->0)
}

fn local_index(cheapest: &Vec<(String, Offer)>, b: &str) -> (r: Option<usize>)
    ensures
        match r {
            None => local_for(cheapest@, b@) is None,
            Some(i) => i < cheapest@.len() && local_for(cheapest@, b@) == Some(cheapest@[i as int].1),
        },
{
    let mut i: usize = 0;
    assert(cheapest@.subrange(0, cheapest@.len() as int) =~= cheapest@);
    while i < cheapest.len()
        invariant
            i <= cheapest@.len(),
            local_for(cheapest@, b@) == local_for(cheapest@.subrange(i as int, cheapest@.len() as int), b@),
        decreases cheapest@.len() - i,
    {
        let ghost rest = cheapest@.subrange(i as int, cheapest@.len() as int);
        assert(rest.drop_first() =~= cheapest@.subrange(i + 1, cheapest@.len() as int));
        if str_eq(cheapest[i].0.as_str(), b) {
            assert(rest[0] == cheapest@[i as int]);
            return Some(i);
        }
        i = i + 1;
    }
    assert(cheapest@.subrange(i as int, cheapest@.len() as int).len() == 0);
    None
}

fn pair_seen(hits: &Vec<DealHit>, b: &str, c: &str, Ghost(ts): Ghost<Seq<DealTry>>) -> (r: bool)
    requires
        ts.len() == hits@.len(),
        forall|k: int| 0 <= k < ts.len() ==> (#[trigger] hits@[k]).dest_b@ == ts[k].2 && hits@[k].dest_c@ == ts[k].3,
    ensures
        r == has_pair(ts, b@, c@),
{
    let mut k: usize = 0;
    while k < hits.len()
        invariant
            k <= hits@.len(),
            ts.len() == hits@.len(),
            forall|m: int| 0 <= m < ts.len() ==> (#[trigger] hits@[m]).dest_b@ == ts[m].2 && hits@[m].dest_c@ == ts[m].3,
            forall|m: int| 0 <= m < k ==> !((#[trigger] ts[m]).2 == b@ && ts[m].3 == c@),
        decreases hits@.len() - k,
    {
        if str_eq(hits[k].dest_b.as_str(), b) && str_eq(hits[k].dest_c.as_str(), c) {
            assert(ts[k as int].2 == b@ && ts[k as int].3 == c@);
            return true;
        }
        k = k + 1;
    }
    false
}

/// The deal of leaving `offer` at `b`, when it is one (see [`deal_ok`]).
fn try_deal(rates: &Rates, offer: &Offer, b: &str, cheapest: &Vec<(String, Offer)>, min_saving: i64)
    -> (r: Option<(Offer, Offer)>)
    ensures
        r is Some <==> deal_ok(*rates, *offer, b@, cheapest@, min_saving),
        r matches Some(p) ==> {
            &&& usd_form(*rates, *offer, p.0)
            &&& p.0.price == usd_price(*rates, *offer)
            &&& usd_form(*rates, local_for(cheapest@, b@)->0, p.1)
            &&& p.1.price == usd_price(*rates, local_for(cheapest@, b@)->0)
        },
{
    let li = match local_index(cheapest, b) {
        Some(i) => i,
        None => return None,
    };
    let local = &cheapest[li].1;
    if local.price.is_none() || !is_live_fare(offer) || !is_live_fare(local) {
        return None;
    }
    let t = match offer_in_usd(rates, offer) {
        Some(t) => t,
        None => return None,
    };
    let l = match offer_in_usd(rates, local) {
        Some(l) => l,
        None => return None,
    };
    match (t.price, l.price) {
        (Some(tp), Some(lp)) => {
            if tp < lp && (lp as i128) - (tp as i128) >= min_saving as i128 {
                Some((t, l))
            } else {
                None
            }
        },
        _ => None,
    }
}

/// The deals of a scan of one origin, exactly [`deal_hits_spec`]: each through
/// ticket (priced, two flights or more, with a ticketed destination C) at each
/// stop B where it could be left, when [`deal_ok`] holds, the first of each (B, C).
pub fn scan_hits(rates: &Rates, origin: &str, offers: &[Offer], cheapest_b: &Vec<(String, Offer)>, min_saving: i64)
    -> (r: Vec<DealHit>)
    requires
        forall|i: int| 0 <= i < offers@.len() ==> (#[trigger] offers@[i]).segments@.len() <= i32::MAX,
    ensures
        r@.len() == deal_hits_spec(*rates, offers@, origin@, cheapest_b@, min_saving).len(),
        forall|k: int| 0 <= k < r@.len() ==> hit_is(*rates, offers@, cheapest_b@,
            deal_hits_spec(*rates, offers@, origin@, cheapest_b@, min_saving)[k], #[trigger] r@[k]),
{
    let ghost ou = to_upper(origin@);
    let ghost tries = scan_tries(offers@, ou, offers@.len() as int);
    let mut hits: Vec<DealHit> = Vec::new();
    let ghost mut ts: Seq<DealTry> = Seq::empty();
    let mut i: usize = 0;
    while i < offers.len()
        invariant
            i <= offers@.len(),
            ou == to_upper(origin@),
            forall|m: int| 0 <= m < offers@.len() ==> (#[trigger] offers@[m]).segments@.len() <= i32::MAX,
            ts == hits_among(*rates, offers@, scan_tries(offers@, ou, i as int), cheapest_b@, min_saving),
            ts.len() == hits@.len(),
            forall|k: int| 0 <= k < ts.len() ==> hit_is(*rates, offers@, cheapest_b@, ts[k], #[trigger] hits@[k]),
        decreases offers@.len() - i,
    {
        let o = &offers[i];
        let ghost before = scan_tries(offers@, ou, i as int);
        let ghost more = tries_of(offers@[i as int], i as int, ou);
        assert(scan_tries(offers@, ou, i + 1) == before + more);
        if o.price.is_some() && o.segments.len() >= 2 {
            let (c, vias) = _via_stops(o, origin);
            if !c.as_str().is_empty() {
                proof {
                    assert(c@.len() > 0);
                }
                let ghost vv = vias@.map_values(|p: (i32, String)| (p.0, p.1@));
                assert(more == vv.map_values(|v: (i32, Seq<char>)| (i as int, v.0, v.1, ticketed(offers@[i as int]))));
                let mut j: usize = 0;
                while j < vias.len()
                    invariant
                        i < offers@.len(),
                        o == offers@[i as int],
                        j <= vias@.len(),
                        c@ == ticketed(*o),
                        vv == vias@.map_values(|p: (i32, String)| (p.0, p.1@)),
                        more == vv.map_values(|v: (i32, Seq<char>)| (i as int, v.0, v.1, ticketed(offers@[i as int]))),
                        ts == hits_among(*rates, offers@, before + more.subrange(0, j as int), cheapest_b@, min_saving),
                        ts.len() == hits@.len(),
                        forall|k: int| 0 <= k < ts.len() ==> hit_is(*rates, offers@, cheapest_b@, ts[k], #[trigger] hits@[k]),
                    decreases vias@.len() - j,
                {
                    let ghost t: DealTry = (i as int, vias@[j as int].0, vias@[j as int].1@, c@);
                    assert(more[j as int] == t);
                    assert((before + more.subrange(0, j + 1)).drop_last() =~= before + more.subrange(0, j as int));
                    assert((before + more.subrange(0, j + 1)).last() == t);
                    let b = vias[j].1.as_str();
                    let seen = pair_seen(&hits, b, c.as_str(), Ghost(ts));
                    if !seen {
                        match try_deal(rates, o, b, cheapest_b, min_saving) {
                            Some((through, local)) => {
                                hits.push(DealHit {
                                    ticket_id: o.id.clone(),
                                    dest_b: vias[j].1.clone(),
                                    dest_c: c.clone(),
                                    exit_index: vias[j].0,
                                    through,
                                    local,
                                });
                                proof {
                                    ts = ts.push(t);
                                }
                            },
                            None => {},
                        }
                    }
                    j = j + 1;
                }
                assert(more.subrange(0, j as int) =~= more);
            } else {
                assert(more =~= Seq::<DealTry>::empty());
                assert(before + more =~= before);
            }
        } else {
            assert(more =~= Seq::<DealTry>::empty());
            assert(before + more =~= before);
        }
        i = i + 1;
    }
    hits
}

/// The id of a deal: `disc-{origin}-{B}-{C}-{ticket id}`.
pub open spec fn deal_id(origin: Seq<char>, h: DealHit) -> Seq<char> {
    "disc-"@ + origin + "-"@ + h.dest_b@ + "-"@ + h.dest_c@ + "-"@ + h.ticket_id@
}

/// The deal record of a hit: its id (see [`deal_id`]); the hidden city C, named
/// "{city of C} ({C})"; the tickets, saving and risk as [`match_record`] states them
/// for the origin's and C's countries; and the booking links of a one-adult economy
/// search in US dollars from the origin to C on `date`.
pub fn deal_match(hit: &DealHit, origin: &str, date: &str, origin_country: &str, c_city: &str, c_country: &str)
    -> (r: HiddenCityMatch)
    requires
        cents_ok(hit.local.price),
        cents_ok(hit.through.price),
        links_ok(date@, Seq::empty()),
    ensures
        same_offer(r.local_offer, hit.local),
        same_offer(r.through_offer, hit.through),
        exists|m: HiddenCityMatch| #[trigger] match_record(m, deal_id(origin@, *hit), hit.dest_c@,
            c_city@ + " ("@ + hit.dest_c@ + ")"@, hit.dest_b@, international(origin_country@, c_country@), hit.exit_index)
            && r == (HiddenCityMatch { bookers: r.bookers, ..m }),
        r.bookers@.map_values(|b: BookerLink| link_row(b))
            == booker_rows(origin@, hit.dest_c@, date@, 1, Seq::empty(), "USD"@, "ECONOMY"@, None),
{
    let a = cat("disc-", origin);
    let a = cat(a.as_str(), "-");
    let a = cat(a.as_str(), hit.dest_b.as_str());
    let a = cat(a.as_str(), "-");
    let a = cat(a.as_str(), hit.dest_c.as_str());
    let a = cat(a.as_str(), "-");
    let id = cat(a.as_str(), hit.ticket_id.as_str());
    let n = cat(c_city, " (");
    let n = cat(n.as_str(), hit.dest_c.as_str());
    let name = cat(n.as_str(), ")");
    proof {
        reveal_strlit("disc-");
        reveal_strlit("-");
        reveal_strlit(" (");
        reveal_strlit(")");
        assert(id@ =~= deal_id(origin@, *hit));
        assert(name@ =~= c_city@ + " ("@ + hit.dest_c@ + ")"@);
    }
    let mut m = attach_risk(id.as_str(), hit.dest_c.as_str(), name.as_str(), &hit.local, &hit.through,
        hit.dest_b.as_str(), origin_country, c_country, hit.exit_index);
    let ghost m0 = m;
    let no_airlines: Vec<(String, String)> = Vec::new();
    let links = booker_links(origin, hit.dest_c.as_str(), date, 1, no_airlines.as_slice(), "USD", "ECONOMY", None);
    proof {
        assert(no_airlines@.map_values(|p: (String, String)| (p.0@, p.1@)) =~= Seq::<(Seq<char>, Seq<char>)>::empty());
        assert(opt_text(None) == None::<Seq<char>>);
    }
    m.bookers = links;
    assert(m == (HiddenCityMatch { bookers: m.bookers, ..m0 }));
    m
}

proof fn lemma_hits_among(rates: Rates, offers: Seq<Offer>, tries: Seq<DealTry>, cheapest: Seq<(String, Offer)>,
    min_saving: i64)
    ensures
        ({
            let h = hits_among(rates, offers, tries, cheapest, min_saving);
            &&& forall|a: int, b: int| 0 <= a < b < h.len() ==> !((#[trigger] h[a]).2 == (#[trigger] h[b]).2 && h[a].3 == h[b].3)
            &&& forall|k: int| 0 <= k < h.len() ==> deal_ok(rates, offers[(#[trigger] h[k]).0], h[k].2, cheapest, min_saving)
        }),
    decreases tries.len(),
{
    if tries.len() > 0 {
        lemma_hits_among(rates, offers, tries.drop_last(), cheapest, min_saving);
        let prev = hits_among(rates, offers, tries.drop_last(), cheapest, min_saving);
        let h = hits_among(rates, offers, tries, cheapest, min_saving);
        if h.len() > prev.len() {
            assert forall|a: int, b: int| 0 <= a < b < h.len() implies !((#[trigger] h[a]).2 == (#[trigger] h[b]).2 && h[a].3 == h[b].3) by {
                if b == h.len() - 1 {
                    assert(h[a] == prev[a]);
                    if h[a].2 == h[b].2 && h[a].3 == h[b].3 {
                        assert(has_pair(prev, h[b].2, h[b].3));
                    }
                } else {
                    assert(h[a] == prev[a] && h[b] == prev[b]);
                }
            }
            assert forall|k: int| 0 <= k < h.len() implies deal_ok(rates, offers[(#[trigger] h[k]).0], h[k].2, cheapest, min_saving) by {
                if k < prev.len() {
                    assert(h[k] == prev[k]);
                }
            }
        }
    }
}

/// The deals of a scan name each (B, C) once, and each saves at least the minimum
/// in US dollars over a live local fare.
pub proof fn law_deal_hits_once_and_saving(rates: Rates, offers: Seq<Offer>, origin: Seq<char>,
    cheapest: Seq<(String, Offer)>, min_saving: i64, a: int, b: int)
    requires
        0 <= a < b < deal_hits_spec(rates, offers, origin, cheapest, min_saving).len(),
    ensures
        ({
            let h = deal_hits_spec(rates, offers, origin, cheapest, min_saving);
            &&& !(h[a].2 == h[b].2 && h[a].3 == h[b].3)
            &&& deal_ok(rates, offers[h[a].0], h[a].2, cheapest, min_saving)
            &&& usd_price(rates, local_for(cheapest, h[a].2)->0)->0 - usd_price(rates, offers[h[a].0])->0 >= min_saving
        }),
{
    lemma_hits_among(rates, offers, scan_tries(offers, to_upper(origin), offers.len() as int), cheapest, min_saving);
    let h = deal_hits_spec(rates, offers, origin, cheapest, min_saving);
    assert(deal_ok(rates, offers[h[a].0], h[a].2, cheapest, min_saving));
}

} // verus!
