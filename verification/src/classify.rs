//! Sorting shopped through tickets into hidden-city matches and rejections.
use vstd::prelude::*;
use crate::models::{Offer, Airport, HiddenCityMatch, HonestPick, cents_ok, same_offer, same_match};
use crate::sandbox::{test_carrier, is_test_carrier};
use crate::order::{sorted_by, is_perm, sort_order};
use crate::picks::{price_or_big, key_views};
use crate::dedupe::{codeshare_spec, codeshare_key, leg_views, same_legs};
use crate::text::{to_upper, eq_ignore_case, eq_ignore_ascii_case, cat, str_eq};
use crate::hidden::{
    Intended, ticketed, ticketed_destination, hidden_exit, standard_to, is_standard_to,
    detect_hidden_city, hidden_city_savings, meaningful_saving, same_routing, lemma_same_routing,
};
use crate::fx::{Rates, usd, usd_price, usd_form, offer_in_usd};
use crate::risk::{attach_risk, match_record, international};

verus! {

/// An offer's price in US cents as classification reads it: the price itself when the
/// offer is in US dollars (any letter case), else its converted price.
pub open spec fn usd_amount(rates: Rates, o: Offer) -> Option<i64> {
    if eq_ignore_case(o.currency@, usd()) {
        o.price
    } else {
        usd_price(rates, o)
    }
}

/// The honest local fare in US cents: the price itself when it is in US dollars,
/// else the converted price.
pub open spec fn local_amount(rates: Rates, local: Offer) -> Option<i64> {
    if eq_ignore_case(local.currency@, usd()) && local.price is Some {
        local.price
    } else {
        usd_price(rates, local)
    }
}

/// `c` is the honest local offer in US dollars.
pub open spec fn local_form(rates: Rates, local: Offer, c: Offer) -> bool {
    if eq_ignore_case(local.currency@, usd()) && local.price is Some {
        same_offer(c, local)
    } else {
        usd_form(rates, local, c)
    }
}

/// `t` is the offer `o` in US dollars, marked as a hidden-city ticket.
pub open spec fn through_form(rates: Rates, o: Offer, t: Offer) -> bool {
    &&& t.kind@ == "hidden-city"@
    &&& if eq_ignore_case(o.currency@, usd()) {
        same_offer(Offer { kind: o.kind, ..t }, o)
    } else {
        usd_form(rates, o, Offer { kind: o.kind, ..t })
    }
}

/// The message for a rejected offer, if `o` is rejected. Unpriced offers and
/// tickets sold to the intended place are passed over without one.
pub open spec fn rejection<I: Intended>(rates: Rates, o: Offer, intended: &I, local_price: i64, floor: i64) -> Option<Seq<char>> {
    if o.price is None {
        None
    } else if usd_amount(rates, o) is None {
        Some(o.id@ + ": FX unverified ("@ + (if o.currency@.len() == 0 { "unknown"@ } else { o.currency@ }) + ")"@)
    } else if standard_to(o, intended) {
        None
    } else if hidden_exit(o, intended) is None {
        Some(o.id@ + ": does not pass through intended destination"@)
    } else if local_price - usd_amount(rates, o)->0 < floor {
        Some(o.id@ + ": saving below floor"@)
    } else {
        None
    }
}

/// A priced, convertible hidden-city ticket whose saving reaches the floor.
pub open spec fn is_hit<I: Intended>(rates: Rates, o: Offer, intended: &I, local_price: i64, floor: i64) -> bool {
    &&& o.price is Some
    &&& usd_amount(rates, o) is Some
    &&& !standard_to(o, intended)
    &&& hidden_exit(o, intended) is Some
    &&& local_price - usd_amount(rates, o)->0 >= floor
}

/// The rejection messages for a list of offers, in order.
pub open spec fn rejections<I: Intended>(rates: Rates, offers: Seq<Offer>, intended: &I, local_price: i64, floor: i64) -> Seq<Seq<char>>
    decreases offers.len(),
{
    if offers.len() == 0 {
        Seq::empty()
    } else {
        rejections(rates, offers.drop_last(), intended, local_price, floor) + match rejection(rates, offers.last(), intended, local_price, floor) {
            Some(m) => seq![m],
            None => Seq::empty(),
        }
    }
}

/// The offers of a list that become matches, in order.
pub open spec fn hits<I: Intended>(rates: Rates, offers: Seq<Offer>, intended: &I, local_price: i64, floor: i64) -> Seq<Offer>
    decreases offers.len(),
{
    if offers.len() == 0 {
        Seq::empty()
    } else if is_hit(rates, offers.last(), intended, local_price, floor) {
        hits(rates, offers.drop_last(), intended, local_price, floor).push(offers.last())
    } else {
        hits(rates, offers.drop_last(), intended, local_price, floor)
    }
}

/// `m` is the match record for the hidden-city ticket `o` against `local`; the trip
/// is not counted as crossing a border (the ticketed country is not looked up here).
pub open spec fn match_for<I: Intended>(rates: Rates, o: Offer, intended: &I, local: Offer, m: HiddenCityMatch) -> bool {
    let i = hidden_exit(o, intended)->0;
    let exit = to_upper(o.segments@[i].dest@);
    &&& local_form(rates, local, m.local_offer)
    &&& through_form(rates, o, m.through_offer)
    &&& match_record(m, "hc-"@ + o.id@ + "-"@ + exit, ticketed(o), ticketed(o), exit, false, i as i32)
}

/// The message given when the honest fare cannot be restated in US dollars.
pub open spec fn local_fx_message() -> Seq<char> {
    "honest fare FX unverified (could not convert to USD)"@
}

/// The outcome of classifying `offers` against the honest fare `local`.
pub open spec fn classified<I: Intended>(
    rates: Rates,
    offers: Seq<Offer>,
    intended: &I,
    local: Offer,
    floor: i64,
    ms: Seq<HiddenCityMatch>,
    msgs: Seq<Seq<char>>,
) -> bool {
    match local_amount(rates, local) {
        None => ms.len() == 0 && msgs == seq![local_fx_message()],
        Some(lp) => {
            &&& msgs == rejections(rates, offers, intended, lp, floor)
            &&& ms.len() == hits(rates, offers, intended, lp, floor).len()
            &&& forall|k: int| 0 <= k < ms.len() ==> #[trigger] match_for(rates, hits(rates, offers, intended, lp, floor)[k], intended, local, ms[k])
        },
    }
}

/// The characters of each message.
pub open spec fn texts(v: Seq<String>) -> Seq<Seq<char>> {
    v.map_values(|s: String| s@)
}

/// One offer: a match, a rejection message, or neither.
fn classify_one<I: Intended>(
    rates: &Rates,
    offer: &Offer,
    intended: &I,
    local_c: &Offer,
    lp: i64,
    floor: i64,
    origin_country: &str,
) -> (r: (Option<HiddenCityMatch>, Option<String>))
    requires
        local_c.price == Some(lp),
        cents_ok(Some(lp)),
        cents_ok(usd_amount(*rates, *offer)),
    ensures
        r.0 is Some <==> is_hit(*rates, *offer, intended, lp, floor),
        r.0 matches Some(m) ==> ({
            let i = hidden_exit(*offer, intended)->0;
            let exit = to_upper(offer.segments@[i].dest@);
            &&& same_offer(m.local_offer, *local_c)
            &&& through_form(*rates, *offer, m.through_offer)
            &&& match_record(m, "hc-"@ + offer.id@ + "-"@ + exit, ticketed(*offer), ticketed(*offer), exit, false, i as i32)
        }),
        r.1 is Some <==> rejection(*rates, *offer, intended, lp, floor) is Some,
        r.1 matches Some(s) ==> rejection(*rates, *offer, intended, lp, floor) == Some(s@),
{
    if offer.price.is_none() {
        return (None, None);
    }
    proof {
        reveal_strlit("USD");
        assert("USD"@ =~= usd());
        reveal_strlit(": FX unverified (");
        reveal_strlit("unknown");
        reveal_strlit(")");
        reveal_strlit(": does not pass through intended destination");
        reveal_strlit(": saving below floor");
        reveal_strlit("hidden-city");
        reveal_strlit("hc-");
        reveal_strlit("-");
        reveal_strlit("");
    }
    let conv: Offer = if eq_ignore_ascii_case(offer.currency.as_str(), "USD") {
        offer.clone()
    } else {
        match offer_in_usd(rates, offer) {
            Some(o) => {
                if o.price.is_some() {
                    o
                } else {
                    let cur = if offer.currency.as_str().is_empty() { "unknown" } else { offer.currency.as_str() };
                    let m = cat(cat(cat(offer.id.as_str(), ": FX unverified (").as_str(), cur).as_str(), ")");
                    return (None, Some(m));
                }
            },
            None => {
                let cur = if offer.currency.as_str().is_empty() { "unknown" } else { offer.currency.as_str() };
                let m = cat(cat(cat(offer.id.as_str(), ": FX unverified (").as_str(), cur).as_str(), ")");
                return (None, Some(m));
            },
        }
    };
    assert(same_routing(conv, *offer));
    proof {
        lemma_same_routing(conv, *offer, intended);
    }
    assert(conv.price == usd_amount(*rates, *offer));
    if is_standard_to(&conv, intended) {
        return (None, None);
    }
    let hit = match detect_hidden_city(&conv, intended) {
        Some(h) => h,
        None => {
            let m = cat(offer.id.as_str(), ": does not pass through intended destination");
            return (None, Some(m));
        },
    };
    let saving = hidden_city_savings(local_c.price, conv.price);
    if !meaningful_saving(saving, floor) {
        let m = cat(offer.id.as_str(), ": saving below floor");
        return (None, Some(m));
    }
    let mut through = conv.clone();
    through.kind = "hidden-city".to_owned();
    assert(same_routing(through, *offer));
    proof {
        lemma_same_routing(through, *offer, intended);
    }
    let t = ticketed_destination(&through);
    assert(!international(origin_country@, ""@));
    let match_id = cat(cat(cat("hc-", through.id.as_str()).as_str(), "-").as_str(), hit.exit_airport.as_str());
    let m = attach_risk(
        match_id.as_str(),
        t.as_str(),
        t.as_str(),
        local_c,
        &through,
        hit.exit_airport.as_str(),
        origin_country,
        "",
        hit.exit_segment_index,
    );
    (Some(m), None)
}

/// Classifies shopped through tickets against the honest local fare, both in US
/// dollars: each priced ticket that converts, is not sold to the intended place,
/// leaves the traveller at an intended place and saves at least `min_saving` cents
/// becomes a match; a ticket that fails one of these (other than being unpriced or
/// sold to the intended place) leaves a rejection message. When the honest fare
/// itself cannot be restated in US dollars, nothing is classified.
pub fn classify_hidden<I: Intended>(
    rates: &Rates,
    offers: &[Offer],
    intended: &I,
    local: &Offer,
    origin_place: Option<&Airport>,
    min_saving: i64,
) -> (r: (Vec<HiddenCityMatch>, Vec<String>))
    requires
        cents_ok(local_amount(*rates, *local)),
        forall|i: int| 0 <= i < offers@.len() ==> cents_ok(usd_amount(*rates, #[trigger] offers@[i])),
    ensures
        classified(*rates, offers@, intended, *local, min_saving, r.0@, texts(r.1@)),
{
    proof {
        reveal_strlit("USD");
        assert("USD"@ =~= usd());
        reveal_strlit("honest fare FX unverified (could not convert to USD)");
    }
    let local_c: Offer = if eq_ignore_ascii_case(local.currency.as_str(), "USD") && local.price.is_some() {
        local.clone()
    } else {
        match offer_in_usd(rates, local) {
            Some(o) => {
                if o.price.is_some() {
                    o
                } else {
                    let mut msgs: Vec<String> = Vec::new();
                    msgs.push("honest fare FX unverified (could not convert to USD)".to_owned());
                    assert(texts(msgs@) =~= seq![local_fx_message()]);
                    return (Vec::new(), msgs);
                }
            },
            None => {
                let mut msgs: Vec<String> = Vec::new();
                msgs.push("honest fare FX unverified (could not convert to USD)".to_owned());
                assert(texts(msgs@) =~= seq![local_fx_message()]);
                return (Vec::new(), msgs);
            },
        }
    };
    let lp: i64 = match local_c.price {
        Some(p) => p,
        None => 0,
    };
    assert(local_amount(*rates, *local) == Some(lp));
    let origin_country: String = match origin_place {
        Some(p) => p.country.clone(),
        None => String::new(),
    };
    let mut matches: Vec<HiddenCityMatch> = Vec::new();
    let mut rejected: Vec<String> = Vec::new();
    let mut i: usize = 0;
    while i < offers.len()
        invariant
            i <= offers@.len(),
            local_c.price == Some(lp),
            local_form(*rates, *local, local_c),
            cents_ok(Some(lp)),
            forall|j: int| 0 <= j < offers@.len() ==> cents_ok(usd_amount(*rates, #[trigger] offers@[j])),
            texts(rejected@) == rejections(*rates, offers@.subrange(0, i as int), intended, lp, min_saving),
            matches@.len() == hits(*rates, offers@.subrange(0, i as int), intended, lp, min_saving).len(),
            forall|k: int| 0 <= k < matches@.len() ==> #[trigger] match_for(*rates,
                hits(*rates, offers@.subrange(0, i as int), intended, lp, min_saving)[k], intended, *local, matches@[k]),
        decreases offers@.len() - i,
    {
        let ghost pre = offers@.subrange(0, i as int);
        let ghost next = offers@.subrange(0, i + 1);
        assert(next.drop_last() =~= pre);
        assert(next.last() == offers@[i as int]);
        let (m, msg) = classify_one(rates, &offers[i], intended, &local_c, lp, min_saving, origin_country.as_str());
        let ghost before_r = rejected@;
        match msg {
            Some(s) => {
                rejected.push(s);
                assert(texts(rejected@) =~= texts(before_r).push(s@));
            },
            None => {},
        }
        let ghost before_m = matches@;
        let ghost hs = hits(*rates, pre, intended, lp, min_saving);
        match m {
            Some(x) => {
                matches.push(x);
                assert(hits(*rates, next, intended, lp, min_saving) == hs.push(offers@[i as int]));
                assert forall|k: int| 0 <= k < matches@.len() implies #[trigger] match_for(*rates,
                    hits(*rates, next, intended, lp, min_saving)[k], intended, *local, matches@[k]) by {
                    if k < before_m.len() {
                        assert(matches@[k] == before_m[k]);
                    }
                }
            },
            None => {
                assert(hits(*rates, next, intended, lp, min_saving) == hs);
            },
        }
        i = i + 1;
    }
    assert(offers@.subrange(0, offers@.len() as int) =~= offers@);
    (matches, rejected)
}

/// The US price of the honest pick, the ceiling a hidden-city match must beat.
pub open spec fn honest_ceiling(rates: Rates, honest: Option<&HonestPick>) -> Option<i64> {
    match honest {
        None => None,
        Some(h) => if h.offer.price is None { None } else { usd_price(rates, h.offer) },
    }
}

/// The through ticket of match `k` costs less than `ceiling` in US dollars.
pub open spec fn cheaper_at(rates: Rates, ms: Seq<HiddenCityMatch>, ceiling: i64, k: int) -> bool {
    usd_price(rates, ms[k].through_offer) matches Some(p) && p < ceiling
}

/// The first match whose through ticket, in US dollars, is cheaper than the honest
/// pick; none without an honest price in US dollars.
pub fn _hidden_if_cheaper(rates: &Rates, matches: &[HiddenCityMatch], honest: Option<&HonestPick>) -> (r: Option<HiddenCityMatch>)
    ensures
        match honest_ceiling(*rates, honest) {
            None => r is None,
            Some(c) => {
                &&& (r is None <==> forall|k: int| 0 <= k < matches@.len() ==> !#[trigger] cheaper_at(*rates, matches@, c, k))
                &&& (r matches Some(m) ==> exists|k: int| 0 <= k < matches@.len() && #[trigger] cheaper_at(*rates, matches@, c, k)
                    && (forall|j: int| 0 <= j < k ==> !#[trigger] cheaper_at(*rates, matches@, c, j))
                    && same_match(m, matches@[k]))
            },
        },
{
    let h = match honest {
        Some(h) => h,
        None => return None,
    };
    if h.offer.price.is_none() {
        return None;
    }
    let ceiling_offer = match offer_in_usd(rates, &h.offer) {
        Some(o) => o,
        None => return None,
    };
    let ceiling = match ceiling_offer.price {
        Some(c) => c,
        None => return None,
    };
    let mut i: usize = 0;
    while i < matches.len()
        invariant
            i <= matches@.len(),
            honest_ceiling(*rates, honest) == Some(ceiling),
            forall|j: int| 0 <= j < i ==> !#[trigger] cheaper_at(*rates, matches@, ceiling, j),
        decreases matches@.len() - i,
    {
        match offer_in_usd(rates, &matches[i].through_offer) {
            Some(t) => {
                match t.price {
                    Some(p) => {
                        if p < ceiling {
                            assert(cheaper_at(*rates, matches@, ceiling, i as int));
                            return Some(matches[i].clone());
                        }
                    },
                    None => {},
                }
            },
            None => {},
        }
        i = i + 1;
    }
    None
}

/// Some through ticket is flown by a real (not test) carrier.
pub open spec fn real_through(ms: Seq<HiddenCityMatch>) -> bool {
    exists|j: int| 0 <= j < ms.len() && !test_carrier(#[trigger] ms[j].through_offer.carrier@)
}

/// A match survives the real-carrier filter: its through ticket's id is that of a
/// real-carrier through ticket, when any exists.
pub open spec fn keeps_match(ms: Seq<HiddenCityMatch>, m: HiddenCityMatch) -> bool {
    !real_through(ms) || exists|j: int| 0 <= j < ms.len() && !test_carrier(#[trigger] ms[j].through_offer.carrier@)
        && ms[j].through_offer.id@ == m.through_offer.id@
}

/// `out` holds the matches of `src` that `keep` accepts, in order.
pub open spec fn kept_matches(src: Seq<HiddenCityMatch>, out: Seq<HiddenCityMatch>, keep: spec_fn(HiddenCityMatch) -> bool) -> bool
    decreases src.len(),
{
    if src.len() == 0 {
        out.len() == 0
    } else if keep(src.last()) {
        out.len() > 0 && same_match(out.last(), src.last()) && kept_matches(src.drop_last(), out.drop_last(), keep)
    } else {
        kept_matches(src.drop_last(), out, keep)
    }
}

/// `cleaned` holds the matches of `ms` that survive the real-carrier filter.
pub open spec fn filtered_matches(ms: Seq<HiddenCityMatch>, cleaned: Seq<HiddenCityMatch>) -> bool {
    kept_matches(ms, cleaned, |m: HiddenCityMatch| keeps_match(ms, m))
}

/// The sort key of a match: through price, then the larger saving first.
pub open spec fn match_key(m: HiddenCityMatch) -> Seq<i64> {
    seq![price_or_big(m.through_offer.price), (-1 - m.gross_saving) as i64]
}

pub open spec fn match_keys(ms: Seq<HiddenCityMatch>) -> Seq<Seq<i64>> {
    ms.map_values(|m: HiddenCityMatch| match_key(m))
}

pub open spec fn permuted_matches(s: Seq<HiddenCityMatch>, p: Seq<usize>) -> Seq<HiddenCityMatch> {
    Seq::new(p.len(), |k: int| s[p[k] as int])
}

/// Two lists hold the same matches in the same order.
pub open spec fn same_matches(a: Seq<HiddenCityMatch>, b: Seq<HiddenCityMatch>) -> bool {
    &&& a.len() == b.len()
    &&& forall|i: int| 0 <= i < a.len() ==> same_match(#[trigger] a[i], b[i])
}

/// `out` holds, in order, each match of `src` whose through ticket flies flights no
/// earlier match's does.
pub open spec fn first_flights(src: Seq<HiddenCityMatch>, out: Seq<HiddenCityMatch>) -> bool
    decreases src.len(),
{
    if src.len() == 0 {
        out.len() == 0
    } else if exists|j: int| 0 <= j < src.len() - 1
        && codeshare_spec(#[trigger] src[j].through_offer) == codeshare_spec(src.last().through_offer) {
        first_flights(src.drop_last(), out)
    } else {
        out.len() > 0 && same_match(out.last(), src.last()) && first_flights(src.drop_last(), out.drop_last())
    }
}

proof fn lemma_first_flights_same(a: Seq<HiddenCityMatch>, b: Seq<HiddenCityMatch>, out: Seq<HiddenCityMatch>)
    requires
        same_matches(a, b),
        first_flights(a, out),
    ensures
        first_flights(b, out),
    decreases a.len(),
{
    if a.len() > 0 {
        assert(same_match(a.last(), b.last()));
        assert(same_matches(a.drop_last(), b.drop_last())) by {
            assert forall|i: int| 0 <= i < a.drop_last().len() implies same_match(#[trigger] a.drop_last()[i], b.drop_last()[i]) by {
                assert(same_match(a[i], b[i]));
            }
        }
        let da = exists|j: int| 0 <= j < a.len() - 1
            && codeshare_spec(#[trigger] a[j].through_offer) == codeshare_spec(a.last().through_offer);
        let db = exists|j: int| 0 <= j < b.len() - 1
            && codeshare_spec(#[trigger] b[j].through_offer) == codeshare_spec(b.last().through_offer);
        assert(da == db) by {
            if da {
                let j = choose|j: int| 0 <= j < a.len() - 1
                    && codeshare_spec(#[trigger] a[j].through_offer) == codeshare_spec(a.last().through_offer);
                assert(same_match(a[j], b[j]));
                assert(codeshare_spec(b[j].through_offer) == codeshare_spec(b.last().through_offer));
            }
            if db {
                let j = choose|j: int| 0 <= j < b.len() - 1
                    && codeshare_spec(#[trigger] b[j].through_offer) == codeshare_spec(b.last().through_offer);
                assert(same_match(a[j], b[j]));
                assert(codeshare_spec(a[j].through_offer) == codeshare_spec(a.last().through_offer));
            }
        }
        if da {
            lemma_first_flights_same(a.drop_last(), b.drop_last(), out);
        } else {
            lemma_first_flights_same(a.drop_last(), b.drop_last(), out.drop_last());
        }
    }
}

/// Cleans hidden-city matches: keeps those whose through ticket survives the
/// real-carrier filter, orders them by through price and then by the larger saving
/// (stably), and keeps the first match of each set of flights.
pub fn clean_hidden_matches(matches: Vec<HiddenCityMatch>) -> (r: Vec<HiddenCityMatch>)
    ensures
        exists|cleaned: Seq<HiddenCityMatch>, p: Seq<usize>|
            #[trigger] filtered_matches(matches@, cleaned)
            && #[trigger] sorted_by(match_keys(cleaned), p) && first_flights(permuted_matches(cleaned, p), r@),
{
    let n = matches.len();
    // the real-carrier filter
    let mut any_real = false;
    let mut i: usize = 0;
    while i < n
        invariant
            n == matches@.len(),
            i <= n,
            any_real == exists|j: int| 0 <= j < i && !test_carrier(#[trigger] matches@[j].through_offer.carrier@),
        decreases n - i,
    {
        if !is_test_carrier(matches[i].through_offer.carrier.as_str()) {
            any_real = true;
        }
        i = i + 1;
    }
    let mut cleaned: Vec<HiddenCityMatch> = Vec::new();
    let mut a: usize = 0;
    while a < n
        invariant
            n == matches@.len(),
            a <= n,
            any_real == real_through(matches@),
            kept_matches(matches@.subrange(0, a as int), cleaned@, |m: HiddenCityMatch| keeps_match(matches@, m)),
        decreases n - a,
    {
        let mut keep = !any_real;
        let mut b: usize = 0;
        while b < n
            invariant
                n == matches@.len(),
                a < n,
                b <= n,
                any_real == real_through(matches@),
                keep == (!any_real || exists|j: int| 0 <= j < b && !test_carrier(#[trigger] matches@[j].through_offer.carrier@)
                    && matches@[j].through_offer.id@ == matches@[a as int].through_offer.id@),
            decreases n - b,
        {
            if !is_test_carrier(matches[b].through_offer.carrier.as_str())
                && str_eq(matches[b].through_offer.id.as_str(), matches[a].through_offer.id.as_str()) {
                keep = true;
            }
            b = b + 1;
        }
        let ghost pre = matches@.subrange(0, a as int);
        let ghost next = matches@.subrange(0, a + 1);
        assert(next.drop_last() =~= pre);
        assert(keep == keeps_match(matches@, matches@[a as int]));
        if keep {
            let ghost before = cleaned@;
            cleaned.push(matches[a].clone());
            assert(cleaned@.drop_last() =~= before);
        }
        a = a + 1;
    }
    assert(matches@.subrange(0, n as int) =~= matches@);
    // the order
    let mut keys: Vec<Vec<i64>> = Vec::new();
    let mut k: usize = 0;
    while k < cleaned.len()
        invariant
            k <= cleaned@.len(),
            keys@.len() == k,
            forall|x: int| 0 <= x < k ==> (#[trigger] keys@[x])@ == match_key(cleaned@[x]),
        decreases cleaned@.len() - k,
    {
        let m = &cleaned[k];
        let pk: i64 = match m.through_offer.price { Some(v) => v, None => 100_000_000_000_000 };
        let mut key: Vec<i64> = Vec::new();
        key.push(pk);
        key.push(-1 - m.gross_saving);
        assert(key@ =~= match_key(cleaned@[k as int]));
        keys.push(key);
        k = k + 1;
    }
    assert(key_views(keys@) =~= match_keys(cleaned@));
    let p = sort_order(&keys);
    assert(sorted_by(match_keys(cleaned@), p@));
    let mut sorted: Vec<HiddenCityMatch> = Vec::new();
    let mut q: usize = 0;
    while q < p.len()
        invariant
            is_perm(p@, cleaned@.len() as int),
            q <= p@.len(),
            sorted@.len() == q,
            forall|x: int| 0 <= x < q ==> same_match(#[trigger] sorted@[x], cleaned@[p@[x] as int]),
        decreases p@.len() - q,
    {
        let idx = p[q];
        assert((p@[q as int] as int) < cleaned@.len());
        sorted.push(cleaned[idx].clone());
        q = q + 1;
    }
    // the first of each set of flights
    let mut legs: Vec<Vec<(String, String, String, String)>> = Vec::new();
    let mut t: usize = 0;
    while t < sorted.len()
        invariant
            t <= sorted@.len(),
            legs@.len() == t,
            forall|x: int| 0 <= x < t ==> leg_views(#[trigger] legs@[x]@) == codeshare_spec(sorted@[x].through_offer),
        decreases sorted@.len() - t,
    {
        legs.push(codeshare_key(&sorted[t].through_offer));
        t = t + 1;
    }
    let mut out: Vec<HiddenCityMatch> = Vec::new();
    let mut u: usize = 0;
    while u < sorted.len()
        invariant
            u <= sorted@.len(),
            legs@.len() == sorted@.len(),
            forall|x: int| 0 <= x < sorted@.len() ==> leg_views(#[trigger] legs@[x]@) == codeshare_spec(sorted@[x].through_offer),
            first_flights(sorted@.subrange(0, u as int), out@),
        decreases sorted@.len() - u,
    {
        let mut seen = false;
        let mut v: usize = 0;
        while v < u
            invariant
                u < sorted@.len(),
                v <= u,
                legs@.len() == sorted@.len(),
                forall|x: int| 0 <= x < sorted@.len() ==> leg_views(#[trigger] legs@[x]@) == codeshare_spec(sorted@[x].through_offer),
                seen == exists|j: int| 0 <= j < v
                    && codeshare_spec(#[trigger] sorted@[j].through_offer) == codeshare_spec(sorted@[u as int].through_offer),
            decreases u - v,
        {
            if same_legs(&legs[v], &legs[u]) {
                seen = true;
            }
            v = v + 1;
        }
        let ghost pre = sorted@.subrange(0, u as int);
        let ghost next = sorted@.subrange(0, u + 1);
        assert(next.drop_last() =~= pre);
        let ghost d = exists|j: int| 0 <= j < next.len() - 1
            && codeshare_spec(#[trigger] next[j].through_offer) == codeshare_spec(next.last().through_offer);
        assert(d == seen) by {
            if d {
                let j = choose|j: int| 0 <= j < next.len() - 1
                    && codeshare_spec(#[trigger] next[j].through_offer) == codeshare_spec(next.last().through_offer);
                assert(codeshare_spec(sorted@[j].through_offer) == codeshare_spec(sorted@[u as int].through_offer));
            }
            if seen {
                let j = choose|j: int| 0 <= j < u
                    && codeshare_spec(#[trigger] sorted@[j].through_offer) == codeshare_spec(sorted@[u as int].through_offer);
                assert(codeshare_spec(next[j].through_offer) == codeshare_spec(next.last().through_offer));
            }
        }
        if !seen {
            let ghost before = out@;
            out.push(sorted[u].clone());
            assert(out@.drop_last() =~= before);
        }
        u = u + 1;
    }
    assert(sorted@.subrange(0, sorted@.len() as int) =~= sorted@);
    proof {
        assert(same_matches(sorted@, permuted_matches(cleaned@, p@)));
        lemma_first_flights_same(sorted@, permuted_matches(cleaned@, p@), out@);
        assert(filtered_matches(matches@, cleaned@));
    }
    out
}

/// See [`clean_hidden_matches`].
pub fn _clean_hidden_matches(matches: Vec<HiddenCityMatch>) -> (r: Vec<HiddenCityMatch>)
    ensures
        exists|cleaned: Seq<HiddenCityMatch>, p: Seq<usize>|
            #[trigger] filtered_matches(matches@, cleaned)
            && #[trigger] sorted_by(match_keys(cleaned), p) && first_flights(permuted_matches(cleaned, p), r@),
{
    clean_hidden_matches(matches)
}

/// See [`classify_hidden`] (the planner's entry point).
pub fn _classify_hidden<I: Intended>(
    rates: &Rates,
    offers: &[Offer],
    intended: &I,
    local: &Offer,
    origin_place: Option<&Airport>,
    min_saving: i64,
) -> (r: (Vec<HiddenCityMatch>, Vec<String>))
    requires
        cents_ok(local_amount(*rates, *local)),
        forall|i: int| 0 <= i < offers@.len() ==> cents_ok(usd_amount(*rates, #[trigger] offers@[i])),
    ensures
        classified(*rates, offers@, intended, *local, min_saving, r.0@, texts(r.1@)),
{
    classify_hidden(rates, offers, intended, local, origin_place, min_saving)
}

} // verus!
