//! Choosing the honest ticket to show: the cheapest, and the best by stops.
use vstd::prelude::*;
use crate::models::{Offer, HonestPick, same_offer, kept, keep_where, clone_offers, same_offers};
use crate::text::{to_upper, upper, eq_ignore_case, eq_ignore_ascii_case, str_eq, cat, decimal, int_text};
use crate::fx::{Rates, usd, usd_list, offers_in_usd};
use crate::layover::{layover_spec, layover_minutes};
use crate::order::{lex_lt, first_min, first_min_index};

verus! {

/// The price used to rank an offer without one: a trillion dollars, in cents.
pub open spec fn no_price() -> i64 {
    100_000_000_000_000
}

pub open spec fn price_or_big(p: Option<i64>) -> i64 {
    match p { Some(v) => v, None => no_price() }
}

/// Price, then minutes on the ground, then duration.
pub open spec fn pick_key(o: Offer) -> Seq<i64> {
    seq![price_or_big(o.price), layover_spec(o) as i64, o.duration_min as i64]
}

/// Stops, then price (a negative price after every other), then minutes on the
/// ground, then duration.
pub open spec fn honest_key(o: Offer) -> Seq<i64> {
    let neg: i64 = if o.price matches Some(p) && p < 0 { 1 } else { 0 };
    let mag: i64 = match o.price {
        Some(p) => if p < 0 { (-(p + 1)) as i64 } else { p },
        None => no_price(),
    };
    seq![o.stops as i64, neg, mag, layover_spec(o) as i64, o.duration_min as i64]
}

fn pick_key_of(o: &Offer) -> (r: Vec<i64>)
    ensures
        r@ == pick_key(*o),
{
    let p: i64 = match o.price { Some(v) => v, None => 100_000_000_000_000 };
    let mut v: Vec<i64> = Vec::new();
    v.push(p);
    v.push(layover_minutes(o) as i64);
    v.push(o.duration_min as i64);
    assert(v@ =~= pick_key(*o));
    v
}

fn honest_key_of(o: &Offer) -> (r: Vec<i64>)
    ensures
        r@ == honest_key(*o),
{
    let (neg, mag): (i64, i64) = match o.price {
        Some(p) => if p < 0 { (1, -(p + 1)) } else { (0, p) },
        None => (0, 100_000_000_000_000),
    };
    let mut v: Vec<i64> = Vec::new();
    v.push(o.stops as i64);
    v.push(neg);
    v.push(mag);
    v.push(layover_minutes(o) as i64);
    v.push(o.duration_min as i64);
    assert(v@ =~= honest_key(*o));
    v
}

/// The price keys of a list of offers.
pub open spec fn price_keys(offers: Seq<Offer>) -> Seq<Seq<i64>> {
    offers.map_values(|o: Offer| pick_key(o))
}

/// The stops-first keys of a list of offers.
pub open spec fn rank_keys(offers: Seq<Offer>) -> Seq<Seq<i64>> {
    offers.map_values(|o: Offer| honest_key(o))
}

/// The views of a list of keys.
pub open spec fn key_views(keys: Seq<Vec<i64>>) -> Seq<Seq<i64>> {
    keys.map_values(|k: Vec<i64>| k@)
}

/// A mask that marks each of `n` entries.
pub open spec fn all_marked(n: nat) -> Seq<bool> {
    Seq::new(n, |k: int| true)
}

pub(crate) fn pick_keys(offers: &[Offer]) -> (r: Vec<Vec<i64>>)
    ensures
        r@.len() == offers@.len(),
        key_views(r@) == price_keys(offers@),
{
    let mut v: Vec<Vec<i64>> = Vec::new();
    let mut i: usize = 0;
    while i < offers.len()
        invariant
            i <= offers@.len(),
            v@.len() == i,
            forall|k: int| 0 <= k < i ==> (#[trigger] v@[k])@ == pick_key(offers@[k]),
        decreases offers@.len() - i,
    {
        v.push(pick_key_of(&offers[i]));
        i = i + 1;
    }
    assert(key_views(v@) =~= price_keys(offers@));
    v
}

fn honest_keys(offers: &Vec<Offer>) -> (r: Vec<Vec<i64>>)
    ensures
        r@.len() == offers@.len(),
        key_views(r@) == rank_keys(offers@),
{
    let mut v: Vec<Vec<i64>> = Vec::new();
    let mut i: usize = 0;
    while i < offers.len()
        invariant
            i <= offers@.len(),
            v@.len() == i,
            forall|k: int| 0 <= k < i ==> (#[trigger] v@[k])@ == honest_key(offers@[k]),
        decreases offers@.len() - i,
    {
        v.push(honest_key_of(&offers[i]));
        i = i + 1;
    }
    assert(key_views(v@) =~= rank_keys(offers@));
    v
}

/// The characters `nonstop` and `connecting`.
pub open spec fn nonstop_name() -> Seq<char> {
    "nonstop"@
}

pub open spec fn connecting_name() -> Seq<char> {
    "connecting"@
}

/// A pick of `o` with the given reason.
pub open spec fn pick_of(p: HonestPick, o: Offer, reason: Seq<char>) -> bool {
    &&& same_offer(p.offer, o)
    &&& p.reason@ == reason
    &&& p.kind@ == (if o.stops == 0 { nonstop_name() } else { connecting_name() })
    &&& p.layover_min == layover_spec(o)
}

pub fn as_pick(offer: Offer, reason: &str) -> (r: HonestPick)
    ensures
        pick_of(r, offer, reason@),
{
    let layover_min = layover_minutes(&offer);
    let kind = if offer.stops == 0 { "nonstop".to_owned() } else { "connecting".to_owned() };
    let o2 = offer.clone();
    HonestPick { kind, reason: reason.to_owned(), layover_min, offer: o2 }
}

/// Both lists, nonstop first.
fn joined(a: &[Offer], b: &[Offer]) -> (r: Vec<Offer>)
    ensures
        same_offers(r@, a@ + b@),
{
    let mut v = clone_offers(a);
    let w = clone_offers(b);
    let mut i: usize = 0;
    while i < w.len()
        invariant
            i <= w@.len(),
            same_offers(w@, b@),
            v@.len() == a@.len() + i,
            forall|k: int| 0 <= k < a@.len() ==> same_offer(#[trigger] v@[k], a@[k]),
            forall|k: int| a@.len() <= k < a@.len() + i ==> same_offer(#[trigger] v@[k], b@[k - a@.len()]),
        decreases w@.len() - i,
    {
        v.push(w[i].clone());
        i = i + 1;
    }
    v
}

/// The priced offers (in US cents) of the wanted currency; when none is in that
/// currency, those of a currency held by the most offers.
pub open spec fn priced_in_currency(rates: Rates, offers: Seq<Offer>, want: Seq<char>, out: Seq<Offer>) -> bool {
    exists|conv: Seq<Offer>, priced: Seq<Offer>| {
        &&& usd_list(rates, offers, conv)
        &&& kept(conv, priced, |o: Offer| o.price is Some)
        &&& if exists|i: int| 0 <= i < priced.len() && to_upper(#[trigger] priced[i].currency@) == to_upper(want) {
            kept(priced, out, |o: Offer| to_upper(o.currency@) == to_upper(want))
        } else if priced.len() == 0 {
            out.len() == 0
        } else {
            exists|c: Seq<char>| #[trigger] is_modal(priced, c) && kept(priced, out, |o: Offer| o.currency@ == c)
        }
    }
}

/// No currency is held by more of `offers` than `c` is.
pub open spec fn is_modal(offers: Seq<Offer>, c: Seq<char>) -> bool {
    forall|d: Seq<char>| #[trigger] count_currency(offers, d) <= count_currency(offers, c)
}

/// How many offers are in currency `c`.
pub open spec fn count_currency(offers: Seq<Offer>, c: Seq<char>) -> int
    decreases offers.len(),
{
    if offers.len() == 0 {
        0
    } else {
        count_currency(offers.drop_last(), c) + if offers.last().currency@ == c { 1int } else { 0 }
    }
}

fn count_of(offers: &Vec<Offer>, c: &String) -> (r: usize)
    ensures
        r == count_currency(offers@, c@),
{
    let mut n: usize = 0;
    let mut i: usize = 0;
    while i < offers.len()
        invariant
            i <= offers@.len(),
            n == count_currency(offers@.subrange(0, i as int), c@),
            n <= i,
        decreases offers@.len() - i,
    {
        assert(offers@.subrange(0, i + 1).drop_last() =~= offers@.subrange(0, i as int));
        if offers[i].currency == *c {
            n = n + 1;
        }
        i = i + 1;
    }
    assert(offers@.subrange(0, offers@.len() as int) =~= offers@);
    n
}

proof fn lemma_count_zero(offers: Seq<Offer>, c: Seq<char>)
    requires
        forall|i: int| 0 <= i < offers.len() ==> (#[trigger] offers[i]).currency@ != c,
    ensures
        count_currency(offers, c) == 0,
    decreases offers.len(),
{
    if offers.len() > 0 {
        lemma_count_zero(offers.drop_last(), c);
    }
}

pub fn _priced_in_currency(rates: &Rates, offers: &[Offer], preferred: Option<&str>) -> (r: Vec<Offer>)
    ensures
        priced_in_currency(*rates, offers@, wanted(preferred), r@),
{
    let conv = offers_in_usd(rates, offers);
    let mut mask: Vec<bool> = Vec::new();
    let mut i: usize = 0;
    while i < conv.len()
        invariant
            i <= conv@.len(),
            mask@.len() == i,
            forall|k: int| 0 <= k < i ==> mask@[k] == (#[trigger] conv@[k]).price is Some,
        decreases conv@.len() - i,
    {
        mask.push(conv[i].price.is_some());
        i = i + 1;
    }
    let priced = keep_where(conv.as_slice(), &mask, Ghost(|o: Offer| o.price is Some));
    let want_src: &str = match preferred { Some(p) => p, None => "USD" };
    proof {
        reveal_strlit("USD");
        assert("USD"@ =~= usd());
    }
    let want = upper(want_src);
    let mut m2: Vec<bool> = Vec::new();
    let mut any = false;
    let mut j: usize = 0;
    while j < priced.len()
        invariant
            j <= priced@.len(),
            want@ == to_upper(want_src@),
            m2@.len() == j,
            forall|k: int| 0 <= k < j ==> m2@[k] == (to_upper((#[trigger] priced@[k]).currency@) == want@),
            any == exists|k: int| 0 <= k < j && to_upper(#[trigger] priced@[k].currency@) == want@,
        decreases priced@.len() - j,
    {
        let u = upper(priced[j].currency.as_str());
        let hit = u == want;
        m2.push(hit);
        if hit {
            any = true;
        }
        j = j + 1;
    }
    if any {
        let out = keep_where(priced.as_slice(), &m2, Ghost(|o: Offer| to_upper(o.currency@) == want@));
        assert(kept(conv@, priced@, |o: Offer| o.price is Some));
        return out;
    }
    if priced.len() == 0 {
        return Vec::new();
    }
    // the currency held by the most offers; the first such in list order
    let mut best = priced[0].currency.clone();
    let mut best_n = count_of(&priced, &best);
    let mut k: usize = 1;
    while k < priced.len()
        invariant
            1 <= k <= priced@.len(),
            best_n == count_currency(priced@, best@),
            forall|q: int| 0 <= q < k ==> count_currency(priced@, (#[trigger] priced@[q]).currency@) <= best_n,
        decreases priced@.len() - k,
    {
        let c = priced[k].currency.clone();
        let n = count_of(&priced, &c);
        if n > best_n {
            best = c;
            best_n = n;
        }
        k = k + 1;
    }
    proof {
        assert forall|d: Seq<char>| #[trigger] count_currency(priced@, d) <= count_currency(priced@, best@) by {
            if count_currency(priced@, d) > 0 {
                lemma_count_member(priced@, d);
            }
        }
    }
    let mut m3: Vec<bool> = Vec::new();
    let mut q: usize = 0;
    while q < priced.len()
        invariant
            q <= priced@.len(),
            m3@.len() == q,
            forall|x: int| 0 <= x < q ==> m3@[x] == ((#[trigger] priced@[x]).currency@ == best@),
        decreases priced@.len() - q,
    {
        m3.push(priced[q].currency == best);
        q = q + 1;
    }
    let out = keep_where(priced.as_slice(), &m3, Ghost(|o: Offer| o.currency@ == best@));
    assert(is_modal(priced@, best@));
    out
}

proof fn lemma_count_member(offers: Seq<Offer>, c: Seq<char>)
    requires
        count_currency(offers, c) > 0,
    ensures
        exists|i: int| 0 <= i < offers.len() && (#[trigger] offers[i]).currency@ == c,
    decreases offers.len(),
{
    if offers.last().currency@ != c {
        lemma_count_member(offers.drop_last(), c);
        let i = choose|i: int| 0 <= i < offers.drop_last().len() && (#[trigger] offers.drop_last()[i]).currency@ == c;
        assert(offers[i] == offers.drop_last()[i]);
    } else {
        assert(offers[offers.len() - 1].currency@ == c);
    }
}

/// Index `i` holds the first cheapest offer of `cands` (price, then minutes on the
/// ground, then duration), as `Iterator::min_by` picks it.
pub open spec fn cheapest_at(cands: Seq<Offer>, i: int) -> bool {
    first_min(price_keys(cands), all_marked(cands.len()), i)
}

/// The reason given for the cheapest ticket.
pub open spec fn cheapest_reason(o: Offer) -> Seq<char> {
    if o.stops == 0 { "Best — cheapest nonstop"@ } else { "Cheapest — connecting"@ }
}

/// The cheapest-ticket choice over the offers `all` (both lists, nonstop first):
/// `cands` are the offers compared, and `r` picks the first cheapest of them.
pub open spec fn honest_choice(rates: Rates, all: Seq<Offer>, want: Seq<char>, cands: Seq<Offer>, r: Option<HonestPick>) -> bool {
    let mixed = exists|i: int| 0 <= i < all.len() && (#[trigger] all[i]).price is Some
        && !eq_ignore_case(all[i].currency@, want);
    &&& (if mixed { priced_in_currency(rates, all, want, cands) } else {
        kept(all, cands, |o: Offer| o.price is Some)
    })
    &&& (r is None <==> cands.len() == 0)
    &&& (r matches Some(p) ==> exists|i: int| #[trigger] cheapest_at(cands, i) && pick_of(p, cands[i], cheapest_reason(cands[i])))
}

/// The cheapest honest ticket, in the wanted currency (US dollars by default). When
/// some priced offer is in another currency, all offers are first converted to US
/// dollars and those in the wanted (or the most common) currency are compared;
/// otherwise every priced offer is. Ties go to the earlier offer, nonstop first.
pub fn pick_honest(rates: &Rates, nonstop: &[Offer], connecting: &[Offer], preferred: Option<&str>) -> (r: Option<HonestPick>)
    ensures
        exists|all: Seq<Offer>, cands: Seq<Offer>| same_offers(all, nonstop@ + connecting@)
            && #[trigger] honest_choice(*rates, all, wanted(preferred), cands, r),
{
    let all = joined(nonstop, connecting);
    let want: &str = match preferred { Some(p) => p, None => "USD" };
    proof {
        reveal_strlit("USD");
        assert("USD"@ =~= usd());
    }
    let mut mixed = false;
    let mut i: usize = 0;
    while i < all.len()
        invariant
            i <= all@.len(),
            mixed == exists|k: int| 0 <= k < i && (#[trigger] all@[k]).price is Some && !eq_ignore_case(all@[k].currency@, want@),
        decreases all@.len() - i,
    {
        if all[i].price.is_some() && !eq_ignore_ascii_case(all[i].currency.as_str(), want) {
            mixed = true;
        }
        i = i + 1;
    }
    let cands: Vec<Offer> = if mixed {
        _priced_in_currency(rates, all.as_slice(), preferred)
    } else {
        let mut mask: Vec<bool> = Vec::new();
        let mut j: usize = 0;
        while j < all.len()
            invariant
                j <= all@.len(),
                mask@.len() == j,
                forall|k: int| 0 <= k < j ==> mask@[k] == (#[trigger] all@[k]).price is Some,
            decreases all@.len() - j,
        {
            mask.push(all[j].price.is_some());
            j = j + 1;
        }
        keep_where(all.as_slice(), &mask, Ghost(|o: Offer| o.price is Some))
    };
    let keys = pick_keys(cands.as_slice());
    let every = marks(cands.len());
    let r = match first_min_index(&keys, &every) {
        Some(idx) => {
            let chosen = cands[idx].clone();
            let reason = if chosen.stops == 0 { "Best — cheapest nonstop" } else { "Cheapest — connecting" };
            proof {
                reveal_strlit("Best — cheapest nonstop");
                reveal_strlit("Cheapest — connecting");
            }
            let pick = as_pick(chosen, reason);
            assert(cheapest_at(cands@, idx as int));
            Some(pick)
        },
        None => {
            assert(cands@.len() == 0) by {
                if cands@.len() > 0 {
                    assert(every@[0]);
                }
            }
            None
        },
    };
    assert(want@ == wanted(preferred));
    assert(honest_choice(*rates, all@, wanted(preferred), cands@, r));
    assert(same_offers(all@, nonstop@ + connecting@));
    r
}

/// The wanted currency: the one given, else US dollars.
pub open spec fn wanted(preferred: Option<&str>) -> Seq<char> {
    match preferred {
        Some(p) => p@,
        None => usd(),
    }
}

/// A mask of `n` set entries.
fn marks(n: usize) -> (r: Vec<bool>)
    ensures
        r@ == all_marked(n as nat),
{
    let mut v: Vec<bool> = Vec::new();
    let mut k: usize = 0;
    while k < n
        invariant
            k <= n,
            v@.len() == k,
            forall|x: int| 0 <= x < k ==> v@[x] == true,
        decreases n - k,
    {
        v.push(true);
        k = k + 1;
    }
    assert(v@ =~= all_marked(n as nat));
    v
}

/// The cheapest offer among those priced in the wanted currency (see
/// `priced_in_currency`), ties to the earlier offer.
pub fn _best_local_honest(rates: &Rates, offers: &[Offer], preferred: Option<&str>) -> (r: Option<Offer>)
    ensures
        exists|cands: Seq<Offer>| #[trigger] priced_in_currency(*rates, offers@, wanted(preferred), cands)
            && (r is None <==> cands.len() == 0)
            && (r matches Some(o) ==> exists|i: int| #[trigger] cheapest_at(cands, i) && same_offer(o, cands[i])),
{
    let cands = _priced_in_currency(rates, offers, preferred);
    let keys = pick_keys(cands.as_slice());
    let every = marks(cands.len());
    match first_min_index(&keys, &every) {
        Some(idx) => {
            assert(cheapest_at(cands@, idx as int));
            Some(cands[idx].clone())
        },
        None => {
            assert(cands@.len() == 0) by {
                if cands@.len() > 0 {
                    assert(every@[0]);
                }
            }
            None
        },
    }
}

/// The marks of the nonstop offers.
pub open spec fn nonstop_marks(offers: Seq<Offer>) -> Seq<bool> {
    offers.map_values(|o: Offer| o.stops == 0)
}

/// Whether an offer is priced in US dollars (any letter case).
pub open spec fn priced_usd(o: Offer) -> bool {
    o.price is Some && eq_ignore_case(o.currency@, usd())
}

/// The marks of the offers priced in US dollars.
pub open spec fn usd_marks(offers: Seq<Offer>) -> Seq<bool> {
    offers.map_values(|o: Offer| priced_usd(o))
}

/// The reason given for the best ticket with `n` stops.
pub open spec fn stops_reason(n: i32) -> Seq<char> {
    if n == 0 {
        "Best — cheapest nonstop"@
    } else if n == 1 {
        "Best — cheapest one stop"@
    } else {
        "Best — cheapest "@ + decimal(n as int) + " stops"@
    }
}

/// The id of the cheapest pick, if there is one.
pub open spec fn pick_id(cheapest: Option<&HonestPick>) -> Option<Seq<char>> {
    match cheapest {
        Some(c) => Some(c.offer.id@),
        None => None,
    }
}

/// `r` shows `o` as the best pick with `reason`, unless `o` is the cheapest pick
/// already shown, when `r` is empty.
pub open spec fn best_or_none(o: Offer, cheap: Option<Seq<char>>, reason: Seq<char>, r: Option<HonestPick>) -> bool {
    if cheap == Some(o.id@) {
        r is None
    } else {
        r matches Some(p) && pick_of(p, o, reason)
    }
}

/// The best pick among `priced`: the first best-ranked nonstop (stops, then price,
/// then minutes on the ground, then duration) if any is nonstop, else the first
/// best-ranked offer, which has the fewest stops.
pub open spec fn best_from(priced: Seq<Offer>, cheap: Option<Seq<char>>, r: Option<HonestPick>) -> bool {
    if priced.len() == 0 {
        r is None
    } else if exists|i: int| 0 <= i < priced.len() && (#[trigger] priced[i]).stops == 0 {
        exists|i: int| #[trigger] first_min(rank_keys(priced), nonstop_marks(priced), i)
            && best_or_none(priced[i], cheap, stops_reason(0), r)
    } else {
        exists|i: int| #[trigger] first_min(rank_keys(priced), all_marked(priced.len()), i)
            && best_or_none(priced[i], cheap, stops_reason(priced[i].stops), r)
    }
}

/// Whether `a` is the id of the pick `cheap`.
fn is_pick_id(a: &String, cheap: Option<&HonestPick>) -> (r: bool)
    ensures
        r == (pick_id(cheap) == Some(a@)),
{
    match cheap {
        Some(c) => str_eq(a.as_str(), c.offer.id.as_str()),
        None => false,
    }
}

/// The reason text for the best ticket with `n` stops.
fn stops_reason_text(n: i32) -> (r: String)
    ensures
        r@ == stops_reason(n),
{
    proof {
        reveal_strlit("Best — cheapest nonstop");
        reveal_strlit("Best — cheapest one stop");
        reveal_strlit("Best — cheapest ");
        reveal_strlit(" stops");
    }
    if n == 0 {
        "Best — cheapest nonstop".to_owned()
    } else if n == 1 {
        "Best — cheapest one stop".to_owned()
    } else {
        let num = int_text(n as i64);
        let head = cat("Best — cheapest ", num.as_str());
        cat(head.as_str(), " stops")
    }
}

/// Shows the offer at `idx` as the best pick, unless it is the cheapest pick.
fn best_or_none_at(priced: &Vec<Offer>, idx: usize, cheapest: Option<&HonestPick>, reason: &str) -> (r: Option<HonestPick>)
    requires
        idx < priced@.len(),
    ensures
        best_or_none(priced@[idx as int], pick_id(cheapest), reason@, r),
{
    if is_pick_id(&priced[idx].id, cheapest) {
        None
    } else {
        Some(as_pick(priced[idx].clone(), reason))
    }
}

/// The marks of the nonstop offers of a list.
fn nonstop_mask(offers: &Vec<Offer>) -> (r: Vec<bool>)
    ensures
        r@ == nonstop_marks(offers@),
{
    let mut v: Vec<bool> = Vec::new();
    let mut k: usize = 0;
    while k < offers.len()
        invariant
            k <= offers@.len(),
            v@.len() == k,
            forall|x: int| 0 <= x < k ==> v@[x] == ((#[trigger] offers@[x]).stops == 0),
        decreases offers@.len() - k,
    {
        v.push(offers[k].stops == 0);
        k = k + 1;
    }
    assert(v@ =~= nonstop_marks(offers@));
    v
}

/// The marks of the offers of a list priced in US dollars.
fn usd_mask(offers: &[Offer]) -> (r: Vec<bool>)
    ensures
        r@ == usd_marks(offers@),
{
    proof {
        reveal_strlit("USD");
        assert("USD"@ =~= usd());
    }
    let mut v: Vec<bool> = Vec::new();
    let mut k: usize = 0;
    while k < offers.len()
        invariant
            k <= offers@.len(),
            v@.len() == k,
            "USD"@ == usd(),
            forall|x: int| 0 <= x < k ==> v@[x] == priced_usd(#[trigger] offers@[x]),
        decreases offers@.len() - k,
    {
        v.push(offers[k].price.is_some() && eq_ignore_ascii_case(offers[k].currency.as_str(), "USD"));
        k = k + 1;
    }
    assert(v@ =~= usd_marks(offers@));
    v
}

/// Whether some entry of a mask is set.
fn any_marked(mask: &Vec<bool>) -> (r: bool)
    ensures
        r == exists|i: int| 0 <= i < mask@.len() && #[trigger] mask@[i],
{
    let mut k: usize = 0;
    while k < mask.len()
        invariant
            k <= mask@.len(),
            forall|x: int| 0 <= x < k ==> !#[trigger] mask@[x],
        decreases mask@.len() - k,
    {
        if mask[k] {
            return true;
        }
        k = k + 1;
    }
    false
}

/// The best pick among already filtered offers (see `best_from`).
pub fn pick_best_from_owned(priced: Vec<Offer>, cheapest: Option<&HonestPick>) -> (r: Option<HonestPick>)
    ensures
        best_from(priced@, pick_id(cheapest), r),
{
    if priced.len() == 0 {
        return None;
    }
    let keys = honest_keys(&priced);
    let ns = nonstop_mask(&priced);
    if any_marked(&ns) {
        proof {
            let k = choose|k: int| 0 <= k < ns@.len() && #[trigger] ns@[k];
            assert(priced@[k].stops == 0);
        }
        let idx = match first_min_index(&keys, &ns) {
            Some(i) => i,
            None => {
                proof {
                    let k = choose|k: int| 0 <= k < ns@.len() && #[trigger] ns@[k];
                }
                return None;
            },
        };
        proof {
            reveal_strlit("Best — cheapest nonstop");
        }
        let r = best_or_none_at(&priced, idx, cheapest, "Best — cheapest nonstop");
        assert(first_min(rank_keys(priced@), nonstop_marks(priced@), idx as int));
        return r;
    }
    assert forall|i: int| 0 <= i < priced@.len() implies (#[trigger] priced@[i]).stops != 0 by {
        assert(!ns@[i]);
    }
    let every = marks(priced.len());
    let idx = match first_min_index(&keys, &every) {
        Some(i) => i,
        None => {
            assert(every@[0]);
            return None;
        },
    };
    let reason = stops_reason_text(priced[idx].stops);
    let r = best_or_none_at(&priced, idx, cheapest, reason.as_str());
    assert(first_min(rank_keys(priced@), all_marked(priced@.len()), idx as int));
    r
}

/// The best honest ticket, shown only when it differs from the cheapest pick.
/// When no offer is priced in US dollars, the offers are first converted and those
/// in the most common currency compared (see `best_from`). Otherwise the first
/// best-ranked nonstop priced in US dollars; failing that, the first best-ranked
/// connecting offer priced in US dollars, named by its number of stops.
pub fn pick_best(rates: &Rates, nonstop: &[Offer], connecting: &[Offer], cheapest: Option<&HonestPick>) -> (r: Option<HonestPick>)
    ensures
        ({
            let src = nonstop@ + connecting@;
            let cheap = pick_id(cheapest);
            if !exists|i: int| 0 <= i < src.len() && #[trigger] priced_usd(src[i]) {
                exists|all: Seq<Offer>, cands: Seq<Offer>| same_offers(all, src)
                    && #[trigger] priced_in_currency(*rates, all, usd(), cands) && best_from(cands, cheap, r)
            } else if exists|i: int| 0 <= i < nonstop@.len() && #[trigger] priced_usd(nonstop@[i]) {
                exists|i: int| #[trigger] first_min(rank_keys(nonstop@), usd_marks(nonstop@), i)
                    && best_or_none(nonstop@[i], cheap, stops_reason(0), r)
            } else {
                exists|i: int| #[trigger] first_min(rank_keys(connecting@), usd_marks(connecting@), i)
                    && best_or_none(connecting@[i], cheap, stops_reason(connecting@[i].stops), r)
            }
        }),
{
    let ghost src = nonstop@ + connecting@;
    let um = usd_mask(nonstop);
    let uc = usd_mask(connecting);
    let in_ns = any_marked(&um);
    let in_cn = any_marked(&uc);
    proof {
        if in_ns {
            let k = choose|k: int| 0 <= k < um@.len() && #[trigger] um@[k];
            assert(priced_usd(nonstop@[k]));
            assert(src[k] == nonstop@[k]);
        }
        if in_cn {
            let k = choose|k: int| 0 <= k < uc@.len() && #[trigger] uc@[k];
            assert(priced_usd(connecting@[k]));
            assert(src[nonstop@.len() + k] == connecting@[k]);
        }
        if !in_ns && !in_cn {
            assert forall|i: int| 0 <= i < src.len() implies !#[trigger] priced_usd(src[i]) by {
                if i < nonstop@.len() {
                    assert(!um@[i]);
                } else {
                    assert(!uc@[i - nonstop@.len()]);
                }
            }
        }
        if !in_ns {
            assert forall|i: int| 0 <= i < nonstop@.len() implies !#[trigger] priced_usd(nonstop@[i]) by {
                assert(!um@[i]);
            }
        }
    }
    if !in_ns && !in_cn {
        let all = joined(nonstop, connecting);
        let cands = _priced_in_currency(rates, all.as_slice(), None);
        let ghost cs = cands@;
        let r = pick_best_from_owned(cands, cheapest);
        assert(priced_in_currency(*rates, all@, usd(), cs));
        return r;
    }
    if in_ns {
        let keys = honest_keys_slice(nonstop);
        let idx = match first_min_index(&keys, &um) {
            Some(i) => i,
            None => {
                proof {
                    let k = choose|k: int| 0 <= k < um@.len() && #[trigger] um@[k];
                }
                return None;
            },
        };
        proof {
            reveal_strlit("Best — cheapest nonstop");
        }
        let r = best_or_none_at_slice(nonstop, idx, cheapest, "Best — cheapest nonstop");
        assert(first_min(rank_keys(nonstop@), usd_marks(nonstop@), idx as int));
        return r;
    }
    let keys = honest_keys_slice(connecting);
    let idx = match first_min_index(&keys, &uc) {
        Some(i) => i,
        None => {
            proof {
                let k = choose|k: int| 0 <= k < uc@.len() && #[trigger] uc@[k];
            }
            return None;
        },
    };
    let reason = stops_reason_text(connecting[idx].stops);
    let r = best_or_none_at_slice(connecting, idx, cheapest, reason.as_str());
    assert(first_min(rank_keys(connecting@), usd_marks(connecting@), idx as int));
    r
}

fn honest_keys_slice(offers: &[Offer]) -> (r: Vec<Vec<i64>>)
    ensures
        r@.len() == offers@.len(),
        key_views(r@) == rank_keys(offers@),
{
    let mut v: Vec<Vec<i64>> = Vec::new();
    let mut i: usize = 0;
    while i < offers.len()
        invariant
            i <= offers@.len(),
            v@.len() == i,
            forall|k: int| 0 <= k < i ==> (#[trigger] v@[k])@ == honest_key(offers@[k]),
        decreases offers@.len() - i,
    {
        v.push(honest_key_of(&offers[i]));
        i = i + 1;
    }
    assert(key_views(v@) =~= rank_keys(offers@));
    v
}

fn best_or_none_at_slice(offers: &[Offer], idx: usize, cheapest: Option<&HonestPick>, reason: &str) -> (r: Option<HonestPick>)
    requires
        idx < offers@.len(),
    ensures
        best_or_none(offers@[idx as int], pick_id(cheapest), reason@, r),
{
    if is_pick_id(&offers[idx].id, cheapest) {
        None
    } else {
        Some(as_pick(offers[idx].clone(), reason))
    }
}

/// Filtering lists that hold the same offers keeps the same offers.
pub proof fn lemma_kept_same(a: Seq<Offer>, b: Seq<Offer>, out: Seq<Offer>, keep: spec_fn(Offer) -> bool)
    requires
        same_offers(a, b),
        kept(a, out, keep),
        forall|x: Offer, y: Offer| same_offer(x, y) ==> keep(x) == keep(y),
    ensures
        kept(b, out, keep),
    decreases a.len(),
{
    if a.len() > 0 {
        assert(same_offer(a.last(), b.last()));
        if keep(a.last()) {
            lemma_kept_same(a.drop_last(), b.drop_last(), out.drop_last(), keep);
        } else {
            lemma_kept_same(a.drop_last(), b.drop_last(), out, keep);
        }
    }
}

} // verus!
