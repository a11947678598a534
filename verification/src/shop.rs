//! The search planner's pure decisions: which pairs to shop, which offers to keep,
//! and which honest ticket to recommend.
use vstd::prelude::*;
use crate::models::{Offer, Airport, ShopRequest, HonestPick, same_offer, kept, keep_where, clone_strings, clone_opt_string};
use crate::text::{to_upper, upper, str_eq, eq_ignore_case, eq_ignore_ascii_case, take_chars, trim, trim_spec, chars_of, string_from, cat};
use crate::times::{Instant, instant_ok, rfc3339_instant, parse_rfc3339, seconds_between, secs_between, now_instant};
use crate::sandbox::{live_fare, is_live_fare};
use crate::hidden::{
    Intended, views, code_set, contains_string, ticketed, ticketed_destination, hidden_exit,
    detect_hidden_city, standard_to, is_standard_to, first_exit_from,
};
use crate::sandbox::{sandbox_offer, is_sandbox_offer, test_carrier, is_test_carrier};

verus! {

/// How many ticketed destinations this pass may shop: the fast pass shops `fast`;
/// the deep pass shops what is left of `hidden` after the fast pass.
pub fn hidden_probe_budget(mode: &str, already_probed: usize, fast: usize, hidden: usize) -> (r: usize)
    ensures
        r == if mode@ == "fast"@ { fast } else if hidden >= already_probed { (hidden - already_probed) as usize } else { 0 },
{
    if str_eq(mode, "fast") {
        fast
    } else {
        hidden.saturating_sub(already_probed)
    }
}

/// How many self-transfer hubs this pass may shop after leaving `cs_reserve` paid
/// slots for ticketed destinations: two per hub on the fast pass (at most two hubs),
/// three on the deep pass (at most three).
pub fn _self_transfer_hub_cap(mode: &str, remaining: i32, cs_reserve: i32) -> (r: i32)
    requires
        i32::MIN <= remaining - cs_reserve <= i32::MAX,
    ensures
        ({
            let per: int = if mode@ == "fast"@ { 2 } else { 3 };
            let left: int = if remaining - cs_reserve > 0 { remaining - cs_reserve } else { 0 };
            r == if per < left / per { per } else { left / per }
        }),
{
    let fast = str_eq(mode, "fast");
    let want: i32 = if fast { 2 } else { 3 };
    let per_hub: i32 = if fast { 2 } else { 3 };
    let diff = remaining - cs_reserve;
    let left: i32 = if diff > 0 { diff } else { 0 };
    let cap = left / per_hub;
    if want < cap { want } else { cap }
}

/// `index` when only the index answered, `index+live` when the index and a live shop
/// both did, `miss` otherwise.
pub fn cache_state_len(indexed: bool, shopped: bool) -> (r: String)
    ensures
        r@ == (if indexed && !shopped { "index"@ } else if indexed { "index+live"@ } else { "miss"@ }),
{
    if indexed && !shopped {
        "index".to_owned()
    } else if indexed {
        "index+live".to_owned()
    } else {
        "miss".to_owned()
    }
}

/// The cache label for a search from what the index and the live shop returned.
pub fn _cache_state<T, U>(indexed: &[T], shopped: &[U]) -> (r: String)
    ensures
        r@ == (if indexed@.len() > 0 && shopped@.len() == 0 { "index"@ } else if indexed@.len() > 0 {
            "index+live"@
        } else {
            "miss"@
        }),
{
    cache_state_len(indexed.len() > 0, shopped.len() > 0)
}

/// A pair of airport codes.
pub type CodePair = (Seq<char>, Seq<char>);

/// The pairs a metro search considers, in order: first origin to first destination,
/// then every further origin to every further destination (a single code stands in
/// for its own "further" list).
pub open spec fn route_candidates(origins: Seq<String>, dests: Seq<String>) -> Seq<CodePair> {
    let first: Seq<CodePair> = if origins.len() > 0 && dests.len() > 0 {
        seq![(origins[0]@, dests[0]@)]
    } else {
        Seq::empty()
    };
    let xo = if origins.len() > 1 { origins.subrange(1, origins.len() as int) } else { origins };
    let xd = if dests.len() > 1 { dests.subrange(1, dests.len() as int) } else { dests };
    first + Seq::new(xo.len() * xd.len(), |k: int| (xo[k / (xd.len() as int)]@, xd[k % (xd.len() as int)]@))
}

/// The upper-cased key of a pair.
pub open spec fn pair_key(p: CodePair) -> CodePair {
    (to_upper(p.0), to_upper(p.1))
}

/// The candidates kept in order: both codes present, different once upper-cased,
/// and not already kept up to case.
pub open spec fn distinct_pairs(c: Seq<CodePair>) -> Seq<CodePair>
    decreases c.len(),
{
    if c.len() == 0 {
        Seq::empty()
    } else {
        let prev = distinct_pairs(c.drop_last());
        let p = c.last();
        if p.0.len() > 0 && p.1.len() > 0 && to_upper(p.0) != to_upper(p.1)
            && !prev.map_values(|q: CodePair| pair_key(q)).contains(pair_key(p)) {
            prev.push(p)
        } else {
            prev
        }
    }
}

pub open spec fn pairs_view(v: Seq<(String, String)>) -> Seq<CodePair> {
    v.map_values(|p: (String, String)| (p.0@, p.1@))
}

fn key_seen(seen: &Vec<(String, String)>, k: &(String, String)) -> (r: bool)
    ensures
        r == pairs_view(seen@).contains((k.0@, k.1@)),
{
    let mut i: usize = 0;
    while i < seen.len()
        invariant
            i <= seen@.len(),
            forall|j: int| 0 <= j < i ==> pairs_view(seen@)[j] != (k.0@, k.1@),
        decreases seen@.len() - i,
    {
        if seen[i].0 == k.0 && seen[i].1 == k.1 {
            assert(pairs_view(seen@)[i as int] == (k.0@, k.1@));
            return true;
        }
        i = i + 1;
    }
    false
}

fn clone_pair(p: (&String, &String)) -> (r: (String, String))
    ensures
        r.0 == *p.0,
        r.1 == *p.1,
{
    (p.0.clone(), p.1.clone())
}

/// Shop pairs for a metro search: at most `limit` distinct pairs.
fn route_pairs_limit(origins: &[String], dests: &[String], limit: usize) -> (r: Vec<(String, String)>)
    ensures
        pairs_view(r@) == ({
            let all = distinct_pairs(route_candidates(origins@, dests@));
            if limit < all.len() { all.subrange(0, limit as int) } else { all }
        }),
{
    let ghost cands = route_candidates(origins@, dests@);
    let mut cand: Vec<(String, String)> = Vec::new();
    if origins.len() > 0 && dests.len() > 0 {
        cand.push(clone_pair((&origins[0], &dests[0])));
    }
    let ghost first = cand@;
    let o_lo: usize = if origins.len() > 1 { 1 } else { 0 };
    let d_lo: usize = if dests.len() > 1 { 1 } else { 0 };
    let o_len = origins.len();
    let d_len = dests.len();
    let o_n = o_len - o_lo;
    let d_n = d_len - d_lo;
    let ghost xo = if origins@.len() > 1 { origins@.subrange(1, origins@.len() as int) } else { origins@ };
    let ghost xd = if dests@.len() > 1 { dests@.subrange(1, dests@.len() as int) } else { dests@ };
    let ghost grid = Seq::new(xo.len() * xd.len(), |k: int| (xo[k / (xd.len() as int)]@, xd[k % (xd.len() as int)]@));
    assert(pairs_view(first) + grid =~= cands);
    assert(grid.subrange(0, 0) =~= Seq::<CodePair>::empty());
    assert(pairs_view(cand@) =~= pairs_view(first) + grid.subrange(0, 0));
    assert forall|k: int| 0 <= k < o_n implies xo[k] == origins@[o_lo + k] by {}
    assert forall|k: int| 0 <= k < d_n implies xd[k] == dests@[d_lo + k] by {}
    let mut a: usize = 0;
    assert(a * d_n == 0) by (nonlinear_arith) requires a == 0;
    while a < o_n
        invariant
            o_lo + o_n == origins@.len(),
            d_lo + d_n == dests@.len(),
            o_len == origins@.len(),
            d_len == dests@.len(),
            xo.len() == o_n,
            xd.len() == d_n,
            forall|k: int| 0 <= k < o_n ==> xo[k] == origins@[o_lo + k],
            forall|k: int| 0 <= k < d_n ==> xd[k] == dests@[d_lo + k],
            a <= o_n,
            grid == Seq::new(xo.len() * xd.len(), |k: int| (xo[k / (xd.len() as int)]@, xd[k % (xd.len() as int)]@)),
            pairs_view(cand@) == pairs_view(first) + grid.subrange(0, a * d_n),
        decreases o_n - a,
    {
        let mut b: usize = 0;
        while b < d_n
            invariant
                o_lo + o_n == origins@.len(),
                d_lo + d_n == dests@.len(),
                o_len == origins@.len(),
                d_len == dests@.len(),
                xo.len() == o_n,
                xd.len() == d_n,
                forall|k: int| 0 <= k < o_n ==> xo[k] == origins@[o_lo + k],
                forall|k: int| 0 <= k < d_n ==> xd[k] == dests@[d_lo + k],
                a < o_n,
                b <= d_n,
                grid == Seq::new(xo.len() * xd.len(), |k: int| (xo[k / (xd.len() as int)]@, xd[k % (xd.len() as int)]@)),
                pairs_view(cand@) == pairs_view(first) + grid.subrange(0, a * d_n + b),
            decreases d_n - b,
        {
            let ghost before = cand@;
            cand.push(clone_pair((&origins[o_lo + a], &dests[d_lo + b])));
            proof {
                let k = a * d_n + b;
                assert(k < xo.len() * xd.len()) by (nonlinear_arith)
                    requires a < xo.len(), b < xd.len(), k == a * xd.len() + b;
                assert(k / (xd.len() as int) == a as int && k % (xd.len() as int) == b as int) by (nonlinear_arith)
                    requires b < xd.len(), k == a * xd.len() + b, 0 <= a, 0 <= b;
                assert(grid[k] == (xo[a as int]@, xd[b as int]@));
                assert(pairs_view(cand@) =~= pairs_view(before).push(grid[k]));
                assert(grid.subrange(0, k + 1) =~= grid.subrange(0, k).push(grid[k]));
            }
            b = b + 1;
        }
        assert(a * d_n + d_n == (a + 1) * d_n) by (nonlinear_arith);
        a = a + 1;
    }
    assert(o_n * d_n == grid.len()) by (nonlinear_arith)
        requires grid.len() == xo.len() * xd.len(), xo.len() == o_n, xd.len() == d_n;
    assert(grid.subrange(0, o_n * d_n) =~= grid);
    assert(pairs_view(cand@) == cands);
    // keep the distinct pairs in order
    let mut out: Vec<(String, String)> = Vec::new();
    let mut seen: Vec<(String, String)> = Vec::new();
    let mut i: usize = 0;
    while i < cand.len()
        invariant
            i <= cand@.len(),
            pairs_view(cand@) == cands,
            pairs_view(out@) == distinct_pairs(cands.subrange(0, i as int)),
            pairs_view(seen@) == pairs_view(out@).map_values(|q: CodePair| pair_key(q)),
        decreases cand@.len() - i,
    {
        let ghost pre = cands.subrange(0, i as int);
        assert(cands.subrange(0, i + 1).drop_last() =~= pre);
        let o = &cand[i].0;
        let d = &cand[i].1;
        let ko = upper(o.as_str());
        let kd = upper(d.as_str());
        let key = (ko, kd);
        let add = !o.as_str().is_empty() && !d.as_str().is_empty() && key.0 != key.1 && !key_seen(&seen, &key);
        assert(pairs_view(cand@)[i as int] == cands[i as int]);
        if add {
            let ghost bo = out@;
            let ghost bs = seen@;
            out.push(clone_pair((o, d)));
            seen.push(key);
            assert(pairs_view(out@) =~= pairs_view(bo).push((o@, d@)));
            assert(pairs_view(seen@) =~= pairs_view(bs).push((ko@, kd@)));
            assert(pairs_view(seen@) =~= pairs_view(out@).map_values(|q: CodePair| pair_key(q)));
        }
        i = i + 1;
    }
    assert(cands.subrange(0, cand@.len() as int) =~= cands);
    out.truncate(limit);
    out
}

/// At most eight distinct shop pairs for a metro search.
pub fn _route_pairs(origins: &[String], dests: &[String]) -> (r: Vec<(String, String)>)
    ensures
        pairs_view(r@) == ({
            let all = distinct_pairs(route_candidates(origins@, dests@));
            if 8 < all.len() { all.subrange(0, 8) } else { all }
        }),
{
    route_pairs_limit(origins, dests, 8)
}

/// See [`_route_pairs`].
pub fn route_pairs(origins: &[String], dests: &[String]) -> (r: Vec<(String, String)>)
    ensures
        pairs_view(r@) == ({
            let all = distinct_pairs(route_candidates(origins@, dests@));
            if 8 < all.len() { all.subrange(0, 8) } else { all }
        }),
{
    _route_pairs(origins, dests)
}

/// The character sequence `city`.
pub open spec fn city_kind() -> Seq<char> {
    seq!['c', 'i', 't', 'y']
}

fn is_city(place: &Airport) -> (r: bool)
    ensures
        r == (place.type_@ == city_kind()),
{
    let c = "city";
    proof {
        reveal_strlit("city");
        assert(c@ =~= city_kind());
    }
    str_eq(place.type_.as_str(), c)
}

/// The codes to shop for a place: a city shops its own code, then its member airports
/// (non-empty, first occurrence), at most four; an airport shops its own code.
pub open spec fn shop_tokens_of(place: Airport) -> Seq<Seq<char>> {
    if place.type_@ == city_kind() {
        let base: Seq<Seq<char>> = if place.iata@.len() > 0 { seq![place.iata@] } else { Seq::empty() };
        let all = add_members(base, views(place.members@));
        let cut = if all.len() > 4 { all.subrange(0, 4) } else { all };
        if cut.len() == 0 { seq![place.iata@] } else { cut }
    } else {
        seq![place.iata@]
    }
}

/// `base` followed by each non-empty member not already present.
pub open spec fn add_members(base: Seq<Seq<char>>, members: Seq<Seq<char>>) -> Seq<Seq<char>>
    decreases members.len(),
{
    if members.len() == 0 {
        base
    } else {
        let prev = add_members(base, members.drop_last());
        let m = members.last();
        if m.len() > 0 && !prev.contains(m) { prev.push(m) } else { prev }
    }
}

pub fn shop_tokens(place: &Airport) -> (r: Vec<String>)
    ensures
        views(r@) == shop_tokens_of(*place),
{
    if !is_city(place) {
        let mut v: Vec<String> = Vec::new();
        v.push(place.iata.clone());
        assert(views(v@) =~= seq![place.iata@]);
        return v;
    }
    let mut tokens: Vec<String> = Vec::new();
    if !place.iata.as_str().is_empty() {
        tokens.push(place.iata.clone());
    }
    let ghost base = views(tokens@);
    assert(base =~= (if place.iata@.len() > 0 { seq![place.iata@] } else { Seq::<Seq<char>>::empty() }));
    let mut i: usize = 0;
    while i < place.members.len()
        invariant
            i <= place.members@.len(),
            views(tokens@) == add_members(base, views(place.members@.subrange(0, i as int))),
        decreases place.members@.len() - i,
    {
        let ghost pre = views(place.members@.subrange(0, i as int));
        assert(views(place.members@.subrange(0, i + 1)).drop_last() =~= pre);
        let m = &place.members[i];
        if !m.as_str().is_empty() && !contains_string(&tokens, m) {
            let ghost b = tokens@;
            tokens.push(m.clone());
            assert(views(tokens@) =~= views(b).push(m@));
        }
        proof {
            assert(code_set(tokens@) == views(tokens@).to_set());
        }
        i = i + 1;
    }
    assert(place.members@.subrange(0, place.members@.len() as int) =~= place.members@);
    tokens.truncate(4);
    if tokens.len() == 0 {
        let mut v: Vec<String> = Vec::new();
        v.push(place.iata.clone());
        assert(views(v@) =~= seq![place.iata@]);
        return v;
    }
    tokens
}

/// The airports of a place: its members, or its own code when it has none.
pub open spec fn members_spec(place: Airport) -> Seq<Seq<char>> {
    if place.members@.len() == 0 { seq![place.iata@] } else { views(place.members@) }
}

pub fn members_of(place: &Airport) -> (r: Vec<String>)
    ensures
        views(r@) == members_spec(*place),
{
    if place.members.len() == 0 {
        let mut v: Vec<String> = Vec::new();
        v.push(place.iata.clone());
        assert(views(v@) =~= seq![place.iata@]);
        v
    } else {
        let v = clone_strings(&place.members);
        v
    }
}

/// The key of a place: its place id, or its code when it has none.
pub open spec fn place_key_spec(a: Airport) -> Seq<char> {
    if a.place_id@.len() == 0 { a.iata@ } else { a.place_id@ }
}

/// Two places are the same when their keys match, or one is a city whose airports
/// include the other's code.
pub open spec fn same_place_spec(a: Airport, b: Airport) -> bool {
    ||| place_key_spec(a) == place_key_spec(b)
    ||| (a.type_@ == city_kind() && members_spec(a).contains(b.iata@))
    ||| (b.type_@ == city_kind() && members_spec(b).contains(a.iata@))
}

pub fn same_place(a: &Airport, b: &Airport) -> (r: bool)
    ensures
        r == same_place_spec(*a, *b),
{
    let ka = if a.place_id.as_str().is_empty() { &a.iata } else { &a.place_id };
    let kb = if b.place_id.as_str().is_empty() { &b.iata } else { &b.place_id };
    if *ka == *kb {
        return true;
    }
    let am = members_of(a);
    let bm = members_of(b);
    if is_city(a) && contains_string(&am, &b.iata) {
        return true;
    }
    if is_city(b) && contains_string(&bm, &a.iata) {
        return true;
    }
    proof {
        assert(code_set(am@) == views(am@).to_set());
        assert(code_set(bm@) == views(bm@).to_set());
    }
    false
}

/// A copy of a shop request.
pub fn clone_shop(req: &ShopRequest) -> (r: ShopRequest)
    ensures
        r == *req,
{
    req.clone()
}

/// A copy of a shop request for another origin and destination.
pub fn shop_at(req: &ShopRequest, origin: &str, dest: &str) -> (r: ShopRequest)
    ensures
        r == (ShopRequest { origin: r.origin, dest: r.dest, ..*req }),
        r.origin@ == origin@,
        r.dest@ == dest@,
{
    let mut r = clone_shop(req);
    r.origin = origin.to_owned();
    r.dest = dest.to_owned();
    r
}

/// The characters `self-transfer`.
pub open spec fn self_transfer_name() -> Seq<char> {
    seq!['s', 'e', 'l', 'f', '-', 't', 'r', 'a', 'n', 's', 'f', 'e', 'r']
}

/// A stitched self-transfer offer.
pub open spec fn self_transfer(o: Offer) -> bool {
    o.kind@ == self_transfer_name() || o.source@ == self_transfer_name()
}

pub fn _is_self_transfer(offer: &Offer) -> (r: bool)
    ensures
        r == self_transfer(*offer),
{
    let st = "self-transfer";
    proof {
        reveal_strlit("self-transfer");
        assert(st@ =~= self_transfer_name());
    }
    str_eq(offer.kind.as_str(), st) || str_eq(offer.source.as_str(), st)
}

pub fn _is_sandbox(offer: &Offer) -> (r: bool)
    ensures
        r == sandbox_offer(*offer),
{
    is_sandbox_offer(offer)
}

/// The offers that are not sandbox inventory.
pub fn _drop_sandbox(offers: &[Offer]) -> (r: Vec<Offer>)
    ensures
        kept(offers@, r@, |o: Offer| !sandbox_offer(o)),
{
    let mut mask: Vec<bool> = Vec::new();
    let mut i: usize = 0;
    while i < offers.len()
        invariant
            i <= offers@.len(),
            mask@.len() == i,
            forall|k: int| 0 <= k < i ==> mask@[k] == !sandbox_offer(#[trigger] offers@[k]),
        decreases offers@.len() - i,
    {
        mask.push(!is_sandbox_offer(&offers[i]));
        i = i + 1;
    }
    keep_where(offers, &mask, Ghost(|o: Offer| !sandbox_offer(o)))
}

/// See [`_drop_sandbox`].
pub fn take_drop_sandbox(offers: Vec<Offer>) -> (r: Vec<Offer>)
    ensures
        kept(offers@, r@, |o: Offer| !sandbox_offer(o)),
{
    _drop_sandbox(offers.as_slice())
}

/// Whether `code` is in a set of codes exactly or up to ASCII case.
pub open spec fn in_codes(codes: Seq<String>, code: Seq<char>) -> bool {
    code_set(codes).contains(code) || exists|i: int| 0 <= i < codes.len() && eq_ignore_case(#[trigger] codes[i]@, code)
}

fn in_codes_exec(codes: &Vec<String>, code: &String) -> (r: bool)
    ensures
        r == in_codes(codes@, code@),
{
    if contains_string(codes, code) {
        return true;
    }
    let mut i: usize = 0;
    while i < codes.len()
        invariant
            i <= codes@.len(),
            forall|j: int| 0 <= j < i ==> !eq_ignore_case(#[trigger] codes@[j]@, code@),
        decreases codes@.len() - i,
    {
        if eq_ignore_ascii_case(codes[i].as_str(), code.as_str()) {
            return true;
        }
        i = i + 1;
    }
    false
}

/// An offer on the searched route: it leaves from one of the origins and is sold to
/// one of the destinations.
pub open spec fn on_route(o: Offer, origins: Seq<String>, dests: Seq<String>) -> bool {
    o.segments@.len() > 0 && in_codes(origins, to_upper(o.segments@[0].origin@)) && in_codes(dests, ticketed(o))
}

pub fn _on_route(offer: &Offer, origins: &Vec<String>, dests: &Vec<String>) -> (r: bool)
    ensures
        r == on_route(*offer, origins@, dests@),
{
    if offer.segments.len() == 0 {
        return false;
    }
    let origin = upper(offer.segments[0].origin.as_str());
    let t = ticketed_destination(offer);
    in_codes_exec(origins, &origin) && in_codes_exec(dests, &t)
}

/// The offers on the searched route.
pub fn _keep_on_route(offers: &[Offer], origins: &Vec<String>, dests: &Vec<String>) -> (r: Vec<Offer>)
    ensures
        kept(offers@, r@, |o: Offer| on_route(o, origins@, dests@)),
{
    let mut mask: Vec<bool> = Vec::new();
    let mut i: usize = 0;
    while i < offers.len()
        invariant
            i <= offers@.len(),
            mask@.len() == i,
            forall|k: int| 0 <= k < i ==> mask@[k] == on_route(#[trigger] offers@[k], origins@, dests@),
        decreases offers@.len() - i,
    {
        mask.push(_on_route(&offers[i], origins, dests));
        i = i + 1;
    }
    keep_where(offers, &mask, Ghost(|o: Offer| on_route(o, origins@, dests@)))
}

/// Whether an offer is priced strictly below a ceiling; with no ceiling every offer passes.
pub open spec fn under_ceiling(o: Offer, ceiling: Option<i64>) -> bool {
    match ceiling {
        Some(c) => o.price matches Some(p) && p < c,
        None => true,
    }
}

/// Separate-ticket trips are only worth showing when they undercut the honest fare:
/// with the honest price as ceiling, keeps the offers priced strictly below it (an
/// unpriced offer goes); with no honest price, keeps them all.
pub fn below_honest(offers: &[Offer], ceiling: Option<i64>) -> (r: Vec<Offer>)
    ensures
        kept(offers@, r@, |o: Offer| under_ceiling(o, ceiling)),
{
    let mut mask: Vec<bool> = Vec::new();
    let mut i: usize = 0;
    while i < offers.len()
        invariant
            i <= offers@.len(),
            mask@.len() == i,
            forall|k: int| 0 <= k < i ==> mask@[k] == under_ceiling(#[trigger] offers@[k], ceiling),
        decreases offers@.len() - i,
    {
        let keep = match ceiling {
            Some(c) => match offers[i].price {
                Some(p) => p < c,
                None => false,
            },
            None => true,
        };
        mask.push(keep);
        i = i + 1;
    }
    keep_where(offers, &mask, Ghost(|o: Offer| under_ceiling(o, ceiling)))
}

/// Drop test-carrier offers when any real-carrier offer is present.
pub open spec fn prefer_real(offers: Seq<Offer>, out: Seq<Offer>) -> bool {
    if exists|i: int| 0 <= i < offers.len() && !test_carrier(#[trigger] offers[i].carrier@) {
        kept(offers, out, |o: Offer| !test_carrier(o.carrier@))
    } else {
        kept(offers, out, |o: Offer| true)
    }
}

pub fn _prefer_real_carriers(offers: Vec<Offer>) -> (r: Vec<Offer>)
    ensures
        prefer_real(offers@, r@),
{
    take_prefer_real_carriers(offers)
}

pub fn take_prefer_real_carriers(offers: Vec<Offer>) -> (r: Vec<Offer>)
    ensures
        prefer_real(offers@, r@),
{
    let mut mask: Vec<bool> = Vec::new();
    let mut any_real = false;
    let mut i: usize = 0;
    while i < offers.len()
        invariant
            i <= offers@.len(),
            mask@.len() == i,
            forall|k: int| 0 <= k < i ==> mask@[k] == !test_carrier(#[trigger] offers@[k].carrier@),
            any_real == exists|k: int| 0 <= k < i && !test_carrier(#[trigger] offers@[k].carrier@),
        decreases offers@.len() - i,
    {
        let is_real = !is_test_carrier(offers[i].carrier.as_str());
        mask.push(is_real);
        if is_real {
            any_real = true;
        }
        i = i + 1;
    }
    if any_real {
        keep_where(offers.as_slice(), &mask, Ghost(|o: Offer| !test_carrier(o.carrier@)))
    } else {
        let mut all: Vec<bool> = Vec::new();
        let mut j: usize = 0;
        while j < offers.len()
            invariant
                j <= offers@.len(),
                all@.len() == j,
                forall|k: int| 0 <= k < j ==> all@[k] == true,
            decreases offers@.len() - j,
        {
            all.push(true);
            j = j + 1;
        }
        keep_where(offers.as_slice(), &all, Ghost(|o: Offer| true))
    }
}

/// The characters ` UTC`.
pub open spec fn utc_suffix() -> Seq<char> {
    seq![' ', 'U', 'T', 'C']
}

/// `s` with every trailing ` UTC` removed, as `str::trim_end_matches(" UTC")`.
pub open spec fn strip_utc(s: Seq<char>) -> Seq<char>
    decreases s.len(),
{
    if s.len() >= 4 && s.subrange(s.len() - 4, s.len() as int) == utc_suffix() {
        strip_utc(s.subrange(0, s.len() - 4))
    } else {
        s
    }
}

/// `s` with each space made a `T`.
pub open spec fn spaces_to_t(s: Seq<char>) -> Seq<char> {
    s.map_values(|c: char| if c == ' ' { 'T' } else { c })
}

/// When an offer was retrieved, read from its stamp: RFC 3339 as written, or with a
/// `Z` appended, or with a trailing ` UTC` dropped, spaces made `T` and `Z` appended.
pub open spec fn retrieved_instant(raw: Seq<char>) -> Option<Instant> {
    let t = trim_spec(raw);
    if t.len() == 0 {
        None
    } else if rfc3339_instant(t) is Some {
        rfc3339_instant(t)
    } else if rfc3339_instant(t.push('Z')) is Some {
        rfc3339_instant(t.push('Z'))
    } else {
        rfc3339_instant(spaces_to_t(trim_spec(strip_utc(t))).push('Z'))
    }
}

fn strip_utc_exec(s: &str) -> (r: String)
    ensures
        r@ == strip_utc(s@),
{
    let x = chars_of(s);
    let mut n: usize = x.len();
    assert(s@.subrange(0, n as int) =~= s@);
    while n >= 4 && x[n - 4] == ' ' && x[n - 3] == 'U' && x[n - 2] == 'T' && x[n - 1] == 'C'
        invariant
            x@ == s@,
            n <= x@.len(),
            strip_utc(s@) == strip_utc(s@.subrange(0, n as int)),
        decreases n,
    {
        let ghost t = s@.subrange(0, n as int);
        assert(t.subrange(t.len() - 4, t.len() as int) =~= utc_suffix());
        assert(t.subrange(0, t.len() - 4) =~= s@.subrange(0, n - 4));
        n = n - 4;
    }
    let ghost t = s@.subrange(0, n as int);
    assert(!(t.len() >= 4 && t.subrange(t.len() - 4, t.len() as int) == utc_suffix())) by {
        if t.len() >= 4 && t.subrange(t.len() - 4, t.len() as int) == utc_suffix() {
            assert(t.subrange(t.len() - 4, t.len() as int)[0] == ' ');
            assert(t.subrange(t.len() - 4, t.len() as int)[1] == 'U');
            assert(t.subrange(t.len() - 4, t.len() as int)[2] == 'T');
            assert(t.subrange(t.len() - 4, t.len() as int)[3] == 'C');
        }
    }
    let mut out: Vec<char> = Vec::new();
    let mut i: usize = 0;
    while i < n
        invariant
            x@ == s@,
            n <= x@.len(),
            i <= n,
            out@ == s@.subrange(0, i as int),
        decreases n - i,
    {
        out.push(x[i]);
        i = i + 1;
        assert(out@ =~= s@.subrange(0, i as int));
    }
    string_from(out.as_slice())
}

fn spaces_to_t_exec(s: &str) -> (r: String)
    ensures
        r@ == spaces_to_t(s@),
{
    let x = chars_of(s);
    let mut out: Vec<char> = Vec::new();
    let mut i: usize = 0;
    while i < x.len()
        invariant
            x@ == s@,
            i <= x@.len(),
            out@ == spaces_to_t(s@).subrange(0, i as int),
        decreases x@.len() - i,
    {
        out.push(if x[i] == ' ' { 'T' } else { x[i] });
        i = i + 1;
        assert(out@ =~= spaces_to_t(s@).subrange(0, i as int));
    }
    assert(out@ =~= spaces_to_t(s@));
    string_from(out.as_slice())
}

fn with_z(s: &str) -> (r: String)
    ensures
        r@ == s@.push('Z'),
{
    proof {
        reveal_strlit("Z");
    }
    let r = cat(s, "Z");
    assert(r@ =~= s@.push('Z'));
    r
}

/// See [`retrieved_instant`].
pub fn parse_retrieved_at(raw: &str) -> (r: Option<Instant>)
    ensures
        r == retrieved_instant(raw@),
        r matches Some(t) ==> instant_ok(t),
{
    let t = trim(raw);
    if t.as_str().is_empty() {
        return None;
    }
    if let Some(d) = parse_rfc3339(t.as_str()) {
        return Some(d);
    }
    let tz = with_z(t.as_str());
    if let Some(d) = parse_rfc3339(tz.as_str()) {
        return Some(d);
    }
    let stripped = strip_utc_exec(t.as_str());
    let trimmed = trim(stripped.as_str());
    let compact = spaces_to_t_exec(trimmed.as_str());
    let cz = with_z(compact.as_str());
    parse_rfc3339(cz.as_str())
}

/// How long ago, in whole seconds, the offer was retrieved, judged at `now`.
pub open spec fn age_at(o: Offer, now: Instant) -> Option<int> {
    match o.retrieved_at {
        None => None,
        Some(raw) => match retrieved_instant(trim_spec(raw@)) {
            None => None,
            Some(t) => Some(seconds_between(t, now)),
        },
    }
}

/// The longest a reused live fare may have been held, in seconds.
pub open spec fn honest_live_max_age() -> int {
    60
}

/// A live fare retrieved at most a minute before `now`.
pub open spec fn fresh_live_at(o: Offer, now: Instant) -> bool {
    live_fare(o) && (age_at(o, now) matches Some(a) && a <= honest_live_max_age())
}

pub fn offer_age_secs(offer: &Offer, now: &Instant) -> (r: Option<i64>)
    requires
        instant_ok(*now),
    ensures
        r matches Some(a) ==> age_at(*offer, *now) == Some(a as int),
        r is None ==> age_at(*offer, *now) is None,
{
    let raw = match &offer.retrieved_at {
        Some(s) => s,
        None => return None,
    };
    let t = trim(raw.as_str());
    match parse_retrieved_at(t.as_str()) {
        Some(p) => Some(secs_between(&p, now)),
        None => None,
    }
}

pub fn is_fresh_live_honest(offer: &Offer, now: &Instant) -> (r: bool)
    requires
        instant_ok(*now),
    ensures
        r == fresh_live_at(*offer, *now),
{
    if !is_live_fare(offer) {
        return false;
    }
    match offer_age_secs(offer, now) {
        Some(a) => a <= 60,
        None => false,
    }
}

/// Whether an indexed honest fare can be reused at `now`: never with the mock
/// supplier on or without a live Duffel key; otherwise when some offer is a live fare
/// at most a minute old.
pub open spec fn reuse_at(offers: Seq<Offer>, now: Instant, mock_enabled: bool, duffel_live: bool) -> bool {
    !mock_enabled && duffel_live && exists|i: int| 0 <= i < offers.len() && fresh_live_at(#[trigger] offers[i], now)
}

/// See [`reuse_at`].
pub fn reuse_indexed_honest_at(offers: &[Offer], now: &Instant, mock_enabled: bool, duffel_live: bool) -> (r: bool)
    requires
        instant_ok(*now),
    ensures
        r == reuse_at(offers@, *now, mock_enabled, duffel_live),
{
    if mock_enabled || !duffel_live {
        return false;
    }
    let mut i: usize = 0;
    while i < offers.len()
        invariant
            instant_ok(*now),
            !mock_enabled && duffel_live,
            i <= offers@.len(),
            forall|j: int| 0 <= j < i ==> !fresh_live_at(#[trigger] offers@[j], *now),
        decreases offers@.len() - i,
    {
        if is_fresh_live_honest(&offers[i], now) {
            return true;
        }
        i = i + 1;
    }
    false
}

/// Whether an indexed honest fare can be reused now (see [`reuse_at`]); the clock is
/// read once, so the answer is that of some instant.
pub fn _reuse_indexed_honest(offers: &[Offer], mock_enabled: bool, duffel_live: bool) -> (r: bool)
    ensures
        (mock_enabled || !duffel_live) ==> !r,
        exists|now: Instant| instant_ok(now) && r == #[trigger] reuse_at(offers@, now, mock_enabled, duffel_live),
{
    if mock_enabled || !duffel_live {
        let epoch = Instant { secs: 0, nanos: 0 };
        assert(instant_ok(epoch) && !reuse_at(offers@, epoch, mock_enabled, duffel_live));
        return false;
    }
    let now = now_instant();
    let r = reuse_indexed_honest_at(offers, &now, mock_enabled, duffel_live);
    assert(instant_ok(now) && r == reuse_at(offers@, now, mock_enabled, duffel_live));
    r
}

/// An indexed offer that can stand in for the honest fare of a search from `origins`
/// to `dests`: priced, sold to a destination, leaving from an origin, live and fresh.
pub open spec fn reusable_for(o: Offer, origins: Seq<String>, dests: Vec<String>, now: Instant) -> bool {
    &&& o.price is Some
    &&& standard_to(o, &dests)
    &&& o.segments@.len() > 0
    &&& code_set(origins).contains(to_upper(o.segments@[0].origin@))
    &&& fresh_live_at(o, now)
}

/// Whether an indexed honest fare for this search can be reused at `now`.
pub fn reuse_indexed_honest_from(
    offers: &[Offer],
    origin_u: &Vec<String>,
    dests: &Vec<String>,
    now: &Instant,
    mock_enabled: bool,
    duffel_live: bool,
) -> (r: bool)
    requires
        instant_ok(*now),
    ensures
        r == (!mock_enabled && duffel_live && exists|i: int| 0 <= i < offers@.len()
            && reusable_for(#[trigger] offers@[i], origin_u@, *dests, *now)),
{
    if mock_enabled || !duffel_live {
        return false;
    }
    let mut i: usize = 0;
    while i < offers.len()
        invariant
            instant_ok(*now),
            !mock_enabled && duffel_live,
            i <= offers@.len(),
            forall|j: int| 0 <= j < i ==> !reusable_for(#[trigger] offers@[j], origin_u@, *dests, *now),
        decreases offers@.len() - i,
    {
        let o = &offers[i];
        if o.price.is_some() && is_standard_to(o, dests) && o.segments.len() > 0 {
            let origin = upper(o.segments[0].origin.as_str());
            if contains_string(origin_u, &origin) && is_fresh_live_honest(o, now) {
                return true;
            }
        }
        i = i + 1;
    }
    false
}

/// Something that names one airport code or a set of them.
pub trait AsCodes {
    /// The codes named, upper-cased.
    spec fn code_views(&self) -> Set<Seq<char>>;

    fn as_codes(&self) -> (r: Vec<String>)
        ensures
            code_set(r@) == self.code_views(),
    ;
}

impl<'a> AsCodes for &'a str {
    open spec fn code_views(&self) -> Set<Seq<char>> {
        set![to_upper((*self)@)]
    }

    fn as_codes(&self) -> (r: Vec<String>) {
        let mut v: Vec<String> = Vec::new();
        v.push(upper(*self));
        assert(code_set(v@) =~= set![to_upper((*self)@)]) by {
            assert(views(v@) =~= seq![to_upper((*self)@)]);
            assert(views(v@)[0] == to_upper((*self)@));
        }
        v
    }
}

impl AsCodes for String {
    open spec fn code_views(&self) -> Set<Seq<char>> {
        set![to_upper(self@)]
    }

    fn as_codes(&self) -> (r: Vec<String>) {
        let mut v: Vec<String> = Vec::new();
        v.push(upper(self.as_str()));
        assert(code_set(v@) =~= set![to_upper(self@)]) by {
            assert(views(v@) =~= seq![to_upper(self@)]);
            assert(views(v@)[0] == to_upper(self@));
        }
        v
    }
}

/// A set of codes (the list stands for the set).
impl AsCodes for Vec<String> {
    open spec fn code_views(&self) -> Set<Seq<char>> {
        Set::new(|c: Seq<char>| exists|i: int| 0 <= i < self@.len() && c == to_upper(#[trigger] self@[i]@))
    }

    fn as_codes(&self) -> (r: Vec<String>) {
        let mut v: Vec<String> = Vec::new();
        let mut i: usize = 0;
        while i < self.len()
            invariant
                i <= self@.len(),
                v@.len() == i,
                forall|j: int| 0 <= j < i ==> (#[trigger] v@[j])@ == to_upper(self@[j]@),
            decreases self@.len() - i,
        {
            v.push(upper(self[i].as_str()));
            i = i + 1;
        }
        assert(code_set(v@) =~= self.code_views()) by {
            assert forall|c: Seq<char>| code_set(v@).contains(c) implies self.code_views().contains(c) by {
                let j = choose|j: int| 0 <= j < views(v@).len() && views(v@)[j] == c;
                assert(c == to_upper(self@[j]@));
            }
            assert forall|c: Seq<char>| self.code_views().contains(c) implies code_set(v@).contains(c) by {
                let j = choose|j: int| 0 <= j < self@.len() && c == to_upper(#[trigger] self@[j]@);
                assert(views(v@)[j] == c);
            }
        }
        v
    }
}

/// A set of code slices (the list stands for the set).
impl<'a> AsCodes for Vec<&'a str> {
    open spec fn code_views(&self) -> Set<Seq<char>> {
        Set::new(|c: Seq<char>| exists|i: int| 0 <= i < self@.len() && c == to_upper(#[trigger] self@[i]@))
    }

    fn as_codes(&self) -> (r: Vec<String>) {
        let mut v: Vec<String> = Vec::new();
        let mut i: usize = 0;
        while i < self.len()
            invariant
                i <= self@.len(),
                v@.len() == i,
                forall|j: int| 0 <= j < i ==> (#[trigger] v@[j])@ == to_upper(self@[j]@),
            decreases self@.len() - i,
        {
            v.push(upper(self[i]));
            i = i + 1;
        }
        assert(code_set(v@) =~= self.code_views()) by {
            assert forall|c: Seq<char>| code_set(v@).contains(c) implies self.code_views().contains(c) by {
                let j = choose|j: int| 0 <= j < views(v@).len() && views(v@)[j] == c;
                assert(c == to_upper(self@[j]@));
            }
            assert forall|c: Seq<char>| self.code_views().contains(c) implies code_set(v@).contains(c) by {
                let j = choose|j: int| 0 <= j < self@.len() && c == to_upper(#[trigger] self@[j]@);
                assert(views(v@)[j] == c);
            }
        }
        v
    }
}

/// An A→B→C ticket that a traveller can leave at B: it leaves from one of the
/// origins, is sold to C (itself not a B), and stops at one of the Bs on the way.
pub open spec fn via_b<A: AsCodes, B: AsCodes>(o: Offer, origin: A, dest_b: B, dest_c: Seq<char>) -> bool {
    &&& o.segments@.len() > 0
    &&& origin.code_views().contains(to_upper(o.segments@[0].origin@))
    &&& ticketed(o) == to_upper(dest_c)
    &&& !dest_b.code_views().contains(to_upper(dest_c))
    &&& exists|bs: Vec<String>| code_set(bs@) == dest_b.code_views() && #[trigger] hidden_exit(o, &bs) is Some
}

/// Whether the ticket gets a traveller from an origin to a B by being left at B.
pub fn _via_b<A: AsCodes, B: AsCodes>(offer: &Offer, origin: A, dest_b: B, dest_c: &str) -> (r: bool)
    ensures
        r == via_b(*offer, origin, dest_b, dest_c@),
{
    if offer.segments.len() == 0 {
        return false;
    }
    let origins = origin.as_codes();
    let dests = dest_b.as_codes();
    let o = upper(offer.segments[0].origin.as_str());
    if !contains_string(&origins, &o) {
        return false;
    }
    let t = ticketed_destination(offer);
    let c = upper(dest_c);
    if !str_eq(t.as_str(), c.as_str()) || contains_string(&dests, &c) {
        return false;
    }
    let hit = detect_hidden_city(offer, &dests);
    proof {
        if hit is None {
            assert forall|bs: Vec<String>| code_set(bs@) == dest_b.code_views() implies !(#[trigger] hidden_exit(*offer, &bs) is Some) by {
                lemma_exit_by_codes(*offer, bs, dests);
            }
        }
    }
    hit.is_some()
}

/// Hidden-city detection against a set of codes depends only on the set.
pub proof fn lemma_exit_by_codes(o: Offer, a: Vec<String>, b: Vec<String>)
    requires
        code_set(a@) == code_set(b@),
    ensures
        hidden_exit(o, &a) == hidden_exit(o, &b),
{
    lemma_first_exit_by_codes(o, a, b, 0);
}

proof fn lemma_first_exit_by_codes(o: Offer, a: Vec<String>, b: Vec<String>, i: int)
    requires
        code_set(a@) == code_set(b@),
    ensures
        first_exit_from(o, &a, i) == first_exit_from(o, &b, i),
    decreases o.segments@.len() - i,
{
    if 0 <= i < o.segments@.len() - 1 {
        lemma_first_exit_by_codes(o, a, b, i + 1);
    }
}

/// The nonstop between two metro places is shopped only on the first pair, and
/// only when one side is a city (a metro code).
pub fn _needs_city_nonstop(origin_place: &Airport, dest_place: &Airport, pair_index: usize) -> (r: bool)
    ensures
        r == (pair_index == 0 && (origin_place.type_@ == city_kind() || dest_place.type_@ == city_kind())),
{
    proof { reveal_strlit("city"); }
    assert("city"@ =~= city_kind());
    pair_index == 0 && (str_eq(origin_place.type_.as_str(), "city") || str_eq(dest_place.type_.as_str(), "city"))
}

} // verus!
