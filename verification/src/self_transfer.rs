//! Self-transfer itineraries: separate tickets joined at hubs where the traveller
//! checks in again.
use vstd::prelude::*;
use crate::text::{to_upper, upper, str_eq, utf8_len, byte_len, contains_str, eq_ignore_case, prefix_bytes, byte_prefix, cat, decimal, int_text};
use crate::models::{Offer, Segment, SeparateTicket, cents_ok, max_cents, clone_segments, clone_strings};
use crate::hidden::{Intended, ticketed, ticketed_destination, hidden_exit, detect_hidden_city, standard_to, is_standard_to};
use crate::hidden::{views, code_set, contains_string};
use crate::times::{
    Instant, instant_ok, seconds_between, trunc_div, rfc3339_instant, naive_instant, parse_rfc3339, parse_naive,
    replace_z, z_to_offset, secs_between, iso_next_day, day_after,
};
use crate::index::{upper_all, in_upper};
use crate::order::{sorted_by, sort_order, is_perm, lex_lt};
use crate::picks::key_views;
use crate::candidates::{text_key, first_n, text_key_of};

verus! {

/// The shortest self-transfer, in minutes.
pub open spec fn min_transfer_min() -> int {
    150
}

/// The longest self-transfer, in minutes (22 hours).
pub open spec fn max_transfer_min() -> int {
    1320
}

/// The day after an ISO date; the date itself when chrono cannot read it.
pub fn next_day(date: &str) -> (r: String)
    ensures
        r@ == match iso_next_day(date@) {
            Some(d) => d,
            None => date@,
        },
{
    match day_after(date) {
        Some(d) => d,
        None => date.to_owned(),
    }
}

/// A time read from a flight: `Z` made `+00:00`, then RFC 3339, or a plain date-time
/// with or without seconds read as UTC.
pub open spec fn flight_time(raw: Seq<char>) -> Option<Instant> {
    if raw.len() == 0 {
        None
    } else {
        let t = z_to_offset(raw);
        if rfc3339_instant(t) is Some {
            rfc3339_instant(t)
        } else if naive_instant(t, "%Y-%m-%dT%H:%M:%S"@) is Some {
            naive_instant(t, "%Y-%m-%dT%H:%M:%S"@)
        } else {
            naive_instant(t, "%Y-%m-%dT%H:%M"@)
        }
    }
}

fn parse_dt(raw: &str) -> (r: Option<Instant>)
    ensures
        r == flight_time(raw@),
        r matches Some(t) ==> instant_ok(t),
{
    if raw.is_empty() {
        return None;
    }
    let text = replace_z(raw);
    if let Some(t) = parse_rfc3339(text.as_str()) {
        return Some(t);
    }
    if let Some(t) = parse_naive(text.as_str(), "%Y-%m-%dT%H:%M:%S") {
        return Some(t);
    }
    parse_naive(text.as_str(), "%Y-%m-%dT%H:%M")
}

/// Minutes from an arrival to a departure (whole seconds divided by 60, truncated,
/// then cut to 32 bits as `as i32` does).
pub open spec fn connection_spec(arr: Seq<char>, dep: Seq<char>) -> Option<i32> {
    match (flight_time(arr), flight_time(dep)) {
        (Some(a), Some(b)) => Some((trunc_div(seconds_between(a, b), 60) as i64) as i32),
        _ => None,
    }
}

pub fn connection_minutes(arr: &str, dep: &str) -> (r: Option<i32>)
    ensures
        r == connection_spec(arr@, dep@),
{
    let a = match parse_dt(arr) {
        Some(t) => t,
        None => return None,
    };
    let b = match parse_dt(dep) {
        Some(t) => t,
        None => return None,
    };
    let s = secs_between(&a, &b);
    let m: i64 = if s >= 0 { s / 60 } else { -((-s) / 60) };
    Some(m as i32)
}

/// The upper-cased three-byte codes of a list, in order.
pub open spec fn three_letter(v: Seq<String>) -> Seq<Seq<char>>
    decreases v.len(),
{
    if v.len() == 0 {
        Seq::empty()
    } else {
        let c = to_upper(v.last()@);
        if utf8_len(c) == 3 { three_letter(v.drop_last()).push(c) } else { three_letter(v.drop_last()) }
    }
}

/// The codes of a list that a set holds, in order.
pub open spec fn held_by(v: Seq<Seq<char>>, set: Set<Seq<char>>) -> Seq<Seq<char>>
    decreases v.len(),
{
    if v.len() == 0 {
        Seq::empty()
    } else if set.contains(v.last()) {
        held_by(v.drop_last(), set).push(v.last())
    } else {
        held_by(v.drop_last(), set)
    }
}

/// The pairs (h, r) for each r of `rights` other than `h`, in order.
pub open spec fn row(h: Seq<char>, rights: Seq<Seq<char>>) -> Seq<(Seq<char>, Seq<char>)>
    decreases rights.len(),
{
    if rights.len() == 0 {
        Seq::empty()
    } else if rights.last() != h {
        row(h, rights.drop_last()).push((h, rights.last()))
    } else {
        row(h, rights.drop_last())
    }
}

/// Every pair of a left hub and a different right hub, lefts first.
pub open spec fn pairs_of(lefts: Seq<Seq<char>>, rights: Seq<Seq<char>>) -> Seq<(Seq<char>, Seq<char>)>
    decreases lefts.len(),
{
    if lefts.len() == 0 {
        Seq::empty()
    } else {
        pairs_of(lefts.drop_last(), rights) + row(lefts.last(), rights)
    }
}

/// Hub pairs for a three-ticket trip: only when both sides are known and no hub is
/// reachable from the origin and onward to the destination at once; then each hub
/// reachable from the origin paired with each other hub that reaches the
/// destination, at most `limit`.
pub open spec fn bridge_spec(hubs: Seq<String>, from_origin: Seq<String>, into_dest: Seq<String>, limit: int)
    -> Seq<(Seq<char>, Seq<char>)> {
    let chosen = three_letter(hubs);
    let from_u = upper_all(from_origin);
    let into_u = upper_all(into_dest);
    if limit == 0 || from_origin.len() == 0 || into_dest.len() == 0 {
        Seq::empty()
    } else if exists|i: int| 0 <= i < chosen.len() && from_u.contains(#[trigger] chosen[i]) && into_u.contains(chosen[i]) {
        Seq::empty()
    } else {
        first_n(pairs_of(held_by(chosen, from_u), held_by(chosen, into_u)), limit)
    }
}

pub open spec fn pair_views(v: Seq<(String, String)>) -> Seq<(Seq<char>, Seq<char>)> {
    v.map_values(|p: (String, String)| (p.0@, p.1@))
}

fn three_letter_of(v: &Vec<String>) -> (r: Vec<String>)
    ensures
        views(r@) == three_letter(v@),
{
    let mut out: Vec<String> = Vec::new();
    let mut i: usize = 0;
    while i < v.len()
        invariant
            i <= v@.len(),
            views(out@) == three_letter(v@.subrange(0, i as int)),
        decreases v@.len() - i,
    {
        assert(v@.subrange(0, i + 1).drop_last() =~= v@.subrange(0, i as int));
        let c = upper(v[i].as_str());
        if byte_len(c.as_str()) == 3 {
            let ghost before = views(out@);
            out.push(c);
            assert(views(out@) =~= before.push(to_upper(v@[i as int]@)));
        }
        i = i + 1;
    }
    assert(v@.subrange(0, v@.len() as int) =~= v@);
    out
}

fn held_by_upper(v: &Vec<String>, set: &Vec<String>) -> (r: Vec<String>)
    ensures
        views(r@) == held_by(views(v@), upper_all(set@)),
{
    let mut out: Vec<String> = Vec::new();
    let mut i: usize = 0;
    while i < v.len()
        invariant
            i <= v@.len(),
            views(out@) == held_by(views(v@).subrange(0, i as int), upper_all(set@)),
        decreases v@.len() - i,
    {
        assert(views(v@).subrange(0, i + 1).drop_last() =~= views(v@).subrange(0, i as int));
        if in_upper(set, &v[i]) {
            let ghost before = views(out@);
            out.push(v[i].clone());
            assert(views(out@) =~= before.push(v@[i as int]@));
        }
        i = i + 1;
    }
    assert(views(v@).subrange(0, v@.len() as int) =~= views(v@));
    out
}

/// See [`bridge_spec`].
pub fn bridge_pairs(hubs: &Vec<String>, from_origin: &Vec<String>, into_dest: &Vec<String>, limit: usize) -> (r: Vec<(String, String)>)
    ensures
        pair_views(r@) == bridge_spec(hubs@, from_origin@, into_dest@, limit as int),
{
    if limit == 0 || from_origin.len() == 0 || into_dest.len() == 0 {
        return Vec::new();
    }
    let chosen = three_letter_of(hubs);
    let mut i: usize = 0;
    while i < chosen.len()
        invariant
            i <= chosen@.len(),
            views(chosen@) == three_letter(hubs@),
            limit != 0 && from_origin@.len() != 0 && into_dest@.len() != 0,
            forall|k: int| 0 <= k < i ==> !(upper_all(from_origin@).contains(#[trigger] views(chosen@)[k])
                && upper_all(into_dest@).contains(views(chosen@)[k])),
        decreases chosen@.len() - i,
    {
        if in_upper(from_origin, &chosen[i]) && in_upper(into_dest, &chosen[i]) {
            assert(views(chosen@)[i as int] == chosen@[i as int]@);
            assert(three_letter(hubs@)[i as int] == chosen@[i as int]@);
            return Vec::new();
        }
        i = i + 1;
    }
    assert(!exists|i: int| 0 <= i < three_letter(hubs@).len() && upper_all(from_origin@).contains(#[trigger] three_letter(hubs@)[i])
        && upper_all(into_dest@).contains(three_letter(hubs@)[i])) by {
        assert(views(chosen@) == three_letter(hubs@));
    }
    let lefts = held_by_upper(&chosen, from_origin);
    let rights = held_by_upper(&chosen, into_dest);
    let ghost lv = views(lefts@);
    let ghost rv = views(rights@);
    let mut out: Vec<(String, String)> = Vec::new();
    let mut a: usize = 0;
    assert(pairs_of(lv.subrange(0, 0), rv) =~= Seq::<(Seq<char>, Seq<char>)>::empty());
    while a < lefts.len()
        invariant
            lv == views(lefts@),
            rv == views(rights@),
            a <= lefts@.len(),
            pair_views(out@) == pairs_of(lv.subrange(0, a as int), rv),
        decreases lefts@.len() - a,
    {
        let ghost start = pair_views(out@);
        let mut b: usize = 0;
        assert(row(lv[a as int], rv.subrange(0, 0)) =~= Seq::<(Seq<char>, Seq<char>)>::empty());
        while b < rights.len()
            invariant
                lv == views(lefts@),
                rv == views(rights@),
                a < lefts@.len(),
                b <= rights@.len(),
                pair_views(out@) == start + row(lv[a as int], rv.subrange(0, b as int)),
            decreases rights@.len() - b,
        {
            assert(rv.subrange(0, b + 1).drop_last() =~= rv.subrange(0, b as int));
            if !str_eq(lefts[a].as_str(), rights[b].as_str()) {
                let ghost before = pair_views(out@);
                out.push((lefts[a].clone(), rights[b].clone()));
                assert(pair_views(out@) =~= before.push((lv[a as int], rv[b as int])));
            }
            b = b + 1;
        }
        assert(rv.subrange(0, rights@.len() as int) =~= rv);
        assert(lv.subrange(0, a + 1).drop_last() =~= lv.subrange(0, a as int));
        a = a + 1;
    }
    assert(lv.subrange(0, lefts@.len() as int) =~= lv);
    if out.len() > limit {
        out.truncate(limit);
    }
    proof {
        assert(pair_views(out@) =~= first_n(pairs_of(lv, rv), limit as int));
    }
    out
}

/// The upper-cased codes of a list.
pub open spec fn up_list(v: Seq<String>) -> Seq<Seq<char>> {
    v.map_values(|x: String| to_upper(x@))
}

/// The codes of a list that are not in `ex`, in order.
pub open spec fn not_in(v: Seq<Seq<char>>, ex: Set<Seq<char>>) -> Seq<Seq<char>>
    decreases v.len(),
{
    if v.len() == 0 {
        Seq::empty()
    } else if ex.contains(v.last()) {
        not_in(v.drop_last(), ex)
    } else {
        not_in(v.drop_last(), ex).push(v.last())
    }
}

/// The three-byte codes of a list, each once, in the order first met.
pub open spec fn distinct_three(v: Seq<Seq<char>>) -> Seq<Seq<char>>
    decreases v.len(),
{
    if v.len() == 0 {
        Seq::empty()
    } else {
        let prev = distinct_three(v.drop_last());
        if utf8_len(v.last()) == 3 && !prev.contains(v.last()) { prev.push(v.last()) } else { prev }
    }
}

/// The last position of `h` in a list; 80 when absent.
pub open spec fn last_index(v: Seq<Seq<char>>, h: Seq<char>) -> int
    decreases v.len(),
{
    if v.len() == 0 {
        80
    } else if v.last() == h {
        v.len() - 1
    } else {
        last_index(v.drop_last(), h)
    }
}

/// The value of the first entry for `key`.
pub open spec fn lookup(v: Seq<(String, String)>, key: Seq<char>) -> Option<Seq<char>>
    decreases v.len(),
{
    if v.len() == 0 {
        None
    } else if v[0].0@ == key {
        Some(v[0].1@)
    } else {
        lookup(v.drop_first(), key)
    }
}

/// The parts of a hub plan.
pub struct HubPlan {
    pub from_u: Seq<Seq<char>>,
    pub into_u: Seq<Seq<char>>,
    pub extra: Seq<Seq<char>>,
    pub hubs: Seq<Seq<char>>,
}

/// The codes a transfer-hub choice works with: hubs reachable from the origin and
/// into the destination (upper-cased, neither end itself), the extra hubs (three
/// bytes, neither end), and all of them, three bytes long, each once.
pub open spec fn hub_plan(origin: Seq<char>, dest: Seq<char>, from_origin: Seq<String>, into_dest: Seq<String>,
    extra_hubs: Seq<String>) -> HubPlan {
    let ex = set![to_upper(origin), to_upper(dest)];
    let from_u = not_in(up_list(from_origin), ex);
    let into_u = not_in(up_list(into_dest), ex);
    let extra = not_in(three_letter(extra_hubs), ex);
    HubPlan { from_u, into_u, extra, hubs: distinct_three(from_u + into_u + extra) }
}

/// The rank key of a hub: most overlap first, then its place among the extra hubs
/// (last place when listed twice; 80 when absent), then the code.
pub open spec fn hub_key(plan: HubPlan, h: Seq<char>) -> Seq<i64> {
    let ov: int = (if plan.from_u.contains(h) { 1int } else { 0 }) + (if plan.into_u.contains(h) { 1int } else { 0 });
    seq![(-ov) as i64, last_index(plan.extra, h) as i64] + text_key(h)
}

pub open spec fn hub_keys(plan: HubPlan) -> Seq<Seq<i64>> {
    plan.hubs.map_values(|h: Seq<char>| hub_key(plan, h))
}

/// The region a hub counts against: its continent, or the hub itself when unknown.
pub open spec fn region_of(continents: Seq<(String, String)>, h: Seq<char>) -> Seq<char> {
    match lookup(continents, h) {
        Some(c) => c,
        None => h,
    }
}

/// How many hubs of a list count against region `r`.
pub open spec fn region_count(out: Seq<Seq<char>>, continents: Seq<(String, String)>, r: Seq<char>) -> int
    decreases out.len(),
{
    if out.len() == 0 {
        0
    } else {
        region_count(out.drop_last(), continents, r) + if region_of(continents, out.last()) == r { 1int } else { 0 }
    }
}

/// The first pass over the ranked hubs: take each while under `limit`, skipping a hub
/// whose region already has `cap` hubs.
pub open spec fn region_pass(ranked: Seq<Seq<char>>, continents: Seq<(String, String)>, cap: int, limit: int, k: int) -> Seq<Seq<char>>
    decreases k,
{
    if k <= 0 {
        Seq::empty()
    } else {
        let prev = region_pass(ranked, continents, cap, limit, k - 1);
        let h = ranked[k - 1];
        if prev.len() >= limit || region_count(prev, continents, region_of(continents, h)) >= cap {
            prev
        } else {
            prev.push(h)
        }
    }
}

/// The second pass: top up to `limit` with ranked hubs not yet taken.
pub open spec fn fill_pass(ranked: Seq<Seq<char>>, out: Seq<Seq<char>>, limit: int, k: int) -> Seq<Seq<char>>
    decreases k,
{
    if k <= 0 {
        out
    } else {
        let prev = fill_pass(ranked, out, limit, k - 1);
        if prev.len() >= limit || prev.contains(ranked[k - 1]) { prev } else { prev.push(ranked[k - 1]) }
    }
}

/// The regional cap: three hubs per region between continents, else two.
pub open spec fn region_cap(continents: Seq<(String, String)>, origin: Seq<char>, dest: Seq<char>) -> int {
    let oc = lookup(continents, to_upper(origin));
    let dc = lookup(continents, to_upper(dest));
    if oc is Some && dc is Some && oc->0.len() > 0 && dc->0.len() > 0 && oc->0 != dc->0 { 3 } else { 2 }
}

/// The chosen hubs from the ranking: the regional pass, topped up when short.
pub open spec fn chosen_hubs(ranked: Seq<Seq<char>>, continents: Seq<(String, String)>, cap: int, limit: int) -> Seq<Seq<char>> {
    let first = region_pass(ranked, continents, cap, limit, ranked.len() as int);
    if first.len() >= limit { first } else { fill_pass(ranked, first, limit, ranked.len() as int) }
}

fn not_in_exec(v: &Vec<String>, ou: &String, du: &String) -> (r: Vec<String>)
    ensures
        views(r@) == not_in(views(v@), set![ou@, du@]),
{
    let mut out: Vec<String> = Vec::new();
    let mut i: usize = 0;
    while i < v.len()
        invariant
            i <= v@.len(),
            views(out@) == not_in(views(v@).subrange(0, i as int), set![ou@, du@]),
        decreases v@.len() - i,
    {
        assert(views(v@).subrange(0, i + 1).drop_last() =~= views(v@).subrange(0, i as int));
        if !str_eq(v[i].as_str(), ou.as_str()) && !str_eq(v[i].as_str(), du.as_str()) {
            let ghost before = views(out@);
            out.push(v[i].clone());
            assert(views(out@) =~= before.push(v@[i as int]@));
        }
        i = i + 1;
    }
    assert(views(v@).subrange(0, v@.len() as int) =~= views(v@));
    out
}

fn upper_each(v: &Vec<String>) -> (r: Vec<String>)
    ensures
        views(r@) == up_list(v@),
{
    let mut out: Vec<String> = Vec::new();
    let mut i: usize = 0;
    while i < v.len()
        invariant
            i <= v@.len(),
            views(out@) == up_list(v@).subrange(0, i as int),
        decreases v@.len() - i,
    {
        let ghost before = views(out@);
        out.push(upper(v[i].as_str()));
        assert(views(out@) =~= before.push(to_upper(v@[i as int]@)));
        i = i + 1;
        assert(views(out@) =~= up_list(v@).subrange(0, i as int));
    }
    assert(views(out@) =~= up_list(v@));
    out
}

fn distinct_three_of(v: &Vec<String>) -> (r: Vec<String>)
    ensures
        views(r@) == distinct_three(views(v@)),
{
    let mut out: Vec<String> = Vec::new();
    let mut i: usize = 0;
    while i < v.len()
        invariant
            i <= v@.len(),
            views(out@) == distinct_three(views(v@).subrange(0, i as int)),
        decreases v@.len() - i,
    {
        assert(views(v@).subrange(0, i + 1).drop_last() =~= views(v@).subrange(0, i as int));
        if byte_len(v[i].as_str()) == 3 && !contains_string(&out, &v[i]) {
            let ghost before = views(out@);
            out.push(v[i].clone());
            assert(views(out@) =~= before.push(v@[i as int]@));
        }
        i = i + 1;
    }
    assert(views(v@).subrange(0, v@.len() as int) =~= views(v@));
    out
}

fn last_index_of(v: &Vec<String>, h: &String) -> (r: usize)
    ensures
        r == last_index(views(v@), h@),
{
    let mut r: usize = 80;
    let mut i: usize = 0;
    while i < v.len()
        invariant
            i <= v@.len(),
            r == last_index(views(v@).subrange(0, i as int), h@),
        decreases v@.len() - i,
    {
        assert(views(v@).subrange(0, i + 1).drop_last() =~= views(v@).subrange(0, i as int));
        if str_eq(v[i].as_str(), h.as_str()) {
            r = i;
        }
        i = i + 1;
    }
    assert(views(v@).subrange(0, v@.len() as int) =~= views(v@));
    r
}

/// See [`lookup`].
fn lookup_exec(v: &Vec<(String, String)>, key: &str) -> (r: Option<String>)
    ensures
        match (r, lookup(v@, key@)) {
            (Some(a), Some(b)) => a@ == b,
            (None, None) => true,
            _ => false,
        },
{
    let mut i: usize = 0;
    assert(v@.subrange(0, v@.len() as int) =~= v@);
    while i < v.len()
        invariant
            i <= v@.len(),
            lookup(v@, key@) == lookup(v@.subrange(i as int, v@.len() as int), key@),
        decreases v@.len() - i,
    {
        let ghost rest = v@.subrange(i as int, v@.len() as int);
        assert(rest.drop_first() =~= v@.subrange(i + 1, v@.len() as int));
        if str_eq(v[i].0.as_str(), key) {
            return Some(v[i].1.clone());
        }
        i = i + 1;
    }
    None
}

fn region_exec(continents: &Vec<(String, String)>, h: &String) -> (r: String)
    ensures
        r@ == region_of(continents@, h@),
{
    match lookup_exec(continents, h.as_str()) {
        Some(c) => c,
        None => h.clone(),
    }
}

fn region_count_exec(out: &Vec<String>, continents: &Vec<(String, String)>, r: &String) -> (n: usize)
    ensures
        n == region_count(views(out@), continents@, r@),
{
    let mut n: usize = 0;
    let mut i: usize = 0;
    while i < out.len()
        invariant
            i <= out@.len(),
            n == region_count(views(out@).subrange(0, i as int), continents@, r@),
            n <= i,
        decreases out@.len() - i,
    {
        assert(views(out@).subrange(0, i + 1).drop_last() =~= views(out@).subrange(0, i as int));
        let g = region_exec(continents, &out[i]);
        if str_eq(g.as_str(), r.as_str()) {
            n = n + 1;
        }
        i = i + 1;
    }
    assert(views(out@).subrange(0, out@.len() as int) =~= views(out@));
    n
}

/// A hub a plan may choose: a three-byte code from the upper-cased routes of the
/// origin or the destination or from the extra hubs, and neither end of the trip.
pub open spec fn plan_hub(plan: HubPlan, origin: Seq<char>, dest: Seq<char>, h: Seq<char>) -> bool {
    &&& (plan.from_u + plan.into_u + plan.extra).contains(h)
    &&& utf8_len(h) == 3
    &&& h != to_upper(origin)
    &&& h != to_upper(dest)
}

proof fn lemma_not_in_members(v: Seq<Seq<char>>, ex: Set<Seq<char>>)
    ensures
        forall|i: int| 0 <= i < not_in(v, ex).len() ==> !ex.contains(#[trigger] not_in(v, ex)[i]),
    decreases v.len(),
{
    if v.len() > 0 {
        lemma_not_in_members(v.drop_last(), ex);
        let prev = not_in(v.drop_last(), ex);
        assert forall|i: int| 0 <= i < not_in(v, ex).len() implies !ex.contains(#[trigger] not_in(v, ex)[i]) by {
            if i < prev.len() {
                assert(not_in(v, ex)[i] == prev[i]);
            }
        }
    }
}

proof fn lemma_distinct_three_members(v: Seq<Seq<char>>)
    ensures
        distinct_three(v).no_duplicates(),
        forall|i: int| 0 <= i < distinct_three(v).len()
            ==> utf8_len(#[trigger] distinct_three(v)[i]) == 3 && v.contains(distinct_three(v)[i]),
    decreases v.len(),
{
    if v.len() > 0 {
        let w = v.drop_last();
        lemma_distinct_three_members(w);
        let prev = distinct_three(w);
        let cur = distinct_three(v);
        assert forall|i: int| 0 <= i < cur.len() implies utf8_len(#[trigger] cur[i]) == 3 && v.contains(cur[i]) by {
            if i < prev.len() {
                assert(cur[i] == prev[i]);
                let j = choose|j: int| 0 <= j < w.len() && w[j] == prev[i];
                assert(v[j] == prev[i]);
            } else {
                assert(cur[i] == v.last());
                assert(v[v.len() - 1] == v.last());
            }
        }
        if cur != prev {
            assert forall|a: int, b: int| 0 <= a < cur.len() && 0 <= b < cur.len() && a != b implies cur[a] != cur[b] by {
                if a < prev.len() && b < prev.len() {
                    assert(cur[a] == prev[a] && cur[b] == prev[b]);
                } else if a < prev.len() {
                    assert(cur[a] == prev[a]);
                    assert(prev.contains(prev[a]));
                } else {
                    assert(cur[b] == prev[b]);
                    assert(prev.contains(prev[b]));
                }
            }
        }
    }
}

proof fn lemma_region_pass_shape(ranked: Seq<Seq<char>>, continents: Seq<(String, String)>, cap: int, limit: int, k: int)
    requires
        0 <= k <= ranked.len(),
        ranked.no_duplicates(),
        limit >= 0,
    ensures
        region_pass(ranked, continents, cap, limit, k).len() <= limit,
        region_pass(ranked, continents, cap, limit, k).no_duplicates(),
        forall|i: int| 0 <= i < region_pass(ranked, continents, cap, limit, k).len()
            ==> ranked.subrange(0, k).contains(#[trigger] region_pass(ranked, continents, cap, limit, k)[i]),
    decreases k,
{
    if k > 0 {
        lemma_region_pass_shape(ranked, continents, cap, limit, k - 1);
        let prev = region_pass(ranked, continents, cap, limit, k - 1);
        let cur = region_pass(ranked, continents, cap, limit, k);
        let h = ranked[k - 1];
        assert forall|i: int| 0 <= i < prev.len() implies ranked.subrange(0, k).contains(#[trigger] prev[i]) by {
            let j = choose|j: int| 0 <= j < k - 1 && #[trigger] ranked.subrange(0, k - 1)[j] == prev[i];
            assert(ranked.subrange(0, k)[j] == prev[i]);
        }
        if cur != prev {
            assert(cur == prev.push(h));
            assert(!prev.contains(h)) by {
                if prev.contains(h) {
                    let i = choose|i: int| 0 <= i < prev.len() && prev[i] == h;
                    let j = choose|j: int| 0 <= j < k - 1 && #[trigger] ranked.subrange(0, k - 1)[j] == prev[i];
                    assert(ranked[j] == ranked[k - 1]);
                }
            }
            assert forall|a: int, b: int| 0 <= a < cur.len() && 0 <= b < cur.len() && a != b implies cur[a] != cur[b] by {
                if a < prev.len() && b < prev.len() {
                    assert(cur[a] == prev[a] && cur[b] == prev[b]);
                } else if a < prev.len() {
                    assert(cur[a] == prev[a]);
                } else {
                    assert(cur[b] == prev[b]);
                }
            }
            assert forall|i: int| 0 <= i < cur.len() implies ranked.subrange(0, k).contains(#[trigger] cur[i]) by {
                if i < prev.len() {
                    assert(cur[i] == prev[i]);
                } else {
                    assert(ranked.subrange(0, k)[k - 1] == h);
                }
            }
        }
    }
}

proof fn lemma_fill_pass_shape(ranked: Seq<Seq<char>>, out: Seq<Seq<char>>, limit: int, k: int)
    requires
        0 <= k <= ranked.len(),
        out.len() <= limit,
        out.no_duplicates(),
        forall|i: int| 0 <= i < out.len() ==> ranked.contains(#[trigger] out[i]),
    ensures
        fill_pass(ranked, out, limit, k).len() <= limit,
        fill_pass(ranked, out, limit, k).no_duplicates(),
        forall|i: int| 0 <= i < fill_pass(ranked, out, limit, k).len() ==> ranked.contains(#[trigger] fill_pass(ranked, out, limit, k)[i]),
    decreases k,
{
    if k > 0 {
        lemma_fill_pass_shape(ranked, out, limit, k - 1);
        let prev = fill_pass(ranked, out, limit, k - 1);
        let cur = fill_pass(ranked, out, limit, k);
        if cur != prev {
            assert(cur == prev.push(ranked[k - 1]));
            assert forall|a: int, b: int| 0 <= a < cur.len() && 0 <= b < cur.len() && a != b implies cur[a] != cur[b] by {
                if a < prev.len() && b < prev.len() {
                    assert(cur[a] == prev[a] && cur[b] == prev[b]);
                } else if a < prev.len() {
                    assert(cur[a] == prev[a]);
                    assert(prev.contains(prev[a]));
                } else {
                    assert(cur[b] == prev[b]);
                    assert(prev.contains(prev[b]));
                }
            }
            assert forall|i: int| 0 <= i < cur.len() implies ranked.contains(#[trigger] cur[i]) by {
                if i < prev.len() {
                    assert(cur[i] == prev[i]);
                } else {
                    assert(ranked[k - 1] == cur[i]);
                }
            }
        }
    }
}

/// The transfer hubs chosen from a ranking of a plan's hubs are at most `limit`,
/// each once, and each a hub the plan may choose (see `plan_hub`).
pub proof fn law_transfer_hubs_shape(origin: Seq<char>, dest: Seq<char>, from_origin: Seq<String>, into_dest: Seq<String>,
    extra_hubs: Seq<String>, continents: Seq<(String, String)>, limit: int, p: Seq<usize>)
    requires
        limit >= 0,
        sorted_by(hub_keys(hub_plan(origin, dest, from_origin, into_dest, extra_hubs)), p),
    ensures
        ({
            let plan = hub_plan(origin, dest, from_origin, into_dest, extra_hubs);
            let r = chosen_hubs(Seq::new(p.len(), |k: int| plan.hubs[p[k] as int]), continents,
                region_cap(continents, origin, dest), limit);
            &&& r.len() <= limit
            &&& r.no_duplicates()
            &&& forall|i: int| 0 <= i < r.len() ==> plan_hub(plan, origin, dest, #[trigger] r[i])
        }),
{
    let plan = hub_plan(origin, dest, from_origin, into_dest, extra_hubs);
    let ex = set![to_upper(origin), to_upper(dest)];
    let all = plan.from_u + plan.into_u + plan.extra;
    let hubs = plan.hubs;
    let rk = Seq::new(p.len(), |k: int| plan.hubs[p[k] as int]);
    let cap = region_cap(continents, origin, dest);
    lemma_distinct_three_members(all);
    lemma_not_in_members(up_list(from_origin), ex);
    lemma_not_in_members(up_list(into_dest), ex);
    lemma_not_in_members(three_letter(extra_hubs), ex);
    assert(hub_keys(plan).len() == hubs.len());
    assert forall|x: int| 0 <= x < hubs.len() implies plan_hub(plan, origin, dest, #[trigger] hubs[x]) by {
        let j = choose|j: int| 0 <= j < all.len() && all[j] == hubs[x];
        let fl = plan.from_u.len();
        let il = plan.into_u.len();
        if j < fl {
            assert(all[j] == plan.from_u[j]);
        } else if j < fl + il {
            assert(all[j] == plan.into_u[j - fl]);
        } else {
            assert(all[j] == plan.extra[j - fl - il]);
        }
    }
    assert(rk.no_duplicates()) by {
        assert forall|a: int, b: int| 0 <= a < rk.len() && 0 <= b < rk.len() && a != b implies rk[a] != rk[b] by {
            assert(p[a] != p[b]) by {
                if a < b { assert(p[a] != p[b]); } else { assert(p[b] != p[a]); }
            }
            assert((p[a] as int) < hubs.len() && (p[b] as int) < hubs.len());
        }
    }
    lemma_region_pass_shape(rk, continents, cap, limit, rk.len() as int);
    let first = region_pass(rk, continents, cap, limit, rk.len() as int);
    assert(rk.subrange(0, rk.len() as int) =~= rk);
    assert forall|i: int| 0 <= i < first.len() implies rk.contains(#[trigger] first[i]) by {
        assert(rk.subrange(0, rk.len() as int).contains(first[i]));
    }
    let r = chosen_hubs(rk, continents, cap, limit);
    if first.len() < limit {
        lemma_fill_pass_shape(rk, first, limit, rk.len() as int);
    }
    assert forall|i: int| 0 <= i < r.len() implies plan_hub(plan, origin, dest, #[trigger] r[i]) by {
        assert(rk.contains(r[i]));
        let x = choose|x: int| 0 <= x < rk.len() && rk[x] == r[i];
        assert((p[x] as int) < hubs.len());
        assert(rk[x] == hubs[p[x] as int]);
    }
}

/// Chooses up to `limit` transfer hubs between `origin` and `dest`: hubs reachable
/// from the origin and into the destination and the extra hubs, ranked by overlap,
/// then extra-hub order, then code (see `hub_key`); at most two per continent (three
/// between continents) first, then topped up in rank order.
pub fn pick_transfer_hubs(
    origin: &str,
    dest: &str,
    from_origin: &Vec<String>,
    into_dest: &Vec<String>,
    limit: usize,
    extra_hubs: &Vec<String>,
    continents: &Vec<(String, String)>,
) -> (r: Vec<String>)
    ensures
        limit == 0 ==> r@.len() == 0,
        limit > 0 ==> ({
            let plan = hub_plan(origin@, dest@, from_origin@, into_dest@, extra_hubs@);
            exists|p: Seq<usize>| #[trigger] sorted_by(hub_keys(plan), p)
                && views(r@) == chosen_hubs(Seq::new(p.len(), |k: int| plan.hubs[p[k] as int]), continents@,
                    region_cap(continents@, origin@, dest@), limit as int)
        }),
        r@.len() <= limit,
        views(r@).no_duplicates(),
        forall|i: int| 0 <= i < r@.len()
            ==> plan_hub(hub_plan(origin@, dest@, from_origin@, into_dest@, extra_hubs@), origin@, dest@, #[trigger] views(r@)[i]),
{
    if limit == 0 {
        return Vec::new();
    }
    let ghost plan = hub_plan(origin@, dest@, from_origin@, into_dest@, extra_hubs@);
    let ou = upper(origin);
    let du = upper(dest);
    assert(set![to_upper(origin@), to_upper(dest@)] == set![ou@, du@]);
    let fu = not_in_exec(&upper_each(from_origin), &ou, &du);
    let iu = not_in_exec(&upper_each(into_dest), &ou, &du);
    let xu = not_in_exec(&three_letter_of(extra_hubs), &ou, &du);
    let mut all: Vec<String> = Vec::new();
    let mut i: usize = 0;
    while i < fu.len()
        invariant
            i <= fu@.len(),
            views(all@) == views(fu@).subrange(0, i as int),
        decreases fu@.len() - i,
    {
        let ghost before = views(all@);
        all.push(fu[i].clone());
        assert(views(all@) =~= before.push(fu@[i as int]@));
        i = i + 1;
        assert(views(all@) =~= views(fu@).subrange(0, i as int));
    }
    let mut j: usize = 0;
    while j < iu.len()
        invariant
            i == fu@.len(),
            j <= iu@.len(),
            views(all@) == views(fu@) + views(iu@).subrange(0, j as int),
        decreases iu@.len() - j,
    {
        let ghost before = views(all@);
        all.push(iu[j].clone());
        assert(views(all@) =~= before.push(iu@[j as int]@));
        j = j + 1;
        assert(views(all@) =~= views(fu@) + views(iu@).subrange(0, j as int));
    }
    let mut k: usize = 0;
    while k < xu.len()
        invariant
            j == iu@.len(),
            k <= xu@.len(),
            views(all@) == views(fu@) + views(iu@) + views(xu@).subrange(0, k as int),
        decreases xu@.len() - k,
    {
        let ghost before = views(all@);
        all.push(xu[k].clone());
        assert(views(all@) =~= before.push(xu@[k as int]@));
        k = k + 1;
        assert(views(all@) =~= views(fu@) + views(iu@) + views(xu@).subrange(0, k as int));
    }
    assert(views(fu@).subrange(0, fu@.len() as int) =~= views(fu@));
    assert(views(iu@).subrange(0, iu@.len() as int) =~= views(iu@));
    assert(views(xu@).subrange(0, xu@.len() as int) =~= views(xu@));
    let hubs = distinct_three_of(&all);
    assert(views(hubs@) == plan.hubs);
    // rank keys
    let mut keys: Vec<Vec<i64>> = Vec::new();
    let mut a: usize = 0;
    while a < hubs.len()
        invariant
            a <= hubs@.len(),
            views(hubs@) == plan.hubs,
            views(fu@) == plan.from_u,
            views(iu@) == plan.into_u,
            views(xu@) == plan.extra,
            keys@.len() == a,
            forall|x: int| 0 <= x < a ==> (#[trigger] keys@[x])@ == hub_key(plan, plan.hubs[x]),
        decreases hubs@.len() - a,
    {
        let h = &hubs[a];
        let in_from: i64 = if contains_string(&fu, h) { 1 } else { 0 };
        let in_into: i64 = if contains_string(&iu, h) { 1 } else { 0 };
        let rank = last_index_of(&xu, h);
        assert(rank <= 80 || rank < xu@.len()) by {
            lemma_last_index_bound(views(xu@), h@);
        }
        let mut key: Vec<i64> = Vec::new();
        key.push(-(in_from + in_into));
        key.push(rank as i64);
        let t = text_key_of(h);
        let mut q: usize = 0;
        let ghost head = key@;
        while q < t.len()
            invariant
                q <= t@.len(),
                key@ == head + t@.subrange(0, q as int),
            decreases t@.len() - q,
        {
            key.push(t[q]);
            q = q + 1;
            assert(key@ =~= head + t@.subrange(0, q as int));
        }
        assert(t@.subrange(0, t@.len() as int) =~= t@);
        proof {
            assert(views(fu@).contains(h@) == code_set(fu@).contains(h@));
            assert(views(iu@).contains(h@) == code_set(iu@).contains(h@));
            assert(plan.hubs[a as int] == h@);
            assert(key@ =~= hub_key(plan, plan.hubs[a as int]));
        }
        keys.push(key);
        a = a + 1;
    }
    assert(key_views(keys@) =~= hub_keys(plan));
    let p = sort_order(&keys);
    let mut ranked: Vec<String> = Vec::new();
    let mut b: usize = 0;
    let ghost rk = Seq::new(p@.len(), |x: int| plan.hubs[p@[x] as int]);
    proof {
        law_transfer_hubs_shape(origin@, dest@, from_origin@, into_dest@, extra_hubs@, continents@, limit as int, p@);
    }
    while b < p.len()
        invariant
            is_perm(p@, plan.hubs.len() as int),
            views(hubs@) == plan.hubs,
            rk == Seq::new(p@.len(), |x: int| plan.hubs[p@[x] as int]),
            b <= p@.len(),
            views(ranked@) == rk.subrange(0, b as int),
        decreases p@.len() - b,
    {
        let idx = p[b];
        assert((p@[b as int] as int) < plan.hubs.len());
        let ghost before = views(ranked@);
        ranked.push(hubs[idx].clone());
        assert(views(ranked@) =~= before.push(rk[b as int]));
        b = b + 1;
        assert(views(ranked@) =~= rk.subrange(0, b as int));
    }
    assert(views(ranked@) =~= rk);
    // the regional cap
    let oc = lookup_exec(continents, ou.as_str());
    let dc = lookup_exec(continents, du.as_str());
    let cap: usize = match (&oc, &dc) {
        (Some(x), Some(y)) => if !x.as_str().is_empty() && !y.as_str().is_empty() && !str_eq(x.as_str(), y.as_str()) { 3 } else { 2 },
        _ => 2,
    };
    assert(cap == region_cap(continents@, origin@, dest@));
    let mut out: Vec<String> = Vec::new();
    let mut c: usize = 0;
    while c < ranked.len()
        invariant
            c <= ranked@.len(),
            rk == views(ranked@),
            views(out@) == region_pass(rk, continents@, cap as int, limit as int, c as int),
        decreases ranked@.len() - c,
    {
        if out.len() < limit {
            let g = region_exec(continents, &ranked[c]);
            let n = region_count_exec(&out, continents, &g);
            if n < cap {
                let ghost before = views(out@);
                out.push(ranked[c].clone());
                assert(views(out@) =~= before.push(rk[c as int]));
            }
        }
        c = c + 1;
    }
    if out.len() >= limit {
        return out;
    }
    let ghost first = views(out@);
    let mut d: usize = 0;
    while d < ranked.len()
        invariant
            d <= ranked@.len(),
            rk == views(ranked@),
            views(out@) == fill_pass(rk, first, limit as int, d as int),
        decreases ranked@.len() - d,
    {
        if out.len() < limit && !contains_string(&out, &ranked[d]) {
            let ghost before = views(out@);
            out.push(ranked[d].clone());
            assert(views(out@) =~= before.push(rk[d as int]));
        }
        proof {
            assert(code_set(out@).contains(rk[d as int]) == views(out@).contains(rk[d as int]));
        }
        d = d + 1;
    }
    out
}

proof fn lemma_last_index_bound(v: Seq<Seq<char>>, h: Seq<char>)
    ensures
        0 <= last_index(v, h),
        last_index(v, h) == 80 || last_index(v, h) < v.len(),
    decreases v.len(),
{
    if v.len() > 0 && v.last() != h {
        lemma_last_index_bound(v.drop_last(), h);
    }
}

/// The most flights a self-transfer trip may have.
pub open spec fn max_self_flights() -> int {
    5
}

/// The first ten bytes of a departure time can be cut off (or it is shorter).
pub open spec fn date_cut_ok(dep: Seq<char>) -> bool {
    utf8_len(dep) < 10 || prefix_bytes(dep, 10) is Some
}

/// The travel date of a ticket: the first ten bytes of its first departure, or
/// nothing when shorter.
pub open spec fn ticket_date_spec(o: Offer) -> Seq<char> {
    let dep = if o.segments@.len() > 0 { o.segments@[0].dep@ } else { Seq::empty() };
    if utf8_len(dep) >= 10 { prefix_bytes(dep, 10)->0 } else { Seq::empty() }
}

/// The hub between ticket `i` and the next: where ticket `i` is sold to.
pub open spec fn hubs_of(parts: Seq<Offer>) -> Seq<Seq<char>> {
    Seq::new((parts.len() - 1) as nat, |i: int| ticketed(parts[i]))
}

/// The link from ticket `i` to the next is a fair self-transfer: sold to a hub that
/// is not an intended place, the next ticket leaves from that hub, the ticket is a
/// plain ticket there (not hidden city), and the connection takes 150 minutes to 22
/// hours.
pub open spec fn link_ok(parts: Seq<Offer>, dests: Vec<String>, i: int) -> bool {
    let left = parts[i];
    let right = parts[i + 1];
    let hub = ticketed(left);
    &&& hub.len() > 0
    &&& !code_set(dests@).contains(hub)
    &&& to_upper(right.segments@[0].origin@) == hub
    &&& hidden_exit(left, &dests) is None
    &&& connection_spec(left.segments@.last().arr@, right.segments@[0].dep@) matches Some(g)
        && min_transfer_min() <= g <= max_transfer_min()
}

/// All flights of the tickets, in order.
pub open spec fn all_segments(parts: Seq<Offer>) -> Seq<Segment>
    decreases parts.len(),
{
    if parts.len() == 0 { Seq::empty() } else { all_segments(parts.drop_last()) + parts.last().segments@ }
}

/// Whether tickets join into one self-transfer trip to an intended place.
pub open spec fn chain_accepts(parts: Seq<Offer>, dests: Vec<String>) -> bool {
    let ccy = to_upper(parts[0].currency@);
    &&& parts.len() >= 2
    &&& forall|i: int| 0 <= i < parts.len() ==> (#[trigger] parts[i]).price is Some && parts[i].price->0 > 0
    &&& forall|i: int| 0 <= i < parts.len() ==> (#[trigger] parts[i]).segments@.len() > 0
    &&& ccy.len() > 0
    &&& forall|i: int| 0 <= i < parts.len() ==> to_upper((#[trigger] parts[i]).currency@) == ccy
    &&& forall|i: int| 0 <= i < parts.len() ==> (#[trigger] parts[i]).cabin@ == parts[0].cabin@
    &&& !code_set(dests@).contains(to_upper(parts[0].segments@[0].origin@))
    &&& forall|i: int| 0 <= i < parts.len() - 1 ==> #[trigger] link_ok(parts, dests, i)
    &&& hubs_of(parts).no_duplicates()
    &&& standard_to(parts.last(), &dests)
    &&& hidden_exit(parts.last(), &dests) is None
    &&& all_segments(parts).len() <= max_self_flights()
}

/// The texts joined with a separator.
pub open spec fn joined(v: Seq<Seq<char>>, sep: Seq<char>) -> Seq<char>
    decreases v.len(),
{
    if v.len() == 0 {
        Seq::empty()
    } else if v.len() == 1 {
        v[0]
    } else {
        joined(v.drop_last(), sep) + sep + v.last()
    }
}

/// The sum of the ticket prices (cents).
pub open spec fn price_sum(parts: Seq<Offer>) -> int
    decreases parts.len(),
{
    if parts.len() == 0 { 0 } else { price_sum(parts.drop_last()) + parts.last().price->0 }
}

/// The fewest bags any ticket includes.
pub open spec fn min_bags(parts: Seq<Offer>) -> i32
    decreases parts.len(),
{
    if parts.len() <= 1 {
        parts[0].bags_included
    } else {
        let m = min_bags(parts.drop_last());
        if parts.last().bags_included < m { parts.last().bags_included } else { m }
    }
}

/// The first non-empty carrier of the tickets, if any.
pub open spec fn first_carrier(parts: Seq<Offer>) -> Option<Seq<char>>
    decreases parts.len(),
{
    if parts.len() == 0 {
        None
    } else if parts[0].carrier@.len() > 0 {
        Some(parts[0].carrier@)
    } else {
        first_carrier(parts.drop_first())
    }
}

/// The flying minutes of some flights.
pub open spec fn air_minutes(segs: Seq<Segment>) -> int
    decreases segs.len(),
{
    if segs.len() == 0 { 0 } else { air_minutes(segs.drop_last()) + segs.last().duration_min }
}

/// The note of a self-transfer trip.
pub open spec fn chain_note(n: int, hubs: Seq<Seq<char>>) -> Seq<char> {
    "Self-transfer: "@ + decimal(n) + " separate tickets. You check in again at "@ + joined(hubs, ", "@)
        + ". A missed connection is not protected. This is not hidden-city."@
}

/// `r` is the self-transfer trip made of the tickets.
pub open spec fn chain_offer(parts: Seq<Offer>, r: Offer) -> bool {
    let segs = all_segments(parts);
    let ccy = to_upper(parts[0].currency@);
    let door = connection_spec(segs[0].dep@, segs.last().arr@);
    &&& r.id@ == "self-"@ + joined(parts.map_values(|p: Offer| p.id@), "+"@)
    &&& r.kind@ == "self-transfer"@
    &&& r.channel@ == "ota"@
    &&& r.source@ == "self-transfer"@
    &&& r.layer@ == "priced-offer"@
    &&& r.segments@ == segs
    &&& r.price == Some(price_sum(parts) as i64)
    &&& r.currency@ == ccy
    &&& r.cabin == parts[0].cabin
    &&& r.fare_basis@.len() == 0
    &&& r.bags_included == min_bags(parts)
    &&& r.carrier@ == (match first_carrier(parts) { Some(c) => c, None => parts.last().carrier@ })
    &&& r.duration_min == (if door is Some && door->0 > 0 { door->0 } else { air_minutes(segs) as i32 })
    &&& r.stops == segs.len() - 1
    &&& r.first_flight == segs[0].flight_number
    &&& r.live == Some(forall|i: int| 0 <= i < parts.len() ==> (#[trigger] parts[i]).live != Some(false))
    &&& r.adults == (if parts[0].adults < 1 { 1 } else if parts[0].adults > 9 { 9 } else { parts[0].adults })
    &&& views(r.self_transfer_airports@) == hubs_of(parts)
    &&& r.separate_tickets@.len() == parts.len()
    &&& forall|i: int| 0 <= i < parts.len() ==> {
        let t = #[trigger] r.separate_tickets@[i];
        &&& t.origin@ == to_upper(parts[i].segments@[0].origin@)
        &&& t.dest@ == ticketed(parts[i])
        &&& t.date@ == ticket_date_spec(parts[i])
        &&& t.price == parts[i].price->0
        &&& t.currency@ == ccy
        &&& t.carrier == parts[i].carrier
    }
    &&& r.note matches Some(n) && n@ == chain_note(parts.len() as int, hubs_of(parts))
    &&& r.base_price is None && r.taxes is None && r.quoted_usd is None && r.seats is None
    &&& r.last_ticketing_date is None && r.validating_airline is None && r.instant_ticketing is None
    &&& !r.refundable && r.retrieved_at is None && r.expires_at is None && r.note is Some
    &&& r.return_date is None && r.outbound_end is None
}

/// What the tickets must hold for joining them to stay within the arithmetic: prices
/// within range and departure times whose first ten bytes can be cut off.
pub open spec fn parts_fit(parts: Seq<Offer>) -> bool {
    forall|i: int| 0 <= i < parts.len() ==> {
        let p = #[trigger] parts[i];
        &&& cents_ok(p.price)
        &&& (p.segments@.len() > 0 ==> date_cut_ok(p.segments@[0].dep@))
    }
}

/// Every running total of the flying minutes of some flights fits in an `i32`.
pub open spec fn minutes_fit(segs: Seq<Segment>) -> bool {
    forall|k: int| 0 <= k <= segs.len() ==> i32::MIN <= #[trigger] air_minutes(segs.subrange(0, k)) <= i32::MAX
}

/// The flying minutes of the tickets can be added up whenever their flights are few
/// enough to join (at most five).
pub open spec fn minutes_ok(parts: Seq<Offer>) -> bool {
    all_segments(parts).len() <= 5 ==> minutes_fit(all_segments(parts))
}

/// Flights of at most a hundred million minutes each, at most five of them, add up
/// within an `i32`.
pub proof fn lemma_few_flights_fit(segs: Seq<Segment>)
    requires
        segs.len() <= 5,
        forall|j: int| 0 <= j < segs.len() ==> -100_000_000 <= (#[trigger] segs[j]).duration_min <= 100_000_000,
    ensures
        minutes_fit(segs),
{
    assert forall|k: int| 0 <= k <= segs.len() implies i32::MIN <= #[trigger] air_minutes(segs.subrange(0, k)) <= i32::MAX by {
        lemma_air_bound(segs.subrange(0, k));
    }
}

proof fn lemma_air_bound(segs: Seq<Segment>)
    requires
        forall|j: int| 0 <= j < segs.len() ==> -100_000_000 <= (#[trigger] segs[j]).duration_min <= 100_000_000,
    ensures
        -100_000_000 * segs.len() <= air_minutes(segs) <= 100_000_000 * segs.len(),
    decreases segs.len(),
{
    if segs.len() > 0 {
        let d = segs.drop_last();
        assert forall|j: int| 0 <= j < d.len() implies -100_000_000 <= (#[trigger] d[j]).duration_min <= 100_000_000 by {
            assert(d[j] == segs[j]);
        }
        lemma_air_bound(d);
        assert(-100_000_000 <= segs[segs.len() - 1].duration_min <= 100_000_000);
    }
}

/// The outcome of joining: a trip exactly when the tickets join, and then the trip.
pub open spec fn chain_result(parts: Seq<Offer>, dests: Vec<String>, r: Option<Offer>) -> bool {
    &&& (r is Some <==> chain_accepts(parts, dests))
    &&& (r matches Some(o) ==> chain_offer(parts, o))
}

fn join_texts(v: &Vec<String>, sep: &str) -> (r: String)
    ensures
        r@ == joined(views(v@), sep@),
{
    let mut out = String::new();
    let mut i: usize = 0;
    while i < v.len()
        invariant
            i <= v@.len(),
            out@ == joined(views(v@).subrange(0, i as int), sep@),
        decreases v@.len() - i,
    {
        let ghost pre = views(v@).subrange(0, i as int);
        let ghost next = views(v@).subrange(0, i + 1);
        assert(next.drop_last() =~= pre);
        if i == 0 {
            out = v[0].clone();
            assert(next =~= seq![v@[0]@]);
        } else {
            out = cat(out.as_str(), sep);
            out = cat(out.as_str(), v[i].as_str());
        }
        i = i + 1;
    }
    assert(views(v@).subrange(0, v@.len() as int) =~= views(v@));
    out
}


fn ticket_date(o: &Offer) -> (r: String)
    requires
        o.segments@.len() > 0 ==> date_cut_ok(o.segments@[0].dep@),
    ensures
        r@ == ticket_date_spec(*o),
{
    if o.segments.len() == 0 {
        return String::new();
    }
    let dep = o.segments[0].dep.as_str();
    if byte_len(dep) >= 10 {
        match byte_prefix(dep, 10) {
            Some(p) => p,
            None => String::new(),
        }
    } else {
        String::new()
    }
}

fn chain_ids(parts: &[Offer]) -> (r: String)
    ensures
        r@ == "self-"@ + joined(parts@.map_values(|p: Offer| p.id@), "+"@),
{
    let mut ids: Vec<String> = Vec::new();
    let mut i: usize = 0;
    while i < parts.len()
        invariant
            i <= parts@.len(),
            ids@.len() == i,
            forall|k: int| 0 <= k < i ==> (#[trigger] ids@[k])@ == parts@[k].id@,
        decreases parts@.len() - i,
    {
        ids.push(parts[i].id.clone());
        i = i + 1;
    }
    assert(views(ids@) =~= parts@.map_values(|p: Offer| p.id@));
    let j = join_texts(&ids, "+");
    cat("self-", j.as_str())
}

fn chain_price(parts: &[Offer]) -> (r: i64)
    requires
        parts@.len() <= 5,
        parts_fit(parts@),
        forall|i: int| 0 <= i < parts@.len() ==> (#[trigger] parts@[i]).price is Some,
    ensures
        r == price_sum(parts@),
{
    let mut total: i64 = 0;
    let mut i: usize = 0;
    while i < parts.len()
        invariant
            i <= parts@.len(),
            parts@.len() <= 5,
            parts_fit(parts@),
            forall|k: int| 0 <= k < parts@.len() ==> (#[trigger] parts@[k]).price is Some,
            total == price_sum(parts@.subrange(0, i as int)),
            -i * max_cents() <= total <= i * max_cents(),
        decreases parts@.len() - i,
    {
        assert(parts@.subrange(0, i + 1).drop_last() =~= parts@.subrange(0, i as int));
        let p = &parts[i];
        assert(cents_ok(parts@[i as int].price));
        let x = match p.price { Some(x) => x, None => 0 };
        total = total + x;
        i = i + 1;
    }
    assert(parts@.subrange(0, parts@.len() as int) =~= parts@);
    total
}

fn chain_bags(parts: &[Offer]) -> (r: i32)
    requires
        parts@.len() >= 1,
    ensures
        r == min_bags(parts@),
{
    let mut m: i32 = parts[0].bags_included;
    let mut i: usize = 1;
    assert(parts@.subrange(0, 1).len() == 1);
    while i < parts.len()
        invariant
            1 <= i <= parts@.len(),
            m == min_bags(parts@.subrange(0, i as int)),
        decreases parts@.len() - i,
    {
        assert(parts@.subrange(0, i + 1).drop_last() =~= parts@.subrange(0, i as int));
        if parts[i].bags_included < m {
            m = parts[i].bags_included;
        }
        i = i + 1;
    }
    assert(parts@.subrange(0, parts@.len() as int) =~= parts@);
    m
}

fn chain_carrier(parts: &[Offer]) -> (r: String)
    requires
        parts@.len() >= 1,
    ensures
        r@ == (match first_carrier(parts@) { Some(c) => c, None => parts@.last().carrier@ }),
{
    let n = parts.len();
    let mut i: usize = 0;
    assert(parts@.subrange(0, n as int) =~= parts@);
    while i < n
        invariant
            n == parts@.len(),
            i <= n,
            first_carrier(parts@.subrange(i as int, n as int)) == first_carrier(parts@),
        decreases n - i,
    {
        assert(parts@.subrange(i as int, n as int)[0] == parts@[i as int]);
        if !parts[i].carrier.as_str().is_empty() {
            return parts[i].carrier.clone();
        }
        assert(parts@.subrange(i as int, n as int).drop_first() =~= parts@.subrange(i + 1, n as int));
        i = i + 1;
    }
    parts[n - 1].carrier.clone()
}

fn flying_minutes(segs: &Vec<Segment>) -> (r: i32)
    requires
        minutes_fit(segs@),
    ensures
        r == air_minutes(segs@),
{
    let mut total: i32 = 0;
    let mut i: usize = 0;
    assert(segs@.subrange(0, 0) =~= Seq::<Segment>::empty());
    while i < segs.len()
        invariant
            i <= segs@.len(),
            minutes_fit(segs@),
            total == air_minutes(segs@.subrange(0, i as int)),
        decreases segs@.len() - i,
    {
        assert(segs@.subrange(0, i + 1).drop_last() =~= segs@.subrange(0, i as int));
        assert(i32::MIN <= air_minutes(segs@.subrange(0, i + 1)) <= i32::MAX);
        let d = segs[i].duration_min;
        total = total + d;
        i = i + 1;
    }
    assert(segs@.subrange(0, segs@.len() as int) =~= segs@);
    total
}

fn all_live(parts: &[Offer]) -> (r: bool)
    ensures
        r == (forall|i: int| 0 <= i < parts@.len() ==> (#[trigger] parts@[i]).live != Some(false)),
{
    let mut i: usize = 0;
    while i < parts.len()
        invariant
            i <= parts@.len(),
            forall|k: int| 0 <= k < i ==> (#[trigger] parts@[k]).live != Some(false),
        decreases parts@.len() - i,
    {
        if parts[i].live == Some(false) {
            return false;
        }
        i = i + 1;
    }
    true
}

fn chain_tickets(parts: &[Offer], ccy: &String) -> (r: Vec<SeparateTicket>)
    requires
        parts_fit(parts@),
        forall|i: int| 0 <= i < parts@.len() ==> (#[trigger] parts@[i]).price is Some,
        forall|i: int| 0 <= i < parts@.len() ==> (#[trigger] parts@[i]).segments@.len() > 0,
    ensures
        r@.len() == parts@.len(),
        forall|i: int| 0 <= i < parts@.len() ==> {
            let t = #[trigger] r@[i];
            &&& t.origin@ == to_upper(parts@[i].segments@[0].origin@)
            &&& t.dest@ == ticketed(parts@[i])
            &&& t.date@ == ticket_date_spec(parts@[i])
            &&& t.price == parts@[i].price->0
            &&& t.currency@ == ccy@
            &&& t.carrier == parts@[i].carrier
        },
{
    let mut out: Vec<SeparateTicket> = Vec::new();
    let mut i: usize = 0;
    while i < parts.len()
        invariant
            i <= parts@.len(),
            parts_fit(parts@),
            forall|k: int| 0 <= k < parts@.len() ==> (#[trigger] parts@[k]).price is Some,
            forall|k: int| 0 <= k < parts@.len() ==> (#[trigger] parts@[k]).segments@.len() > 0,
            out@.len() == i,
            forall|k: int| 0 <= k < i ==> {
                let t = #[trigger] out@[k];
                &&& t.origin@ == to_upper(parts@[k].segments@[0].origin@)
                &&& t.dest@ == ticketed(parts@[k])
                &&& t.date@ == ticket_date_spec(parts@[k])
                &&& t.price == parts@[k].price->0
                &&& t.currency@ == ccy@
                &&& t.carrier == parts@[k].carrier
            },
        decreases parts@.len() - i,
    {
        let p = &parts[i];
        assert(parts@[i as int].segments@.len() > 0);
        let t = SeparateTicket {
            origin: upper(p.segments[0].origin.as_str()),
            dest: ticketed_destination(p),
            date: ticket_date(p),
            price: match p.price { Some(x) => x, None => 0 },
            currency: ccy.clone(),
            carrier: p.carrier.clone(),
        };
        out.push(t);
        i = i + 1;
    }
    out
}

fn chain_text(n: usize, hubs: &Vec<String>) -> (r: String)
    requires
        n <= 5,
    ensures
        r@ == chain_note(n as int, views(hubs@)),
{
    let a = cat("Self-transfer: ", int_text(n as i64).as_str());
    let b = cat(a.as_str(), " separate tickets. You check in again at ");
    let c = cat(b.as_str(), join_texts(hubs, ", ").as_str());
    cat(c.as_str(), ". A missed connection is not protected. This is not hidden-city.")
}

/// Builds the trip from tickets that join (their flights, hubs and currency given).
fn build_chain(parts: &[Offer], segments: &Vec<Segment>, hubs: &Vec<String>, ccy: &String) -> (r: Offer)
    requires
        2 <= parts@.len() <= 5,
        parts_fit(parts@),
        forall|i: int| 0 <= i < parts@.len() ==> (#[trigger] parts@[i]).price is Some,
        forall|i: int| 0 <= i < parts@.len() ==> (#[trigger] parts@[i]).segments@.len() > 0,
        segments@ == all_segments(parts@),
        1 <= segments@.len() <= 5,
        minutes_fit(segments@),
        views(hubs@) == hubs_of(parts@),
        ccy@ == to_upper(parts@[0].currency@),
    ensures
        chain_offer(parts@, r),
{
    let n = segments.len();
    let door = connection_minutes(segments[0].dep.as_str(), segments[n - 1].arr.as_str());
    let duration = match door {
        Some(d) => if d > 0 { d } else { flying_minutes(segments) },
        None => flying_minutes(segments),
    };
    let a0 = parts[0].adults;
    let adults: i32 = if a0 < 1 { 1 } else if a0 > 9 { 9 } else { a0 };
    let live = all_live(parts);
    let r = Offer {
        id: chain_ids(parts),
        kind: "self-transfer".to_owned(),
        channel: "ota".to_owned(),
        source: "self-transfer".to_owned(),
        layer: "priced-offer".to_owned(),
        segments: clone_segments(segments),
        price: Some(chain_price(parts)),
        base_price: None,
        taxes: None,
        currency: ccy.clone(),
        quoted_usd: None,
        cabin: parts[0].cabin.clone(),
        adults,
        fare_basis: String::new(),
        seats: None,
        last_ticketing_date: None,
        validating_airline: None,
        instant_ticketing: None,
        refundable: false,
        bags_included: chain_bags(parts),
        carrier: chain_carrier(parts),
        duration_min: duration,
        stops: (n - 1) as i32,
        first_flight: segments[0].flight_number.clone(),
        retrieved_at: None,
        expires_at: None,
        note: Some(chain_text(parts.len(), hubs)),
        live: Some(live),
        return_date: None,
        outbound_end: None,
        self_transfer_airports: clone_strings(hubs),
        separate_tickets: chain_tickets(parts, ccy),
    };
    r
}

/// Joins separate tickets, in order, into one self-transfer trip (see
/// `chain_accepts` for when they join and `chain_offer` for the trip).
pub fn stitch_chain<I: Intended>(parts: &[Offer], intended: I) -> (r: Option<Offer>)
    requires
        parts_fit(parts@),
        minutes_ok(parts@),
    ensures
        exists|dests: Vec<String>| code_set(dests@) == intended.upper_codes() && #[trigger] chain_result(parts@, dests, r),
{
    let dests = intended.codes();
    let r = stitch_with(parts, &dests);
    assert(chain_result(parts@, dests, r));
    r
}

pub(crate) fn stitch_with(parts: &[Offer], dests: &Vec<String>) -> (r: Option<Offer>)
    requires
        parts_fit(parts@),
        minutes_ok(parts@),
    ensures
        chain_result(parts@, *dests, r),
{
    let n = parts.len();
    if n < 2 {
        assert(chain_result(parts@, *dests, None));
        return None;
    }
    let ghost ps = parts@;
    // prices
    let mut i: usize = 0;
    while i < n
        invariant
            n == ps.len(),
            ps == parts@,
            i <= n,
            forall|k: int| 0 <= k < i ==> (#[trigger] ps[k]).price is Some && ps[k].price->0 > 0,
        decreases n - i,
    {
        match parts[i].price {
            Some(x) => {
                if x <= 0 {
                    assert(!chain_accepts(ps, *dests));
                    return None;
                }
            },
            None => {
                assert(!chain_accepts(ps, *dests));
                return None;
            },
        }
        i = i + 1;
    }
    // flights
    let mut i: usize = 0;
    while i < n
        invariant
            n == ps.len(),
            ps == parts@,
            i <= n,
            forall|k: int| 0 <= k < i ==> (#[trigger] ps[k]).segments@.len() > 0,
        decreases n - i,
    {
        if parts[i].segments.len() == 0 {
            assert(!chain_accepts(ps, *dests));
            return None;
        }
        i = i + 1;
    }
    // currency and cabin
    let ccy = upper(parts[0].currency.as_str());
    if ccy.as_str().is_empty() {
        assert(!chain_accepts(ps, *dests));
        return None;
    }
    let mut i: usize = 0;
    while i < n
        invariant
            n == ps.len(),
            ps == parts@,
            i <= n,
            ccy@ == to_upper(ps[0].currency@),
            forall|k: int| 0 <= k < i ==> to_upper((#[trigger] ps[k]).currency@) == ccy@,
            forall|k: int| 0 <= k < i ==> (#[trigger] ps[k]).cabin@ == ps[0].cabin@,
        decreases n - i,
    {
        let c = upper(parts[i].currency.as_str());
        if !str_eq(c.as_str(), ccy.as_str()) {
            assert(!chain_accepts(ps, *dests));
            return None;
        }
        if !str_eq(parts[i].cabin.as_str(), parts[0].cabin.as_str()) {
            assert(!chain_accepts(ps, *dests));
            return None;
        }
        i = i + 1;
    }
    let o0 = upper(parts[0].segments[0].origin.as_str());
    if contains_string(dests, &o0) {
        assert(!chain_accepts(ps, *dests));
        return None;
    }
    // the links
    let mut hubs: Vec<String> = Vec::new();
    let mut i: usize = 0;
    while i + 1 < n
        invariant
            n == ps.len(),
            ps == parts@,
            n >= 2,
            i + 1 <= n,
            forall|k: int| 0 <= k < n ==> (#[trigger] ps[k]).segments@.len() > 0,
            forall|k: int| 0 <= k < i ==> #[trigger] link_ok(ps, *dests, k),
            views(hubs@) == hubs_of(ps).subrange(0, i as int),
        decreases n - i,
    {
        let left = &parts[i];
        let right = &parts[i + 1];
        let hub = ticketed_destination(left);
        if hub.as_str().is_empty() || contains_string(dests, &hub) {
            assert(!link_ok(ps, *dests, i as int));
            assert(!chain_accepts(ps, *dests));
            return None;
        }
        let ro = upper(right.segments[0].origin.as_str());
        if !str_eq(ro.as_str(), hub.as_str()) {
            assert(!link_ok(ps, *dests, i as int));
            assert(!chain_accepts(ps, *dests));
            return None;
        }
        let hs = hub.as_str();
        if !is_standard_to(left, &hs) {
            assert(eq_ignore_case(hub@, ticketed(*left)));
            return None;
        }
        if detect_hidden_city(left, dests).is_some() {
            assert(!link_ok(ps, *dests, i as int));
            assert(!chain_accepts(ps, *dests));
            return None;
        }
        let last_leg = &left.segments[left.segments.len() - 1];
        let gap = match connection_minutes(last_leg.arr.as_str(), right.segments[0].dep.as_str()) {
            Some(g) => g,
            None => {
                assert(!link_ok(ps, *dests, i as int));
                assert(!chain_accepts(ps, *dests));
                return None;
            },
        };
        if gap < 150 || gap > 1320 {
            assert(!link_ok(ps, *dests, i as int));
            assert(!chain_accepts(ps, *dests));
            return None;
        }
        assert(link_ok(ps, *dests, i as int));
        let ghost before = views(hubs@);
        let ghost hv = hub@;
        assert(hv == hubs_of(ps)[i as int]);
        hubs.push(hub);
        assert(views(hubs@) =~= before.push(hv));
        assert(before.push(hv) =~= hubs_of(ps).subrange(0, i + 1));
        i = i + 1;
    }
    assert(views(hubs@) =~= hubs_of(ps));
    // each hub once
    let mut a: usize = 0;
    while a < hubs.len()
        invariant
            a <= hubs@.len(),
            ps == parts@,
            views(hubs@) == hubs_of(ps),
            forall|x: int, y: int| 0 <= x < y < hubs@.len() && x < a ==> views(hubs@)[x] != views(hubs@)[y],
        decreases hubs@.len() - a,
    {
        let mut b: usize = a + 1;
        while b < hubs.len()
            invariant
                a < hubs@.len(),
                a + 1 <= b <= hubs@.len(),
                ps == parts@,
                views(hubs@) == hubs_of(ps),
                forall|x: int, y: int| 0 <= x < y < hubs@.len() && x < a ==> views(hubs@)[x] != views(hubs@)[y],
                forall|y: int| a < y < b ==> views(hubs@)[a as int] != views(hubs@)[y],
            decreases hubs@.len() - b,
        {
            if str_eq(hubs[a].as_str(), hubs[b].as_str()) {
                assert(hubs_of(ps)[a as int] == hubs_of(ps)[b as int]);
                assert(!hubs_of(ps).no_duplicates());
                assert(!chain_accepts(ps, *dests));
                return None;
            }
            b = b + 1;
        }
        a = a + 1;
    }
    assert(hubs_of(ps).no_duplicates());
    let last = &parts[n - 1];
    if !is_standard_to(last, dests) || detect_hidden_city(last, dests).is_some() {
        assert(!chain_accepts(ps, *dests));
        return None;
    }
    // the flights of the trip
    let mut segments: Vec<Segment> = Vec::new();
    let mut i: usize = 0;
    while i < n
        invariant
            n == ps.len(),
            ps == parts@,
            i <= n,
            segments@ == all_segments(ps.subrange(0, i as int)),
            segments@.len() >= i,
            parts_fit(ps),
            forall|k: int| 0 <= k < n ==> (#[trigger] ps[k]).segments@.len() > 0,
        decreases n - i,
    {
        assert(ps.subrange(0, i + 1).drop_last() =~= ps.subrange(0, i as int));
        let more = clone_segments(&parts[i].segments);
        assert(ps[i as int].segments@.len() > 0);
        let mut k: usize = 0;
        let ghost base = segments@;
        while k < more.len()
            invariant
                k <= more@.len(),
                segments@ == base + more@.subrange(0, k as int),
                more@ == ps[i as int].segments@,
                parts_fit(ps),
                0 <= i < ps.len(),
            decreases more@.len() - k,
        {
            segments.push(more[k].clone());
            k = k + 1;
            assert(segments@ =~= base + more@.subrange(0, k as int));
        }
        assert(more@.subrange(0, more@.len() as int) =~= more@);
        i = i + 1;
    }
    assert(ps.subrange(0, n as int) =~= ps);
    if segments.len() > 5 {
        assert(!chain_accepts(ps, *dests));
        return None;
    }
    assert(chain_accepts(ps, *dests));
    let r = build_chain(parts, &segments, &hubs, &ccy);
    assert(chain_result(ps, *dests, Some(r)));
    Some(r)
}

} // verus!
