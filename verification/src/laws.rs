//! Properties of the library as a whole, stated over the specifications of its
//! functions and proved.
use vstd::prelude::*;
use crate::models::{Offer, BookerLink, HonestPick, kept, same_offer};
use crate::picks::{honest_choice, cheapest_at, pick_of, cheapest_reason, price_keys, pick_key};
use crate::text::eq_ignore_case;
use crate::hidden::{Intended, hidden_exit, standard_to, ticketed, hidden_applies, lemma_first_exit, views, is_exit};
use crate::fx::{Rates, to_usd_spec, usd};
use crate::text::{to_upper, has_prefix, trim_spec};
use crate::self_transfer::{chain_accepts, chain_offer, hubs_of, all_segments, max_self_flights, price_sum};
use crate::hubs::{ranked_rel, first_n_of, combine_rel, cands_rel, similar_tries, kept_trips, twos, threes, below,
    stably_sorted, trip_keys, trip_key, distinct_trips, trip_flights, best_price};
use crate::dedupe::{first_of_each, permuted};
use crate::order::{sorted_by, before, lemma_sort_order_exists, lex_lt, lemma_lex_asym, lemma_lex_irreflexive};
use crate::picks::price_or_big;
use crate::bookers::{featured_spec, take_all, take_step, roster_links, link_at, has_link, kayak_family};
use crate::places::{runs, is_token_char, kept_pieces, AirportRow, airport_key, airport_keys, by_service, first_rows, shown_rows, rows_in, exact_code_hit};
use crate::candidates::{pool_ok, pool_has, pool_index, source_assigned, priority_of, learned_source, fresh_codes, first_n, beyond_spec, HiddenCityCandidateEdge};

use crate::index::upper_all;
use crate::window::{window_of, FareWindow, FarePoint};
use crate::times::Instant;
use crate::candidates::{dead_spec, RouteStat};
use crate::shop::reusable_for;
use crate::hidden::code_set;
use crate::text::{utf8_len, replace_spec};
use crate::query::pg_url_spec;
use crate::learn::{RouteKey, StatDelta, row_of, route_seen, kept_fares, fare_kept};
use crate::budget::{LedgerView, ProviderCall, within_cap, committed, reserve_next, record_next, paid_count,
    slots_left_spec, lemma_paid_push};

verus! {

/// A hidden-city ticket is never also a plain ticket to the intended place: it is
/// sold beyond it.
pub proof fn law_hidden_is_not_standard<I: Intended>(o: Offer, intended: &I)
    requires
        hidden_exit(o, intended) is Some,
    ensures
        !standard_to(o, intended),
{
}

/// Hidden city stays one-way: a round-trip ticket is never a hidden-city ticket.
pub proof fn law_round_trip_never_hidden<I: Intended>(o: Offer, intended: &I)
    requires
        o.return_date is Some,
    ensures
        hidden_exit(o, intended) is None,
{
}

/// The traveller leaves a hidden-city ticket at an intended place, before its last
/// flight, and at the first such place.
pub proof fn law_hidden_exit_is_intended<I: Intended>(o: Offer, intended: &I)
    requires
        hidden_exit(o, intended) is Some,
    ensures
        ({
            let k = hidden_exit(o, intended)->0;
            &&& 0 <= k < o.segments@.len() - 1
            &&& intended.holds(o.segments@[k].dest@)
            &&& forall|j: int| 0 <= j < k ==> !intended.holds(#[trigger] o.segments@[j].dest@)
        }),
{
    lemma_first_exit(o, intended, 0);
    let k = hidden_exit(o, intended)->0;
    assert(is_exit(o, intended, k));
    assert forall|j: int| 0 <= j < k implies !intended.holds(#[trigger] o.segments@[j].dest@) by {
        assert(!is_exit(o, intended, j));
    }
}

/// A USD amount converts to itself, whether or not rates are live.
pub proof fn law_usd_is_unchanged(rates: Rates, cents: i64, currency: Seq<char>)
    requires
        to_upper(currency) == usd(),
    ensures
        to_usd_spec(rates, Some(cents), currency) == Some(cents),
{
}

/// Until a rate fetch has succeeded, only USD converts: any other currency gives no
/// amount (baked-in rates are never used).
pub proof fn law_untrusted_rates_convert_only_usd(rates: Rates, amount: Option<i64>, currency: Seq<char>)
    requires
        !rates.live,
        to_upper(currency) != usd(),
    ensures
        to_usd_spec(rates, amount, currency) is None,
{
}

/// A self-transfer trip has two tickets or more, changes at each hub once, and its
/// last ticket is sold to an intended place (it is no hidden-city trip). It flies the
/// tickets' flights in order, at most `max_self_flights` of them, stops at each
/// change, costs the sum of the tickets, and all its tickets share its currency and
/// cabin.
pub proof fn law_self_transfer_shape(parts: Seq<Offer>, dests: Vec<String>, r: Offer)
    requires
        chain_accepts(parts, dests),
        chain_offer(parts, r),
    ensures
        r.segments@ == all_segments(parts),
        r.segments@.len() <= max_self_flights(),
        r.stops == r.segments@.len() - 1,
        r.price == Some(price_sum(parts) as i64),
        forall|i: int| 0 <= i < parts.len() ==> to_upper((#[trigger] parts[i]).currency@) == r.currency@
            && parts[i].cabin@ == r.cabin@,
        r.separate_tickets@.len() >= 2,
        views(r.self_transfer_airports@).no_duplicates(),
        r.self_transfer_airports@.len() == r.separate_tickets@.len() - 1,
        standard_to(parts.last(), &dests),
        hidden_exit(parts.last(), &dests) is None,
{
    assert(views(r.self_transfer_airports@).len() == hubs_of(parts).len());
}

/// Ranking gives at most `limit` trips.
pub proof fn law_ranked_at_most_limit(cands: Seq<Offer>, limit: int, r: Seq<Offer>)
    requires
        limit >= 0,
        ranked_rel(cands, limit, r),
    ensures
        r.len() <= limit,
{
}

/// Every trip joined at the hubs is an accepted self-transfer of tickets tried.
pub proof fn law_candidates_are_accepted(tries: Seq<Seq<Offer>>, dests: Vec<String>, cands: Seq<Offer>, i: int)
    requires
        cands_rel(tries, dests, cands),
        0 <= i < cands.len(),
    ensures
        exists|k: int| 0 <= k < tries.len() && chain_accepts(#[trigger] tries[k], dests) && chain_offer(tries[k], cands[i]),
    decreases tries.len(),
{
    let t = tries.last();
    if chain_result_none(t, dests) && cands_rel(tries.drop_last(), dests, cands) {
        law_candidates_are_accepted(tries.drop_last(), dests, cands, i);
        let k = choose|k: int| 0 <= k < tries.drop_last().len() && chain_accepts(#[trigger] tries.drop_last()[k], dests)
            && chain_offer(tries.drop_last()[k], cands[i]);
        assert(tries[k] == tries.drop_last()[k]);
    } else {
        if i < cands.len() - 1 {
            law_candidates_are_accepted(tries.drop_last(), dests, cands.drop_last(), i);
            let k = choose|k: int| 0 <= k < tries.drop_last().len() && chain_accepts(#[trigger] tries.drop_last()[k], dests)
                && chain_offer(tries.drop_last()[k], cands.drop_last()[i]);
            assert(tries[k] == tries.drop_last()[k]);
        } else {
            assert(chain_accepts(tries[tries.len() - 1], dests));
        }
    }
}

spec fn chain_result_none(t: Seq<Offer>, dests: Vec<String>) -> bool {
    crate::self_transfer::chain_result(t, dests, None)
}

proof fn lemma_roster_clean(links: Seq<BookerLink>, i: int)
    requires
        0 <= i < roster_links(links).len(),
    ensures
        !has_prefix(roster_links(links)[i].id@, "carrier-"@),
        roster_links(links)[i].id@ != "skiplagged-com"@,
    decreases links.len(),
{
    let f = roster_links(links.drop_last());
    if i < f.len() {
        lemma_roster_clean(links.drop_last(), i);
    }
}

proof fn lemma_link_at_id(v: Seq<BookerLink>, id: Seq<char>)
    requires
        link_at(v, id) is Some,
    ensures
        0 <= link_at(v, id)->0 < v.len(),
        v[link_at(v, id)->0].id@ == id,
    decreases v.len(),
{
    if link_at(v.drop_last(), id) is Some {
        lemma_link_at_id(v.drop_last(), id);
    }
}

proof fn lemma_take_all_shape(pool: Seq<BookerLink>, order: Seq<Seq<char>>, cap: int)
    requires
        cap >= 1,
        forall|i: int| 0 <= i < pool.len() ==> !has_prefix(#[trigger] pool[i].id@, "carrier-"@),
    ensures
        take_all(pool, order, cap).0.len() <= cap,
        forall|i: int, j: int| 0 <= i < j < take_all(pool, order, cap).0.len() ==>
            (#[trigger] take_all(pool, order, cap).0[i]).id@ != (#[trigger] take_all(pool, order, cap).0[j]).id@,
        forall|i: int| 0 <= i < take_all(pool, order, cap).0.len() ==>
            !has_prefix(#[trigger] take_all(pool, order, cap).0[i].id@, "carrier-"@),
    decreases order.len(),
{
    if order.len() > 0 {
        lemma_take_all_shape(pool, order.drop_last(), cap);
        let st = take_all(pool, order.drop_last(), cap);
        let id = order.last();
        let out = st.0;
        if !(out.len() >= cap || has_link(out, id)) {
            if let Some(k) = link_at(pool, id) {
                lemma_link_at_id(pool, id);
                let nx = take_all(pool, order, cap).0;
                if nx.len() > out.len() {
                    assert(nx == out.push(pool[k]));
                    assert forall|i: int, j: int| 0 <= i < j < nx.len() implies (#[trigger] nx[i]).id@ != (#[trigger] nx[j]).id@ by {
                        if j == nx.len() - 1 {
                            assert(nx[i] == out[i]);
                            if out[i].id@ == id {
                                assert(has_link(out, id));
                            }
                        } else {
                            assert(nx[i] == out[i] && nx[j] == out[j]);
                        }
                    }
                }
            }
        }
    }
}

/// The featured links are at most `n` (at least one), each site once, and never a
/// carrier link.
pub proof fn law_featured_shape(links: Seq<BookerLink>, oc: Seq<char>, octry: Seq<char>, dc: Seq<char>, dctry: Seq<char>, n: int)
    ensures
        featured_spec(links, oc, octry, dc, dctry, n).len() <= if n < 1 { 1 } else { n },
        forall|i: int, j: int| 0 <= i < j < featured_spec(links, oc, octry, dc, dctry, n).len() ==>
            (#[trigger] featured_spec(links, oc, octry, dc, dctry, n)[i]).id@
                != (#[trigger] featured_spec(links, oc, octry, dc, dctry, n)[j]).id@,
        forall|i: int| 0 <= i < featured_spec(links, oc, octry, dc, dctry, n).len() ==>
            !has_prefix(#[trigger] featured_spec(links, oc, octry, dc, dctry, n)[i].id@, "carrier-"@),
{
    let pool = roster_links(links);
    assert forall|i: int| 0 <= i < pool.len() implies !has_prefix(#[trigger] pool[i].id@, "carrier-"@) by {
        lemma_roster_clean(links, i);
    }
    let cap = if n < 1 { 1 } else { n };
    lemma_take_all_shape(pool, crate::bookers::featured_order(links, oc, octry, dc, dctry), cap);
}

/// Every search token is a non-empty run of `a`..`z` and `0`..`9`.
pub proof fn law_tokens_are_words(s: Seq<char>, i: int)
    requires
        0 <= i < runs(s).len(),
    ensures
        runs(s)[i].len() > 0,
        forall|j: int| 0 <= j < runs(s)[i].len() ==> is_token_char(#[trigger] runs(s)[i][j]),
    decreases s.len(),
{
    let init = runs(s.drop_last());
    if s.len() > 0 && is_token_char(s.last()) {
        if s.len() >= 2 && is_token_char(s[s.len() - 2]) {
            if i < init.len() - 1 {
                law_tokens_are_words(s.drop_last(), i);
            } else {
                assert(init.len() > 0) by {
                    assert(s.drop_last().last() == s[s.len() - 2]);
                }
                law_tokens_are_words(s.drop_last(), init.len() - 1);
                assert(runs(s)[i] == init.last().push(s.last()));
            }
        } else if i < init.len() {
            law_tokens_are_words(s.drop_last(), i);
        }
    } else if s.len() > 0 {
        law_tokens_are_words(s.drop_last(), i);
    }
}

/// Every keyword is trimmed and not empty.
pub proof fn law_keywords_trimmed(p: Seq<Seq<char>>, i: int)
    requires
        0 <= i < kept_pieces(p).len(),
    ensures
        kept_pieces(p)[i].len() > 0,
        exists|j: int| 0 <= j < p.len() && kept_pieces(p)[i] == trim_spec(#[trigger] p[j]),
    decreases p.len(),
{
    let init = kept_pieces(p.drop_last());
    if i < init.len() {
        law_keywords_trimmed(p.drop_last(), i);
        let j = choose|j: int| 0 <= j < p.drop_last().len() && init[i] == trim_spec(#[trigger] p.drop_last()[j]);
        assert(p[j] == p.drop_last()[j]);
    } else {
        assert(kept_pieces(p)[i] == trim_spec(p[p.len() - 1]));
    }
}

/// Reserving paid slots never takes a ledger past its cap; the one way past it is a
/// `direct` reservation of more than one slot on the held slot.
pub proof fn law_reserve_keeps_cap(v: LedgerView, n: int, purpose: Seq<char>)
    requires
        within_cap(v),
        !(purpose == "direct"@ && v.hold_direct && n > 1),
    ensures
        within_cap(reserve_next(v, n, purpose).1),
{
}

/// A refused reservation changes nothing; a granted one of `n` free slots (not the
/// held one) leaves exactly `n` fewer free; and no ledger ever reports fewer than
/// zero free slots.
pub proof fn law_reserve_outcome(v: LedgerView, n: int, purpose: Seq<char>)
    ensures
        slots_left_spec(v) >= 0,
        !reserve_next(v, n, purpose).0 ==> reserve_next(v, n, purpose).1 == v,
        n > 0 && !(purpose == "direct"@ && v.hold_direct) && reserve_next(v, n, purpose).0
            ==> slots_left_spec(reserve_next(v, n, purpose).1) == slots_left_spec(v) - n,
{
}

/// Recording a call keeps a ledger within its cap when a call that costs anything
/// was paid for from a reserved slot.
pub proof fn law_record_keeps_cap(v: LedgerView, paid: bool, call: ProviderCall)
    requires
        within_cap(v),
        call.cost_micros > 0 ==> paid && v.reserved > 0,
    ensures
        within_cap(record_next(v, paid, call)),
{
    lemma_paid_push(v.calls, call);
}

/// Holding the direct slot keeps a ledger within its cap when a slot is free for it
/// (or it is already held).
pub proof fn law_hold_keeps_cap(v: LedgerView)
    requires
        within_cap(v),
        v.hold_direct || committed(v) < v.max_paid,
    ensures
        within_cap(LedgerView { hold_direct: true, ..v }),
{
}

/// Within its cap a ledger has made no more paid calls than the cap, and what it
/// has left is the cap less the slots taken.
pub proof fn law_paid_calls_within_cap(v: LedgerView)
    requires
        within_cap(v),
    ensures
        paid_count(v.calls) <= v.max_paid,
        slots_left_spec(v) == v.max_paid - committed(v),
{
}

/// The held slot belongs to the honest A→B shop: a reservation for anything else
/// keeps the hold and is granted only from the slots left beside it.
pub proof fn law_held_slot_kept_for_direct(v: LedgerView, n: int, purpose: Seq<char>)
    requires
        v.hold_direct,
        purpose != "direct"@,
        n > 0,
    ensures
        reserve_next(v, n, purpose).1.hold_direct,
        reserve_next(v, n, purpose).0 ==> n <= v.max_paid - committed(v),
{
}

/// A reserved slot stays taken once its paid call is recorded: between the
/// reservation and the record, the slots taken do not change.
pub proof fn law_spent_slot_stays_taken(v: LedgerView, purpose: Seq<char>, call: ProviderCall)
    requires
        v.reserved >= 0,
        reserve_next(v, 1, purpose).0,
        call.cost_micros > 0,
    ensures
        committed(record_next(reserve_next(v, 1, purpose).1, true, call)) == committed(reserve_next(v, 1, purpose).1),
{
    lemma_paid_push(reserve_next(v, 1, purpose).1.calls, call);
}

/// A route row never counts more successes than observations, nor more cheaper
/// fares than successes, and a cheaper fare is a success; it holds one saving and
/// one saving percentage per cheaper fare.
pub proof fn law_route_counts_ordered(r: StatDelta, k: RouteKey, p: Seq<Offer>, pa: Seq<char>, pb: Seq<char>,
    probed: Seq<Seq<char>>, os: Seq<Seq<char>>, iv: Vec<String>, honest: Option<(i64, Seq<char>)>)
    requires
        row_of(r, k, p, pa, pb, probed, os, iv, honest),
    ensures
        r.observations >= r.successful_connections >= r.cheaper_than_direct_count >= 0,
        r.savings@.len() == r.saving_pcts@.len() == r.cheaper_than_direct_count,
        r.cheaper ==> r.success,
        r.observations >= 1 || !route_seen(k, p, pa, pb, probed, os, iv),
{
}

/// No route row is ticketed to an intended airport: flying there is the honest fare.
pub proof fn law_no_route_to_intended(k: RouteKey, p: Seq<Offer>, pa: Seq<char>, pb: Seq<char>,
    probed: Seq<Seq<char>>, os: Seq<Seq<char>>, iv: Vec<String>)
    requires
        route_seen(k, p, pa, pb, probed, os, iv),
    ensures
        !views(iv@).contains(k.2),
{
}

/// Every recorded fare is priced, has segments and leaves from one of the origins.
pub proof fn law_fares_leave_from_origins(p: Seq<Offer>, os: Seq<Seq<char>>, i: int)
    requires
        0 <= i < kept_fares(p, os).len(),
    ensures
        fare_kept(kept_fares(p, os)[i], os),
    decreases p.len(),
{
    let d = kept_fares(p.drop_last(), os);
    if i < d.len() {
        law_fares_leave_from_origins(p.drop_last(), os, i);
        if fare_kept(p.last(), os) {
            assert(kept_fares(p, os)[i] == d[i]);
        }
    }
}

/// Offering a planner source for a code never lowers what any held code has: each
/// code held before is held after, at its place, with a source that ranks at least
/// as high; so a learned source (stats, index, edges) is never replaced by an
/// OpenFlights or hub one.
pub proof fn law_source_priority_never_drops(before: Seq<(String, String)>, code: String, source: Seq<char>,
    after: Seq<(String, String)>, i: int)
    requires
        pool_ok(before),
        source_assigned(before, code, source, after),
        0 <= i < before.len(),
    ensures
        i < after.len(),
        after[i].0 == before[i].0,
        priority_of(after[i].1@) >= priority_of(before[i].1@),
        learned_source(before[i].1@) ==> learned_source(after[i].1@),
{
    if pool_has(before, code@) {
        let j = pool_index(before, code@);
        if i != j {
            assert(after[i] == before[i]);
        }
    } else {
        assert(after[i] == after.drop_last()[i]);
    }
}

proof fn lemma_kept_none(src: Seq<Offer>, out: Seq<Offer>, keep: spec_fn(Offer) -> bool)
    requires
        kept(src, out, keep),
    ensures
        out.len() == 0 <==> forall|i: int| 0 <= i < src.len() ==> !keep(#[trigger] src[i]),
    decreases src.len(),
{
    if src.len() > 0 {
        lemma_kept_none(src.drop_last(), if keep(src.last()) { out.drop_last() } else { out }, keep);
        if !keep(src.last()) && out.len() == 0 {
            assert forall|i: int| 0 <= i < src.len() implies !keep(#[trigger] src[i]) by {
                if i < src.len() - 1 {
                    assert(src[i] == src.drop_last()[i]);
                }
            }
        }
        if out.len() == 0 {
        } else if !keep(src.last()) {
            let j = choose|i: int| 0 <= i < src.drop_last().len() && keep(#[trigger] src.drop_last()[i]);
            assert(keep(src[j]));
        }
    }
}

/// When every priced offer is in the wanted currency, an honest pick exists exactly
/// when some offer has a price.
pub proof fn law_honest_pick_when_priced(rates: Rates, all: Seq<Offer>, want: Seq<char>, cands: Seq<Offer>,
    r: Option<HonestPick>)
    requires
        honest_choice(rates, all, want, cands, r),
        forall|i: int| 0 <= i < all.len() && (#[trigger] all[i]).price is Some ==> eq_ignore_case(all[i].currency@, want),
    ensures
        r is None <==> forall|i: int| 0 <= i < all.len() ==> (#[trigger] all[i]).price is None,
{
    let f = |o: Offer| o.price is Some;
    assert(kept(all, cands, f));
    lemma_kept_none(all, cands, f);
    assert((forall|i: int| 0 <= i < all.len() ==> !f(#[trigger] all[i]))
        <==> (forall|i: int| 0 <= i < all.len() ==> (#[trigger] all[i]).price is None));
}

proof fn lemma_first_of_each_len<K>(src: Seq<Offer>, out: Seq<Offer>, key: spec_fn(Offer) -> K)
    requires
        first_of_each(src, out, key),
    ensures
        out.len() <= src.len(),
    decreases src.len(),
{
    if src.len() > 0 {
        if exists|j: int| 0 <= j < src.len() - 1 && key(#[trigger] src[j]) == key(src.last()) {
            lemma_first_of_each_len(src.drop_last(), out, key);
        } else {
            lemma_first_of_each_len(src.drop_last(), out.drop_last(), key);
        }
    }
}

proof fn lemma_split_len(s: Seq<Offer>, b: Option<i64>)
    ensures
        twos(s).len() + threes(s).len() == s.len(),
        below(s, b).len() <= s.len(),
    decreases s.len(),
{
    if s.len() > 0 {
        lemma_split_len(s.drop_last(), b);
    }
}

/// Ranked trips come cheapest first, trips with no price last.
pub proof fn law_ranked_by_price(cands: Seq<Offer>, limit: int, r: Seq<Offer>, i: int, j: int)
    requires
        cands.len() <= usize::MAX,
        limit >= 0,
        ranked_rel(cands, limit, r),
        0 <= i < j < r.len(),
    ensures
        price_or_big(r[i].price) <= price_or_big(r[j].price),
{
    let sorted = stably_sorted(cands, trip_keys(cands));
    let dd = choose|dd: Seq<Offer>| #[trigger] distinct_trips(sorted, dd)
        && crate::models::same_offers(r, first_n_of(stably_sorted(kept_trips(dd), trip_keys(kept_trips(dd))), limit));
    lemma_sort_order_exists(trip_keys(cands));
    lemma_first_of_each_len(sorted, dd, |o: Offer| trip_flights(o));
    lemma_split_len(dd, None);
    lemma_split_len(threes(dd), crate::hubs::best_price(twos(dd)));
    let k = kept_trips(dd);
    assert(k.len() <= usize::MAX);
    lemma_sort_order_exists(trip_keys(k));
    let q = choose|q: Seq<usize>| sorted_by(trip_keys(k), q);
    let st = permuted(k, q);
    assert(stably_sorted(k, trip_keys(k)) == st);
    assert(sorted_by(trip_keys(k), q));
    assert(q.len() == k.len());
    assert(st.len() == q.len());
    let f = first_n_of(st, limit);
    assert(f.len() <= st.len());
    assert(crate::models::same_offers(r, f));
    assert(crate::models::same_offer(r[i], f[i]));
    assert(crate::models::same_offer(r[j], f[j]));
    assert(f[i] == st[i] && f[j] == st[j]);
    assert(before(trip_keys(k), q[i] as int, q[j] as int));
    let a = trip_keys(k)[q[i] as int];
    let b = trip_keys(k)[q[j] as int];
    assert(a == trip_key(k[q[i] as int]));
    assert(b == trip_key(k[q[j] as int]));
    assert(a[0] <= b[0]);
}

proof fn lemma_twos_few(s: Seq<Offer>, m: int)
    requires
        0 <= m < twos(s).len(),
    ensures
        twos(s)[m].separate_tickets@.len() <= 2,
    decreases s.len(),
{
    if s.len() > 0 {
        if s.last().separate_tickets@.len() <= 2 {
            if m < twos(s.drop_last()).len() {
                lemma_twos_few(s.drop_last(), m);
            }
        } else {
            lemma_twos_few(s.drop_last(), m);
        }
    }
}

proof fn lemma_threes_many(s: Seq<Offer>, m: int)
    requires
        0 <= m < threes(s).len(),
    ensures
        threes(s)[m].separate_tickets@.len() >= 3,
    decreases s.len(),
{
    if s.len() > 0 {
        if s.last().separate_tickets@.len() >= 3 {
            if m < threes(s.drop_last()).len() {
                lemma_threes_many(s.drop_last(), m);
            }
        } else {
            lemma_threes_many(s.drop_last(), m);
        }
    }
}

proof fn lemma_below_of(s: Seq<Offer>, b: Option<i64>, m: int)
    requires
        0 <= m < below(s, b).len(),
    ensures
        exists|x: int| 0 <= x < s.len() && #[trigger] s[x] == below(s, b)[m],
        b is Some ==> price_or_big(below(s, b)[m].price) < b->0,
    decreases s.len(),
{
    if s.len() > 0 {
        let init = below(s.drop_last(), b);
        if m < init.len() {
            lemma_below_of(s.drop_last(), b, m);
            let x = choose|x: int| 0 <= x < s.drop_last().len() && #[trigger] s.drop_last()[x] == init[m];
            assert(s[x] == below(s, b)[m]);
        } else {
            assert(s[s.len() - 1] == below(s, b)[m]);
        }
    }
}

proof fn lemma_best_at_most(s: Seq<Offer>, m: int)
    requires
        0 <= m < s.len(),
        s[m].price is Some,
    ensures
        best_price(s) is Some,
        best_price(s)->0 <= s[m].price->0,
    decreases s.len(),
{
    if m < s.len() - 1 {
        lemma_best_at_most(s.drop_last(), m);
    }
}

/// A trip of three tickets or more is ranked only when it is cheaper than every
/// priced trip of one or two tickets ranked beside it.
pub proof fn law_many_tickets_beat_fewer(cands: Seq<Offer>, limit: int, r: Seq<Offer>, i: int, j: int)
    requires
        cands.len() <= usize::MAX,
        limit >= 0,
        ranked_rel(cands, limit, r),
        0 <= i < r.len(),
        0 <= j < r.len(),
        r[i].separate_tickets@.len() >= 3,
        r[j].separate_tickets@.len() <= 2,
        r[j].price is Some,
    ensures
        price_or_big(r[i].price) < r[j].price->0,
{
    let sorted = stably_sorted(cands, trip_keys(cands));
    let dd = choose|dd: Seq<Offer>| #[trigger] distinct_trips(sorted, dd)
        && crate::models::same_offers(r, first_n_of(stably_sorted(kept_trips(dd), trip_keys(kept_trips(dd))), limit));
    lemma_sort_order_exists(trip_keys(cands));
    lemma_first_of_each_len(sorted, dd, |o: Offer| trip_flights(o));
    lemma_split_len(dd, None);
    let tw = twos(dd);
    let best = best_price(tw);
    let bl = below(threes(dd), best);
    lemma_split_len(threes(dd), best);
    let k = kept_trips(dd);
    assert(k == tw + bl);
    lemma_sort_order_exists(trip_keys(k));
    let q = choose|q: Seq<usize>| sorted_by(trip_keys(k), q);
    let st = permuted(k, q);
    assert(stably_sorted(k, trip_keys(k)) == st);
    assert(q.len() == k.len());
    let f = first_n_of(st, limit);
    assert(f.len() <= st.len());
    assert(crate::models::same_offer(r[i], f[i]));
    assert(crate::models::same_offer(r[j], f[j]));
    assert(f[i] == st[i] && f[j] == st[j]);
    let x = q[i] as int;
    let y = q[j] as int;
    assert(st[i] == k[x] && st[j] == k[y]);
    if x < tw.len() {
        lemma_twos_few(dd, x);
        assert(false);
    }
    if y >= tw.len() {
        lemma_below_of(threes(dd), best, y - tw.len());
        let z = choose|z: int| 0 <= z < threes(dd).len() && #[trigger] threes(dd)[z] == bl[y - tw.len()];
        lemma_threes_many(dd, z);
        assert(false);
    }
    assert(k[y] == tw[y]);
    lemma_best_at_most(tw, y);
    lemma_below_of(threes(dd), best, x - tw.len());
    assert(k[x] == bl[x - tw.len()]);
}

/// No two trips of a list fly the same flights.
pub open spec fn distinct_flights(s: Seq<Offer>) -> bool {
    forall|a: int, b: int| 0 <= a < b < s.len() ==> trip_flights(#[trigger] s[a]) != trip_flights(#[trigger] s[b])
}

proof fn lemma_twos_member(s: Seq<Offer>, m: int)
    requires
        0 <= m < twos(s).len(),
    ensures
        exists|x: int| 0 <= x < s.len() && #[trigger] s[x] == twos(s)[m],
    decreases s.len(),
{
    if s.len() > 0 {
        let init = twos(s.drop_last());
        if m < init.len() {
            lemma_twos_member(s.drop_last(), m);
            let x = choose|x: int| 0 <= x < s.drop_last().len() && #[trigger] s.drop_last()[x] == init[m];
            assert(s[x] == twos(s)[m]);
        } else {
            assert(s[s.len() - 1] == twos(s)[m]);
        }
    }
}

proof fn lemma_threes_member(s: Seq<Offer>, m: int)
    requires
        0 <= m < threes(s).len(),
    ensures
        exists|x: int| 0 <= x < s.len() && #[trigger] s[x] == threes(s)[m],
    decreases s.len(),
{
    if s.len() > 0 {
        let init = threes(s.drop_last());
        if m < init.len() {
            lemma_threes_member(s.drop_last(), m);
            let x = choose|x: int| 0 <= x < s.drop_last().len() && #[trigger] s.drop_last()[x] == init[m];
            assert(s[x] == threes(s)[m]);
        } else {
            assert(s[s.len() - 1] == threes(s)[m]);
        }
    }
}

proof fn lemma_split_distinct(s: Seq<Offer>, b: Option<i64>)
    requires
        distinct_flights(s),
    ensures
        distinct_flights(twos(s)),
        distinct_flights(threes(s)),
        distinct_flights(below(s, b)),
    decreases s.len(),
{
    if s.len() > 0 {
        let d = s.drop_last();
        assert(distinct_flights(d)) by {
            assert forall|a: int, c: int| 0 <= a < c < d.len() implies trip_flights(#[trigger] d[a]) != trip_flights(#[trigger] d[c]) by {
                assert(d[a] == s[a] && d[c] == s[c]);
            }
        }
        lemma_split_distinct(d, b);
        assert forall|m: int| 0 <= m < twos(d).len() implies trip_flights(#[trigger] twos(d)[m]) != trip_flights(s.last()) by {
            lemma_twos_member(d, m);
            let x = choose|x: int| 0 <= x < d.len() && #[trigger] d[x] == twos(d)[m];
            assert(s[x] == d[x]);
        }
        assert forall|m: int| 0 <= m < threes(d).len() implies trip_flights(#[trigger] threes(d)[m]) != trip_flights(s.last()) by {
            lemma_threes_member(d, m);
            let x = choose|x: int| 0 <= x < d.len() && #[trigger] d[x] == threes(d)[m];
            assert(s[x] == d[x]);
        }
        assert forall|m: int| 0 <= m < below(d, b).len() implies trip_flights(#[trigger] below(d, b)[m]) != trip_flights(s.last()) by {
            lemma_below_of(d, b, m);
            let x = choose|x: int| 0 <= x < d.len() && #[trigger] d[x] == below(d, b)[m];
            assert(s[x] == d[x]);
        }
    }
}

proof fn lemma_first_of_each_member(src: Seq<Offer>, out: Seq<Offer>, m: int)
    requires
        first_of_each(src, out, |o: Offer| trip_flights(o)),
        0 <= m < out.len(),
    ensures
        exists|x: int| 0 <= x < src.len() && trip_flights(#[trigger] src[x]) == trip_flights(out[m]),
    decreases src.len(),
{
    let key = |o: Offer| trip_flights(o);
    if src.len() > 0 {
        let d = src.drop_last();
        if exists|j: int| 0 <= j < src.len() - 1 && key(#[trigger] src[j]) == key(src.last()) {
            lemma_first_of_each_member(d, out, m);
            let x = choose|x: int| 0 <= x < d.len() && trip_flights(#[trigger] d[x]) == trip_flights(out[m]);
            assert(src[x] == d[x]);
        } else if m < out.len() - 1 {
            lemma_first_of_each_member(d, out.drop_last(), m);
            let x = choose|x: int| 0 <= x < d.len() && trip_flights(#[trigger] d[x]) == trip_flights(out.drop_last()[m]);
            assert(src[x] == d[x]);
        } else {
            assert(out[m].segments@ == src.last().segments@);
            assert(trip_flights(src[src.len() - 1]) == trip_flights(out[m]));
        }
    }
}

proof fn lemma_first_of_each_distinct(src: Seq<Offer>, out: Seq<Offer>)
    requires
        first_of_each(src, out, |o: Offer| trip_flights(o)),
    ensures
        distinct_flights(out),
    decreases src.len(),
{
    let key = |o: Offer| trip_flights(o);
    if src.len() > 0 {
        let d = src.drop_last();
        if exists|j: int| 0 <= j < src.len() - 1 && key(#[trigger] src[j]) == key(src.last()) {
            lemma_first_of_each_distinct(d, out);
        } else {
            let o = out.drop_last();
            lemma_first_of_each_distinct(d, o);
            assert(out.last().segments@ == src.last().segments@);
            assert forall|a: int, c: int| 0 <= a < c < out.len() implies trip_flights(#[trigger] out[a]) != trip_flights(#[trigger] out[c]) by {
                if c < out.len() - 1 {
                    assert(out[a] == o[a] && out[c] == o[c]);
                } else {
                    lemma_first_of_each_member(d, o, a);
                    let x = choose|x: int| 0 <= x < d.len() && trip_flights(#[trigger] d[x]) == trip_flights(o[a]);
                    assert(key(src[x]) != key(src.last()));
                    assert(out[a] == o[a]);
                }
            }
        }
    }
}

/// No two ranked trips fly the same flights.
pub proof fn law_ranked_flights_distinct(cands: Seq<Offer>, limit: int, r: Seq<Offer>, i: int, j: int)
    requires
        cands.len() <= usize::MAX,
        limit >= 0,
        ranked_rel(cands, limit, r),
        0 <= i < j < r.len(),
    ensures
        trip_flights(r[i]) != trip_flights(r[j]),
{
    let sorted = stably_sorted(cands, trip_keys(cands));
    let dd = choose|dd: Seq<Offer>| #[trigger] distinct_trips(sorted, dd)
        && crate::models::same_offers(r, first_n_of(stably_sorted(kept_trips(dd), trip_keys(kept_trips(dd))), limit));
    lemma_sort_order_exists(trip_keys(cands));
    lemma_first_of_each_len(sorted, dd, |o: Offer| trip_flights(o));
    lemma_first_of_each_distinct(sorted, dd);
    lemma_split_len(dd, None);
    let tw = twos(dd);
    let best = best_price(tw);
    let th = threes(dd);
    let bl = below(th, best);
    lemma_split_len(th, best);
    lemma_split_distinct(dd, best);
    lemma_split_distinct(th, best);
    let k = kept_trips(dd);
    assert(k == tw + bl);
    lemma_sort_order_exists(trip_keys(k));
    let q = choose|q: Seq<usize>| sorted_by(trip_keys(k), q);
    let st = permuted(k, q);
    assert(stably_sorted(k, trip_keys(k)) == st);
    assert(q.len() == k.len());
    let f = first_n_of(st, limit);
    assert(f.len() <= st.len());
    assert(crate::models::same_offer(r[i], f[i]));
    assert(crate::models::same_offer(r[j], f[j]));
    assert(f[i] == st[i] && f[j] == st[j]);
    let x = q[i] as int;
    let y = q[j] as int;
    assert(x != y);
    assert(st[i] == k[x] && st[j] == k[y]);
    assert(r[i].segments@ == k[x].segments@ && r[j].segments@ == k[y].segments@);
    assert(trip_flights(r[i]) == trip_flights(k[x]));
    assert(trip_flights(r[j]) == trip_flights(k[y]));
    let tl = tw.len() as int;
    if x < tl && y < tl {
        assert(k[x] == tw[x] && k[y] == tw[y]);
        if x > y {
            assert(trip_flights(tw[y]) != trip_flights(tw[x]));
        }
    } else if x >= tl && y >= tl {
        assert(k[x] == bl[x - tl] && k[y] == bl[y - tl]);
        if x > y {
            assert(trip_flights(bl[y - tl]) != trip_flights(bl[x - tl]));
        } else {
            assert(trip_flights(bl[x - tl]) != trip_flights(bl[y - tl]));
        }
    } else {
        let (a, c) = if x < tl { (x, y) } else { (y, x) };
        assert(k[a] == tw[a] && k[c] == bl[c - tl]);
        lemma_twos_member(dd, a);
        let xa = choose|xa: int| 0 <= xa < dd.len() && #[trigger] dd[xa] == tw[a];
        lemma_below_of(th, best, c - tl);
        let z = choose|z: int| 0 <= z < th.len() && #[trigger] th[z] == bl[c - tl];
        lemma_threes_member(dd, z);
        let xc = choose|xc: int| 0 <= xc < dd.len() && #[trigger] dd[xc] == th[z];
        lemma_twos_few(dd, a);
        lemma_threes_many(dd, z);
        assert(xa != xc);
        if xa < xc {
            assert(trip_flights(dd[xa]) != trip_flights(dd[xc]));
        } else {
            assert(trip_flights(dd[xc]) != trip_flights(dd[xa]));
        }
    }
}

/// The destinations worth shopping beyond the intended stops are at most `limit`,
/// each three bytes long, none an intended stop or the origin (upper-cased), none
/// twice.
pub proof fn law_beyond_codes_fresh(edges: Seq<HiddenCityCandidateEdge>, origin: Seq<char>, intended: Seq<String>,
    limit: int, extra: Seq<Seq<char>>, p: Seq<usize>)
    requires
        limit >= 0,
    ensures
        beyond_spec(edges, origin, intended, limit, extra, p).len() <= limit,
        forall|m: int| 0 <= m < beyond_spec(edges, origin, intended, limit, extra, p).len() ==> {
            let c = #[trigger] beyond_spec(edges, origin, intended, limit, extra, p)[m];
            &&& utf8_len(c) == 3
            &&& c != to_upper(origin)
            &&& !upper_all(intended).contains(c)
        },
        forall|a: int, b: int| 0 <= a < b < beyond_spec(edges, origin, intended, limit, extra, p).len()
            ==> #[trigger] beyond_spec(edges, origin, intended, limit, extra, p)[a]
                != #[trigger] beyond_spec(edges, origin, intended, limit, extra, p)[b],
{
    let iu = upper_all(intended);
    let ou = to_upper(origin);
    let obs = crate::candidates::observed(edges, ou, iu, edges.len() as int);
    let ordered = Seq::new(p.len(), |k: int| edges[obs[p[k] as int]].ticketed_destination@);
    let fc = fresh_codes(ordered + extra, iu.insert(ou));
    lemma_fresh_codes(ordered + extra, iu.insert(ou));
    let r = beyond_spec(edges, origin, intended, limit, extra, p);
    assert(r == first_n(fc, limit));
    assert forall|m: int| 0 <= m < r.len() implies #[trigger] r[m] == fc[m] by {}
}

proof fn lemma_fresh_codes(codes: Seq<Seq<char>>, seen: Set<Seq<char>>)
    ensures
        fresh_codes(codes, seen).len() <= codes.len(),
        forall|m: int| 0 <= m < fresh_codes(codes, seen).len() ==> {
            let c = #[trigger] fresh_codes(codes, seen)[m];
            utf8_len(c) == 3 && !seen.contains(c)
        },
        forall|a: int, b: int| 0 <= a < b < fresh_codes(codes, seen).len()
            ==> #[trigger] fresh_codes(codes, seen)[a] != #[trigger] fresh_codes(codes, seen)[b],
    decreases codes.len(),
{
    if codes.len() > 0 {
        lemma_fresh_codes(codes.drop_last(), seen);
    }
}

/// `pat` occurs in `s` at `i`.
pub open spec fn occurs_at(s: Seq<char>, pat: Seq<char>, i: int) -> bool {
    0 <= i && i + pat.len() <= s.len() && s.subrange(i, i + pat.len()) == pat
}

proof fn lemma_replace_absent(s: Seq<char>, pat: Seq<char>, rep: Seq<char>)
    requires
        forall|i: int| !#[trigger] occurs_at(s, pat, i),
    ensures
        replace_spec(s, pat, rep) == s,
    decreases s.len(),
{
    if pat.len() > 0 && s.len() >= pat.len() {
        assert(!occurs_at(s, pat, 0));
        assert(s.subrange(0, pat.len() as int) != pat);
        let d = s.drop_first();
        assert forall|i: int| !#[trigger] occurs_at(d, pat, i) by {
            if occurs_at(d, pat, i) {
                assert(s.subrange(i + 1, i + 1 + pat.len()) =~= d.subrange(i, i + pat.len()));
                assert(occurs_at(s, pat, i + 1));
            }
        }
        lemma_replace_absent(d, pat, rep);
        assert(s =~= seq![s[0]] + d);
    }
}

/// A database URL that names neither async-driver scheme is left as it is.
pub proof fn law_plain_pg_url_unchanged(url: Seq<char>)
    requires
        forall|i: int| !#[trigger] occurs_at(url, "postgresql+asyncpg://"@, i),
        forall|i: int| !#[trigger] occurs_at(url, "postgres+asyncpg://"@, i),
    ensures
        pg_url_spec(url) == url,
{
    lemma_replace_absent(url, "postgresql+asyncpg://"@, "postgresql://"@);
    lemma_replace_absent(url, "postgres+asyncpg://"@, "postgres://"@);
}

/// `pat` occurs nowhere in `s`.
pub open spec fn free_of(s: Seq<char>, pat: Seq<char>) -> bool {
    forall|i: int| !#[trigger] occurs_at(s, pat, i)
}

/// No occurrence of `x` can begin inside `rep`: from each position of `rep` some
/// character differs from `x`.
pub open spec fn rep_blocks(rep: Seq<char>, x: Seq<char>) -> bool {
    forall|i: int| 0 <= i < rep.len() ==> #[trigger] blocks_at(rep, x, i)
}

/// Some character of `x` differs from `rep` read from position `i`.
pub open spec fn blocks_at(rep: Seq<char>, x: Seq<char>, i: int) -> bool {
    exists|j: int| 0 <= j && i + j < rep.len() && j < x.len() && rep[i + j] != #[trigger] x[j]
}

/// `rep` differs from `w` read from position `k`.
pub open spec fn misfit_at(rep: Seq<char>, w: Seq<char>, k: int) -> bool {
    exists|j: int| 0 <= j < rep.len() && k + j < w.len() && #[trigger] rep[j] != w[k + j]
}

/// `rep` cannot begin at any position of `w` and agree with it.
pub open spec fn rep_fits_nowhere(rep: Seq<char>, w: Seq<char>) -> bool {
    forall|k: int| 0 <= k < w.len() ==> #[trigger] misfit_at(rep, w, k)
}

proof fn lemma_copy_prefix(t: Seq<char>, pat: Seq<char>, rep: Seq<char>, w: Seq<char>)
    requires
        pat.len() > 0,
        replace_spec(t, pat, rep).len() >= w.len(),
        replace_spec(t, pat, rep).subrange(0, w.len() as int) == w,
        rep_fits_nowhere(rep, w),
    ensures
        t.len() >= w.len(),
        t.subrange(0, w.len() as int) == w,
    decreases t.len(),
{
    let o = replace_spec(t, pat, rep);
    if w.len() == 0 {
        assert(t.subrange(0, 0) =~= w);
    } else if t.len() < pat.len() {
        assert(o == t);
    } else if t.subrange(0, pat.len() as int) == pat {
        assert(misfit_at(rep, w, 0));
        let j = choose|j: int| 0 <= j < rep.len() && 0 + j < w.len() && #[trigger] rep[j] != w[0 + j];
        assert(o == rep + replace_spec(t.subrange(pat.len() as int, t.len() as int), pat, rep));
        assert(o[j] == rep[j]);
        assert(o.subrange(0, w.len() as int)[j] == w[j]);
    } else {
        let d = t.drop_first();
        let od = replace_spec(d, pat, rep);
        assert(o == seq![t[0]] + od);
        let w1 = w.drop_first();
        assert(od.subrange(0, w1.len() as int) =~= o.subrange(0, w.len() as int).drop_first());
        assert forall|k: int| 0 <= k < w1.len() implies #[trigger] misfit_at(rep, w1, k) by {
            assert(misfit_at(rep, w, k + 1));
            let j = choose|j: int| 0 <= j < rep.len() && (k + 1) + j < w.len() && #[trigger] rep[j] != w[(k + 1) + j];
            assert(w1[k + j] == w[k + 1 + j]);
        }
        lemma_copy_prefix(d, pat, rep, w1);
        assert(o.subrange(0, w.len() as int)[0] == w[0]);
        assert forall|m: int| 0 <= m < w.len() implies #[trigger] t.subrange(0, w.len() as int)[m] == w[m] by {
            if m == 0 {
                assert(o[0] == t[0]);
            } else {
                assert(d.subrange(0, w1.len() as int)[m - 1] == w1[m - 1]);
                assert(d[m - 1] == t[m]);
            }
        }
        assert(t.subrange(0, w.len() as int) =~= w);
    }
}

proof fn lemma_replace_leaves_none(y: Seq<char>, pat: Seq<char>, rep: Seq<char>, x: Seq<char>)
    requires
        pat.len() > 0,
        x.len() > 0,
        x == pat || free_of(y, x),
        rep_blocks(rep, x),
        rep_fits_nowhere(rep, x.drop_first()),
    ensures
        free_of(replace_spec(y, pat, rep), x),
    decreases y.len(),
{
    let o = replace_spec(y, pat, rep);
    if y.len() < pat.len() {
        assert(o == y);
        if x == pat {
            assert forall|i: int| !#[trigger] occurs_at(o, x, i) by {}
        }
    } else if y.subrange(0, pat.len() as int) == pat {
        let y2 = y.subrange(pat.len() as int, y.len() as int);
        if x != pat {
            assert forall|i: int| !#[trigger] occurs_at(y2, x, i) by {
                if occurs_at(y2, x, i) {
                    assert(y.subrange(i + pat.len(), i + pat.len() + x.len()) =~= y2.subrange(i, i + x.len()));
                    assert(occurs_at(y, x, i + pat.len()));
                }
            }
        }
        lemma_replace_leaves_none(y2, pat, rep, x);
        let o2 = replace_spec(y2, pat, rep);
        assert(o == rep + o2);
        assert forall|i: int| !#[trigger] occurs_at(o, x, i) by {
            if occurs_at(o, x, i) {
                if i >= rep.len() {
                    assert(o2.subrange(i - rep.len(), i - rep.len() + x.len()) =~= o.subrange(i, i + x.len()));
                    assert(occurs_at(o2, x, i - rep.len()));
                } else {
                    assert(blocks_at(rep, x, i));
                    let j = choose|j: int| 0 <= j && i + j < rep.len() && j < x.len() && rep[i + j] != #[trigger] x[j];
                    assert(o[i + j] == rep[i + j]);
                    assert(o.subrange(i, i + x.len())[j] == x[j]);
                }
            }
        }
    } else {
        let d = y.drop_first();
        if x != pat {
            assert forall|i: int| !#[trigger] occurs_at(d, x, i) by {
                if occurs_at(d, x, i) {
                    assert(y.subrange(i + 1, i + 1 + x.len()) =~= d.subrange(i, i + x.len()));
                    assert(occurs_at(y, x, i + 1));
                }
            }
        }
        lemma_replace_leaves_none(d, pat, rep, x);
        let od = replace_spec(d, pat, rep);
        assert(o == seq![y[0]] + od);
        assert forall|i: int| !#[trigger] occurs_at(o, x, i) by {
            if occurs_at(o, x, i) {
                if i >= 1 {
                    assert(od.subrange(i - 1, i - 1 + x.len()) =~= o.subrange(i, i + x.len()));
                    assert(occurs_at(od, x, i - 1));
                } else {
                    let w = x.drop_first();
                    assert(od.subrange(0, w.len() as int) =~= o.subrange(0, x.len() as int).drop_first());
                    lemma_copy_prefix(d, pat, rep, w);
                    assert(o.subrange(0, x.len() as int)[0] == x[0]);
                    assert forall|m: int| 0 <= m < x.len() implies #[trigger] y.subrange(0, x.len() as int)[m] == x[m] by {
                        if m == 0 {
                            assert(o[0] == y[0]);
                        } else {
                            assert(d.subrange(0, w.len() as int)[m - 1] == w[m - 1]);
                            assert(d[m - 1] == y[m]);
                        }
                    }
                    assert(y.subrange(0, x.len() as int) =~= x);
                    assert(occurs_at(y, x, 0));
                }
            }
        }
    }
}

proof fn lemma_literal_blocks(rep: Seq<char>, x: Seq<char>, m: int)
    requires
        rep.len() > 0,
        x.len() > 0,
        0 <= m < rep.len(),
        m < x.len(),
        rep[m] != x[m],
        forall|i: int| 0 < i < rep.len() ==> rep[i] != x[0],
    ensures
        rep_blocks(rep, x),
{
    assert forall|i: int| 0 <= i < rep.len() implies #[trigger] blocks_at(rep, x, i) by {
        if i == 0 {
            assert(rep[0 + m] != x[m]);
        } else {
            assert(rep[i + 0] != x[0]);
        }
    }
}

proof fn lemma_literal_misfit(rep: Seq<char>, w: Seq<char>)
    requires
        rep.len() >= 2,
        forall|k: int| 0 <= k < w.len() && #[trigger] w[k] == rep[0] ==> k + 1 < w.len() && w[k + 1] != rep[1],
    ensures
        rep_fits_nowhere(rep, w),
{
    assert forall|k: int| 0 <= k < w.len() implies #[trigger] misfit_at(rep, w, k) by {
        if w[k] != rep[0] {
            assert(rep[0] != w[k + 0]);
        } else {
            assert(rep[1] != w[k + 1]);
        }
    }
}

proof fn lemma_pg_literals()
    ensures
        rep_blocks("postgresql://"@, "postgresql+asyncpg://"@),
        rep_fits_nowhere("postgresql://"@, ("postgresql+asyncpg://"@).drop_first()),
        rep_blocks("postgres://"@, "postgres+asyncpg://"@),
        rep_fits_nowhere("postgres://"@, ("postgres+asyncpg://"@).drop_first()),
        rep_blocks("postgres://"@, "postgresql+asyncpg://"@),
        rep_fits_nowhere("postgres://"@, ("postgresql+asyncpg://"@).drop_first()),
{
    reveal_strlit("postgresql://");
    reveal_strlit("postgresql+asyncpg://");
    reveal_strlit("postgres://");
    reveal_strlit("postgres+asyncpg://");
    let r1 = "postgresql://"@;
    let p1 = "postgresql+asyncpg://"@;
    let r2 = "postgres://"@;
    let p2 = "postgres+asyncpg://"@;
    lemma_literal_blocks(r1, p1, 10);
    lemma_literal_blocks(r2, p2, 8);
    lemma_literal_blocks(r2, p1, 8);
    lemma_literal_misfit(r1, p1.drop_first());
    lemma_literal_misfit(r2, p2.drop_first());
    lemma_literal_misfit(r2, p1.drop_first());
}

/// Normalising a database URL twice gives what normalising it once gives, and the
/// result names neither async-driver scheme.
pub proof fn law_pg_url_idempotent(url: Seq<char>)
    ensures
        pg_url_spec(pg_url_spec(url)) == pg_url_spec(url),
        free_of(pg_url_spec(url), "postgresql+asyncpg://"@),
        free_of(pg_url_spec(url), "postgres+asyncpg://"@),
{
    reveal_strlit("postgresql+asyncpg://");
    reveal_strlit("postgres+asyncpg://");
    lemma_pg_literals();
    let p1 = "postgresql+asyncpg://"@;
    let r1 = "postgresql://"@;
    let p2 = "postgres+asyncpg://"@;
    let r2 = "postgres://"@;
    let x = replace_spec(url, p1, r1);
    lemma_replace_leaves_none(url, p1, r1, p1);
    let y = replace_spec(x, p2, r2);
    assert(y == pg_url_spec(url));
    lemma_replace_leaves_none(x, p2, r2, p2);
    lemma_replace_leaves_none(x, p2, r2, p1);
    law_plain_pg_url_unchanged(y);
}

/// The trips joined at the hubs number at most `limit`, come cheapest first (unpriced
/// last), never fly the same flights twice, and a trip of three tickets or more is
/// among them only when cheaper than every priced trip of one or two tickets there.
pub proof fn law_combined_trips_ranked(inb: Seq<(String, Vec<Offer>)>, outb: Seq<(String, Vec<Offer>)>,
    mids: Option<Seq<((String, String), Vec<Offer>)>>, dests: Vec<String>, limit: int, r: Seq<Offer>)
    requires
        limit >= 0,
        combine_rel(inb, outb, mids, dests, limit, r),
    ensures
        r.len() <= limit,
        forall|i: int, j: int| 0 <= i < j < r.len() ==> price_or_big((#[trigger] r[i]).price) <= price_or_big((#[trigger] r[j]).price),
        forall|i: int, j: int| 0 <= i < j < r.len() ==> trip_flights(#[trigger] r[i]) != trip_flights(#[trigger] r[j]),
        forall|i: int, j: int| 0 <= i < r.len() && 0 <= j < r.len() && (#[trigger] r[i]).separate_tickets@.len() >= 3
            && (#[trigger] r[j]).separate_tickets@.len() <= 2 && r[j].price is Some
            ==> price_or_big(r[i].price) < r[j].price->0,
{
    let (tl, cands) = choose|tl: Seq<Seq<Offer>>, cands: Seq<Offer>| similar_tries(tl, crate::hubs::all_tries(inb, outb, mids))
        && #[trigger] cands_rel(tl, dests, cands) && ranked_rel(cands, limit, r) && cands.len() <= usize::MAX;
    law_ranked_at_most_limit(cands, limit, r);
    assert forall|i: int, j: int| 0 <= i < j < r.len() implies price_or_big((#[trigger] r[i]).price) <= price_or_big((#[trigger] r[j]).price) by {
        law_ranked_by_price(cands, limit, r, i, j);
    }
    assert forall|i: int, j: int| 0 <= i < j < r.len() implies trip_flights(#[trigger] r[i]) != trip_flights(#[trigger] r[j]) by {
        law_ranked_flights_distinct(cands, limit, r, i, j);
    }
    assert forall|i: int, j: int| 0 <= i < r.len() && 0 <= j < r.len() && (#[trigger] r[i]).separate_tickets@.len() >= 3
        && (#[trigger] r[j]).separate_tickets@.len() <= 2 && r[j].price is Some
        implies price_or_big(r[i].price) < r[j].price->0 by {
        law_many_tickets_beat_fewer(cands, limit, r, i, j);
    }
}

/// `x` stands for an offer of `src` that passes `keep`.
pub open spec fn kept_from(x: Offer, src: Seq<Offer>, keep: spec_fn(Offer) -> bool) -> bool {
    exists|j: int| 0 <= j < src.len() && keep(src[j]) && #[trigger] same_offer(x, src[j])
}

proof fn lemma_kept_members(src: Seq<Offer>, out: Seq<Offer>, keep: spec_fn(Offer) -> bool)
    requires
        kept(src, out, keep),
    ensures
        forall|i: int| 0 <= i < out.len() ==> kept_from(#[trigger] out[i], src, keep),
        forall|j: int| 0 <= j < src.len() && keep(#[trigger] src[j]) ==> exists|i: int| 0 <= i < out.len()
            && same_offer(out[i], src[j]),
    decreases src.len(),
{
    if src.len() > 0 {
        let s2 = src.drop_last();
        let o2 = if keep(src.last()) { out.drop_last() } else { out };
        lemma_kept_members(s2, o2, keep);
        assert forall|i: int| 0 <= i < out.len() implies kept_from(#[trigger] out[i], src, keep) by {
            if keep(src.last()) && i == out.len() - 1 {
                assert(src[src.len() - 1] == src.last());
                assert(keep(src[src.len() - 1]) && same_offer(out[i], src[src.len() - 1]));
            } else {
                assert(out[i] == o2[i]);
                assert(kept_from(o2[i], s2, keep));
                let j = choose|j: int| 0 <= j < s2.len() && keep(s2[j]) && #[trigger] same_offer(o2[i], s2[j]);
                assert(src[j] == s2[j]);
                assert(keep(src[j]) && same_offer(out[i], src[j]));
            }
        }
        assert forall|j: int| 0 <= j < src.len() && keep(#[trigger] src[j]) implies exists|i: int| 0 <= i < out.len()
            && same_offer(out[i], src[j]) by {
            if j == src.len() - 1 {
                assert(same_offer(out[out.len() - 1], src[j]));
            } else {
                assert(src[j] == s2[j]);
                let i = choose|i: int| 0 <= i < o2.len() && same_offer(o2[i], s2[j]);
                assert(out[i] == o2[i]);
            }
        }
    } else {
        assert(out.len() == 0);
    }
}

/// When every priced offer is in the wanted currency, the honest pick is one of the
/// priced offers, and no priced offer comes before it by price, then minutes on the
/// ground, then duration.
pub proof fn law_honest_pick_is_cheapest(rates: Rates, all: Seq<Offer>, want: Seq<char>, cands: Seq<Offer>,
    p: HonestPick)
    requires
        honest_choice(rates, all, want, cands, Some(p)),
        forall|i: int| 0 <= i < all.len() && (#[trigger] all[i]).price is Some ==> eq_ignore_case(all[i].currency@, want),
    ensures
        exists|i: int| 0 <= i < all.len() && all[i].price is Some && #[trigger] same_offer(p.offer, all[i]),
        forall|j: int| 0 <= j < all.len() && (#[trigger] all[j]).price is Some
            ==> !lex_lt(pick_key(all[j]), pick_key(p.offer)),
{
    let f = |o: Offer| o.price is Some;
    assert(kept(all, cands, f));
    lemma_kept_members(all, cands, f);
    let i = choose|i: int| #[trigger] cheapest_at(cands, i) && pick_of(p, cands[i], cheapest_reason(cands[i]));
    let keys = price_keys(cands);
    assert(keys[i] == pick_key(cands[i]));
    assert(pick_key(p.offer) == pick_key(cands[i]));
    assert(kept_from(cands[i], all, f));
    let j0 = choose|j: int| 0 <= j < all.len() && f(all[j]) && #[trigger] same_offer(cands[i], all[j]);
    assert(same_offer(p.offer, all[j0]));
    assert forall|j: int| 0 <= j < all.len() && (#[trigger] all[j]).price is Some
        implies !lex_lt(pick_key(all[j]), pick_key(p.offer)) by {
        assert(f(all[j]));
        let k = choose|k: int| 0 <= k < cands.len() && same_offer(cands[k], all[j]);
        assert(keys[k] == pick_key(cands[k]));
        assert(pick_key(cands[k]) == pick_key(all[j]));
        if k < i {
            assert(lex_lt(keys[i], keys[k]));
            lemma_lex_asym(keys[i], keys[k]);
        } else if k == i {
            lemma_lex_irreflexive(keys[i]);
        }
    }
}

/// A fare's trend follows its sparkline: with fewer than two points it is new;
/// otherwise (prices being no debts) it is rising when the last price is over 104% of
/// the first, falling when it is under 96%, and stable in between.
pub proof fn law_trend_follows_prices(through: Offer, current: Option<i64>, rows: Seq<FarePoint>, now: Instant,
    w: FareWindow)
    requires
        window_of(through, current, rows, now, w),
    ensures
        w.points@.len() < 2 ==> w.trend@ == "new"@,
        w.points@.len() >= 2 && w.points@[0].price >= 0 ==> {
            let first = w.points@[0].price as int;
            let last = w.points@[w.points@.len() - 1].price as int;
            &&& 100 * last > 104 * first ==> w.trend@ == "rising"@
            &&& 100 * last < 96 * first ==> w.trend@ == "falling"@
            &&& 96 * first <= 100 * last <= 104 * first ==> w.trend@ == "stable"@
        },
{
    let ps = crate::window::sampled(rows, rows.len() as int);
    assert(crate::window::point_views(w.points@) == ps);
    assert(ps.len() == w.points@.len());
    assert(w.trend@ == crate::window::trend_spec(ps));
    if w.points@.len() >= 2 {
        assert(ps.last() == ps[ps.len() - 1]);
        assert(ps[0].1 == w.points@[0].price);
        assert(ps.last().1 == w.points@[w.points@.len() - 1].price);
        let first = w.points@[0].price as int;
        let last = w.points@[w.points@.len() - 1].price as int;
        if 100 * last > 104 * first {
            assert(w.trend@ == "rising"@);
        } else if 100 * last < 96 * first {
            assert(w.trend@ == "falling"@);
        } else {
            assert(w.trend@ == "stable"@);
        }
    }
}

/// A route is dead exactly when it was checked five times or more and never
/// connected: one successful connection keeps it alive, and a route never checked is
/// not dead.
pub proof fn law_dead_routes_never_connected(s: RouteStat)
    ensures
        dead_spec(Some(s)) <==> (s.observations >= 5 && s.successful_connections == 0),
        s.successful_connections != 0 ==> !dead_spec(Some(s)),
        !dead_spec(None),
{
}

/// An indexed fare lets a search skip its honest shop only when live Duffel is on, the
/// mock supplier is off, and some indexed offer is priced, leaves from one of the
/// origins and is a ticket sold to one of the searched destinations.
pub proof fn law_reuse_needs_ticket_to_destination(offers: Seq<Offer>, origins: Seq<String>, dests: Vec<String>,
    now: Instant, mock_enabled: bool, duffel_live: bool)
    ensures
        (!mock_enabled && duffel_live && exists|i: int| 0 <= i < offers.len()
            && reusable_for(#[trigger] offers[i], origins, dests, now)) ==> exists|i: int| 0 <= i < offers.len() && {
                let o = #[trigger] offers[i];
                &&& o.price is Some
                &&& o.segments@.len() > 0
                &&& code_set(origins).contains(to_upper(o.segments@[0].origin@))
                &&& (code_set(dests@).contains(ticketed(o)) || code_set(dests@).contains(to_upper(ticketed(o))))
            },
{
}

/// Two scored airport rows fall in the same group of a ranking: both shown first (the
/// scheduled ones, or every row for an exact code) or both not.
pub open spec fn same_group(a: (i32, AirportRow), b: (i32, AirportRow), exact: bool) -> bool {
    (a.1.scheduled_service || exact) == (b.1.scheduled_service || exact)
}

/// Within each group, scores never rise along the list.
pub open spec fn scores_descend(s: Seq<(i32, AirportRow)>, exact: bool) -> bool {
    forall|i: int, j: int| #![trigger s[i], s[j]] 0 <= i < j < s.len() && same_group(s[i], s[j], exact) ==> s[i].0 >= s[j].0
}

spec fn scored_in(rows: Seq<(i32, AirportRow)>, p: Seq<usize>) -> Seq<(i32, AirportRow)> {
    p.map_values(|k: usize| rows[k as int])
}

spec fn rows_of(s: Seq<(i32, AirportRow)>) -> Seq<AirportRow> {
    s.map_values(|x: (i32, AirportRow)| x.1)
}

spec fn pairs_by_service(s: Seq<(i32, AirportRow)>, scheduled: bool) -> Seq<(i32, AirportRow)>
    decreases s.len(),
{
    if s.len() == 0 { Seq::empty() } else {
        let p = pairs_by_service(s.drop_last(), scheduled);
        if s.last().1.scheduled_service == scheduled { p.push(s.last()) } else { p }
    }
}

spec fn first_pairs(s: Seq<(i32, AirportRow)>, n: int) -> Seq<(i32, AirportRow)> {
    if s.len() > n { s.subrange(0, n) } else { s }
}

spec fn shown_pairs(s: Seq<(i32, AirportRow)>, exact: bool, limit: int) -> Seq<(i32, AirportRow)> {
    first_pairs(if exact { s } else { pairs_by_service(s, true) + first_pairs(pairs_by_service(s, false), 2) }, limit)
}

proof fn lemma_pairs_by_service(s: Seq<(i32, AirportRow)>, b: bool, exact: bool)
    requires
        scores_descend(s, exact),
    ensures
        rows_of(pairs_by_service(s, b)) == by_service(rows_of(s), b),
        scores_descend(pairs_by_service(s, b), exact),
        forall|i: int| 0 <= i < pairs_by_service(s, b).len() ==> s.contains(#[trigger] pairs_by_service(s, b)[i])
            && pairs_by_service(s, b)[i].1.scheduled_service == b,
    decreases s.len(),
{
    if s.len() > 0 {
        let t = s.drop_last();
        assert(scores_descend(t, exact)) by {
            assert forall|i: int, j: int| #![trigger t[i], t[j]] 0 <= i < j < t.len() && same_group(t[i], t[j], exact)
                implies t[i].0 >= t[j].0 by {
                assert(t[i] == s[i] && t[j] == s[j]);
            }
        }
        lemma_pairs_by_service(t, b, exact);
        let prev = pairs_by_service(t, b);
        let cur = pairs_by_service(s, b);
        assert(rows_of(s).drop_last() =~= rows_of(t));
        assert forall|i: int| 0 <= i < prev.len() implies s.contains(#[trigger] prev[i]) by {
            let j = choose|j: int| 0 <= j < t.len() && t[j] == prev[i];
            assert(s[j] == prev[i]);
        }
        if s.last().1.scheduled_service == b {
            assert(rows_of(cur) =~= rows_of(prev).push(s.last().1));
            assert(s.last() == s[s.len() - 1]);
            assert forall|i: int, j: int| #![trigger cur[i], cur[j]] 0 <= i < j < cur.len() && same_group(cur[i], cur[j], exact)
                implies cur[i].0 >= cur[j].0 by {
                if j < prev.len() {
                    assert(cur[i] == prev[i] && cur[j] == prev[j]);
                } else {
                    assert(cur[i] == prev[i]);
                    assert(s.contains(prev[i]));
                    let a = choose|a: int| 0 <= a < t.len() && t[a] == prev[i];
                    assert(s[a] == prev[i]);
                    assert(cur[j] == s[s.len() - 1]);
                }
            }
            assert forall|i: int| 0 <= i < cur.len() implies s.contains(#[trigger] cur[i]) && cur[i].1.scheduled_service == b by {
                if i < prev.len() {
                    assert(cur[i] == prev[i]);
                } else {
                    assert(cur[i] == s[s.len() - 1]);
                }
            }
        }
    }
}

proof fn lemma_prefix_descends(s: Seq<(i32, AirportRow)>, n: int, exact: bool)
    requires
        scores_descend(s, exact),
        n >= 0,
    ensures
        scores_descend(first_pairs(s, n), exact),
        rows_of(first_pairs(s, n)) == first_rows(rows_of(s), n),
        forall|i: int| 0 <= i < first_pairs(s, n).len() ==> s.contains(#[trigger] first_pairs(s, n)[i]),
{
    let f = first_pairs(s, n);
    assert(rows_of(f) =~= first_rows(rows_of(s), n));
    assert forall|i: int, j: int| #![trigger f[i], f[j]] 0 <= i < j < f.len() && same_group(f[i], f[j], exact)
        implies f[i].0 >= f[j].0 by {
        assert(f[i] == s[i] && f[j] == s[j]);
    }
    assert forall|i: int| 0 <= i < f.len() implies s.contains(#[trigger] f[i]) by {
        assert(f[i] == s[i]);
    }
}

/// The airports a search shows carry their scores: within each group (the scheduled
/// ones, or all for an exact code, and then the others) a row with a higher score
/// never comes after one with a lower score. Each shown row is one of the scored rows.
pub proof fn law_airports_by_score(rows: Seq<(i32, AirportRow)>, needle: Seq<char>, limit: int, p: Seq<usize>,
    r: Seq<AirportRow>)
    requires
        limit >= 0,
        sorted_by(airport_keys(rows, exact_code_hit(rows, needle)), p),
        r == shown_rows(rows_in(rows, p), exact_code_hit(rows, needle), limit),
    ensures
        exists|s: Seq<(i32, AirportRow)>| #![trigger scores_descend(s, exact_code_hit(rows, needle))]
            s.len() == r.len()
            && (forall|i: int| 0 <= i < s.len() ==> (#[trigger] s[i]).1 == r[i] && rows.contains(s[i]))
            && scores_descend(s, exact_code_hit(rows, needle)),
{
    let exact = exact_code_hit(rows, needle);
    let keys = airport_keys(rows, exact);
    let sc = scored_in(rows, p);
    assert(rows_of(sc) =~= rows_in(rows, p));
    assert forall|i: int| 0 <= i < sc.len() implies rows.contains(#[trigger] sc[i]) by {
        assert((p[i] as int) < rows.len());
        assert(rows[p[i] as int] == sc[i]);
    }
    assert forall|i: int, j: int| #![trigger sc[i], sc[j]] 0 <= i < j < sc.len() && same_group(sc[i], sc[j], exact)
        implies sc[i].0 >= sc[j].0 by {
        let a = p[i] as int;
        let b = p[j] as int;
        assert(before(keys, a, b));
        assert(keys[a] == airport_key(rows[a], exact));
        assert(keys[b] == airport_key(rows[b], exact));
        let ka = keys[a];
        let kb = keys[b];
        assert(ka[0] == kb[0]);
        if lex_lt(ka, kb) {
            assert(lex_lt(ka.drop_first(), kb.drop_first()));
            assert(ka.drop_first()[0] == ka[1] && kb.drop_first()[0] == kb[1]);
            assert(ka[1] <= kb[1]);
        } else {
            assert(ka[1] == kb[1]);
        }
    }
    assert(scores_descend(sc, exact));
    let s = shown_pairs(sc, exact, limit);
    if exact {
        lemma_prefix_descends(sc, limit, exact);
    } else {
        lemma_pairs_by_service(sc, true, exact);
        lemma_pairs_by_service(sc, false, exact);
        let t = pairs_by_service(sc, true);
        let f0 = pairs_by_service(sc, false);
        lemma_prefix_descends(f0, 2, exact);
        let f = first_pairs(f0, 2);
        let c = t + f;
        assert(rows_of(c) =~= rows_of(t) + rows_of(f));
        assert forall|i: int| 0 <= i < c.len() implies sc.contains(#[trigger] c[i]) && c[i].1.scheduled_service == (i < t.len()) by {
            if i < t.len() {
                assert(c[i] == t[i]);
            } else {
                assert(c[i] == f[i - t.len()]);
                assert(f0.contains(f[i - t.len()]));
                let k = choose|k: int| 0 <= k < f0.len() && f0[k] == f[i - t.len()];
                assert(sc.contains(f0[k]));
            }
        }
        assert forall|i: int, j: int| #![trigger c[i], c[j]] 0 <= i < j < c.len() && same_group(c[i], c[j], exact)
            implies c[i].0 >= c[j].0 by {
            if j < t.len() {
                assert(c[i] == t[i] && c[j] == t[j]);
            } else if i >= t.len() {
                assert(c[i] == f[i - t.len()] && c[j] == f[j - t.len()]);
            }
        }
        lemma_prefix_descends(c, limit, exact);
    }
    assert forall|i: int| 0 <= i < s.len() implies (#[trigger] s[i]).1 == r[i] && rows.contains(s[i]) by {
        assert(rows_of(s)[i] == s[i].1);
        assert(sc.contains(s[i]) || exact);
        if exact {
            assert(sc.contains(s[i]));
        }
        let k = choose|k: int| 0 <= k < sc.len() && sc[k] == s[i];
        assert(rows.contains(sc[k]));
    }
}

} // verus!
