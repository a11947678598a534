//! The shopping plan of a self-transfer search. Tickets into each hub are shopped
//! first, then tickets out of each hub on each travel date, then (in deep mode)
//! tickets between hub pairs, one shop at a time. Each answer is cut to its usable
//! legs as it comes in, and the tables are joined into trips at the end.
use vstd::prelude::*;
use crate::models::{Offer, same_offers, clone_offers};
use crate::hubs::{keep_legs, legs_kept, offer_fits, all_fit, table_fits, pair_table_fits, combine_at_hubs, combine_rel};
use crate::hidden::{Intended, code_set};
use crate::self_transfer::next_day;
use crate::text::{str_eq, byte_len, byte_prefix};
use crate::times::iso_next_day;
use crate::dedupe::{_dedupe, deduped};

verus! {

/// Which shop of the plan is awaited.
#[derive(PartialEq, Eq, Structural, Clone, Copy)]
pub enum LegPass {
    Inbound,
    Outbound,
    Mid,
    Done,
}

/// A self-transfer search in progress: the plan (route, travel dates, hubs, hub
/// pairs, intended destinations), the shop awaited (`pass`, `next`, `day`) and the
/// legs kept so far.
pub struct TransferScan {
    pub pass: LegPass,
    pub next: usize,
    pub day: usize,
    pub origin: String,
    pub dest: String,
    pub dates: Vec<String>,
    pub hubs: Vec<String>,
    pub pairs: Vec<(String, String)>,
    pub intended: Vec<String>,
    pub inbound: Vec<(String, Vec<Offer>)>,
    pub outbound: Vec<(String, Vec<Offer>)>,
    pub mids: Vec<((String, String), Vec<Offer>)>,
    pub pooled: Vec<Offer>,
}

/// What the caller does next: shop one leg, or join the tables.
pub enum TransferAction {
    Shop { from: String, to: String, date: String },
    Combine,
}

/// The awaited shop exists in the plan.
pub open spec fn scan_ok(s: TransferScan) -> bool {
    &&& s.dates@.len() >= 1
    &&& match s.pass {
        LegPass::Inbound => s.next < s.hubs@.len() && s.day == 0,
        LegPass::Outbound => s.next < s.hubs@.len() && s.day < s.dates@.len(),
        LegPass::Mid => s.next < s.pairs@.len() && s.day == 0,
        LegPass::Done => true,
    }
}

/// The shop awaited: from, to and date.
pub open spec fn awaited(s: TransferScan) -> (Seq<char>, Seq<char>, Seq<char>) {
    match s.pass {
        LegPass::Inbound => (s.origin@, s.hubs@[s.next as int]@, s.dates@[0]@),
        LegPass::Outbound => (s.hubs@[s.next as int]@, s.dest@, s.dates@[s.day as int]@),
        LegPass::Mid => (s.pairs@[s.next as int].0@, s.pairs@[s.next as int].1@, s.dates@[0]@),
        LegPass::Done => (Seq::empty(), Seq::empty(), Seq::empty()),
    }
}

/// The action that goes with a state: its awaited shop, or joining once done.
pub open spec fn action_of(s: TransferScan, a: TransferAction) -> bool {
    match a {
        TransferAction::Shop { from, to, date } => s.pass != LegPass::Done && (from@, to@, date@) == awaited(s),
        TransferAction::Combine => s.pass == LegPass::Done,
    }
}

/// The shop awaited after the one of `s` is answered: every hub inbound, then
/// every hub outbound on each date, then every hub pair, then done.
pub open spec fn advanced(s: TransferScan) -> (LegPass, usize, usize) {
    match s.pass {
        LegPass::Inbound => if s.next + 1 < s.hubs@.len() {
            (LegPass::Inbound, (s.next + 1) as usize, 0usize)
        } else {
            (LegPass::Outbound, 0usize, 0usize)
        },
        LegPass::Outbound => if s.day + 1 < s.dates@.len() {
            (LegPass::Outbound, s.next, (s.day + 1) as usize)
        } else if s.next + 1 < s.hubs@.len() {
            (LegPass::Outbound, (s.next + 1) as usize, 0usize)
        } else if s.pairs@.len() > 0 {
            (LegPass::Mid, 0usize, 0usize)
        } else {
            (LegPass::Done, 0usize, 0usize)
        },
        LegPass::Mid => if s.next + 1 < s.pairs@.len() {
            (LegPass::Mid, (s.next + 1) as usize, 0usize)
        } else {
            (LegPass::Done, 0usize, 0usize)
        },
        LegPass::Done => (LegPass::Done, s.next, s.day),
    }
}

/// A self-transfer search never goes back: after the first shop out of a hub no
/// shop into a hub comes, after the first shop between hubs no shop out of one
/// comes, and once done it stays done.
pub proof fn law_scan_never_goes_back(s: TransferScan)
    ensures
        s.pass != LegPass::Inbound ==> advanced(s).0 != LegPass::Inbound,
        (s.pass == LegPass::Mid || s.pass == LegPass::Done)
            ==> (advanced(s).0 == LegPass::Mid || advanced(s).0 == LegPass::Done),
        s.pass == LegPass::Done ==> advanced(s).0 == LegPass::Done,
{
}

/// A list of one code.
pub open spec fn only_code(d: Vec<String>, c: Seq<char>) -> bool {
    d@.len() == 1 && d@[0]@ == c
}

/// The plan is kept.
pub open spec fn same_plan(s: TransferScan, t: TransferScan) -> bool {
    &&& t.origin == s.origin
    &&& t.dest == s.dest
    &&& t.dates == s.dates
    &&& t.hubs == s.hubs
    &&& t.pairs == s.pairs
    &&& t.intended == s.intended
}

/// The answer `offers` to the awaited shop of `s` taken into the tables of `t`:
/// into a hub, the usable legs to that hub are its row; out of a hub, the answers
/// of its dates are pooled and, after the last date, the usable legs to an
/// intended destination are its row; between two hubs, the usable legs to the
/// second are a row when there are any. Once done, answers change nothing.
pub open spec fn filled(s: TransferScan, offers: Seq<Offer>, t: TransferScan) -> bool {
    match s.pass {
        LegPass::Inbound => {
            &&& t.outbound@ == s.outbound@
            &&& t.mids@ == s.mids@
            &&& t.pooled@ == s.pooled@
            &&& t.inbound@.len() == s.inbound@.len() + 1
            &&& t.inbound@.drop_last() == s.inbound@
            &&& t.inbound@.last().0@ == s.hubs@[s.next as int]@
            &&& exists|d: Vec<String>| only_code(d, s.hubs@[s.next as int]@)
                && #[trigger] legs_kept(offers, d, s.intended, t.inbound@.last().1@)
        },
        LegPass::Outbound => {
            &&& t.inbound@ == s.inbound@
            &&& t.mids@ == s.mids@
            &&& if s.day + 1 < s.dates@.len() {
                &&& t.pooled@ == s.pooled@ + offers
                &&& t.outbound@ == s.outbound@
            } else {
                &&& t.pooled@.len() == 0
                &&& t.outbound@.len() == s.outbound@.len() + 1
                &&& t.outbound@.drop_last() == s.outbound@
                &&& t.outbound@.last().0@ == s.hubs@[s.next as int]@
                &&& legs_kept(s.pooled@ + offers, s.intended, s.intended, t.outbound@.last().1@)
            }
        },
        LegPass::Mid => {
            &&& t.inbound@ == s.inbound@
            &&& t.outbound@ == s.outbound@
            &&& t.pooled@ == s.pooled@
            &&& exists|d: Vec<String>, k: Seq<Offer>| only_code(d, s.pairs@[s.next as int].1@)
                && #[trigger] legs_kept(offers, d, s.intended, k)
                && if k.len() == 0 {
                    t.mids@ == s.mids@
                } else {
                    &&& t.mids@.len() == s.mids@.len() + 1
                    &&& t.mids@.drop_last() == s.mids@
                    &&& t.mids@.last().0.0@ == s.pairs@[s.next as int].0@
                    &&& t.mids@.last().0.1@ == s.pairs@[s.next as int].1@
                    &&& t.mids@.last().1@ == k
                }
        },
        LegPass::Done => {
            &&& t.inbound@ == s.inbound@
            &&& t.outbound@ == s.outbound@
            &&& t.mids@ == s.mids@
            &&& t.pooled@ == s.pooled@
        },
    }
}

fn hub_at(hubs: &Vec<String>, i: usize) -> (r: String)
    requires
        i < hubs@.len(),
    ensures
        r@ == hubs@[i as int]@,
{
    hubs[i].clone()
}

/// Takes the answer to the awaited shop (see [`filled`]), moves to the next shop
/// (see [`advanced`]) and says what to do (see [`action_of`]).
pub fn transfer_step(state: TransferScan, offers: Vec<Offer>) -> (r: (TransferScan, TransferAction))
    requires
        scan_ok(state),
    ensures
        scan_ok(r.0),
        same_plan(state, r.0),
        (r.0.pass, r.0.next, r.0.day) == advanced(state),
        filled(state, offers@, r.0),
        action_of(r.0, r.1),
{
    let TransferScan {
        mut pass, mut next, mut day, origin, dest, dates, hubs, pairs, intended,
        mut inbound, mut outbound, mut mids, mut pooled,
    } = state;
    match pass {
        LegPass::Inbound => {
            let hub = hub_at(&hubs, next);
            let d: Vec<String> = vec![hub_at(&hubs, next)];
            let k = keep_legs(offers, &d, &intended);
            assert(only_code(d, state.hubs@[state.next as int]@));
            inbound.push((hub, k));
            assert(inbound@.drop_last() =~= state.inbound@);
            assert(legs_kept(offers@, d, state.intended, inbound@.last().1@));
            let n_hubs = hubs.len();
            if next + 1 < n_hubs {
                next = next + 1;
            } else {
                pass = LegPass::Outbound;
                next = 0;
                day = 0;
            }
        },
        LegPass::Outbound => {
            let mut more = offers;
            pooled.append(&mut more);
            let n_dates = dates.len();
            if day + 1 < n_dates {
                day = day + 1;
            } else {
                let hub = hub_at(&hubs, next);
                let mut pool: Vec<Offer> = Vec::new();
                std::mem::swap(&mut pool, &mut pooled);
                assert(pool@ == state.pooled@ + offers@);
                let k = keep_legs(pool, &intended, &intended);
                outbound.push((hub, k));
                assert(outbound@.drop_last() =~= state.outbound@);
                day = 0;
                let n_hubs = hubs.len();
                if next + 1 < n_hubs {
                    next = next + 1;
                } else if pairs.len() > 0 {
                    pass = LegPass::Mid;
                    next = 0;
                } else {
                    pass = LegPass::Done;
                    next = 0;
                }
            }
        },
        LegPass::Mid => {
            let a = pairs[next].0.clone();
            let b = pairs[next].1.clone();
            let d: Vec<String> = vec![b.clone()];
            let k = keep_legs(offers, &d, &intended);
            assert(only_code(d, state.pairs@[state.next as int].1@));
            assert(legs_kept(offers@, d, state.intended, k@));
            let ghost kv = k@;
            if k.len() > 0 {
                mids.push(((a, b), k));
                assert(mids@.drop_last() =~= state.mids@);
            }
            assert(only_code(d, state.pairs@[state.next as int].1@) && legs_kept(offers@, d, state.intended, kv));
            let n_pairs = pairs.len();
            if next + 1 < n_pairs {
                next = next + 1;
            } else {
                pass = LegPass::Done;
                next = 0;
            }
        },
        LegPass::Done => {},
    }
    let s = TransferScan { pass, next, day, origin, dest, dates, hubs, pairs, intended, inbound, outbound, mids, pooled };
    let action = match s.pass {
        LegPass::Inbound => TransferAction::Shop {
            from: s.origin.clone(),
            to: hub_at(&s.hubs, s.next),
            date: s.dates[0].clone(),
        },
        LegPass::Outbound => TransferAction::Shop {
            from: hub_at(&s.hubs, s.next),
            to: s.dest.clone(),
            date: s.dates[s.day].clone(),
        },
        LegPass::Mid => TransferAction::Shop {
            from: s.pairs[s.next].0.clone(),
            to: s.pairs[s.next].1.clone(),
            date: s.dates[0].clone(),
        },
        LegPass::Done => TransferAction::Combine,
    };
    (s, action)
}

/// The outbound travel dates of a mode: the date alone in fast mode, else the date
/// and the day after (the date again where chrono cannot read it).
pub open spec fn scan_dates(date: Seq<char>, mode: Seq<char>) -> Seq<Seq<char>> {
    if mode == "fast"@ {
        seq![date]
    } else {
        seq![date, match iso_next_day(date) {
            Some(d) => d,
            None => date,
        }]
    }
}

/// Starts a self-transfer search over `hubs`: the first shop is into the first
/// hub; with no hub there is nothing to shop. Hub pairs are shopped in deep mode
/// only.
pub fn start_transfer_scan(origin: String, dest: String, date: String, mode: &str,
    hubs: Vec<String>, pairs: Vec<(String, String)>, intended: Vec<String>) -> (r: (TransferScan, TransferAction))
    ensures
        scan_ok(r.0),
        r.0.origin == origin,
        r.0.dest == dest,
        r.0.hubs == hubs,
        r.0.intended == intended,
        r.0.dates@.len() == scan_dates(date@, mode@).len(),
        forall|i: int| 0 <= i < r.0.dates@.len() ==> (#[trigger] r.0.dates@[i])@ == scan_dates(date@, mode@)[i],
        if mode@ == "deep"@ { r.0.pairs == pairs } else { r.0.pairs@.len() == 0 },
        r.0.pass == (if hubs@.len() > 0 { LegPass::Inbound } else { LegPass::Done }),
        r.0.next == 0,
        r.0.day == 0,
        r.0.inbound@.len() == 0,
        r.0.outbound@.len() == 0,
        r.0.mids@.len() == 0,
        r.0.pooled@.len() == 0,
        action_of(r.0, r.1),
{
    proof {
        reveal_strlit("fast");
        reveal_strlit("deep");
    }
    let mut dates: Vec<String> = Vec::new();
    if str_eq(mode, "fast") {
        dates.push(date);
    } else {
        let later = next_day(date.as_str());
        dates.push(date);
        dates.push(later);
    }
    let pairs = if str_eq(mode, "deep") { pairs } else { Vec::new() };
    let pass = if hubs.len() > 0 { LegPass::Inbound } else { LegPass::Done };
    let s = TransferScan {
        pass,
        next: 0,
        day: 0,
        origin,
        dest,
        dates,
        hubs,
        pairs,
        intended,
        inbound: Vec::new(),
        outbound: Vec::new(),
        mids: Vec::new(),
        pooled: Vec::new(),
    };
    let action = if s.hubs.len() > 0 {
        TransferAction::Shop { from: s.origin.clone(), to: hub_at(&s.hubs, 0), date: s.dates[0].clone() }
    } else {
        TransferAction::Combine
    };
    (s, action)
}

fn offer_fits_now(o: &Offer) -> (r: bool)
    ensures
        r == offer_fits(*o),
{
    let price_ok = match o.price {
        Some(v) => -1_000_000_000_000_000 <= v && v <= 1_000_000_000_000_000,
        None => true,
    };
    let date_ok = if o.segments.len() > 0 {
        let dep = o.segments[0].dep.as_str();
        byte_len(dep) < 10 || byte_prefix(dep, 10).is_some()
    } else {
        true
    };
    let mut minutes_ok = true;
    let mut j: usize = 0;
    while j < o.segments.len()
        invariant
            j <= o.segments@.len(),
            minutes_ok == forall|k: int| 0 <= k < j ==> -100_000_000 <= (#[trigger] o.segments@[k]).duration_min <= 100_000_000,
        decreases o.segments@.len() - j,
    {
        let m = o.segments[j].duration_min;
        if m < -100_000_000 || m > 100_000_000 {
            minutes_ok = false;
        }
        j = j + 1;
    }
    price_ok && date_ok && minutes_ok
}

fn list_fits(v: &Vec<Offer>) -> (r: bool)
    ensures
        r == all_fit(v@),
{
    let mut i: usize = 0;
    while i < v.len()
        invariant
            i <= v@.len(),
            forall|k: int| 0 <= k < i ==> offer_fits(#[trigger] v@[k]),
        decreases v@.len() - i,
    {
        if !offer_fits_now(&v[i]) {
            return false;
        }
        i = i + 1;
    }
    true
}

/// The tables of a search can be joined: every kept leg has its price within
/// range, its first departure cut after ten bytes, its flight minutes within a
/// hundred million.
pub open spec fn scan_fits(s: TransferScan) -> bool {
    table_fits(s.inbound@) && table_fits(s.outbound@) && pair_table_fits(s.mids@)
}

/// See [`scan_fits`].
pub fn tables_fit(s: &TransferScan) -> (r: bool)
    ensures
        r == scan_fits(*s),
{
    let mut i: usize = 0;
    while i < s.inbound.len()
        invariant
            i <= s.inbound@.len(),
            forall|k: int| 0 <= k < i ==> all_fit(#[trigger] s.inbound@[k].1@),
        decreases s.inbound@.len() - i,
    {
        if !list_fits(&s.inbound[i].1) {
            return false;
        }
        i = i + 1;
    }
    let mut j: usize = 0;
    while j < s.outbound.len()
        invariant
            j <= s.outbound@.len(),
            table_fits(s.inbound@),
            forall|k: int| 0 <= k < j ==> all_fit(#[trigger] s.outbound@[k].1@),
        decreases s.outbound@.len() - j,
    {
        if !list_fits(&s.outbound[j].1) {
            return false;
        }
        j = j + 1;
    }
    let mut m: usize = 0;
    while m < s.mids.len()
        invariant
            m <= s.mids@.len(),
            table_fits(s.inbound@),
            table_fits(s.outbound@),
            forall|k: int| 0 <= k < m ==> all_fit(#[trigger] s.mids@[k].1@),
        decreases s.mids@.len() - m,
    {
        if !list_fits(&s.mids[m].1) {
            return false;
        }
        m = m + 1;
    }
    true
}

/// The legs of a hub table, row after row.
pub open spec fn hub_rows(m: Seq<(String, Vec<Offer>)>) -> Seq<Offer>
    decreases m.len(),
{
    if m.len() == 0 {
        Seq::empty()
    } else {
        hub_rows(m.drop_last()) + m.last().1@
    }
}

/// The legs of a hub-pair table, row after row.
pub open spec fn pair_rows(m: Seq<((String, String), Vec<Offer>)>) -> Seq<Offer>
    decreases m.len(),
{
    if m.len() == 0 {
        Seq::empty()
    } else {
        pair_rows(m.drop_last()) + m.last().1@
    }
}

/// Every leg kept: into hubs, out of hubs, between hubs.
pub open spec fn all_legs(s: TransferScan) -> Seq<Offer> {
    hub_rows(s.inbound@) + hub_rows(s.outbound@) + pair_rows(s.mids@)
}

proof fn lemma_same_concat(a: Seq<Offer>, b: Seq<Offer>, c: Seq<Offer>, d: Seq<Offer>)
    requires
        same_offers(a, b),
        same_offers(c, d),
    ensures
        same_offers(a + c, b + d),
{
    assert forall|i: int| 0 <= i < (a + c).len() implies crate::models::same_offer(#[trigger] (a + c)[i], (b + d)[i]) by {
        if i >= a.len() {
            assert(crate::models::same_offer(c[i - a.len()], d[i - a.len()]));
        }
    }
}

fn gather_hub_rows(m: &Vec<(String, Vec<Offer>)>, out: &mut Vec<Offer>)
    ensures
        same_offers(final(out)@.subrange(0, old(out)@.len() as int), old(out)@),
        final(out)@.len() == old(out)@.len() + hub_rows(m@).len(),
        same_offers(final(out)@.subrange(old(out)@.len() as int, final(out)@.len() as int), hub_rows(m@)),
{
    let ghost start = out@;
    let mut i: usize = 0;
    while i < m.len()
        invariant
            i <= m@.len(),
            out@.len() >= start.len(),
            same_offers(out@.subrange(0, start.len() as int), start),
            same_offers(out@.subrange(start.len() as int, out@.len() as int), hub_rows(m@.subrange(0, i as int))),
        decreases m@.len() - i,
    {
        let ghost before = out@;
        let mut c = clone_offers(m[i].1.as_slice());
        let ghost cv = c@;
        out.append(&mut c);
        proof {
            assert(m@.subrange(0, i + 1).drop_last() =~= m@.subrange(0, i as int));
            assert(out@.subrange(0, start.len() as int) =~= before.subrange(0, start.len() as int));
            assert(out@.subrange(start.len() as int, out@.len() as int)
                =~= before.subrange(start.len() as int, before.len() as int) + cv);
            lemma_same_concat(before.subrange(start.len() as int, before.len() as int), hub_rows(m@.subrange(0, i as int)), cv, m@[i as int].1@);
        }
        i = i + 1;
    }
    assert(m@.subrange(0, i as int) =~= m@);
}

fn gather_pair_rows(m: &Vec<((String, String), Vec<Offer>)>, out: &mut Vec<Offer>)
    ensures
        same_offers(final(out)@.subrange(0, old(out)@.len() as int), old(out)@),
        final(out)@.len() == old(out)@.len() + pair_rows(m@).len(),
        same_offers(final(out)@.subrange(old(out)@.len() as int, final(out)@.len() as int), pair_rows(m@)),
{
    let ghost start = out@;
    let mut i: usize = 0;
    while i < m.len()
        invariant
            i <= m@.len(),
            out@.len() >= start.len(),
            same_offers(out@.subrange(0, start.len() as int), start),
            same_offers(out@.subrange(start.len() as int, out@.len() as int), pair_rows(m@.subrange(0, i as int))),
        decreases m@.len() - i,
    {
        let ghost before = out@;
        let mut c = clone_offers(m[i].1.as_slice());
        let ghost cv = c@;
        out.append(&mut c);
        proof {
            assert(m@.subrange(0, i + 1).drop_last() =~= m@.subrange(0, i as int));
            assert(out@.subrange(0, start.len() as int) =~= before.subrange(0, start.len() as int));
            assert(out@.subrange(start.len() as int, out@.len() as int)
                =~= before.subrange(start.len() as int, before.len() as int) + cv);
            lemma_same_concat(before.subrange(start.len() as int, before.len() as int), pair_rows(m@.subrange(0, i as int)), cv, m@[i as int].1@);
        }
        i = i + 1;
    }
    assert(m@.subrange(0, i as int) =~= m@);
}

/// The trips of a search: its tables joined at hubs, at most eight (see
/// [`combine_rel`]).
pub open spec fn joined(s: TransferScan, trips: Seq<Offer>) -> bool {
    exists|dests: Vec<String>| code_set(dests@) == s.intended.upper_codes()
        && #[trigger] combine_rel(s.inbound@, s.outbound@, Some(s.mids@), dests, 8, trips)
}

/// The legs of a search: every kept leg, sorted by price, first of each listing.
pub open spec fn legs_listed(s: TransferScan, legs: Seq<Offer>) -> bool {
    exists|all: Seq<Offer>| same_offers(all, all_legs(s)) && #[trigger] deduped(all, legs)
}

/// The trips and the legs of a search whose tables can be joined (see
/// [`scan_fits`]); nothing otherwise.
pub fn finish_transfer_scan(s: &TransferScan) -> (r: Option<(Vec<Offer>, Vec<Offer>)>)
    ensures
        r is None <==> !scan_fits(*s),
        r matches Some(p) ==> joined(*s, p.0@) && legs_listed(*s, p.1@),
{
    if !tables_fit(s) {
        return None;
    }
    let trips = combine_at_hubs(&s.inbound, &s.outbound, &s.intended, Some(&s.mids), 8);
    let mut all: Vec<Offer> = Vec::new();
    gather_hub_rows(&s.inbound, &mut all);
    let ghost a1 = all@;
    gather_hub_rows(&s.outbound, &mut all);
    let ghost a2 = all@;
    gather_pair_rows(&s.mids, &mut all);
    proof {
        assert(a1.subrange(0, 0) =~= Seq::<Offer>::empty());
        assert(a1 =~= a1.subrange(0, a1.len() as int));
        assert(a2 =~= a2.subrange(0, a1.len() as int) + a2.subrange(a1.len() as int, a2.len() as int));
        lemma_same_concat(a2.subrange(0, a1.len() as int), hub_rows(s.inbound@),
            a2.subrange(a1.len() as int, a2.len() as int), hub_rows(s.outbound@));
        assert(all@ =~= all@.subrange(0, a2.len() as int) + all@.subrange(a2.len() as int, all@.len() as int));
        lemma_same_concat(all@.subrange(0, a2.len() as int), hub_rows(s.inbound@) + hub_rows(s.outbound@),
            all@.subrange(a2.len() as int, all@.len() as int), pair_rows(s.mids@));
        assert(same_offers(all@, all_legs(*s)));
    }
    let legs = _dedupe(all.as_slice());
    assert(same_offers(all@, all_legs(*s)) && deduped(all@, legs@));
    assert(crate::hubs::opt_table(Some(&s.mids)) == Some(s.mids@));
    Some((trips, legs))
}

} // verus!
