//! Choosing which ticketed destinations (C) to shop beyond the intended stop (B):
//! where candidates come from, which are dead, which are picked, and the graph of
//! A→B→C routes seen in priced tickets. Scores are in basis points (1/10000).
use vstd::prelude::*;
use crate::models::{Offer, clone_strings};
use crate::text::{to_upper, upper, str_eq, utf8_len, byte_len};
use crate::hidden::{views, code_set, contains_string};
use crate::times::Instant;
use crate::order::{sorted_by, sort_order, is_perm, lex_lt};
use crate::picks::key_views;
use crate::index::{upper_all, in_upper, ticketed_dests_through, covered_codes};
use crate::hidden::hidden_exit;
use crate::hidden::ticketed;

verus! {

/// How strongly a planner source vouches for a candidate: stats 4, index 3, edges 2,
/// OpenFlights and the hub list 0, anything else 1.
pub open spec fn priority_of(source: Seq<char>) -> i32 {
    if source == "stats"@ {
        4
    } else if source == "index"@ {
        3
    } else if source == "edges"@ {
        2
    } else if source == "openflights"@ || source == "hub"@ {
        0
    } else {
        1
    }
}

pub fn source_priority(source: &str) -> (r: i32)
    ensures
        r == priority_of(source@),
{
    if str_eq(source, "stats") {
        4
    } else if str_eq(source, "index") {
        3
    } else if str_eq(source, "edges") {
        2
    } else if str_eq(source, "openflights") || str_eq(source, "hub") {
        0
    } else {
        1
    }
}

/// A source learned from priced tickets: stats, index or edges.
pub open spec fn learned_source(source: Seq<char>) -> bool {
    source == "stats"@ || source == "index"@ || source == "edges"@
}

pub fn is_learned_source(source: &str) -> (r: bool)
    ensures
        r == learned_source(source@),
{
    str_eq(source, "stats") || str_eq(source, "index") || str_eq(source, "edges")
}

/// A pool of candidate codes and their sources; each code appears once.
pub open spec fn pool_ok(pool: Seq<(String, String)>) -> bool {
    forall|i: int, j: int| 0 <= i < j < pool.len() ==> (#[trigger] pool[i]).0@ != (#[trigger] pool[j]).0@
}

/// Whether the pool holds `code`.
pub open spec fn pool_has(pool: Seq<(String, String)>, code: Seq<char>) -> bool {
    exists|i: int| 0 <= i < pool.len() && (#[trigger] pool[i]).0@ == code
}

/// Where the pool holds `code`.
pub open spec fn pool_index(pool: Seq<(String, String)>, code: Seq<char>) -> int {
    choose|i: int| 0 <= i < pool.len() && (#[trigger] pool[i]).0@ == code
}

/// `after` is `before` with `source` offered for `code`: a held code takes `source`
/// only when it ranks higher than the one held, and nothing else changes; a new
/// code enters last with `source`.
pub open spec fn source_assigned(before: Seq<(String, String)>, code: String, source: Seq<char>,
    after: Seq<(String, String)>) -> bool
{
    &&& pool_has(before, code@) ==> ({
        let i = pool_index(before, code@);
        &&& after.len() == before.len()
        &&& forall|k: int| 0 <= k < before.len() && k != i ==> #[trigger] after[k] == before[k]
        &&& after[i].0 == before[i].0
        &&& if priority_of(source) > priority_of(before[i].1@) {
            after[i].1@ == source
        } else {
            after[i] == before[i]
        }
    })
    &&& !pool_has(before, code@) ==> ({
        &&& after.drop_last() == before
        &&& after.len() == before.len() + 1
        &&& after.last().0 == code
        &&& after.last().1@ == source
    })
}

/// Keeps the stronger planner source for `code`: a held code takes `source` only
/// when it ranks higher than the one held (so OpenFlights never overwrites a learned
/// row); a new code enters with `source`.
pub fn assign_source(pool: &mut Vec<(String, String)>, code: String, source: &str)
    requires
        pool_ok(old(pool)@),
    ensures
        pool_ok(final(pool)@),
        source_assigned(old(pool)@, code, source@, final(pool)@),
{
    let incoming = source_priority(source);
    let ghost start = pool@;
    let mut i: usize = 0;
    while i < pool.len()
        invariant
            pool@ == start,
            start == old(pool)@,
            incoming == priority_of(source@),
            pool_ok(start),
            i <= pool@.len(),
            forall|k: int| 0 <= k < i ==> (#[trigger] pool@[k]).0@ != code@,
        decreases pool@.len() - i,
    {
        if str_eq(pool[i].0.as_str(), code.as_str()) {
            proof {
                assert(pool_has(start, code@));
                let j = pool_index(start, code@);
                if j != i {
                    if j < i {
                    } else {
                        assert(start[i as int].0@ != start[j].0@);
                    }
                }
                assert(j == i);
            }
            let current = source_priority(pool[i].1.as_str());
            if incoming > current {
                let key = pool[i].0.clone();
                pool.set(i, (key, source.to_owned()));
                proof {
                    assert(pool_ok(pool@)) by {
                        assert forall|a: int, b: int| 0 <= a < b < pool@.len() implies (#[trigger] pool@[a]).0@ != (#[trigger] pool@[b]).0@ by {
                            assert(start[a].0@ != start[b].0@);
                        }
                    }
                }
            }
            return;
        }
        i = i + 1;
    }
    proof {
        assert(!pool_has(start, code@));
    }
    pool.push((code, source.to_owned()));
    proof {
        assert(pool@.drop_last() =~= start);
        assert(pool_ok(pool@)) by {
            assert forall|a: int, b: int| 0 <= a < b < pool@.len() implies (#[trigger] pool@[a]).0@ != (#[trigger] pool@[b]).0@ by {
                if b < start.len() {
                    assert(start[a].0@ != start[b].0@);
                }
            }
        }
    }
}

/// What the index has learned of one A→B→C route (cents; percent in hundredths).
pub struct RouteStat {
    pub origin: String,
    pub intended: String,
    pub ticketed: String,
    pub observations: i32,
    pub successful_connections: i32,
    pub cheaper_than_direct_count: i32,
    pub median_saving: i64,
    pub average_saving_percent: i64,
    pub last_success_at: Option<Instant>,
    pub last_cheaper_at: Option<Instant>,
}

impl RouteStat {
    pub fn new(origin: &str, intended: &str, ticketed: &str) -> (r: RouteStat)
        ensures
            r.origin@ == origin@,
            r.intended@ == intended@,
            r.ticketed@ == ticketed@,
            r.observations == 0,
            r.successful_connections == 0,
            r.cheaper_than_direct_count == 0,
            r.median_saving == 0,
            r.average_saving_percent == 0,
            r.last_success_at is None,
            r.last_cheaper_at is None,
    {
        RouteStat {
            origin: origin.to_owned(),
            intended: intended.to_owned(),
            ticketed: ticketed.to_owned(),
            observations: 0,
            successful_connections: 0,
            cheaper_than_direct_count: 0,
            median_saving: 0,
            average_saving_percent: 0,
            last_success_at: None,
            last_cheaper_at: None,
        }
    }
}

/// The checks after which a route that never connected is dead.
pub open spec fn dead_after_checks() -> i32 {
    5
}

/// The checks after which a route that never connected is dead.
pub const DEAD_AFTER_CHECKS: i32 = 5;

/// How many hub destinations a cold start (nothing learned yet) shops.
pub const COLD_START_PROBES: usize = 3;

/// A route checked five or more times that never connected.
pub open spec fn dead_spec(stat: Option<RouteStat>) -> bool {
    match stat {
        Some(s) => s.observations >= dead_after_checks() && s.successful_connections == 0,
        None => false,
    }
}

pub fn is_dead(stat: Option<&RouteStat>) -> (r: bool)
    ensures
        r == dead_spec(match stat { Some(s) => Some(*s), None => None }),
{
    match stat {
        Some(s) => s.observations >= DEAD_AFTER_CHECKS && s.successful_connections == 0,
        None => false,
    }
}

/// A ticketed destination worth shopping, with its score (basis points) and the
/// parts of the score.
pub struct Candidate {
    pub code: String,
    pub score: i64,
    pub source: String,
    pub parts: Vec<(String, i64)>,
    pub observations: i32,
    pub successful_connections: i32,
    pub cheaper_than_direct_count: i32,
    pub median_saving: i64,
    pub selected: bool,
}

/// Two candidates hold the same values apart from the selected flag.
pub open spec fn same_but_selected(a: Candidate, b: Candidate) -> bool {
    &&& a.code == b.code
    &&& a.score == b.score
    &&& a.source == b.source
    &&& a.parts@ == b.parts@
    &&& a.observations == b.observations
    &&& a.successful_connections == b.successful_connections
    &&& a.cheaper_than_direct_count == b.cheaper_than_direct_count
    &&& a.median_saving == b.median_saving
}

fn clone_parts(v: &Vec<(String, i64)>) -> (r: Vec<(String, i64)>)
    ensures
        r@ == v@,
{
    let mut out: Vec<(String, i64)> = Vec::new();
    let mut i: usize = 0;
    while i < v.len()
        invariant
            i <= v@.len(),
            out@ == v@.subrange(0, i as int),
        decreases v@.len() - i,
    {
        let e = &v[i];
        out.push((e.0.clone(), e.1));
        i = i + 1;
        assert(out@ =~= v@.subrange(0, i as int));
    }
    assert(out@ =~= v@);
    out
}

impl Candidate {
    pub fn new(code: &str, score: i64, source: &str) -> (r: Candidate)
        ensures
            r.code@ == code@,
            r.score == score,
            r.source@ == source@,
            r.parts@.len() == 0,
            r.observations == 0,
            r.successful_connections == 0,
            r.cheaper_than_direct_count == 0,
            r.median_saving == 0,
            !r.selected,
    {
        Candidate {
            code: code.to_owned(),
            score,
            source: source.to_owned(),
            parts: Vec::new(),
            observations: 0,
            successful_connections: 0,
            cheaper_than_direct_count: 0,
            median_saving: 0,
            selected: false,
        }
    }

    /// A copy with the selected flag set as given.
    fn with_selected(&self, selected: bool) -> (r: Candidate)
        ensures
            same_but_selected(r, *self),
            r.selected == selected,
    {
        Candidate {
            code: self.code.clone(),
            score: self.score,
            source: self.source.clone(),
            parts: clone_parts(&self.parts),
            observations: self.observations,
            successful_connections: self.successful_connections,
            cheaper_than_direct_count: self.cheaper_than_direct_count,
            median_saving: self.median_saving,
            selected,
        }
    }
}

/// The positions of the candidates not excluded (exclusions compared upper-cased).
pub open spec fn usable_from(ranked: Seq<Candidate>, skip: Set<Seq<char>>, k: int) -> Seq<int>
    decreases k,
{
    if k <= 0 {
        Seq::empty()
    } else if skip.contains(ranked[k - 1].code@) {
        usable_from(ranked, skip, k - 1)
    } else {
        usable_from(ranked, skip, k - 1).push(k - 1)
    }
}

/// The first `budget` usable positions whose score reaches the floor.
pub open spec fn above_floor(ranked: Seq<Candidate>, us: Seq<int>, min_score: i64, budget: int, k: int) -> Seq<int>
    decreases k,
{
    if k <= 0 {
        Seq::empty()
    } else {
        let prev = above_floor(ranked, us, min_score, budget, k - 1);
        if ranked[us[k - 1]].score >= min_score && prev.len() < budget { prev.push(us[k - 1]) } else { prev }
    }
}

/// The codes at some positions.
pub open spec fn codes_at(ranked: Seq<Candidate>, ix: Seq<int>) -> Seq<Seq<char>> {
    ix.map_values(|i: int| ranked[i].code@)
}

/// Cold-start filling: walking the usable positions from `k`, add each whose code
/// is not yet chosen until `fill_to` are chosen.
pub open spec fn fill_from(ranked: Seq<Candidate>, us: Seq<int>, k: int, chosen: Seq<int>, fill_to: int) -> Seq<int>
    decreases us.len() - k,
{
    if k < 0 || k >= us.len() || chosen.len() >= fill_to {
        chosen
    } else if codes_at(ranked, chosen).contains(ranked[us[k]].code@) {
        fill_from(ranked, us, k + 1, chosen, fill_to)
    } else {
        fill_from(ranked, us, k + 1, chosen.push(us[k]), fill_to)
    }
}

/// The positions chosen from a ranking: none for a zero budget; else the usable
/// candidates at or above the floor, up to the budget, topped up for a cold start.
pub open spec fn chosen_positions(ranked: Seq<Candidate>, budget: int, min_score: i64, cold_start: int, skip: Set<Seq<char>>) -> Seq<int> {
    let us = usable_from(ranked, skip, ranked.len() as int);
    let first = above_floor(ranked, us, min_score, budget, us.len() as int);
    let fill_to = if cold_start < budget { cold_start } else { budget };
    fill_from(ranked, us, 0, first, fill_to)
}

/// Positions as integers.
pub open spec fn as_ints(v: Seq<usize>) -> Seq<int> {
    v.map_values(|x: usize| x as int)
}

/// Picks candidates to shop from a ranking (see `chosen_positions`), marks exactly
/// those as selected, and returns copies of them in the order chosen. A zero budget
/// picks nothing and leaves the ranking as it is.
pub fn select_candidates(
    ranked: &mut Vec<Candidate>,
    budget: usize,
    min_score: i64,
    cold_start: usize,
    exclude: &Vec<String>,
) -> (r: Vec<Candidate>)
    ensures
        budget == 0 ==> r@.len() == 0 && final(ranked)@ == old(ranked)@,
        budget > 0 ==> ({
            let ch = chosen_positions(old(ranked)@, budget as int, min_score, cold_start as int, upper_all(exclude@));
            &&& final(ranked)@.len() == old(ranked)@.len()
            &&& forall|k: int| 0 <= k < old(ranked)@.len() ==> same_but_selected(#[trigger] final(ranked)@[k], old(ranked)@[k])
                && final(ranked)@[k].selected == ch.contains(k)
            &&& r@.len() == ch.len()
            &&& forall|j: int| 0 <= j < ch.len() ==> same_but_selected(#[trigger] r@[j], old(ranked)@[ch[j]]) && r@[j].selected
        }),
{
    if budget == 0 {
        return Vec::new();
    }
    let ghost start = ranked@;
    let ghost skip = upper_all(exclude@);
    let n = ranked.len();
    // usable positions
    let mut us: Vec<usize> = Vec::new();
    let mut i: usize = 0;
    while i < n
        invariant
            n == ranked@.len(),
            ranked@ == start,
            skip == upper_all(exclude@),
            i <= n,
            as_ints(us@) == usable_from(start, skip, i as int),
            forall|k: int| 0 <= k < us@.len() ==> (#[trigger] us@[k]) < i,
        decreases n - i,
    {
        if !in_upper(exclude, &ranked[i].code) {
            us.push(i);
            assert(as_ints(us@) =~= usable_from(start, skip, i as int).push(i as int));
        }
        i = i + 1;
    }
    let ghost usv = as_ints(us@);
    // at or above the floor, up to the budget
    let mut chosen: Vec<usize> = Vec::new();
    let mut a: usize = 0;
    while a < us.len()
        invariant
            n == ranked@.len(),
            ranked@ == start,
            usv == as_ints(us@),
            forall|k: int| 0 <= k < us@.len() ==> (#[trigger] us@[k]) < n,
            a <= us@.len(),
            as_ints(chosen@) == above_floor(start, usv, min_score, budget as int, a as int),
            chosen@.len() <= budget,
            forall|k: int| 0 <= k < chosen@.len() ==> (#[trigger] chosen@[k]) < n,
        decreases us@.len() - a,
    {
        let idx = us[a];
        assert(usv[a as int] == idx);
        if ranked[idx].score >= min_score && chosen.len() < budget {
            chosen.push(idx);
            assert(as_ints(chosen@) =~= above_floor(start, usv, min_score, budget as int, a as int).push(idx as int));
        }
        a = a + 1;
    }
    let fill_to: usize = if cold_start < budget { cold_start } else { budget };
    let ghost target = fill_from(start, usv, 0, as_ints(chosen@), fill_to as int);
    let mut k: usize = 0;
    while k < us.len() && chosen.len() < fill_to
        invariant
            n == ranked@.len(),
            ranked@ == start,
            usv == as_ints(us@),
            forall|x: int| 0 <= x < us@.len() ==> (#[trigger] us@[x]) < n,
            k <= us@.len(),
            target == fill_from(start, usv, k as int, as_ints(chosen@), fill_to as int),
            forall|x: int| 0 <= x < chosen@.len() ==> (#[trigger] chosen@[x]) < n,
        decreases us@.len() - k,
    {
        let idx = us[k];
        let code = &ranked[idx].code;
        let mut seen = false;
        let mut q: usize = 0;
        while q < chosen.len()
            invariant
                n == ranked@.len(),
                ranked@ == start,
                forall|x: int| 0 <= x < chosen@.len() ==> (#[trigger] chosen@[x]) < n,
                idx < n,
                code@ == start[idx as int].code@,
                q <= chosen@.len(),
                seen == exists|x: int| 0 <= x < q && start[chosen@[x] as int].code@ == start[idx as int].code@,
            decreases chosen@.len() - q,
        {
            if str_eq(ranked[chosen[q]].code.as_str(), code.as_str()) {
                seen = true;
            }
            q = q + 1;
        }
        proof {
            let cs = codes_at(start, as_ints(chosen@));
            assert(seen == cs.contains(start[idx as int].code@)) by {
                if seen {
                    let x = choose|x: int| 0 <= x < chosen@.len() && start[chosen@[x] as int].code@ == start[idx as int].code@;
                    assert(cs[x] == start[idx as int].code@);
                }
                if cs.contains(start[idx as int].code@) {
                    let x = choose|x: int| 0 <= x < cs.len() && cs[x] == start[idx as int].code@;
                    assert(start[chosen@[x] as int].code@ == start[idx as int].code@);
                }
            }
            assert(usv[k as int] == idx as int);
        }
        assert(as_ints(chosen@).len() == chosen@.len());
        assert(fill_from(start, usv, k as int, as_ints(chosen@), fill_to as int) == if seen {
            fill_from(start, usv, k + 1, as_ints(chosen@), fill_to as int)
        } else {
            fill_from(start, usv, k + 1, as_ints(chosen@).push(idx as int), fill_to as int)
        });
        let ghost prev = chosen@;
        if !seen {
            chosen.push(idx);
            assert(as_ints(chosen@) =~= as_ints(prev).push(idx as int));
        }
        k = k + 1;
    }
    assert(as_ints(chosen@) == target);
    proof {
        assert(target == chosen_positions(start, budget as int, min_score, cold_start as int, upper_all(exclude@)));
    }
    // mark the selection
    let mut m: usize = 0;
    while m < n
        invariant
            n == ranked@.len(),
            n == start.len(),
            m <= n,
            forall|x: int| 0 <= x < chosen@.len() ==> (#[trigger] chosen@[x]) < n,
            forall|x: int| 0 <= x < m ==> same_but_selected(#[trigger] ranked@[x], start[x])
                && ranked@[x].selected == as_ints(chosen@).contains(x),
            forall|x: int| m <= x < n ==> #[trigger] ranked@[x] == start[x],
        decreases n - m,
    {
        let mut hit = false;
        let mut q: usize = 0;
        while q < chosen.len()
            invariant
                q <= chosen@.len(),
                hit == exists|x: int| 0 <= x < q && chosen@[x] == m,
            decreases chosen@.len() - q,
        {
            if chosen[q] == m {
                hit = true;
            }
            q = q + 1;
        }
        proof {
            assert(hit == as_ints(chosen@).contains(m as int)) by {
                if hit {
                    let x = choose|x: int| 0 <= x < chosen@.len() && chosen@[x] == m;
                    assert(as_ints(chosen@)[x] == m as int);
                }
                if as_ints(chosen@).contains(m as int) {
                    let x = choose|x: int| 0 <= x < as_ints(chosen@).len() && as_ints(chosen@)[x] == m as int;
                    assert(chosen@[x] == m);
                }
            }
        }
        let updated = ranked[m].with_selected(hit);
        ranked.set(m, updated);
        m = m + 1;
    }
    // copies of the chosen, in order
    let mut out: Vec<Candidate> = Vec::new();
    let mut j: usize = 0;
    while j < chosen.len()
        invariant
            n == ranked@.len(),
            n == start.len(),
            j <= chosen@.len(),
            forall|x: int| 0 <= x < chosen@.len() ==> (#[trigger] chosen@[x]) < n,
            forall|x: int| 0 <= x < n ==> same_but_selected(#[trigger] ranked@[x], start[x])
                && ranked@[x].selected == as_ints(chosen@).contains(x),
            out@.len() == j,
            forall|x: int| 0 <= x < j ==> same_but_selected(#[trigger] out@[x], start[chosen@[x] as int]) && out@[x].selected,
        decreases chosen@.len() - j,
    {
        let idx = chosen[j];
        assert(as_ints(chosen@)[j as int] == idx as int);
        out.push(ranked[idx].with_selected(true));
        j = j + 1;
    }
    out
}

/// Two rankings with the same codes and scores, position by position.
pub open spec fn same_codes_scores(a: Seq<Candidate>, b: Seq<Candidate>) -> bool {
    &&& a.len() == b.len()
    &&& forall|k: int| 0 <= k < a.len() ==> (#[trigger] a[k]).code@ == b[k].code@ && a[k].score == b[k].score
}

proof fn lemma_usable_same(a: Seq<Candidate>, b: Seq<Candidate>, skip: Set<Seq<char>>, k: int)
    requires
        same_codes_scores(a, b),
        k <= a.len(),
    ensures
        usable_from(a, skip, k) == usable_from(b, skip, k),
        forall|j: int| 0 <= j < usable_from(a, skip, k).len() ==> 0 <= #[trigger] usable_from(a, skip, k)[j] < k,
    decreases k,
{
    if k > 0 {
        lemma_usable_same(a, b, skip, k - 1);
        assert(a[k - 1].code@ == b[k - 1].code@);
    }
}

proof fn lemma_floor_same(a: Seq<Candidate>, b: Seq<Candidate>, us: Seq<int>, min_score: i64, budget: int, k: int)
    requires
        same_codes_scores(a, b),
        forall|j: int| 0 <= j < us.len() ==> 0 <= #[trigger] us[j] < a.len(),
        k <= us.len(),
    ensures
        above_floor(a, us, min_score, budget, k) == above_floor(b, us, min_score, budget, k),
        forall|j: int| 0 <= j < above_floor(a, us, min_score, budget, k).len()
            ==> 0 <= #[trigger] above_floor(a, us, min_score, budget, k)[j] < a.len(),
    decreases k,
{
    if k > 0 {
        lemma_floor_same(a, b, us, min_score, budget, k - 1);
        assert(0 <= us[k - 1] < a.len());
        assert(a[us[k - 1]].score == b[us[k - 1]].score);
    }
}

proof fn lemma_fill_same(a: Seq<Candidate>, b: Seq<Candidate>, us: Seq<int>, k: int, chosen: Seq<int>, fill_to: int)
    requires
        same_codes_scores(a, b),
        forall|j: int| 0 <= j < us.len() ==> 0 <= #[trigger] us[j] < a.len(),
        forall|j: int| 0 <= j < chosen.len() ==> 0 <= #[trigger] chosen[j] < a.len(),
    ensures
        fill_from(a, us, k, chosen, fill_to) == fill_from(b, us, k, chosen, fill_to),
        forall|j: int| 0 <= j < fill_from(a, us, k, chosen, fill_to).len()
            ==> 0 <= #[trigger] fill_from(a, us, k, chosen, fill_to)[j] < a.len(),
    decreases us.len() - k,
{
    if !(k < 0 || k >= us.len() || chosen.len() >= fill_to) {
        assert(codes_at(a, chosen) =~= codes_at(b, chosen)) by {
            assert forall|j: int| 0 <= j < chosen.len() implies codes_at(a, chosen)[j] == codes_at(b, chosen)[j] by {
                assert(0 <= chosen[j] < a.len());
                assert(a[chosen[j]].code@ == b[chosen[j]].code@);
            }
        }
        assert(0 <= us[k] < a.len());
        assert(a[us[k]].code@ == b[us[k]].code@);
        if codes_at(a, chosen).contains(a[us[k]].code@) {
            lemma_fill_same(a, b, us, k + 1, chosen, fill_to);
        } else {
            let c2 = chosen.push(us[k]);
            assert forall|j: int| 0 <= j < c2.len() implies 0 <= #[trigger] c2[j] < a.len() by {
                if j < chosen.len() {
                    assert(c2[j] == chosen[j]);
                }
            }
            lemma_fill_same(a, b, us, k + 1, c2, fill_to);
        }
    }
}

/// Which positions are chosen depends only on the codes and scores of the ranking.
pub proof fn lemma_chosen_same(a: Seq<Candidate>, b: Seq<Candidate>, budget: int, min_score: i64, cold_start: int,
    skip: Set<Seq<char>>)
    requires
        same_codes_scores(a, b),
    ensures
        chosen_positions(a, budget, min_score, cold_start, skip) == chosen_positions(b, budget, min_score, cold_start, skip),
        forall|j: int| 0 <= j < chosen_positions(a, budget, min_score, cold_start, skip).len()
            ==> 0 <= #[trigger] chosen_positions(a, budget, min_score, cold_start, skip)[j] < a.len(),
{
    let us = usable_from(a, skip, a.len() as int);
    lemma_usable_same(a, b, skip, a.len() as int);
    lemma_floor_same(a, b, us, min_score, budget, us.len() as int);
    let first = above_floor(a, us, min_score, budget, us.len() as int);
    let fill_to = if cold_start < budget { cold_start } else { budget };
    lemma_fill_same(a, b, us, 0, first, fill_to);
}

/// The codes chosen now in one round: none when a fast pass already holds hidden-city
/// matches or the budget is zero, else those of `chosen_positions`.
pub open spec fn round_taken(ranked: Seq<Candidate>, budget: int, min_score: i64, fast_n: int, excluded: Seq<String>,
    fast: bool, hidden_found: bool) -> Seq<Seq<char>>
{
    if !(fast && hidden_found) && budget > 0 {
        codes_at(ranked, chosen_positions(ranked, budget, min_score, fast_n, upper_all(excluded)))
    } else {
        Seq::empty()
    }
}

/// What a fast pass previews for the full pass: up to `hidden_n` less those taken,
/// never a code taken or excluded.
pub open spec fn round_pending(ranked: Seq<Candidate>, hidden_n: int, min_score: i64, fast_n: int, excluded: Seq<String>,
    taken: Seq<String>) -> Seq<Seq<char>>
{
    let room = hidden_n - taken.len();
    if room > 0 {
        codes_at(ranked, chosen_positions(ranked, room, min_score, fast_n, upper_all(excluded + taken)))
    } else {
        Seq::empty()
    }
}

fn codes_of(cands: &Vec<Candidate>) -> (r: Vec<String>)
    ensures
        r@.len() == cands@.len(),
        forall|j: int| 0 <= j < cands@.len() ==> #[trigger] r@[j] == cands@[j].code,
{
    let mut r: Vec<String> = Vec::new();
    let mut j: usize = 0;
    while j < cands.len()
        invariant
            j <= cands@.len(),
            r@.len() == j,
            forall|x: int| 0 <= x < j ==> #[trigger] r@[x] == cands@[x].code,
        decreases cands@.len() - j,
    {
        r.push(cands[j].code.clone());
        j = j + 1;
    }
    r
}

/// One round of choosing airports beyond the destination to probe. Unless a fast pass
/// already holds hidden-city matches, up to `budget` are taken from the ranking (the
/// first list, see `round_taken`). A fast pass also previews what the full pass would
/// add (the second list, see `round_pending`), and the ranking then marks exactly the
/// codes taken as selected; otherwise the ranking is marked as `select_candidates`
/// leaves it.
pub fn candidate_round(
    ranked: &mut Vec<Candidate>,
    budget: usize,
    min_score: i64,
    fast_n: usize,
    hidden_n: usize,
    excluded: &Vec<String>,
    fast: bool,
    hidden_found: bool,
) -> (r: (Vec<String>, Vec<String>))
    ensures
        views(r.0@) == round_taken(old(ranked)@, budget as int, min_score, fast_n as int, excluded@, fast, hidden_found),
        fast ==> views(r.1@) == round_pending(old(ranked)@, hidden_n as int, min_score, fast_n as int, excluded@, r.0@),
        !fast ==> r.1@.len() == 0,
        final(ranked)@.len() == old(ranked)@.len(),
        forall|k: int| 0 <= k < old(ranked)@.len() ==> same_but_selected(#[trigger] final(ranked)@[k], old(ranked)@[k]),
        fast ==> forall|k: int| 0 <= k < old(ranked)@.len()
            ==> (#[trigger] final(ranked)@[k]).selected == views(r.0@).contains(old(ranked)@[k].code@),
        !fast ==> forall|k: int| 0 <= k < old(ranked)@.len() ==> (#[trigger] final(ranked)@[k]).selected == if budget > 0 {
            chosen_positions(old(ranked)@, budget as int, min_score, fast_n as int, upper_all(excluded@)).contains(k)
        } else {
            old(ranked)@[k].selected
        },
{
    let ghost start = ranked@;
    let mut taken: Vec<String> = Vec::new();
    if !(fast && hidden_found) {
        let chosen = select_candidates(ranked, budget, min_score, fast_n, excluded);
        taken = codes_of(&chosen);
        proof {
            if budget > 0 {
                let ch = chosen_positions(start, budget as int, min_score, fast_n as int, upper_all(excluded@));
                assert(views(taken@) =~= codes_at(start, ch));
            } else {
                assert(views(taken@) =~= Seq::<Seq<char>>::empty());
            }
        }
    } else {
        assert(views(taken@) =~= Seq::<Seq<char>>::empty());
    }
    let ghost mid = ranked@;
    assert(same_codes_scores(mid, start));
    if !fast {
        return (taken, Vec::new());
    }
    let mut pending: Vec<String> = Vec::new();
    if taken.len() < hidden_n {
        let mut skip = clone_strings(excluded);
        let mut j: usize = 0;
        while j < taken.len()
            invariant
                j <= taken@.len(),
                skip@ == excluded@ + taken@.subrange(0, j as int),
            decreases taken@.len() - j,
        {
            skip.push(taken[j].clone());
            assert(skip@ =~= excluded@ + taken@.subrange(0, j + 1));
            j = j + 1;
        }
        assert(taken@.subrange(0, taken@.len() as int) =~= taken@);
        let room = hidden_n - taken.len();
        let preview = select_candidates(ranked, room, min_score, fast_n, &skip);
        pending = codes_of(&preview);
        proof {
            let ch2 = chosen_positions(mid, room as int, min_score, fast_n as int, upper_all(skip@));
            lemma_chosen_same(mid, start, room as int, min_score, fast_n as int, upper_all(skip@));
            assert(views(pending@) =~= codes_at(mid, ch2));
            assert(codes_at(mid, ch2) =~= codes_at(start, ch2)) by {
                assert forall|x: int| 0 <= x < ch2.len() implies codes_at(mid, ch2)[x] == codes_at(start, ch2)[x] by {
                    assert(same_but_selected(preview@[x], mid[ch2[x]]));
                    assert(0 <= ch2[x] < mid.len());
                }
            }
        }
    } else {
        assert(views(pending@) =~= Seq::<Seq<char>>::empty());
    }
    let ghost before_mark = ranked@;
    assert(same_codes_scores(before_mark, start));
    let n = ranked.len();
    let mut m: usize = 0;
    while m < n
        invariant
            n == ranked@.len(),
            n == start.len(),
            before_mark.len() == n,
            m <= n,
            forall|x: int| 0 <= x < n ==> same_but_selected(#[trigger] before_mark[x], start[x]),
            forall|x: int| 0 <= x < m ==> same_but_selected(#[trigger] ranked@[x], start[x])
                && ranked@[x].selected == views(taken@).contains(start[x].code@),
            forall|x: int| m <= x < n ==> #[trigger] ranked@[x] == before_mark[x],
        decreases n - m,
    {
        let hit = contains_string(&taken, &ranked[m].code);
        proof {
            assert(ranked@[m as int].code@ == start[m as int].code@);
            assert(code_set(taken@) == views(taken@).to_set());
        }
        let updated = ranked[m].with_selected(hit);
        ranked.set(m, updated);
        m = m + 1;
    }
    (taken, pending)
}

/// An A→B→C route seen inside a priced ticket: how often, when last, and the best
/// price seen (cents).
pub struct HiddenCityCandidateEdge {
    pub origin: String,
    pub connection: String,
    pub ticketed_destination: String,
    pub observation_count: i32,
    pub last_observed_at: String,
    pub best_observed_price: Option<i64>,
}

/// The routes seen so far; each route once.
pub struct CandidateGraph {
    pub edges: Vec<HiddenCityCandidateEdge>,
}

/// A route's key: origin, connection, ticketed destination.
pub type EdgeKey = (Seq<char>, Seq<char>, Seq<char>);

pub open spec fn edge_key(e: HiddenCityCandidateEdge) -> EdgeKey {
    (e.origin@, e.connection@, e.ticketed_destination@)
}

/// Each route appears once and has been seen at least once.
pub open spec fn graph_ok(edges: Seq<HiddenCityCandidateEdge>) -> bool {
    &&& forall|i: int, j: int| 0 <= i < j < edges.len() ==> edge_key(#[trigger] edges[i]) != edge_key(#[trigger] edges[j])
    &&& forall|i: int| 0 <= i < edges.len() ==> (#[trigger] edges[i]).observation_count >= 1
}

/// The graph holds the route `k`.
pub open spec fn graph_has(edges: Seq<HiddenCityCandidateEdge>, k: EdgeKey) -> bool {
    exists|i: int| 0 <= i < edges.len() && edge_key(#[trigger] edges[i]) == k
}

/// Where the graph holds the route `k`.
pub open spec fn graph_index(edges: Seq<HiddenCityCandidateEdge>, k: EdgeKey) -> int {
    choose|i: int| 0 <= i < edges.len() && edge_key(#[trigger] edges[i]) == k
}

/// The best price after another sighting: the lower of the two (a sighting without
/// a price keeps the best).
pub open spec fn lower_price(best: Option<i64>, price: Option<i64>) -> Option<i64> {
    match price {
        None => best,
        Some(p) => match best {
            Some(b) => if p < b { Some(p) } else { best },
            None => Some(p),
        },
    }
}

impl CandidateGraph {
    pub fn new() -> (r: CandidateGraph)
        ensures
            r.edges@.len() == 0,
    {
        CandidateGraph { edges: Vec::new() }
    }

    /// Records one sighting of origin→connection→ticketed (codes upper-cased) at the
    /// time `now` (RFC 3339): a new route enters seen once with this price; a known
    /// route counts one more, takes the time, and keeps the lower price.
    pub fn record_offer(&mut self, origin: &str, connection: &str, ticketed: &str, price: Option<i64>, now: &str)
        requires
            graph_ok(old(self).edges@),
            forall|i: int| 0 <= i < old(self).edges@.len() ==> (#[trigger] old(self).edges@[i]).observation_count < i32::MAX,
        ensures
            graph_ok(final(self).edges@),
            ({
                let k = (to_upper(origin@), to_upper(connection@), to_upper(ticketed@));
                let old_edges = old(self).edges@;
                let new_edges = final(self).edges@;
                if graph_has(old_edges, k) {
                    let i = graph_index(old_edges, k);
                    &&& new_edges.len() == old_edges.len()
                    &&& forall|j: int| 0 <= j < old_edges.len() && j != i ==> #[trigger] new_edges[j] == old_edges[j]
                    &&& edge_key(new_edges[i]) == k
                    &&& new_edges[i].observation_count == old_edges[i].observation_count + 1
                    &&& new_edges[i].last_observed_at@ == now@
                    &&& new_edges[i].best_observed_price == lower_price(old_edges[i].best_observed_price, price)
                } else {
                    &&& new_edges.len() == old_edges.len() + 1
                    &&& new_edges.drop_last() == old_edges
                    &&& edge_key(new_edges.last()) == k
                    &&& new_edges.last().observation_count == 1
                    &&& new_edges.last().last_observed_at@ == now@
                    &&& new_edges.last().best_observed_price == price
                }
            }),
    {
        let o = upper(origin);
        let c = upper(connection);
        let t = upper(ticketed);
        let ghost k = (o@, c@, t@);
        let ghost start = self.edges@;
        let mut i: usize = 0;
        while i < self.edges.len()
            invariant
                self.edges@ == start,
                start == old(self).edges@,
                graph_ok(start),
                forall|j: int| 0 <= j < start.len() ==> (#[trigger] start[j]).observation_count < i32::MAX,
                k == (o@, c@, t@),
                k == (to_upper(origin@), to_upper(connection@), to_upper(ticketed@)),
                i <= start.len(),
                forall|j: int| 0 <= j < i ==> edge_key(#[trigger] start[j]) != k,
            decreases start.len() - i,
        {
            let e = &self.edges[i];
            if str_eq(e.origin.as_str(), o.as_str()) && str_eq(e.connection.as_str(), c.as_str())
                && str_eq(e.ticketed_destination.as_str(), t.as_str()) {
                proof {
                    assert(edge_key(start[i as int]) == k);
                    assert(graph_has(start, k));
                    let j = graph_index(start, k);
                    if j != i {
                        if j > i {
                            assert(edge_key(start[i as int]) != edge_key(start[j]));
                        }
                    }
                    assert(j == i);
                }
                let best = match price {
                    Some(p) => match e.best_observed_price {
                        Some(b) => if p < b { Some(p) } else { Some(b) },
                        None => Some(p),
                    },
                    None => e.best_observed_price,
                };
                let updated = HiddenCityCandidateEdge {
                    origin: e.origin.clone(),
                    connection: e.connection.clone(),
                    ticketed_destination: e.ticketed_destination.clone(),
                    observation_count: e.observation_count + 1,
                    last_observed_at: now.to_owned(),
                    best_observed_price: best,
                };
                self.edges.set(i, updated);
                proof {
                    assert forall|a: int, b: int| 0 <= a < b < self.edges@.len() implies
                        edge_key(#[trigger] self.edges@[a]) != edge_key(#[trigger] self.edges@[b]) by {
                        assert(edge_key(start[a]) != edge_key(start[b]));
                    }
                    assert forall|a: int| 0 <= a < self.edges@.len() implies (#[trigger] self.edges@[a]).observation_count >= 1 by {
                        assert(start[a].observation_count >= 1);
                    }
                }
                return;
            }
            i = i + 1;
        }
        proof {
            assert(!graph_has(start, k));
        }
        self.edges.push(HiddenCityCandidateEdge {
            origin: o,
            connection: c,
            ticketed_destination: t,
            observation_count: 1,
            last_observed_at: now.to_owned(),
            best_observed_price: price,
        });
        proof {
            assert(self.edges@.drop_last() =~= start);
            assert forall|a: int, b: int| 0 <= a < b < self.edges@.len() implies
                edge_key(#[trigger] self.edges@[a]) != edge_key(#[trigger] self.edges@[b]) by {
                if b < start.len() {
                    assert(edge_key(start[a]) != edge_key(start[b]));
                } else {
                    assert(edge_key(start[a]) != k);
                }
            }
        }
    }
}

/// Recording keeps every route once; a route sighted is held afterwards with one
/// more sighting than before (one when new), and no best price rises.
pub proof fn lemma_record_counts(old_edges: Seq<HiddenCityCandidateEdge>, new_edges: Seq<HiddenCityCandidateEdge>, k: EdgeKey,
    price: Option<i64>)
    requires
        graph_ok(old_edges),
        graph_has(old_edges, k) ==> ({
            let i = graph_index(old_edges, k);
            &&& new_edges.len() == old_edges.len()
            &&& forall|j: int| 0 <= j < old_edges.len() && j != i ==> #[trigger] new_edges[j] == old_edges[j]
            &&& edge_key(new_edges[i]) == k
            &&& new_edges[i].observation_count == old_edges[i].observation_count + 1
            &&& new_edges[i].best_observed_price == lower_price(old_edges[i].best_observed_price, price)
        }),
        !graph_has(old_edges, k) ==> ({
            &&& new_edges.len() == old_edges.len() + 1
            &&& new_edges.drop_last() == old_edges
            &&& edge_key(new_edges.last()) == k
            &&& new_edges.last().observation_count == 1
            &&& new_edges.last().best_observed_price == price
        }),
    ensures
        graph_has(new_edges, k),
        forall|k2: EdgeKey| graph_has(old_edges, k2) ==> #[trigger] graph_has(new_edges, k2),
        new_edges[graph_index(new_edges, k)].observation_count
            == (if graph_has(old_edges, k) { old_edges[graph_index(old_edges, k)].observation_count + 1 } else { 1 }),
{
    if graph_has(old_edges, k) {
        let i = graph_index(old_edges, k);
        assert(edge_key(new_edges[i]) == k);
        assert forall|k2: EdgeKey| graph_has(old_edges, k2) implies #[trigger] graph_has(new_edges, k2) by {
            let j = graph_index(old_edges, k2);
            if j != i {
                assert(new_edges[j] == old_edges[j]);
            } else {
                assert(edge_key(new_edges[i]) == k2);
            }
        }
        let m = graph_index(new_edges, k);
        if m != i {
            assert(new_edges[m] == old_edges[m]);
            assert(edge_key(old_edges[m]) == k);
            if m < i {
                assert(edge_key(old_edges[m]) != edge_key(old_edges[i]));
            } else {
                assert(edge_key(old_edges[i]) != edge_key(old_edges[m]));
            }
        }
    } else {
        let last = new_edges.len() - 1;
        assert(edge_key(new_edges[last]) == k);
        assert forall|k2: EdgeKey| graph_has(old_edges, k2) implies #[trigger] graph_has(new_edges, k2) by {
            let j = graph_index(old_edges, k2);
            assert(new_edges[j] == old_edges[j]);
        }
        let m = graph_index(new_edges, k);
        if m != last {
            assert(new_edges[m] == old_edges[m]);
        }
    }
}

impl Clone for HiddenCityCandidateEdge {
    fn clone(&self) -> (r: Self)
        ensures
            r == *self,
    {
        HiddenCityCandidateEdge {
            origin: self.origin.clone(),
            connection: self.connection.clone(),
            ticketed_destination: self.ticketed_destination.clone(),
            observation_count: self.observation_count,
            last_observed_at: self.last_observed_at.clone(),
            best_observed_price: self.best_observed_price,
        }
    }
}

/// The positions of the routes from `origin` through one of `via`, in graph order.
pub open spec fn observed(edges: Seq<HiddenCityCandidateEdge>, origin: Seq<char>, via: Set<Seq<char>>, k: int) -> Seq<int>
    decreases k,
{
    if k <= 0 {
        Seq::empty()
    } else if edges[k - 1].origin@ == origin && via.contains(edges[k - 1].connection@) {
        observed(edges, origin, via, k - 1).push(k - 1)
    } else {
        observed(edges, origin, via, k - 1)
    }
}

/// The sort keys of observed routes: most sightings first.
pub open spec fn sighting_keys(edges: Seq<HiddenCityCandidateEdge>, obs: Seq<int>) -> Seq<Seq<i64>> {
    obs.map_values(|i: int| seq![(-(edges[i].observation_count as int)) as i64])
}

/// Codes in order, each upper-cased, kept when three bytes long and not already seen
/// (in `seen` or earlier in the list).
pub open spec fn fresh_codes(codes: Seq<Seq<char>>, seen: Set<Seq<char>>) -> Seq<Seq<char>>
    decreases codes.len(),
{
    if codes.len() == 0 {
        Seq::empty()
    } else {
        let prev = fresh_codes(codes.drop_last(), seen);
        let c = to_upper(codes.last());
        if utf8_len(c) == 3 && !seen.contains(c) && !prev.contains(c) { prev.push(c) } else { prev }
    }
}

/// The first `n` entries (all when fewer).
pub open spec fn first_n<A>(s: Seq<A>, n: int) -> Seq<A> {
    if n < s.len() { s.subrange(0, n) } else { s }
}

/// The destinations beyond the intended stops worth shopping: the ticketed
/// destinations of routes seen from the origin through an intended stop, most
/// sightings first (stably), then the extra codes; each upper-cased, three bytes
/// long, not an intended stop nor the origin, once; at most `limit`.
pub open spec fn beyond_spec(edges: Seq<HiddenCityCandidateEdge>, origin: Seq<char>, intended: Seq<String>,
    limit: int, extra: Seq<Seq<char>>, p: Seq<usize>) -> Seq<Seq<char>> {
    let iu = upper_all(intended);
    let ou = to_upper(origin);
    let obs = observed(edges, ou, iu, edges.len() as int);
    let ordered = Seq::new(p.len(), |k: int| edges[obs[p[k] as int]].ticketed_destination@);
    first_n(fresh_codes(ordered + extra, iu.insert(ou)), limit)
}

/// The characters of each string of an optional list.
pub open spec fn extra_views(extra: Option<&[String]>) -> Seq<Seq<char>> {
    match extra {
        Some(x) => x@.map_values(|s: String| s@),
        None => Seq::empty(),
    }
}

impl CandidateGraph {
    /// See [`beyond_spec`].
    pub fn candidates_beyond(&self, origin: &str, intended: &Vec<String>, limit: usize, extra: Option<&[String]>) -> (r: Vec<String>)
        ensures
            exists|p: Seq<usize>| #[trigger] sorted_by(sighting_keys(self.edges@, observed(self.edges@, to_upper(origin@),
                upper_all(intended@), self.edges@.len() as int)), p)
                && views(r@) == beyond_spec(self.edges@, origin@, intended@, limit as int, extra_views(extra), p),
    {
        let edges = &self.edges;
        let ou = upper(origin);
        let ghost iu = upper_all(intended@);
        // the observed routes
        let mut obs: Vec<usize> = Vec::new();
        let mut i: usize = 0;
        while i < edges.len()
            invariant
                i <= edges@.len(),
                as_ints(obs@) == observed(edges@, ou@, iu, i as int),
                forall|k: int| 0 <= k < obs@.len() ==> (#[trigger] obs@[k]) < i,
                iu == upper_all(intended@),
            decreases edges@.len() - i,
        {
            let e = &edges[i];
            if str_eq(e.origin.as_str(), ou.as_str()) && in_upper(intended, &e.connection) {
                obs.push(i);
                assert(as_ints(obs@) =~= observed(edges@, ou@, iu, i as int).push(i as int));
            }
            i = i + 1;
        }
        let ghost ob = as_ints(obs@);
        let mut keys: Vec<Vec<i64>> = Vec::new();
        let mut a: usize = 0;
        while a < obs.len()
            invariant
                a <= obs@.len(),
                ob == as_ints(obs@),
                forall|k: int| 0 <= k < obs@.len() ==> (#[trigger] obs@[k]) < edges@.len(),
                keys@.len() == a,
                forall|k: int| 0 <= k < a ==> (#[trigger] keys@[k])@ == seq![(-(edges@[ob[k]].observation_count as int)) as i64],
            decreases obs@.len() - a,
        {
            let mut key: Vec<i64> = Vec::new();
            key.push(-(edges[obs[a]].observation_count as i64));
            assert(key@ =~= seq![(-(edges@[ob[a as int]].observation_count as int)) as i64]);
            keys.push(key);
            a = a + 1;
        }
        assert(key_views(keys@) =~= sighting_keys(edges@, ob));
        let p = sort_order(&keys);
        // all codes in order
        let ghost ordered = Seq::new(p@.len(), |k: int| edges@[ob[p@[k] as int]].ticketed_destination@);
        let mut codes: Vec<String> = Vec::new();
        let mut b: usize = 0;
        while b < p.len()
            invariant
                is_perm(p@, ob.len() as int),
                ob == as_ints(obs@),
                forall|k: int| 0 <= k < obs@.len() ==> (#[trigger] obs@[k]) < edges@.len(),
                ordered == Seq::new(p@.len(), |k: int| edges@[ob[p@[k] as int]].ticketed_destination@),
                b <= p@.len(),
                views(codes@) == ordered.subrange(0, b as int),
            decreases p@.len() - b,
        {
            let pos = p[b];
            assert((p@[b as int] as int) < ob.len());
            let at = obs[pos];
            assert(ob[p@[b as int] as int] == at as int);
            let ghost before = views(codes@);
            codes.push(edges[at].ticketed_destination.clone());
            assert(views(codes@) =~= before.push(edges@[at as int].ticketed_destination@));
            b = b + 1;
            assert(views(codes@) =~= ordered.subrange(0, b as int));
        }
        match extra {
            Some(x) => {
                let mut c: usize = 0;
                let ghost base = views(codes@);
                while c < x.len()
                    invariant
                        c <= x@.len(),
                        views(codes@) == base + x@.map_values(|s: String| s@).subrange(0, c as int),
                    decreases x@.len() - c,
                {
                    let ghost before = views(codes@);
                    codes.push(x[c].clone());
                    assert(views(codes@) =~= before.push(x@[c as int]@));
                    c = c + 1;
                    assert(views(codes@) =~= base + x@.map_values(|s: String| s@).subrange(0, c as int));
                }
                assert(x@.map_values(|s: String| s@).subrange(0, x@.len() as int) =~= x@.map_values(|s: String| s@));
            },
            None => {
                assert(views(codes@) =~= views(codes@) + Seq::<Seq<char>>::empty());
            },
        }
        assert(ordered.subrange(0, p@.len() as int) =~= ordered);
        let ghost all = views(codes@);
        assert(all == ordered + extra_views(extra));
        // keep the fresh three-letter codes
        let ghost seen0 = iu.insert(ou@);
        let mut ranked: Vec<String> = Vec::new();
        let mut d: usize = 0;
        while d < codes.len()
            invariant
                d <= codes@.len(),
                all == views(codes@),
                seen0 == upper_all(intended@).insert(ou@),
                views(ranked@) == fresh_codes(all.subrange(0, d as int), seen0),
            decreases codes@.len() - d,
        {
            let ghost pre = all.subrange(0, d as int);
            assert(all.subrange(0, d + 1).drop_last() =~= pre);
            let code = upper(codes[d].as_str());
            let fresh = byte_len(code.as_str()) == 3 && !in_upper(intended, &code) && !str_eq(code.as_str(), ou.as_str())
                && !contains_string(&ranked, &code);
            proof {
                assert(seen0.contains(code@) == (upper_all(intended@).contains(code@) || code@ == ou@));
                assert(code_set(ranked@).contains(code@) == views(ranked@).contains(code@));
            }
            if fresh {
                let ghost before = views(ranked@);
                ranked.push(code);
                assert(views(ranked@) =~= before.push(to_upper(all[d as int])));
            }
            d = d + 1;
        }
        assert(all.subrange(0, codes@.len() as int) =~= all);
        if ranked.len() > limit {
            ranked.truncate(limit);
        }
        proof {
            assert(views(ranked@) =~= first_n(fresh_codes(all, seen0), limit as int));
        }
        ranked
    }
}

/// Text as sort keys: each character's code point (a proper prefix sorts first, as
/// `String`'s order does).
pub open spec fn text_key(t: Seq<char>) -> Seq<i64> {
    t.map_values(|c: char| c as u32 as i64)
}

pub open spec fn text_keys(v: Seq<Seq<char>>) -> Seq<Seq<i64>> {
    v.map_values(|t: Seq<char>| text_key(t))
}

pub(crate) fn text_key_of(s: &String) -> (r: Vec<i64>)
    ensures
        r@ == text_key(s@),
{
    let x = crate::text::chars_of(s.as_str());
    let mut v: Vec<i64> = Vec::new();
    let mut i: usize = 0;
    while i < x.len()
        invariant
            x@ == s@,
            i <= x@.len(),
            v@ == text_key(s@).subrange(0, i as int),
        decreases x@.len() - i,
    {
        v.push(x[i] as u32 as i64);
        i = i + 1;
        assert(v@ =~= text_key(s@).subrange(0, i as int));
    }
    assert(v@ =~= text_key(s@));
    v
}

/// Strings in text order (stably).
pub fn sort_texts(v: &Vec<String>) -> (r: Vec<String>)
    ensures
        exists|p: Seq<usize>| #[trigger] sorted_by(text_keys(views(v@)), p)
            && views(r@) == Seq::new(p.len(), |k: int| v@[p[k] as int]@),
{
    let mut keys: Vec<Vec<i64>> = Vec::new();
    let mut i: usize = 0;
    while i < v.len()
        invariant
            i <= v@.len(),
            keys@.len() == i,
            forall|k: int| 0 <= k < i ==> (#[trigger] keys@[k])@ == text_key(v@[k]@),
        decreases v@.len() - i,
    {
        keys.push(text_key_of(&v[i]));
        i = i + 1;
    }
    assert(key_views(keys@) =~= text_keys(views(v@)));
    let p = sort_order(&keys);
    let mut out: Vec<String> = Vec::new();
    let mut q: usize = 0;
    while q < p.len()
        invariant
            is_perm(p@, v@.len() as int),
            q <= p@.len(),
            views(out@) == Seq::new(p@.len(), |k: int| v@[p@[k] as int]@).subrange(0, q as int),
        decreases p@.len() - q,
    {
        let idx = p[q];
        assert((p@[q as int] as int) < v@.len());
        let ghost before = views(out@);
        out.push(v[idx].clone());
        assert(views(out@) =~= before.push(v@[idx as int]@));
        q = q + 1;
        assert(views(out@) =~= Seq::new(p@.len(), |k: int| v@[p@[k] as int]@).subrange(0, q as int));
    }
    assert(views(out@) =~= Seq::new(p@.len(), |k: int| v@[p@[k] as int]@));
    out
}

impl CandidateGraph {
    /// Plans an expansion: the ticketed destinations that the reused offers already
    /// cover as hidden-city tickets are skipped (returned in text order); nothing new
    /// is planned when hidden-city results are already in hand or the limit is zero;
    /// otherwise up to `limit` destinations beyond (see `beyond_spec`) not covered.
    pub fn plan_expansion(
        &self,
        origin: &str,
        intended: &Vec<String>,
        limit: usize,
        extra: Option<&[String]>,
        reused: &[Offer],
        already_hidden: bool,
    ) -> (r: (Vec<String>, Vec<String>))
        requires
            limit + reused@.len() <= usize::MAX,
        ensures
            exists|du: Vec<String>, covered: Seq<String>, q: Seq<usize>|
                code_set(du@) == upper_all(intended@)
                && #[trigger] covered_codes(reused@, &du) == code_set(covered)
                && views(covered).no_duplicates()
                && #[trigger] sorted_by(text_keys(views(covered)), q)
                && views(r.1@) == Seq::new(q.len(), |k: int| covered[q[k] as int]@)
                && ((already_hidden || limit == 0) ==> r.0@.len() == 0)
                && (!(already_hidden || limit == 0) ==> exists|p: Seq<usize>| #[trigger] sorted_by(sighting_keys(self.edges@,
                    observed(self.edges@, to_upper(origin@), upper_all(intended@), self.edges@.len() as int)), p)
                    && views(r.0@) == first_n(beyond_spec(self.edges@, origin@, intended@, limit + covered.len(), extra_views(extra), p)
                        .filter(|c: Seq<char>| !code_set(covered).contains(c)), limit as int)),
    {
        // the intended codes, upper-cased
        let mut du: Vec<String> = Vec::new();
        let mut i: usize = 0;
        while i < intended.len()
            invariant
                i <= intended@.len(),
                du@.len() == i,
                forall|k: int| 0 <= k < i ==> (#[trigger] du@[k])@ == to_upper(intended@[k]@),
            decreases intended@.len() - i,
        {
            du.push(upper(intended[i].as_str()));
            i = i + 1;
        }
        assert(code_set(du@) =~= upper_all(intended@)) by {
            assert forall|c: Seq<char>| code_set(du@).contains(c) implies upper_all(intended@).contains(c) by {
                let k = choose|k: int| 0 <= k < views(du@).len() && views(du@)[k] == c;
                assert(c == to_upper(intended@[k]@));
            }
            assert forall|c: Seq<char>| upper_all(intended@).contains(c) implies code_set(du@).contains(c) by {
                let k = choose|k: int| 0 <= k < intended@.len() && c == to_upper(#[trigger] intended@[k]@);
                assert(views(du@)[k] == c);
            }
        }
        let covered = ticketed_dests_through(reused, &du);
        proof {
            covered_in_reused(reused@, &du);
            views(covered@).unique_seq_to_set();
            assert(code_set(covered@).len() == covered@.len());
        }
        let skipped = sort_texts(&covered);
        if already_hidden || limit == 0 {
            return (Vec::new(), skipped);
        }
        let more = limit + covered.len();
        let beyond = self.candidates_beyond(origin, intended, more, extra);
        let mut out: Vec<String> = Vec::new();
        let mut k: usize = 0;
        let ghost bv = views(beyond@);
        let ghost cs = code_set(covered@);
        assert(bv.subrange(0, 0).filter(|c: Seq<char>| !cs.contains(c)) =~= Seq::<Seq<char>>::empty()) by {
            reveal(Seq::filter);
        }
        while k < beyond.len() && out.len() < limit
            invariant
                k <= beyond@.len(),
                bv == views(beyond@),
                cs == code_set(covered@),
                views(out@) == bv.subrange(0, k as int).filter(|c: Seq<char>| !cs.contains(c)),
                out@.len() <= limit,
            decreases beyond@.len() - k,
        {
            proof {
                reveal(Seq::filter);
                assert(bv.subrange(0, k + 1).drop_last() =~= bv.subrange(0, k as int));
                assert(bv.subrange(0, k + 1).last() == beyond@[k as int]@);
            }
            if !contains_string(&covered, &beyond[k]) {
                let ghost before = views(out@);
                out.push(beyond[k].clone());
                assert(views(out@) =~= before.push(beyond@[k as int]@));
            }
            k = k + 1;
        }
        proof {
            lemma_filter_prefix_take(bv, |c: Seq<char>| !cs.contains(c), k as int, limit as int, views(out@));
        }
        (out, skipped)
    }
}

/// The covered codes are the ticketed airports of some reused offers.
proof fn covered_in_reused(reused: Seq<Offer>, du: &Vec<String>)
    ensures
        covered_codes(reused, du).finite(),
        covered_codes(reused, du).len() <= reused.len(),
{
    let m = reused.map_values(|o: Offer| ticketed(o)).to_set();
    assert(covered_codes(reused, du).subset_of(m)) by {
        assert forall|c: Seq<char>| covered_codes(reused, du).contains(c) implies m.contains(c) by {
            let i = choose|i: int| 0 <= i < reused.len() && hidden_exit(#[trigger] reused[i], du) is Some && ticketed(reused[i]) == c;
            assert(reused.map_values(|o: Offer| ticketed(o))[i] == c);
        }
    }
    reused.map_values(|o: Offer| ticketed(o)).lemma_cardinality_of_set();
    vstd::set_lib::lemma_len_subset(covered_codes(reused, du), m);
}

/// Filtering a prefix gives a prefix of the filtered whole.
proof fn lemma_filter_prefix(s: Seq<Seq<char>>, pred: spec_fn(Seq<char>) -> bool, k: int)
    requires
        0 <= k <= s.len(),
    ensures
        s.subrange(0, k).filter(pred).len() <= s.filter(pred).len(),
        s.filter(pred).subrange(0, s.subrange(0, k).filter(pred).len() as int) == s.subrange(0, k).filter(pred),
    decreases s.len(),
{
    reveal(Seq::filter);
    if k == s.len() {
        assert(s.subrange(0, k) =~= s);
        assert(s.filter(pred).subrange(0, s.filter(pred).len() as int) =~= s.filter(pred));
    } else {
        let d = s.drop_last();
        assert(s.subrange(0, k) =~= d.subrange(0, k));
        lemma_filter_prefix(d, pred, k);
        let f = d.filter(pred);
        let g = d.subrange(0, k).filter(pred);
        if pred(s.last()) {
            assert(s.filter(pred) == f.push(s.last()));
            assert(f.push(s.last()).subrange(0, g.len() as int) =~= f.subrange(0, g.len() as int));
        } else {
            assert(s.filter(pred) == f);
        }
    }
}

/// Walking a list until `limit` are kept gives the first `limit` of the filter.
proof fn lemma_filter_prefix_take(s: Seq<Seq<char>>, pred: spec_fn(Seq<char>) -> bool, k: int, limit: int, out: Seq<Seq<char>>)
    requires
        0 <= k <= s.len(),
        out == s.subrange(0, k).filter(pred),
        out.len() <= limit,
        k == s.len() || out.len() == limit,
    ensures
        out == first_n(s.filter(pred), limit),
{
    lemma_filter_prefix(s, pred, k);
    if k == s.len() {
        assert(s.subrange(0, k) =~= s);
    } else {
        assert(s.filter(pred).subrange(0, limit) == out);
    }
}

} // verus!
