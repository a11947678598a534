//! How what one search learned is folded into the stored route rows and flight
//! edges: counts add up, the savings history is kept bounded and summarised, and
//! the timestamps say when a route last worked, last undercut the honest fare and
//! was last checked.
use vstd::prelude::*;
use crate::learn::{StatDelta, EdgeObservation, merge_savings, merged_savings, summarize_savings, savings_summary,
    div_round, text_less};
use crate::fx::round_half_away;
use crate::times::Instant;
use crate::hidden::views;

verus! {

/// A stored route row (money in US cents, rates in ten-thousandths, percentages in
/// hundredths). The ranking score is kept beside it by its caller.
pub struct RouteStatRow {
    pub origin: String,
    pub intended: String,
    pub ticketed: String,
    pub observations: i32,
    pub successful_connections: i32,
    pub cheaper_than_direct_count: i32,
    pub success_rate: i64,
    pub average_saving: i128,
    pub median_saving: i128,
    pub maximum_saving: i128,
    pub average_saving_percent: i128,
    pub savings: Vec<i128>,
    pub currency: String,
    pub best_through_price: Option<i64>,
    pub last_success_at: Option<Instant>,
    pub last_cheaper_at: Option<Instant>,
    pub last_checked_at: Instant,
}

/// Savings small enough to sum (each a difference of two `i64` cent amounts).
pub open spec fn savings_fit(v: Seq<i128>) -> bool {
    forall|i: int| 0 <= i < v.len() ==> -0x1_0000_0000_0000_0000 <= #[trigger] v[i] <= 0x1_0000_0000_0000_0000
}

/// Percentages small enough to sum.
pub open spec fn pcts_fit(v: Seq<i128>) -> bool {
    v.len() <= 0x4000_0000 && forall|i: int| 0 <= i < v.len() ==> -0x1_0000_0000_0000_0000_0000 <= #[trigger] v[i] <= 0x1_0000_0000_0000_0000_0000
}

/// The sum of some percentages.
pub open spec fn pct_sum(v: Seq<i128>) -> int
    decreases v.len(),
{
    if v.len() == 0 { 0 } else { pct_sum(v.drop_last()) + v.last() }
}

/// The row stored for `d` after this batch: counts added (observations raised to the
/// successes, successes to the cheaper count), the success rate, the savings merged
/// and summarised with the average percentage over all cheaper fares, the currency
/// of the latest saving, the lower best price, and the timestamps.
pub open spec fn merged_row(row: RouteStatRow, d: StatDelta, now: Instant, r: RouteStatRow) -> bool {
    let cheaper = row.cheaper_than_direct_count + d.cheaper_than_direct_count;
    let succ0 = row.successful_connections + d.successful_connections;
    let obs = if succ0 > row.observations + d.observations { succ0 } else { row.observations + d.observations };
    let succ = if cheaper > succ0 { cheaper } else { succ0 };
    let total = row.cheaper_than_direct_count + d.saving_pcts@.len();
    &&& r.origin == row.origin && r.intended == row.intended && r.ticketed == row.ticketed
    &&& r.observations == obs
    &&& r.successful_connections == succ
    &&& r.cheaper_than_direct_count == cheaper
    &&& r.success_rate == (if obs > 0 { round_half_away(10000 * succ, obs) } else { 0 })
    &&& if d.savings@.len() > 0 {
        &&& r.savings@ == merged_savings(row.savings@, d.savings@)
        &&& savings_summary(r.savings@, (r.average_saving, r.median_saving, r.maximum_saving))
        &&& r.average_saving_percent == (if total > 0 {
                round_half_away(row.average_saving_percent * row.cheaper_than_direct_count + pct_sum(d.saving_pcts@), total)
            } else { 0 })
        &&& r.currency == (if d.currency@.len() > 0 { d.currency } else { row.currency })
        &&& r.last_cheaper_at == Some(now)
    } else {
        &&& r.savings@ == row.savings@
        &&& r.average_saving == row.average_saving && r.median_saving == row.median_saving
        &&& r.maximum_saving == row.maximum_saving
        &&& r.average_saving_percent == row.average_saving_percent
        &&& r.currency == row.currency
        &&& r.last_cheaper_at == row.last_cheaper_at
    }
    &&& r.best_through_price == (match (d.best_through_price, row.best_through_price) {
            (Some(b), Some(p)) => if b < p { Some(b) } else { Some(p) },
            (Some(b), None) => Some(b),
            (None, p) => p,
        })
    &&& r.last_success_at == (if d.success { Some(now) } else { row.last_success_at })
    &&& r.last_checked_at == now
}

fn copy_savings(v: &Vec<i128>) -> (r: Vec<i128>)
    ensures
        r@ == v@,
{
    let mut out: Vec<i128> = Vec::new();
    let mut i: usize = 0;
    while i < v.len()
        invariant
            i <= v@.len(),
            out@ == v@.subrange(0, i as int),
        decreases v@.len() - i,
    {
        out.push(v[i]);
        i = i + 1;
        assert(out@ =~= v@.subrange(0, i as int));
    }
    assert(v@.subrange(0, i as int) =~= v@);
    out
}

fn sum_pcts(v: &Vec<i128>) -> (r: i128)
    requires
        pcts_fit(v@),
    ensures
        r == pct_sum(v@),
        -0x1_0000_0000_0000_0000_0000 * v@.len() <= r <= 0x1_0000_0000_0000_0000_0000 * v@.len(),
{
    let mut s: i128 = 0;
    let mut i: usize = 0;
    while i < v.len()
        invariant
            i <= v@.len(),
            pcts_fit(v@),
            s == pct_sum(v@.subrange(0, i as int)),
            -0x1_0000_0000_0000_0000_0000 * i <= s <= 0x1_0000_0000_0000_0000_0000 * i,
        decreases v@.len() - i,
    {
        assert(v@.subrange(0, i + 1).drop_last() =~= v@.subrange(0, i as int));
        s = s + v[i];
        i = i + 1;
    }
    assert(v@.subrange(0, i as int) =~= v@);
    s
}

proof fn lemma_merged_fit(a: Seq<i128>, b: Seq<i128>)
    requires
        savings_fit(a),
        savings_fit(b),
    ensures
        savings_fit(merged_savings(a, b)),
        merged_savings(a, b).len() <= 200,
{
    let m = a + b;
    assert forall|i: int| 0 <= i < m.len() implies -0x1_0000_0000_0000_0000 <= #[trigger] m[i] <= 0x1_0000_0000_0000_0000 by {
        if i < a.len() { assert(m[i] == a[i]); } else { assert(m[i] == b[i - a.len()]); }
    }
    if m.len() > 200 {
        let t = m.subrange(m.len() - 200, m.len() as int);
        assert forall|i: int| 0 <= i < t.len() implies -0x1_0000_0000_0000_0000 <= #[trigger] t[i] <= 0x1_0000_0000_0000_0000 by {
            assert(t[i] == m[i + m.len() - 200]);
        }
    }
}

/// Folds one batch row `d` into the stored row `row` at `now`; see [`merged_row`].
pub fn merge_route_stat(row: &RouteStatRow, d: &StatDelta, now: &Instant) -> (r: RouteStatRow)
    requires
        row.observations + d.observations <= i32::MAX,
        row.successful_connections + d.successful_connections <= i32::MAX,
        row.cheaper_than_direct_count + d.cheaper_than_direct_count <= i32::MAX,
        row.observations >= 0 && row.successful_connections >= 0 && row.cheaper_than_direct_count >= 0,
        d.observations >= 0 && d.successful_connections >= 0 && d.cheaper_than_direct_count >= 0,
        savings_fit(row.savings@),
        savings_fit(d.savings@),
        pcts_fit(d.saving_pcts@),
        row.cheaper_than_direct_count + d.saving_pcts@.len() <= i32::MAX,
        -0x1_0000_0000_0000_0000_0000 <= row.average_saving_percent <= 0x1_0000_0000_0000_0000_0000,
    ensures
        merged_row(*row, *d, *now, r),
{
    let cheaper: i32 = row.cheaper_than_direct_count + d.cheaper_than_direct_count;
    let mut obs: i32 = row.observations + d.observations;
    let mut succ: i32 = row.successful_connections + d.successful_connections;
    if succ > obs {
        obs = succ;
    }
    if cheaper > succ {
        succ = cheaper;
    }
    let rate: i64 = if obs > 0 { div_round(10000 * succ as i128, obs as i128) as i64 } else { 0 };
    let mut savings = copy_savings(&row.savings);
    let mut avg = row.average_saving;
    let mut med = row.median_saving;
    let mut mx = row.maximum_saving;
    let mut pct = row.average_saving_percent;
    let mut currency = row.currency.clone();
    let mut last_cheaper = row.last_cheaper_at;
    if d.savings.len() > 0 {
        savings = merge_savings(row.savings.as_slice(), d.savings.as_slice());
        proof { lemma_merged_fit(row.savings@, d.savings@); }
        let (a, m, x) = summarize_savings(savings.as_slice());
        avg = a;
        med = m;
        mx = x;
        let n_new: i32 = d.saving_pcts.len() as i32;
        let total: i32 = row.cheaper_than_direct_count + n_new;
        let sp = sum_pcts(&d.saving_pcts);
        pct = if total > 0 {
            assert(-0x1_0000_0000_0000_0000_0000 * row.cheaper_than_direct_count <= row.average_saving_percent * row.cheaper_than_direct_count
                <= 0x1_0000_0000_0000_0000_0000 * row.cheaper_than_direct_count) by (nonlinear_arith)
                requires
                    -0x1_0000_0000_0000_0000_0000 <= row.average_saving_percent <= 0x1_0000_0000_0000_0000_0000,
                    row.cheaper_than_direct_count >= 0;
            div_round(row.average_saving_percent * row.cheaper_than_direct_count as i128 + sp, total as i128)
        } else {
            0
        };
        if !d.currency.as_str().is_empty() {
            currency = d.currency.clone();
        }
        last_cheaper = Some(*now);
    }
    let best = match (d.best_through_price, row.best_through_price) {
        (Some(b), Some(p)) => if b < p { Some(b) } else { Some(p) },
        (Some(b), None) => Some(b),
        (None, p) => p,
    };
    RouteStatRow {
        origin: row.origin.clone(),
        intended: row.intended.clone(),
        ticketed: row.ticketed.clone(),
        observations: obs,
        successful_connections: succ,
        cheaper_than_direct_count: cheaper,
        success_rate: rate,
        average_saving: avg,
        median_saving: med,
        maximum_saving: mx,
        average_saving_percent: pct,
        savings,
        currency,
        best_through_price: best,
        last_success_at: if d.success { Some(*now) } else { row.last_success_at },
        last_cheaper_at: last_cheaper,
        last_checked_at: *now,
    }
}

/// The row a route starts from when none is stored: its parts cut to three
/// characters, nothing counted, checked at `now`.
pub fn new_route_row(d: &StatDelta, now: &Instant) -> (r: RouteStatRow)
    ensures
        r.origin@ == d.origin@.subrange(0, if d.origin@.len() < 3 { d.origin@.len() as int } else { 3 }),
        r.intended@ == d.intended@.subrange(0, if d.intended@.len() < 3 { d.intended@.len() as int } else { 3 }),
        r.ticketed@ == d.ticketed@.subrange(0, if d.ticketed@.len() < 3 { d.ticketed@.len() as int } else { 3 }),
        r.observations == 0 && r.successful_connections == 0 && r.cheaper_than_direct_count == 0,
        r.success_rate == 0 && r.average_saving == 0 && r.median_saving == 0 && r.maximum_saving == 0,
        r.average_saving_percent == 0 && r.savings@.len() == 0 && r.currency@.len() == 0,
        r.best_through_price is None && r.last_success_at is None && r.last_cheaper_at is None,
        r.last_checked_at == *now,
{
    RouteStatRow {
        origin: crate::text::take_chars(d.origin.as_str(), 3),
        intended: crate::text::take_chars(d.intended.as_str(), 3),
        ticketed: crate::text::take_chars(d.ticketed.as_str(), 3),
        observations: 0,
        successful_connections: 0,
        cheaper_than_direct_count: 0,
        success_rate: 0,
        average_saving: 0,
        median_saving: 0,
        maximum_saving: 0,
        average_saving_percent: 0,
        savings: Vec::new(),
        currency: String::new(),
        best_through_price: None,
        last_success_at: None,
        last_cheaper_at: None,
        last_checked_at: *now,
    }
}

} // verus!
