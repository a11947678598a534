use vstd::prelude::*;
use crate::text::{str_eq, to_upper, upper};

verus! {

/// One supplier call of a search, as the ledger records it. Money is in millionths
/// of a US dollar and latency in tenths of a millisecond.
pub struct ProviderCall {
    pub provider: String,
    pub origin: String,
    pub dest: String,
    pub date: String,
    pub purpose: String,
    pub ok: bool,
    pub offers: i32,
    pub latency_tenths_ms: i64,
    pub cost_micros: i64,
}

impl Clone for ProviderCall {
    fn clone(&self) -> (r: Self)
        ensures
            r == *self,
    {
        ProviderCall {
            provider: self.provider.clone(),
            origin: self.origin.clone(),
            dest: self.dest.clone(),
            date: self.date.clone(),
            purpose: self.purpose.clone(),
            ok: self.ok,
            offers: self.offers,
            latency_tenths_ms: self.latency_tenths_ms,
            cost_micros: self.cost_micros,
        }
    }
}

/// The paid calls (cost above zero) among `calls`, in order.
pub open spec fn paid_calls(calls: Seq<ProviderCall>) -> Seq<ProviderCall>
    decreases calls.len(),
{
    if calls.len() == 0 {
        Seq::empty()
    } else {
        let rest = paid_calls(calls.drop_last());
        if calls.last().cost_micros > 0 { rest.push(calls.last()) } else { rest }
    }
}

/// How many of `calls` were paid.
pub open spec fn paid_count(calls: Seq<ProviderCall>) -> int {
    paid_calls(calls).len() as int
}

/// The summed cost of `calls`.
pub open spec fn cost_sum(calls: Seq<ProviderCall>) -> int
    decreases calls.len(),
{
    if calls.len() == 0 { 0 } else { cost_sum(calls.drop_last()) + calls.last().cost_micros }
}

/// `x` rounded to the nearest multiple of 100, halves away from zero.
pub open spec fn round_hundred(x: int) -> int {
    if x >= 0 { (x + 50) / 100 * 100 } else { -((-x + 50) / 100 * 100) }
}

/// What a ledger holds: the price of one paid call, the cap on paid calls, the
/// slots reserved by calls under way, whether one slot is held for the honest A→B
/// shop, and the calls made so far.
pub struct LedgerView {
    pub cost_per_call: int,
    pub max_paid: int,
    pub reserved: int,
    pub hold_direct: bool,
    pub calls: Seq<ProviderCall>,
}

/// The paid-call budget of one search: a cap on paid supplier calls, the slots
/// taken by calls under way, and the record of every call.
pub struct Ledger {
    cost_per_call_micros: i64,
    max_paid: i32,
    reserved: i32,
    hold_direct: bool,
    calls: Vec<ProviderCall>,
}

impl Ledger {
    /// No slot count goes below zero.
    #[verifier::type_invariant]
    spec fn reserved_nonnegative(self) -> bool {
        self.reserved >= 0
    }
}

impl View for Ledger {
    type V = LedgerView;

    closed spec fn view(&self) -> LedgerView {
        LedgerView {
            cost_per_call: self.cost_per_call_micros as int,
            max_paid: self.max_paid as int,
            reserved: self.reserved as int,
            hold_direct: self.hold_direct,
            calls: self.calls@,
        }
    }
}

/// Paid slots taken: calls paid, slots reserved, and the held slot.
pub open spec fn committed(v: LedgerView) -> int {
    paid_count(v.calls) + v.reserved + if v.hold_direct { 1int } else { 0 }
}

/// Paid slots still free for any purpose (never below zero).
pub open spec fn slots_left_spec(v: LedgerView) -> int {
    if v.max_paid - committed(v) > 0 { v.max_paid - committed(v) } else { 0 }
}

/// The ledger has not promised more paid calls than its cap.
pub open spec fn within_cap(v: LedgerView) -> bool {
    v.reserved >= 0 && committed(v) <= v.max_paid
}

/// A reservation of `n` paid slots for `purpose`: whether it is granted, and the
/// ledger after it. Nothing is needed for `n <= 0`; a `direct` shop takes the held
/// slot when there is one; otherwise `n` must fit in the free slots.
pub open spec fn reserve_next(v: LedgerView, n: int, purpose: Seq<char>) -> (bool, LedgerView) {
    if n <= 0 {
        (true, v)
    } else if purpose == "direct"@ && v.hold_direct {
        (true, LedgerView { hold_direct: false, reserved: v.reserved + n, ..v })
    } else if slots_left_spec(v) < n {
        (false, v)
    } else {
        (true, LedgerView { reserved: v.reserved + n, ..v })
    }
}

/// The ledger after a call ends: a paid call frees one reserved slot (never below
/// zero) and every call is recorded.
pub open spec fn record_next(v: LedgerView, paid: bool, call: ProviderCall) -> LedgerView {
    LedgerView {
        reserved: if paid { if v.reserved > 0 { v.reserved - 1 } else { 0 } } else { v.reserved },
        calls: v.calls.push(call),
        ..v
    }
}

/// Appending a call adds it to the paid calls when it cost anything, and adds its
/// cost to the sum.
pub proof fn lemma_paid_push(calls: Seq<ProviderCall>, c: ProviderCall)
    ensures
        paid_calls(calls.push(c)) == (if c.cost_micros > 0 { paid_calls(calls).push(c) } else { paid_calls(calls) }),
        cost_sum(calls.push(c)) == cost_sum(calls) + c.cost_micros,
{
    assert(calls.push(c).drop_last() =~= calls);
}

/// A provider whose calls cost nothing.
pub open spec fn is_free_provider(provider: Seq<char>) -> bool {
    provider == "mock"@
}

impl Ledger {
    /// An empty ledger.
    pub fn new(cost_per_call_micros: i64, max_paid: i32) -> (r: Ledger)
        ensures
            r@ == (LedgerView {
                cost_per_call: cost_per_call_micros as int,
                max_paid: max_paid as int,
                reserved: 0,
                hold_direct: false,
                calls: Seq::empty(),
            }),
    {
        Ledger { cost_per_call_micros, max_paid, reserved: 0, hold_direct: false, calls: Vec::new() }
    }

    /// The cost of all calls, rounded to a hundred millionths (four decimals of a
    /// dollar).
    pub fn total_cost(&self) -> (r: i128)
        ensures
            r == round_hundred(cost_sum(self@.calls)),
    {
        let mut s: i128 = 0;
        let mut i: usize = 0;
        while i < self.calls.len()
            invariant
                i <= self.calls@.len(),
                s == cost_sum(self.calls@.subrange(0, i as int)),
                -0x8000_0000_0000_0000 * i <= s <= 0x7fff_ffff_ffff_ffff * i,
                i <= usize::MAX,
            decreases self.calls@.len() - i,
        {
            proof {
                lemma_paid_push(self.calls@.subrange(0, i as int), self.calls@[i as int]);
                assert(self.calls@.subrange(0, i + 1) =~= self.calls@.subrange(0, i as int).push(self.calls@[i as int]));
            }
            s = s + self.calls[i].cost_micros as i128;
            i = i + 1;
        }
        assert(self.calls@.subrange(0, i as int) =~= self.calls@);
        if s >= 0 {
            (s + 50) / 100 * 100
        } else {
            -((-s + 50) / 100 * 100)
        }
    }

    /// The paid calls, in order.
    pub fn paid(&self) -> (r: Vec<ProviderCall>)
        ensures
            r@ == paid_calls(self@.calls),
    {
        let mut r: Vec<ProviderCall> = Vec::new();
        let mut i: usize = 0;
        while i < self.calls.len()
            invariant
                i <= self.calls@.len(),
                r@ == paid_calls(self.calls@.subrange(0, i as int)),
            decreases self.calls@.len() - i,
        {
            proof {
                lemma_paid_push(self.calls@.subrange(0, i as int), self.calls@[i as int]);
                assert(self.calls@.subrange(0, i + 1) =~= self.calls@.subrange(0, i as int).push(self.calls@[i as int]));
            }
            if self.calls[i].cost_micros > 0 {
                r.push(self.calls[i].clone());
            }
            i = i + 1;
        }
        assert(self.calls@.subrange(0, i as int) =~= self.calls@);
        r
    }

    /// Every call, in order.
    pub fn calls(&self) -> (r: Vec<ProviderCall>)
        ensures
            r@ == self@.calls,
    {
        let mut r: Vec<ProviderCall> = Vec::new();
        let mut i: usize = 0;
        while i < self.calls.len()
            invariant
                i <= self.calls@.len(),
                r@ == self.calls@.subrange(0, i as int),
            decreases self.calls@.len() - i,
        {
            r.push(self.calls[i].clone());
            i = i + 1;
            assert(r@ =~= self.calls@.subrange(0, i as int));
        }
        assert(self.calls@.subrange(0, i as int) =~= self.calls@);
        r
    }

    fn paid_len(&self) -> (r: usize)
        ensures
            r == paid_count(self@.calls),
    {
        let mut n: usize = 0;
        let mut i: usize = 0;
        while i < self.calls.len()
            invariant
                i <= self.calls@.len(),
                n == paid_count(self.calls@.subrange(0, i as int)),
                n <= i,
            decreases self.calls@.len() - i,
        {
            proof {
                lemma_paid_push(self.calls@.subrange(0, i as int), self.calls@[i as int]);
                assert(self.calls@.subrange(0, i + 1) =~= self.calls@.subrange(0, i as int).push(self.calls@[i as int]));
            }
            if self.calls[i].cost_micros > 0 {
                n = n + 1;
            }
            i = i + 1;
        }
        assert(self.calls@.subrange(0, i as int) =~= self.calls@);
        n
    }

    fn slots_left(&self) -> (r: i32)
        ensures
            r == slots_left_spec(self@),
    {
        proof { use_type_invariant(self); }
        let paid = self.paid_len();
        let hold: i128 = if self.hold_direct { 1 } else { 0 };
        let left: i128 = self.max_paid as i128 - paid as i128 - self.reserved as i128 - hold;
        if left > 0 { left as i32 } else { 0 }
    }

    /// Paid slots still free for any purpose.
    pub fn remaining(&self) -> (r: i32)
        ensures
            r == slots_left_spec(self@),
    {
        self.slots_left()
    }

    /// Keeps one paid slot for the honest A→B shop; other shops cannot take it.
    pub fn hold_direct_slot(&mut self)
        ensures
            final(self)@ == (LedgerView { hold_direct: true, ..old(self)@ }),
    {
        proof { use_type_invariant(&*self); }
        self.hold_direct = true;
    }

    /// Gives the held slot back once the honest shop is over, however it went.
    pub fn release_direct_hold(&mut self)
        ensures
            final(self)@ == (LedgerView { hold_direct: false, ..old(self)@ }),
    {
        proof { use_type_invariant(&*self); }
        self.hold_direct = false;
    }

    /// Whether a paid `direct` call has been made.
    pub fn has_paid_direct(&self) -> (r: bool)
        ensures
            r == exists|i: int| 0 <= i < self@.calls.len() && #[trigger] self@.calls[i].purpose@ == "direct"@
                && self@.calls[i].cost_micros > 0,
    {
        let mut i: usize = 0;
        while i < self.calls.len()
            invariant
                i <= self.calls@.len(),
                forall|j: int| 0 <= j < i ==> !(#[trigger] self.calls@[j].purpose@ == "direct"@
                    && self.calls@[j].cost_micros > 0),
            decreases self.calls@.len() - i,
        {
            if str_eq(self.calls[i].purpose.as_str(), "direct") && self.calls[i].cost_micros > 0 {
                assert(self@.calls[i as int].purpose@ == "direct"@);
                return true;
            }
            i = i + 1;
        }
        false
    }

    /// Reserves `n` paid slots for no particular purpose.
    pub fn reserve(&mut self, n: i32) -> (r: bool)
        ensures
            (r, final(self)@) == reserve_next(old(self)@, n as int, ""@),
    {
        let empty = "";
        proof {
            reveal_strlit("");
            reveal_strlit("direct");
            assert(empty@.len() == 0);
            assert("direct"@.len() == 6);
        }
        self.reserve_purpose(n, empty)
    }

    /// Reserves `n` paid slots for `purpose`; see [`reserve_next`].
    pub fn reserve_purpose(&mut self, n: i32, purpose: &str) -> (r: bool)
        requires
            purpose@ == "direct"@ && old(self)@.hold_direct ==> old(self)@.reserved + n <= i32::MAX,
        ensures
            (r, final(self)@) == reserve_next(old(self)@, n as int, purpose@),
    {
        proof { use_type_invariant(&*self); }
        if n <= 0 {
            return true;
        }
        if str_eq(purpose, "direct") && self.hold_direct {
            self.hold_direct = false;
            self.reserved = self.reserved + n;
            return true;
        }
        if self.slots_left() < n {
            return false;
        }
        self.reserved = self.reserved + n;
        true
    }

    /// Records a finished call; see [`record_next`].
    pub fn finish(&mut self, paid: bool, call: ProviderCall)
        ensures
            final(self)@ == record_next(old(self)@, paid, call),
    {
        proof { use_type_invariant(&*self); }
        if paid {
            self.reserved = if self.reserved > 0 { self.reserved - 1 } else { 0 };
        }
        let mut calls: Vec<ProviderCall> = Vec::new();
        std::mem::swap(&mut calls, &mut self.calls);
        calls.push(call);
        self.calls = calls;
    }

    /// The price of one paid call.
    pub fn cost_per_call(&self) -> (r: i64)
        ensures
            r == self@.cost_per_call,
    {
        self.cost_per_call_micros
    }
}

impl Default for Ledger {
    /// Half a cent a call, twelve paid calls.
    fn default() -> (r: Ledger)
        ensures
            r@ == (LedgerView { cost_per_call: 5000, max_paid: 12, reserved: 0, hold_direct: false, calls: Seq::empty() }),
    {
        Ledger::new(5000, 12)
    }
}

/// A ledger for one search.
pub fn start_ledger(cost_per_call_micros: i64, max_paid: i32) -> (r: Ledger)
    ensures
        r@ == (LedgerView {
            cost_per_call: cost_per_call_micros as int,
            max_paid: max_paid as int,
            reserved: 0,
            hold_direct: false,
            calls: Seq::empty(),
        }),
{
    Ledger::new(cost_per_call_micros, max_paid)
}

/// Before a supplier call: a free provider always goes ahead and leaves the ledger
/// as it was; a paid one goes ahead only if the ledger grants it one slot.
pub fn timed_shop_admit(ledger: &mut Ledger, provider: &str, purpose: &str) -> (r: bool)
    requires
        purpose@ == "direct"@ && old(ledger)@.hold_direct ==> old(ledger)@.reserved < i32::MAX,
    ensures
        is_free_provider(provider@) ==> r && final(ledger)@ == old(ledger)@,
        !is_free_provider(provider@) ==> (r, final(ledger)@) == reserve_next(old(ledger)@, 1, purpose@),
{
    if str_eq(provider, "mock") {
        return true;
    }
    ledger.reserve_purpose(1, purpose)
}

/// After a supplier call: records it with its airports upper-cased, charging the
/// ledger's price unless the provider is free; a paid call frees its reserved slot.
pub fn timed_shop_record(
    ledger: &mut Ledger,
    provider: &str,
    origin: &str,
    dest: &str,
    date: &str,
    purpose: &str,
    ok: bool,
    offers: i32,
    latency_tenths_ms: i64,
)
    ensures
        final(ledger)@.calls.len() == old(ledger)@.calls.len() + 1,
        final(ledger)@ == record_next(old(ledger)@, !is_free_provider(provider@), final(ledger)@.calls.last()),
        final(ledger)@.calls.last().provider@ == provider@,
        final(ledger)@.calls.last().origin@ == to_upper(origin@),
        final(ledger)@.calls.last().dest@ == to_upper(dest@),
        final(ledger)@.calls.last().date@ == date@,
        final(ledger)@.calls.last().purpose@ == purpose@,
        final(ledger)@.calls.last().ok == ok,
        final(ledger)@.calls.last().offers == offers,
        final(ledger)@.calls.last().latency_tenths_ms == latency_tenths_ms,
        final(ledger)@.calls.last().cost_micros == if is_free_provider(provider@) { 0 } else { old(ledger)@.cost_per_call },
{
    let paid = !str_eq(provider, "mock");
    let cost: i64 = if paid { ledger.cost_per_call() } else { 0 };
    let call = ProviderCall {
        provider: provider.to_string(),
        origin: upper(origin),
        dest: upper(dest),
        date: date.to_string(),
        purpose: purpose.to_string(),
        ok,
        offers,
        latency_tenths_ms,
        cost_micros: cost,
    };
    ledger.finish(paid, call);
}

} // verus!
