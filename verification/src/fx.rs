//! US-dollar conversion for ranking. Amounts are cents; a rate is the number of
//! millionths of a dollar one unit of a currency is worth.
use vstd::prelude::*;
use crate::models::{Offer, SeparateTicket, same_offer, clone_segments, clone_strings, clone_opt_string};
use crate::hidden::views;
use crate::text::{to_upper, upper, eq_ignore_case, eq_ignore_ascii_case};

verus! {

/// The conversion rates in force. `live` says whether a rate fetch has succeeded;
/// until it has, only USD converts.
pub struct Rates {
    pub codes: Vec<String>,
    pub micros: Vec<i64>,
    pub live: bool,
}

/// The characters `USD`.
pub open spec fn usd() -> Seq<char> {
    seq!['U', 'S', 'D']
}

/// `x / d` rounded to the nearest integer, halves away from zero (`f64::round`).
pub open spec fn round_half_away(x: int, d: int) -> int {
    if d < 0 {
        if -x >= 0 { (-x + (-d) / 2) / (-d) } else { -((x + (-d) / 2) / (-d)) }
    } else if x >= 0 {
        (x + d / 2) / d
    } else {
        -((-x + d / 2) / d)
    }
}

/// A rounded quotient is no larger in size than the dividend plus the divisor.
pub proof fn lemma_round_bound(x: int, d: int)
    requires
        d != 0,
    ensures
        -(abs(x) + abs(d)) <= round_half_away(x, d) <= abs(x) + abs(d),
{
    let ax = abs(x);
    let ad = abs(d);
    let n = ax + ad / 2;
    vstd::arithmetic::div_mod::lemma_div_is_ordered_by_denominator(n, 1, ad);
    vstd::arithmetic::div_mod::lemma_div_pos_is_pos(n, ad);
    assert(n / 1 == n);
}

pub open spec fn abs(x: int) -> int {
    if x < 0 { -x } else { x }
}

/// The first rate listed for a code.
pub open spec fn rate_from(codes: Seq<String>, micros: Seq<i64>, code: Seq<char>, i: int) -> Option<i64>
    decreases codes.len() - i,
{
    if i < 0 || i >= codes.len() || i >= micros.len() {
        None
    } else if codes[i]@ == code {
        Some(micros[i])
    } else {
        rate_from(codes, micros, code, i + 1)
    }
}

/// The currency code as the rates are keyed: upper-cased, `USD` when empty.
pub open spec fn norm_code(currency: Seq<char>) -> Seq<char> {
    if currency.len() == 0 { to_upper(usd()) } else { to_upper(currency) }
}

/// Millionths of a dollar per unit of `code` (already normalised): one dollar for
/// USD; otherwise the listed rate, once rates are live.
pub open spec fn rate_of(rates: Rates, code: Seq<char>) -> Option<i64> {
    if code == usd() {
        Some(1_000_000)
    } else if !rates.live {
        None
    } else {
        rate_from(rates.codes@, rates.micros@, code, 0)
    }
}

/// `cents` of a currency in US cents, rounded; `None` without a usable rate or when
/// the result does not fit.
pub open spec fn usd_cents(cents: i64, rate: i64) -> Option<i64> {
    let v = round_half_away(cents * rate, 1_000_000);
    if i64::MIN <= v <= i64::MAX { Some(v as i64) } else { None }
}

pub open spec fn to_usd_spec(rates: Rates, amount: Option<i64>, currency: Seq<char>) -> Option<i64> {
    match amount {
        None => None,
        Some(a) => {
            if to_upper(currency) == usd() {
                Some(a)
            } else {
                match rate_of(rates, to_upper(currency)) {
                    None => None,
                    Some(r) => usd_cents(a, r),
                }
            }
        },
    }
}

fn usd_string() -> (r: String)
    ensures
        r@ == usd(),
{
    let s = "USD";
    proof {
        reveal_strlit("USD");
        assert(s@ =~= usd());
    }
    s.to_owned()
}

pub fn rates_are_live(rates: &Rates) -> (r: bool)
    ensures
        r == rates.live,
{
    rates.live
}

/// Treats the rates in force as fetched: afterwards they are live, the table
/// unchanged (what tests do to convert with the baked-in table).
pub fn mark_rates_trusted(rates: &mut Rates)
    ensures
        final(rates).live,
        final(rates).codes@ == old(rates).codes@,
        final(rates).micros@ == old(rates).micros@,
{
    rates.live = true;
}

/// The rates as seen while a fetch is taken not to have succeeded: the same table,
/// not live, so that only USD converts.
pub fn with_untrusted_rates(rates: &Rates) -> (r: Rates)
    ensures
        !r.live,
        r.codes@ == rates.codes@,
        r.micros@ == rates.micros@,
{
    let mut micros: Vec<i64> = Vec::new();
    let mut i: usize = 0;
    while i < rates.micros.len()
        invariant
            i <= rates.micros@.len(),
            micros@ == rates.micros@.subrange(0, i as int),
        decreases rates.micros@.len() - i,
    {
        micros.push(rates.micros[i]);
        i = i + 1;
        assert(micros@ =~= rates.micros@.subrange(0, i as int));
    }
    assert(micros@ =~= rates.micros@);
    Rates { codes: clone_strings(&rates.codes), micros, live: false }
}

/// Millionths of a dollar per unit of a currency code already normalised.
fn rate_lookup(rates: &Rates, code: &String) -> (r: Option<i64>)
    ensures
        r == rate_of(*rates, code@),
{
    let u = usd_string();
    if *code == u {
        return Some(1_000_000);
    }
    if !rates.live {
        return None;
    }
    let mut i: usize = 0;
    while i < rates.codes.len() && i < rates.micros.len()
        invariant
            i <= rates.codes@.len(),
            rates.live,
            code@ != usd(),
            rate_of(*rates, code@) == rate_from(rates.codes@, rates.micros@, code@, i as int),
        decreases rates.codes@.len() - i,
    {
        if rates.codes[i] == *code {
            return Some(rates.micros[i]);
        }
        i = i + 1;
    }
    None
}

/// Millionths of a dollar per unit of `currency`.
pub fn usd_per_unit(rates: &Rates, currency: &str) -> (r: Option<i64>)
    ensures
        r == rate_of(*rates, norm_code(currency@)),
{
    let code = if currency.is_empty() { upper("USD") } else { upper(currency) };
    proof {
        reveal_strlit("USD");
        assert("USD"@ =~= usd());
    }
    rate_lookup(rates, &code)
}

/// `round_half_away(x, 1_000_000)` for a product of two `i64`s.
fn round_millionths(x: i128) -> (r: i128)
    requires
        -0x4000_0000_0000_0000_0000_0000_0000_0000 <= x <= 0x4000_0000_0000_0000_0000_0000_0000_0000,
    ensures
        r == round_half_away(x as int, 1_000_000),
{
    if x >= 0 {
        (x + 500_000) / 1_000_000
    } else {
        -((-x + 500_000) / 1_000_000)
    }
}

/// Converts `cents` at `rate` millionths of a dollar per unit.
pub fn convert(cents: i64, rate: i64) -> (r: Option<i64>)
    ensures
        r == usd_cents(cents, rate),
{
    assert(-0x4000_0000_0000_0000_0000_0000_0000_0000 <= (cents as int) * (rate as int) <= 0x4000_0000_0000_0000_0000_0000_0000_0000) by (nonlinear_arith)
        requires
            -0x8000_0000_0000_0000 <= cents <= 0x7fff_ffff_ffff_ffff,
            -0x8000_0000_0000_0000 <= rate <= 0x7fff_ffff_ffff_ffff,
    ;
    let p: i128 = (cents as i128) * (rate as i128);
    let v = round_millionths(p);
    if v >= -9223372036854775808i128 && v <= 9223372036854775807i128 {
        Some(v as i64)
    } else {
        None
    }
}

/// An amount in US cents: unchanged when already USD, otherwise converted at the
/// live rate; `None` without an amount or a rate.
pub fn to_usd(rates: &Rates, amount: Option<i64>, currency: Option<&str>) -> (r: Option<i64>)
    ensures
        r == to_usd_spec(*rates, amount, match currency { Some(c) => c@, None => usd() }),
{
    let a = match amount {
        Some(a) => a,
        None => return None,
    };
    let code_src: &str = match currency {
        Some(c) => c,
        None => "USD",
    };
    proof {
        reveal_strlit("USD");
        assert("USD"@ =~= usd());
    }
    let code = upper(code_src);
    let u = usd_string();
    if code == u {
        return Some(a);
    }
    let rate = match rate_lookup(rates, &code) {
        Some(r) => r,
        None => return None,
    };
    convert(a, rate)
}


/// The currency an offer is priced in, as the rates are keyed.
pub open spec fn offer_code(o: Offer) -> Seq<char> {
    if o.currency@.len() == 0 { usd() } else { to_upper(o.currency@) }
}

/// Already in US dollars, separate tickets included.
pub open spec fn already_usd(o: Offer) -> bool {
    &&& offer_code(o) == usd()
    &&& forall|i: int| 0 <= i < o.separate_tickets@.len() ==> {
        let t = #[trigger] o.separate_tickets@[i];
        t.currency@.len() == 0 || eq_ignore_case(t.currency@, usd())
    }
}

/// Every separate ticket converts to US cents.
pub open spec fn tickets_convert(rates: Rates, o: Offer) -> bool {
    forall|i: int| 0 <= i < o.separate_tickets@.len() ==>
        to_usd_spec(rates, Some((#[trigger] o.separate_tickets@[i]).price), o.separate_tickets@[i].currency@) is Some
}

/// `out` holds the converted separate tickets of `o`.
pub open spec fn tickets_in_usd_of(rates: Rates, o: Offer, out: Seq<SeparateTicket>) -> bool {
    &&& out.len() == o.separate_tickets@.len()
    &&& forall|i: int| 0 <= i < out.len() ==> {
        let t = o.separate_tickets@[i];
        let u = #[trigger] out[i];
        &&& u.origin == t.origin
        &&& u.dest == t.dest
        &&& u.date == t.date
        &&& u.carrier == t.carrier
        &&& u.currency@ == usd()
        &&& Some(u.price) == to_usd_spec(rates, Some(t.price), t.currency@)
    }
}

/// `out` is `o` with its money restated in US cents.
pub open spec fn converted_offer(rates: Rates, o: Offer, out: Offer) -> bool {
    &&& out.price == (if has_quote(o) {
        o.quoted_usd
    } else {
        to_usd_spec(rates, o.price, offer_code(o))
    })
    &&& out.base_price == to_usd_spec(rates, o.base_price, offer_code(o))
    &&& out.taxes == to_usd_spec(rates, o.taxes, offer_code(o))
    &&& out.currency@ == usd()
    &&& tickets_in_usd_of(rates, o, out.separate_tickets@)
    &&& same_offer(Offer { price: o.price, base_price: o.base_price, taxes: o.taxes, currency: o.currency,
        separate_tickets: o.separate_tickets, ..out }, o)
}

/// The supplier quoted a positive US-dollar total.
pub open spec fn has_quote(o: Offer) -> bool {
    o.quoted_usd matches Some(q) && q > 0
}

/// Whether `offer_in_usd` can convert `o`.
pub open spec fn converts(rates: Rates, o: Offer) -> bool {
    ||| already_usd(o)
    ||| (has_quote(o) && tickets_convert(rates, o))
    ||| (!has_quote(o) && tickets_convert(rates, o)
        && !(o.price is Some && to_usd_spec(rates, o.price, offer_code(o)) is None))
}

fn tickets_in_usd(rates: &Rates, offer: &Offer) -> (r: Option<Vec<SeparateTicket>>)
    ensures
        r is Some <==> tickets_convert(*rates, *offer),
        r matches Some(v) ==> tickets_in_usd_of(*rates, *offer, v@),
{
    let mut out: Vec<SeparateTicket> = Vec::new();
    let mut i: usize = 0;
    while i < offer.separate_tickets.len()
        invariant
            i <= offer.separate_tickets@.len(),
            out@.len() == i,
            forall|k: int| 0 <= k < i ==> to_usd_spec(*rates, Some((#[trigger] offer.separate_tickets@[k]).price), offer.separate_tickets@[k].currency@) is Some,
            forall|k: int| 0 <= k < i ==> {
                let t = offer.separate_tickets@[k];
                let u = #[trigger] out@[k];
                &&& u.origin == t.origin
                &&& u.dest == t.dest
                &&& u.date == t.date
                &&& u.carrier == t.carrier
                &&& u.currency@ == usd()
                &&& Some(u.price) == to_usd_spec(*rates, Some(t.price), t.currency@)
            },
        decreases offer.separate_tickets@.len() - i,
    {
        let t = &offer.separate_tickets[i];
        let p = match to_usd(rates, Some(t.price), Some(t.currency.as_str())) {
            Some(p) => p,
            None => return None,
        };
        out.push(SeparateTicket {
            origin: t.origin.clone(),
            dest: t.dest.clone(),
            date: t.date.clone(),
            price: p,
            currency: usd_string(),
            carrier: t.carrier.clone(),
        });
        i = i + 1;
    }
    Some(out)
}

/// The price of an offer in US cents as `offer_in_usd` restates it; `None` when the
/// offer does not convert or has no price.
pub open spec fn usd_price(rates: Rates, o: Offer) -> Option<i64> {
    if !converts(rates, o) {
        None
    } else if already_usd(o) {
        o.price
    } else if has_quote(o) {
        o.quoted_usd
    } else {
        to_usd_spec(rates, o.price, offer_code(o))
    }
}

/// `c` is `o` as `offer_in_usd` restates it.
pub open spec fn usd_form(rates: Rates, o: Offer, c: Offer) -> bool {
    &&& converts(rates, o)
    &&& if already_usd(o) { same_offer(c, o) } else { converted_offer(rates, o, c) }
}

/// An offer restated in US cents for ranking, or `None` when a rate is missing.
pub fn offer_in_usd(rates: &Rates, offer: &Offer) -> (r: Option<Offer>)
    ensures
        r is Some <==> converts(*rates, *offer),
        r matches Some(out) ==> (if already_usd(*offer) { same_offer(out, *offer) } else {
            converted_offer(*rates, *offer, out)
        }),
        r matches Some(out) ==> usd_form(*rates, *offer, out) && out.price == usd_price(*rates, *offer),
{
    let code = if offer.currency.as_str().is_empty() { usd_string() } else { upper(offer.currency.as_str()) };
    let u = usd_string();
    let mut already = code == u;
    let mut i: usize = 0;
    while i < offer.separate_tickets.len()
        invariant
            i <= offer.separate_tickets@.len(),
            u@ == usd(),
            already == (code@ == usd() && forall|k: int| 0 <= k < i ==> {
                let t = #[trigger] offer.separate_tickets@[k];
                t.currency@.len() == 0 || eq_ignore_case(t.currency@, usd())
            }),
        decreases offer.separate_tickets@.len() - i,
    {
        let c = offer.separate_tickets[i].currency.as_str();
        if !(c.is_empty() || eq_ignore_ascii_case(c, u.as_str())) {
            already = false;
        }
        i = i + 1;
    }
    assert(code@ == offer_code(*offer));
    if already {
        return Some(offer.clone());
    }
    if let Some(q) = offer.quoted_usd {
        if q > 0 {
            let tickets = if offer.separate_tickets.len() == 0 {
                Vec::new()
            } else {
                match tickets_in_usd(rates, offer) {
                    Some(t) => t,
                    None => return None,
                }
            };
            let mut out = offer.clone();
            out.price = Some(q);
            out.base_price = to_usd(rates, offer.base_price, Some(code.as_str()));
            out.taxes = to_usd(rates, offer.taxes, Some(code.as_str()));
            out.currency = usd_string();
            out.separate_tickets = tickets;
            assert(tickets_in_usd_of(*rates, *offer, out.separate_tickets@));
            return Some(out);
        }
    }
    let price = to_usd(rates, offer.price, Some(code.as_str()));
    if offer.price.is_some() && price.is_none() {
        return None;
    }
    let tickets = match tickets_in_usd(rates, offer) {
        Some(t) => t,
        None => return None,
    };
    let mut out = offer.clone();
    out.price = price;
    out.base_price = to_usd(rates, offer.base_price, Some(code.as_str()));
    out.taxes = to_usd(rates, offer.taxes, Some(code.as_str()));
    out.currency = usd_string();
    out.separate_tickets = tickets;
    Some(out)
}

/// The offers that convert, restated in US cents, in their order.
pub open spec fn usd_list(rates: Rates, offers: Seq<Offer>, out: Seq<Offer>) -> bool
    decreases offers.len(),
{
    if offers.len() == 0 {
        out.len() == 0
    } else if converts(rates, offers.last()) {
        out.len() > 0 && usd_list(rates, offers.drop_last(), out.drop_last())
            && (if already_usd(offers.last()) { same_offer(out.last(), offers.last()) } else {
                converted_offer(rates, offers.last(), out.last())
            })
    } else {
        usd_list(rates, offers.drop_last(), out)
    }
}

pub fn offers_in_usd(rates: &Rates, offers: &[Offer]) -> (r: Vec<Offer>)
    ensures
        usd_list(*rates, offers@, r@),
{
    let mut out: Vec<Offer> = Vec::new();
    let mut i: usize = 0;
    while i < offers.len()
        invariant
            i <= offers@.len(),
            usd_list(*rates, offers@.subrange(0, i as int), out@),
        decreases offers@.len() - i,
    {
        let ghost pre = offers@.subrange(0, i as int);
        let ghost next = offers@.subrange(0, i + 1);
        assert(next.drop_last() =~= pre);
        match offer_in_usd(rates, &offers[i]) {
            Some(o) => {
                let ghost before = out@;
                out.push(o);
                assert(out@.drop_last() =~= before);
            },
            None => {},
        }
        i = i + 1;
    }
    assert(offers@.subrange(0, offers@.len() as int) =~= offers@);
    out
}

/// An amount in US cents, with the currency label `USD` either way.
pub fn money_in_usd(rates: &Rates, amount: Option<i64>, currency: Option<&str>) -> (r: (Option<i64>, String))
    ensures
        r.0 == to_usd_spec(*rates, amount, match currency { Some(c) => c@, None => usd() }),
        r.1@ == usd(),
{
    (to_usd(rates, amount, currency), usd_string())
}

/// The baked-in table of rates (millionths of a dollar per unit), in the order
/// listed.
pub open spec fn fallback_codes() -> Seq<Seq<char>> {
    seq!["USD"@, "GBP"@, "EUR"@, "AUD"@, "CAD"@, "AED"@, "SGD"@, "HKD"@, "JPY"@, "CHF"@, "INR"@, "MYR"@, "THB"@, "NZD"@, "ZAR"@, "SAR"@, "QAR"@, "KWD"@, "BHD"@, "OMR"@, "CNY"@, "KRW"@, "SEK"@, "NOK"@, "DKK"@, "MXN"@, "BRL"@, "TRY"@, "PLN"@, "CZK"@, "ILS"@, "EGP"@, "IDR"@, "PHP"@, "TWD"@]
}

/// See [`fallback_codes`].
pub open spec fn fallback_micros() -> Seq<i64> {
    seq![1000000i64, 1270000i64, 1080000i64, 660000i64, 730000i64, 272000i64, 740000i64, 128000i64, 6700i64, 1120000i64, 12000i64, 230000i64, 28000i64, 590000i64, 56000i64, 267000i64, 275000i64, 3270000i64, 2650000i64, 2600000i64, 140000i64, 720i64, 95000i64, 94000i64, 145000i64, 55000i64, 180000i64, 29000i64, 250000i64, 43000i64, 270000i64, 21000i64, 61i64, 17000i64, 31000i64]
}

/// The rates in force before any fetch: the baked-in table, not live (so that only
/// USD converts until a fetch succeeds).
pub fn fallback_rates() -> (r: Rates)
    ensures
        !r.live,
        views(r.codes@) == fallback_codes(),
        r.micros@ == fallback_micros(),
{
    let mut codes: Vec<String> = Vec::new();
    let mut micros: Vec<i64> = Vec::new();
    codes.push("USD".to_owned());
    micros.push(1000000);
    codes.push("GBP".to_owned());
    micros.push(1270000);
    codes.push("EUR".to_owned());
    micros.push(1080000);
    codes.push("AUD".to_owned());
    micros.push(660000);
    codes.push("CAD".to_owned());
    micros.push(730000);
    codes.push("AED".to_owned());
    micros.push(272000);
    codes.push("SGD".to_owned());
    micros.push(740000);
    codes.push("HKD".to_owned());
    micros.push(128000);
    codes.push("JPY".to_owned());
    micros.push(6700);
    codes.push("CHF".to_owned());
    micros.push(1120000);
    codes.push("INR".to_owned());
    micros.push(12000);
    codes.push("MYR".to_owned());
    micros.push(230000);
    codes.push("THB".to_owned());
    micros.push(28000);
    codes.push("NZD".to_owned());
    micros.push(590000);
    codes.push("ZAR".to_owned());
    micros.push(56000);
    codes.push("SAR".to_owned());
    micros.push(267000);
    codes.push("QAR".to_owned());
    micros.push(275000);
    codes.push("KWD".to_owned());
    micros.push(3270000);
    codes.push("BHD".to_owned());
    micros.push(2650000);
    codes.push("OMR".to_owned());
    micros.push(2600000);
    codes.push("CNY".to_owned());
    micros.push(140000);
    codes.push("KRW".to_owned());
    micros.push(720);
    codes.push("SEK".to_owned());
    micros.push(95000);
    codes.push("NOK".to_owned());
    micros.push(94000);
    codes.push("DKK".to_owned());
    micros.push(145000);
    codes.push("MXN".to_owned());
    micros.push(55000);
    codes.push("BRL".to_owned());
    micros.push(180000);
    codes.push("TRY".to_owned());
    micros.push(29000);
    codes.push("PLN".to_owned());
    micros.push(250000);
    codes.push("CZK".to_owned());
    micros.push(43000);
    codes.push("ILS".to_owned());
    micros.push(270000);
    codes.push("EGP".to_owned());
    micros.push(21000);
    codes.push("IDR".to_owned());
    micros.push(61);
    codes.push("PHP".to_owned());
    micros.push(17000);
    codes.push("TWD".to_owned());
    micros.push(31000);
    let r = Rates { codes, micros, live: false };
    assert(views(r.codes@) =~= fallback_codes());
    assert(r.micros@ =~= fallback_micros());
    r
}

} // verus!
