//! The Duffel supplier: what an offer request asks for, and which amount on an
//! offer is already in US dollars. Encoding and decoding JSON is left to the caller.
use vstd::prelude::*;
use crate::text::{to_lower, lower, eq_ignore_case, eq_ignore_ascii_case};
use crate::models::{ShopRequest, Offer, Segment, SeparateTicket};
use crate::durations::{dur_fits, dur_spec, dur};
use crate::text::cat;

verus! {

/// Duffel is asked for itineraries of up to two connections.
pub const DUFFEL_MAX_CONNECTIONS: i32 = 2;

/// An offer request: its slices (origin, destination, departure date), the number
/// of adult passengers, the cabin class and the most connections allowed.
pub struct OfferRequest {
    pub slices: Vec<(String, String, String)>,
    pub adults: i32,
    pub cabin_class: String,
    pub max_connections: i32,
}

/// The texts of some slices.
pub open spec fn slice_views(v: Seq<(String, String, String)>) -> Seq<(Seq<char>, Seq<char>, Seq<char>)> {
    v.map_values(|s: (String, String, String)| (s.0@, s.1@, s.2@))
}

/// `x` within `lo..=hi`.
pub open spec fn clamp_i32(x: i32, lo: i32, hi: i32) -> i32 {
    if x < lo { lo } else if x > hi { hi } else { x }
}

/// The offer request for a search: no connections for a nonstop search, else up to
/// [`DUFFEL_MAX_CONNECTIONS`]; the outbound slice, and for a round trip the return
/// slice the other way; one to nine adults; the cabin lower-cased.
pub fn offer_request(origin: &str, dest: &str, date: &str, return_date: Option<&str>, adults: i32, cabin: &str,
    nonstop: bool) -> (r: OfferRequest)
    ensures
        r.max_connections == (if nonstop { 0 } else { DUFFEL_MAX_CONNECTIONS }),
        slice_views(r.slices@) == (match return_date {
            Some(d) => seq![(origin@, dest@, date@), (dest@, origin@, d@)],
            None => seq![(origin@, dest@, date@)],
        }),
        r.adults == clamp_i32(adults, 1, 9),
        r.cabin_class@ == to_lower(cabin@),
{
    let mut slices: Vec<(String, String, String)> = Vec::new();
    slices.push((origin.to_owned(), dest.to_owned(), date.to_owned()));
    match return_date {
        Some(d) => {
            slices.push((dest.to_owned(), origin.to_owned(), d.to_owned()));
        },
        None => {},
    }
    let a: i32 = if adults < 1 { 1 } else if adults > 9 { 9 } else { adults };
    let r = OfferRequest {
        slices,
        adults: a,
        cabin_class: lower(cabin),
        max_connections: if nonstop { 0 } else { DUFFEL_MAX_CONNECTIONS },
    };
    assert(slice_views(r.slices@) =~= (match return_date {
        Some(d) => seq![(origin@, dest@, date@), (dest@, origin@, d@)],
        None => seq![(origin@, dest@, date@)],
    }));
    r
}

/// [`offer_request`] for a search request.
pub fn offer_request_body(req: &ShopRequest) -> (r: OfferRequest)
    ensures
        r.max_connections == (if req.nonstop { 0 } else { DUFFEL_MAX_CONNECTIONS }),
        slice_views(r.slices@) == (match req.return_date {
            Some(d) => seq![(req.origin@, req.dest@, req.date@), (req.dest@, req.origin@, d@)],
            None => seq![(req.origin@, req.dest@, req.date@)],
        }),
        r.adults == clamp_i32(req.adults, 1, 9),
        r.cabin_class@ == to_lower(req.cabin@),
{
    let ret: Option<&str> = match &req.return_date { Some(d) => Some(d.as_str()), None => None };
    offer_request(req.origin.as_str(), req.dest.as_str(), req.date.as_str(), ret, req.adults, req.cabin.as_str(), req.nonstop)
}

/// The US-dollar amount an offer already carries, from its (amount, currency)
/// pairs in order (total, available, converted): pairs in another currency are
/// passed over; the first in US dollars decides when its amount is missing (none)
/// or above zero (that amount); one of zero or less is passed over.
pub open spec fn first_usd_quote(p: Seq<(Option<i64>, String)>) -> Option<i64>
    decreases p.len(),
{
    if p.len() == 0 {
        None
    } else if !eq_ignore_case(p[0].1@, seq!['U', 'S', 'D']) {
        first_usd_quote(p.drop_first())
    } else {
        match p[0].0 {
            None => None,
            Some(v) => if v > 0 { Some(v) } else { first_usd_quote(p.drop_first()) },
        }
    }
}

/// See [`first_usd_quote`]; amounts in cents.
pub fn usd_quote(pairs: &Vec<(Option<i64>, String)>) -> (r: Option<i64>)
    ensures
        r == first_usd_quote(pairs@),
{
    let usd = "USD";
    proof { reveal_strlit("USD"); }
    assert(usd@ =~= seq!['U', 'S', 'D']);
    let mut i: usize = 0;
    assert(pairs@.subrange(0, pairs@.len() as int) =~= pairs@);
    while i < pairs.len()
        invariant
            i <= pairs@.len(),
            usd@ == seq!['U', 'S', 'D'],
            first_usd_quote(pairs@) == first_usd_quote(pairs@.subrange(i as int, pairs@.len() as int)),
        decreases pairs@.len() - i,
    {
        let ghost rest = pairs@.subrange(i as int, pairs@.len() as int);
        assert(rest.drop_first() =~= pairs@.subrange(i + 1, pairs@.len() as int));
        assert(rest[0] == pairs@[i as int]);
        if eq_ignore_ascii_case(pairs[i].1.as_str(), usd) {
            match pairs[i].0 {
                None => return None,
                Some(v) => {
                    if v > 0 {
                        return Some(v);
                    }
                },
            }
        }
        i = i + 1;
    }
    None
}

/// One flight of a Duffel offer, by the values its JSON gives (`None` where a field
/// is missing); the flight number is its text, or a number's digits, or empty.
pub struct DuffelSegmentRaw {
    pub origin: Option<String>,
    pub dest: Option<String>,
    pub marketing: Option<String>,
    pub operating: Option<String>,
    pub flight_number: String,
    pub departing_at: Option<String>,
    pub arriving_at: Option<String>,
    pub duration: Option<String>,
    pub aircraft: Option<String>,
}

/// One slice of a Duffel offer: its flights (`None` when not a list), its duration
/// and its departure date.
pub struct DuffelSliceRaw {
    pub segments: Option<Vec<DuffelSegmentRaw>>,
    pub duration: Option<String>,
    pub departure_date: Option<String>,
}

/// A Duffel offer by the values its JSON gives: money in cents, the number of
/// passengers listed, and the (amount, currency) pairs of its total, available and
/// converted amounts in that order.
pub struct DuffelOfferRaw {
    pub id: Option<String>,
    pub slices: Option<Vec<DuffelSliceRaw>>,
    pub owner: Option<String>,
    pub live_mode: Option<bool>,
    pub passengers: Option<usize>,
    pub total_amount: Option<i64>,
    pub base_amount: Option<i64>,
    pub tax_amount: Option<i64>,
    pub total_currency: Option<String>,
    pub expires_at: Option<String>,
    pub usd_pairs: Vec<(Option<i64>, String)>,
}

/// The text of an optional string, empty without one.
pub open spec fn or_empty(s: Option<String>) -> Seq<char> {
    match s { Some(t) => t@, None => Seq::empty() }
}

/// The text of an optional string.
pub open spec fn opt_text_of(s: Option<String>) -> Option<Seq<char>> {
    match s { Some(t) => Some(t@), None => None }
}

/// A slice whose flights are a non-empty list.
pub open spec fn slice_ok(sl: DuffelSliceRaw) -> bool {
    sl.segments matches Some(v) && v@.len() > 0
}

/// The flights of a slice.
pub open spec fn slice_segs(sl: DuffelSliceRaw) -> Seq<DuffelSegmentRaw> {
    match sl.segments { Some(v) => v@, None => Seq::empty() }
}

/// The flights of the first `n` slices, in order.
pub open spec fn raw_flights(sls: Seq<DuffelSliceRaw>, n: int) -> Seq<DuffelSegmentRaw>
    decreases n,
{
    if n <= 0 { Seq::empty() } else { raw_flights(sls, n - 1) + slice_segs(sls[n - 1]) }
}

/// The minutes of the durations of the first `n` slices.
pub open spec fn slice_minutes(sls: Seq<DuffelSliceRaw>, n: int) -> int
    decreases n,
{
    if n <= 0 { 0 } else { slice_minutes(sls, n - 1) + dur_spec(or_empty(sls[n - 1].duration)) }
}

/// The minutes of the durations of the first `n` flights.
pub open spec fn flight_minutes(fs: Seq<DuffelSegmentRaw>, n: int) -> int
    decreases n,
{
    if n <= 0 { 0 } else { flight_minutes(fs, n - 1) + dur_spec(or_empty(fs[n - 1].duration)) }
}

/// The offer is readable: its slices are a non-empty list, each with a non-empty
/// list of flights.
pub open spec fn raw_ok(raw: DuffelOfferRaw) -> bool {
    &&& raw.slices matches Some(v) && v@.len() > 0
    &&& forall|i: int| 0 <= i < slices_of(raw).len() ==> slice_ok(#[trigger] slices_of(raw)[i])
}

/// The slices of an offer.
pub open spec fn slices_of(raw: DuffelOfferRaw) -> Seq<DuffelSliceRaw> {
    match raw.slices { Some(v) => v@, None => Seq::empty() }
}

/// What reading the offer adds up stays within `i32`: every duration, every
/// running total of the slice durations and of the flight durations, and the
/// number of flights.
pub open spec fn raw_fits(raw: DuffelOfferRaw) -> bool {
    let sls = slices_of(raw);
    let fs = raw_flights(sls, sls.len() as int);
    &&& fs.len() <= i32::MAX
    &&& forall|i: int| 0 <= i < sls.len() ==> dur_fits(or_empty((#[trigger] sls[i]).duration))
    &&& forall|j: int| 0 <= j < fs.len() ==> dur_fits(or_empty((#[trigger] fs[j]).duration))
    &&& forall|k: int| 0 <= k <= sls.len() ==> i32::MIN <= #[trigger] slice_minutes(sls, k) <= i32::MAX
    &&& forall|k: int| 0 <= k <= fs.len() ==> i32::MIN <= #[trigger] flight_minutes(fs, k) <= i32::MAX
}

/// `x` is the flight that `s` describes: the marketing carrier (`XX` when missing)
/// before the flight number, missing texts empty.
pub open spec fn flight_of(x: Segment, s: DuffelSegmentRaw) -> bool {
    let mk = match s.marketing { Some(m) => m@, None => seq!['X', 'X'] };
    &&& x.origin@ == or_empty(s.origin)
    &&& x.dest@ == or_empty(s.dest)
    &&& x.carrier@ == mk
    &&& opt_text_of(x.operating_carrier) == opt_text_of(s.operating)
    &&& x.flight_number@ == mk + s.flight_number@
    &&& x.dep@ == or_empty(s.departing_at)
    &&& x.arr@ == or_empty(s.arriving_at)
    &&& x.duration_min == dur_spec(or_empty(s.duration))
    &&& x.rbd@.len() == 0
    &&& x.fare_basis is None
    &&& x.aircraft@ == or_empty(s.aircraft)
}

/// The first ten characters of a text, when it has any.
pub open spec fn day_part(t: Option<String>) -> Option<Seq<char>> {
    match t {
        Some(x) => if x@.len() == 0 { None } else { Some(if x@.len() > 10 { x@.subrange(0, 10) } else { x@ }) },
        None => None,
    }
}

/// The return date of an offer with a second slice: that slice's departure date,
/// else its first flight's departure, cut to ten characters; else the requested one.
pub open spec fn return_of(raw: DuffelOfferRaw, req: ShopRequest) -> Option<Seq<char>> {
    let sls = slices_of(raw);
    if sls.len() <= 1 {
        None
    } else {
        match day_part(sls[1].departure_date) {
            Some(d) => Some(d),
            None => match day_part(slice_segs(sls[1])[0].departing_at) {
                Some(d) => Some(d),
                None => opt_text_of(req.return_date),
            },
        }
    }
}

/// The passengers of an offer: as listed when one to nine, else the requested adults
/// within one to nine.
pub open spec fn passengers_of(raw: DuffelOfferRaw, req: ShopRequest) -> i32 {
    match raw.passengers {
        Some(n) => if 1 <= n <= 9 { n as i32 } else { clamp_i32(req.adults, 1, 9) },
        None => clamp_i32(req.adults, 1, 9),
    }
}

/// The note on a Duffel offer.
pub open spec fn duffel_note(live: Option<bool>) -> Seq<char> {
    let label = match live { Some(true) => "true"@, Some(false) => "false"@, None => "unknown"@ };
    "Duffel offer. live_mode="@ + label
        + ". Not an order. Creating an order would require passenger + payment and is disabled here."@
        + if live == Some(false) { " Test tokens include Duffel Airways sandbox inventory."@ } else { Seq::empty() }
}

/// `o` is the offer a readable Duffel offer gives for a search at time `now`.
pub open spec fn duffel_offer_spec(o: Offer, raw: DuffelOfferRaw, req: ShopRequest, now: Seq<char>) -> bool {
    let sls = slices_of(raw);
    let fs = raw_flights(sls, sls.len() as int);
    let out_n = slice_segs(sls[0]).len();
    let total = slice_minutes(sls, sls.len() as int);
    &&& o.segments@.len() == fs.len()
    &&& forall|j: int| 0 <= j < fs.len() ==> flight_of(#[trigger] o.segments@[j], fs[j])
    &&& o.id@ == "duffel-"@ + or_empty(raw.id)
    &&& o.kind@ == (if out_n == 1 { "nonstop"@ } else { "connecting"@ })
    &&& o.channel@ == "ndc"@
    &&& o.source@ == "duffel"@
    &&& o.layer@ == "priced-offer"@
    &&& o.price == raw.total_amount
    &&& o.base_price == raw.base_amount
    &&& o.taxes == raw.tax_amount
    &&& o.currency@ == (match raw.total_currency { Some(c) => c@, None => req.currency@ })
    &&& o.quoted_usd == first_usd_quote(raw.usd_pairs@)
    &&& o.cabin@ == req.cabin@
    &&& o.adults == passengers_of(raw, req)
    &&& o.fare_basis@.len() == 0
    &&& o.seats is None
    &&& o.last_ticketing_date is None
    &&& opt_text_of(o.validating_airline) == Some(match raw.owner { Some(w) => w@, None => o.segments@[0].carrier@ })
    &&& o.instant_ticketing is None
    &&& !o.refundable
    &&& o.bags_included == 0
    &&& o.carrier@ == o.segments@[0].carrier@
    &&& o.duration_min == (if total > 0 { total } else { flight_minutes(fs, fs.len() as int) })
    &&& o.stops == out_n - 1
    &&& o.first_flight@ == o.segments@[0].flight_number@
    &&& opt_text_of(o.retrieved_at) == Some(now)
    &&& opt_text_of(o.expires_at) == opt_text_of(raw.expires_at)
    &&& opt_text_of(o.note) == Some(duffel_note(raw.live_mode))
    &&& o.live == raw.live_mode
    &&& opt_text_of(o.return_date) == return_of(raw, req)
    &&& o.outbound_end == Some((out_n - 1) as i32)
    &&& o.self_transfer_airports@.len() == 0
    &&& o.separate_tickets@.len() == 0
}

fn text_or_empty(s: &Option<String>) -> (r: String)
    ensures
        r@ == or_empty(*s),
{
    match s { Some(t) => t.clone(), None => String::new() }
}

fn opt_clone(s: &Option<String>) -> (r: Option<String>)
    ensures
        opt_text_of(r) == opt_text_of(*s),
{
    match s { Some(t) => Some(t.clone()), None => None }
}

fn flight_from(s: &DuffelSegmentRaw) -> (x: Segment)
    requires
        dur_fits(or_empty(s.duration)),
    ensures
        flight_of(x, *s),
{
    proof { reveal_strlit("XX"); }
    let mk = match &s.marketing { Some(m) => m.clone(), None => "XX".to_owned() };
    assert(mk@ == (match s.marketing { Some(m) => m@, None => seq!['X', 'X'] }));
    let d: Option<&str> = match &s.duration { Some(t) => Some(t.as_str()), None => None };
    assert((match d { Some(t) => t@, None => Seq::<char>::empty() }) == or_empty(s.duration));
    Segment {
        origin: text_or_empty(&s.origin),
        dest: text_or_empty(&s.dest),
        carrier: mk.clone(),
        operating_carrier: opt_clone(&s.operating),
        flight_number: cat(mk.as_str(), s.flight_number.as_str()),
        dep: text_or_empty(&s.departing_at),
        arr: text_or_empty(&s.arriving_at),
        duration_min: dur(d),
        rbd: String::new(),
        fare_basis: None,
        aircraft: text_or_empty(&s.aircraft),
    }
}

fn day_of(t: &Option<String>) -> (r: Option<String>)
    ensures
        opt_text_of(r) == day_part(*t),
{
    match t {
        Some(x) => {
            let cs = crate::text::chars_of(x.as_str());
            if cs.len() == 0 {
                None
            } else if cs.len() > 10 {
                let v = crate::text::string_from(&cs.as_slice()[0..10]);
                assert(v@ =~= x@.subrange(0, 10));
                Some(v)
            } else {
                Some(x.clone())
            }
        },
        None => None,
    }
}

fn note_text(live: Option<bool>) -> (r: String)
    ensures
        r@ == duffel_note(live),
{
    proof {
        reveal_strlit("Duffel offer. live_mode=");
        reveal_strlit("true");
        reveal_strlit("false");
        reveal_strlit("unknown");
        reveal_strlit(". Not an order. Creating an order would require passenger + payment and is disabled here.");
        reveal_strlit(" Test tokens include Duffel Airways sandbox inventory.");
        reveal_strlit("");
    }
    let label = match live { Some(true) => "true", Some(false) => "false", None => "unknown" };
    let a = cat("Duffel offer. live_mode=", label);
    let b = cat(a.as_str(), ". Not an order. Creating an order would require passenger + payment and is disabled here.");
    let tail = if live == Some(false) { " Test tokens include Duffel Airways sandbox inventory." } else { "" };
    cat(b.as_str(), tail)
}

/// The offer a Duffel offer gives for a search at time `now` (see
/// [`duffel_offer_spec`]); none when it is not readable (see [`raw_ok`]).
pub fn duffel_offer(raw: &DuffelOfferRaw, req: &ShopRequest, now: &str) -> (r: Option<Offer>)
    requires
        raw_fits(*raw),
    ensures
        r is Some <==> raw_ok(*raw),
        r matches Some(o) ==> duffel_offer_spec(o, *raw, *req, now@),
{
    let sls = match &raw.slices { Some(v) => v, None => return None };
    if sls.len() == 0 {
        return None;
    }
    let ghost ss = slices_of(*raw);
    let ghost fs = raw_flights(ss, ss.len() as int);
    let mut segments: Vec<Segment> = Vec::new();
    let mut total: i32 = 0;
    let mut out_n: usize = 0;
    let mut i: usize = 0;
    while i < sls.len()
        invariant
            sls@ == ss,
            ss == slices_of(*raw),
            fs == raw_flights(ss, ss.len() as int),
            raw_fits(*raw),
            i <= ss.len(),
            ss.len() > 0,
            forall|k: int| 0 <= k < i ==> slice_ok(#[trigger] ss[k]),
            segments@.len() == raw_flights(ss, i as int).len(),
            forall|j: int| 0 <= j < segments@.len() ==> flight_of(#[trigger] segments@[j], raw_flights(ss, i as int)[j]),
            total == slice_minutes(ss, i as int),
            i > 0 ==> out_n == slice_segs(ss[0]).len(),
        decreases ss.len() - i,
    {
        let segs = match &sls[i].segments { Some(v) => v, None => return None };
        if segs.len() == 0 {
            return None;
        }
        proof { lemma_flights_prefix(ss, i as int + 1); }
        let ghost before = segments@;
        let ghost pre = raw_flights(ss, i as int);
        let mut k: usize = 0;
        while k < segs.len()
            invariant
                sls@ == ss,
                ss == slices_of(*raw),
                raw_fits(*raw),
                fs == raw_flights(ss, ss.len() as int),
                i < ss.len(),
                segs@ == slice_segs(ss[i as int]),
                pre == raw_flights(ss, i as int),
                raw_flights(ss, i + 1) == pre + segs@,
                (pre + segs@).len() <= fs.len(),
                fs.subrange(0, (pre + segs@).len() as int) == pre + segs@,
                k <= segs@.len(),
                segments@.len() == pre.len() + k,
                forall|j: int| 0 <= j < segments@.len() ==> flight_of(#[trigger] segments@[j], (pre + segs@)[j]),
            decreases segs@.len() - k,
        {
            assert(fs[pre.len() + k] == (pre + segs@)[pre.len() + k]);
            assert(dur_fits(or_empty(fs[pre.len() + k].duration)));
            let x = flight_from(&segs[k]);
            segments.push(x);
            k = k + 1;
        }
        if i == 0 {
            out_n = segs.len();
        }
        let d: Option<&str> = match &sls[i].duration { Some(t) => Some(t.as_str()), None => None };
        assert((match d { Some(t) => t@, None => Seq::<char>::empty() }) == or_empty(ss[i as int].duration));
        let m = dur(d);
        assert(i32::MIN <= slice_minutes(ss, i + 1) <= i32::MAX);
        total = total + m;
        i = i + 1;
    }
    proof {
        lemma_flights_prefix(ss, ss.len() as int);
        lemma_flights_prefix(ss, 1);
        assert(raw_flights(ss, 0) =~= Seq::<DuffelSegmentRaw>::empty());
        assert(raw_flights(ss, 1) == raw_flights(ss, 0) + slice_segs(ss[0]));
        assert(raw_flights(ss, 1) =~= slice_segs(ss[0]));
        assert(out_n <= fs.len());
    }
    let n = segments.len();
    // the flying minutes, used when the slices give none
    let mut fly: i32 = 0;
    let mut j: usize = 0;
    while j < n
        invariant
            n == segments@.len(),
            segments@.len() == fs.len(),
            raw_fits(*raw),
            fs == raw_flights(slices_of(*raw), slices_of(*raw).len() as int),
            forall|q: int| 0 <= q < segments@.len() ==> flight_of(#[trigger] segments@[q], fs[q]),
            j <= n,
            fly == flight_minutes(fs, j as int),
        decreases n - j,
    {
        assert(flight_of(segments@[j as int], fs[j as int]));
        assert(i32::MIN <= flight_minutes(fs, j + 1) <= i32::MAX);
        fly = fly + segments[j].duration_min;
        j = j + 1;
    }
    let owner = match &raw.owner { Some(w) => w.clone(), None => segments[0].carrier.clone() };
    let adults: i32 = match raw.passengers {
        Some(p) => if 1 <= p && p <= 9 { p as i32 } else if req.adults < 1 { 1 } else if req.adults > 9 { 9 } else { req.adults },
        None => if req.adults < 1 { 1 } else if req.adults > 9 { 9 } else { req.adults },
    };
    let ret = if sls.len() > 1 {
        match day_of(&sls[1].departure_date) {
            Some(d) => Some(d),
            None => {
                let first = match &sls[1].segments { Some(v) => &v[0], None => return None };
                match day_of(&first.departing_at) {
                    Some(d) => Some(d),
                    None => opt_clone(&req.return_date),
                }
            },
        }
    } else {
        None
    };
    proof {
        reveal_strlit("duffel-");
        reveal_strlit("nonstop");
        reveal_strlit("connecting");
        reveal_strlit("ndc");
        reveal_strlit("duffel");
        reveal_strlit("priced-offer");
    }
    let id = cat("duffel-", text_or_empty(&raw.id).as_str());
    let currency = match &raw.total_currency { Some(c) => c.clone(), None => req.currency.clone() };
    let carrier = segments[0].carrier.clone();
    let first_flight = segments[0].flight_number.clone();
    let o = Offer {
        id,
        kind: if out_n == 1 { "nonstop".to_owned() } else { "connecting".to_owned() },
        channel: "ndc".to_owned(),
        source: "duffel".to_owned(),
        layer: "priced-offer".to_owned(),
        segments,
        price: raw.total_amount,
        base_price: raw.base_amount,
        taxes: raw.tax_amount,
        currency,
        quoted_usd: usd_quote(&raw.usd_pairs),
        cabin: req.cabin.clone(),
        adults,
        fare_basis: String::new(),
        seats: None,
        last_ticketing_date: None,
        validating_airline: Some(owner),
        instant_ticketing: None,
        refundable: false,
        bags_included: 0,
        carrier,
        duration_min: if total > 0 { total } else { fly },
        stops: (out_n - 1) as i32,
        first_flight,
        retrieved_at: Some(now.to_owned()),
        expires_at: opt_clone(&raw.expires_at),
        note: Some(note_text(raw.live_mode)),
        live: raw.live_mode,
        return_date: ret,
        outbound_end: Some((out_n - 1) as i32),
        self_transfer_airports: Vec::new(),
        separate_tickets: Vec::new(),
    };
    Some(o)
}

proof fn lemma_flights_prefix(ss: Seq<DuffelSliceRaw>, n: int)
    requires
        0 <= n <= ss.len(),
    ensures
        raw_flights(ss, n).len() <= raw_flights(ss, ss.len() as int).len(),
        raw_flights(ss, ss.len() as int).subrange(0, raw_flights(ss, n).len() as int) == raw_flights(ss, n),
    decreases ss.len() - n,
{
    if n < ss.len() {
        lemma_flights_prefix(ss, n + 1);
        let a = raw_flights(ss, n);
        let b = raw_flights(ss, n + 1);
        let f = raw_flights(ss, ss.len() as int);
        assert(b == a + slice_segs(ss[n]));
        assert(f.subrange(0, a.len() as int) =~= b.subrange(0, a.len() as int));
        assert(b.subrange(0, a.len() as int) =~= a);
    } else {
        assert(raw_flights(ss, n).subrange(0, raw_flights(ss, n).len() as int) =~= raw_flights(ss, n));
    }
}

} // verus!
