//! Data carried between the engines. Money is held as integer cents of the
//! offer's currency; a percentage as tenths of a percent.
use vstd::prelude::*;

verus! {

/// The largest amount of money held, in cents (ten trillion dollars).
pub open spec fn max_cents() -> int {
    1_000_000_000_000_000
}

/// An amount within the range money is held in.
pub open spec fn cents_ok(p: Option<i64>) -> bool {
    p matches Some(v) ==> -max_cents() <= v <= max_cents()
}

/// One flight of an itinerary.
pub struct Segment {
    pub origin: String,
    pub dest: String,
    pub carrier: String,
    pub operating_carrier: Option<String>,
    pub flight_number: String,
    pub dep: String,
    pub arr: String,
    pub duration_min: i32,
    pub rbd: String,
    pub fare_basis: Option<String>,
    pub aircraft: String,
}

impl Clone for Segment {
    fn clone(&self) -> (r: Self)
        ensures
            r == *self,
    {
        Segment {
            origin: self.origin.clone(),
            dest: self.dest.clone(),
            carrier: self.carrier.clone(),
            operating_carrier: clone_opt_string(&self.operating_carrier),
            flight_number: self.flight_number.clone(),
            dep: self.dep.clone(),
            arr: self.arr.clone(),
            duration_min: self.duration_min,
            rbd: self.rbd.clone(),
            fare_basis: clone_opt_string(&self.fare_basis),
            aircraft: self.aircraft.clone(),
        }
    }
}

impl Default for Segment {
    fn default() -> (r: Self)
        ensures
            r.origin@.len() == 0,
            r.dest@.len() == 0,
            r.carrier@.len() == 0,
            r.operating_carrier is None,
            r.flight_number@.len() == 0,
            r.dep@.len() == 0,
            r.arr@.len() == 0,
            r.duration_min == 0,
            r.rbd@.len() == 0,
            r.fare_basis is None,
            r.aircraft@.len() == 0,
    {
        Segment {
            origin: String::new(),
            dest: String::new(),
            carrier: String::new(),
            operating_carrier: None,
            flight_number: String::new(),
            dep: String::new(),
            arr: String::new(),
            duration_min: 0,
            rbd: String::new(),
            fare_basis: None,
            aircraft: String::new(),
        }
    }
}

/// One separately bought ticket of a self-transfer chain; `price` in cents.
pub struct SeparateTicket {
    pub origin: String,
    pub dest: String,
    pub date: String,
    pub price: i64,
    pub currency: String,
    pub carrier: String,
}

impl Clone for SeparateTicket {
    fn clone(&self) -> (r: Self)
        ensures
            r == *self,
    {
        SeparateTicket {
            origin: self.origin.clone(),
            dest: self.dest.clone(),
            date: self.date.clone(),
            price: self.price,
            currency: self.currency.clone(),
            carrier: self.carrier.clone(),
        }
    }
}

/// A complete priced itinerary as a supplier returned it. `price`, `base_price`,
/// `taxes` and `quoted_usd` are cents.
pub struct Offer {
    pub id: String,
    pub kind: String,
    pub channel: String,
    pub source: String,
    pub layer: String,
    pub segments: Vec<Segment>,
    pub price: Option<i64>,
    pub base_price: Option<i64>,
    pub taxes: Option<i64>,
    pub currency: String,
    pub quoted_usd: Option<i64>,
    pub cabin: String,
    pub adults: i32,
    pub fare_basis: String,
    pub seats: Option<i32>,
    pub last_ticketing_date: Option<String>,
    pub validating_airline: Option<String>,
    pub instant_ticketing: Option<bool>,
    pub refundable: bool,
    pub bags_included: i32,
    pub carrier: String,
    pub duration_min: i32,
    pub stops: i32,
    pub first_flight: String,
    pub retrieved_at: Option<String>,
    pub expires_at: Option<String>,
    pub note: Option<String>,
    pub live: Option<bool>,
    pub return_date: Option<String>,
    pub outbound_end: Option<i32>,
    pub self_transfer_airports: Vec<String>,
    pub separate_tickets: Vec<SeparateTicket>,
}

pub fn clone_opt_string(o: &Option<String>) -> (r: Option<String>)
    ensures
        r == *o,
{
    match o {
        Some(s) => Some(s.clone()),
        None => None,
    }
}

pub fn clone_strings(v: &Vec<String>) -> (r: Vec<String>)
    ensures
        r@ == v@,
{
    let mut r: Vec<String> = Vec::new();
    let mut i: usize = 0;
    while i < v.len()
        invariant
            i <= v@.len(),
            r@ == v@.subrange(0, i as int),
        decreases v@.len() - i,
    {
        r.push(v[i].clone());
        i = i + 1;
        assert(r@ =~= v@.subrange(0, i as int));
    }
    assert(r@ =~= v@);
    r
}

pub fn clone_segments(v: &Vec<Segment>) -> (r: Vec<Segment>)
    ensures
        r@ == v@,
{
    let mut r: Vec<Segment> = Vec::new();
    let mut i: usize = 0;
    while i < v.len()
        invariant
            i <= v@.len(),
            r@ == v@.subrange(0, i as int),
        decreases v@.len() - i,
    {
        r.push(v[i].clone());
        i = i + 1;
        assert(r@ =~= v@.subrange(0, i as int));
    }
    assert(r@ =~= v@);
    r
}

pub fn clone_tickets(v: &Vec<SeparateTicket>) -> (r: Vec<SeparateTicket>)
    ensures
        r@ == v@,
{
    let mut r: Vec<SeparateTicket> = Vec::new();
    let mut i: usize = 0;
    while i < v.len()
        invariant
            i <= v@.len(),
            r@ == v@.subrange(0, i as int),
        decreases v@.len() - i,
    {
        r.push(v[i].clone());
        i = i + 1;
        assert(r@ =~= v@.subrange(0, i as int));
    }
    assert(r@ =~= v@);
    r
}

pub fn clone_offers(v: &[Offer]) -> (r: Vec<Offer>)
    ensures
        same_offers(r@, v@),
{
    let mut r: Vec<Offer> = Vec::new();
    let mut i: usize = 0;
    while i < v.len()
        invariant
            i <= v@.len(),
            r@.len() == i,
            forall|j: int| 0 <= j < i ==> same_offer(#[trigger] r@[j], v@[j]),
        decreases v@.len() - i,
    {
        r.push(v[i].clone());
        i = i + 1;
    }
    r
}

/// Two offers hold the same values, field by field (lists by their contents).
pub open spec fn same_offer(a: Offer, b: Offer) -> bool {
    &&& a.id == b.id
    &&& a.kind == b.kind
    &&& a.channel == b.channel
    &&& a.source == b.source
    &&& a.layer == b.layer
    &&& a.segments@ == b.segments@
    &&& a.price == b.price
    &&& a.base_price == b.base_price
    &&& a.taxes == b.taxes
    &&& a.currency == b.currency
    &&& a.quoted_usd == b.quoted_usd
    &&& a.cabin == b.cabin
    &&& a.adults == b.adults
    &&& a.fare_basis == b.fare_basis
    &&& a.seats == b.seats
    &&& a.last_ticketing_date == b.last_ticketing_date
    &&& a.validating_airline == b.validating_airline
    &&& a.instant_ticketing == b.instant_ticketing
    &&& a.refundable == b.refundable
    &&& a.bags_included == b.bags_included
    &&& a.carrier == b.carrier
    &&& a.duration_min == b.duration_min
    &&& a.stops == b.stops
    &&& a.first_flight == b.first_flight
    &&& a.retrieved_at == b.retrieved_at
    &&& a.expires_at == b.expires_at
    &&& a.note == b.note
    &&& a.live == b.live
    &&& a.return_date == b.return_date
    &&& a.outbound_end == b.outbound_end
    &&& a.self_transfer_airports@ == b.self_transfer_airports@
    &&& a.separate_tickets@ == b.separate_tickets@
}

/// Two lists of offers hold the same offers in the same order.
pub open spec fn same_offers(a: Seq<Offer>, b: Seq<Offer>) -> bool {
    &&& a.len() == b.len()
    &&& forall|i: int| 0 <= i < a.len() ==> same_offer(#[trigger] a[i], b[i])
}

impl Clone for Offer {
    fn clone(&self) -> (r: Self)
        ensures
            same_offer(r, *self),
    {
        Offer {
            id: self.id.clone(),
            kind: self.kind.clone(),
            channel: self.channel.clone(),
            source: self.source.clone(),
            layer: self.layer.clone(),
            segments: clone_segments(&self.segments),
            price: self.price,
            base_price: self.base_price,
            taxes: self.taxes,
            currency: self.currency.clone(),
            quoted_usd: self.quoted_usd,
            cabin: self.cabin.clone(),
            adults: self.adults,
            fare_basis: self.fare_basis.clone(),
            seats: self.seats,
            last_ticketing_date: clone_opt_string(&self.last_ticketing_date),
            validating_airline: clone_opt_string(&self.validating_airline),
            instant_ticketing: self.instant_ticketing,
            refundable: self.refundable,
            bags_included: self.bags_included,
            carrier: self.carrier.clone(),
            duration_min: self.duration_min,
            stops: self.stops,
            first_flight: self.first_flight.clone(),
            retrieved_at: clone_opt_string(&self.retrieved_at),
            expires_at: clone_opt_string(&self.expires_at),
            note: clone_opt_string(&self.note),
            live: self.live,
            return_date: clone_opt_string(&self.return_date),
            outbound_end: self.outbound_end,
            self_transfer_airports: clone_strings(&self.self_transfer_airports),
            separate_tickets: clone_tickets(&self.separate_tickets),
        }
    }
}


impl Default for Offer {
    fn default() -> (r: Self)
        ensures
            r.id@.len() == 0,
            r.segments@.len() == 0,
            r.price is None,
            r.base_price is None,
            r.taxes is None,
            r.quoted_usd is None,
            r.adults == 1,
            r.seats is None,
            r.refundable == false,
            r.bags_included == 0,
            r.carrier@.len() == 0,
            r.duration_min == 0,
            r.stops == 0,
            r.first_flight@.len() == 0,
            r.retrieved_at is None,
            r.expires_at is None,
            r.last_ticketing_date is None,
            r.validating_airline is None,
            r.note is None,
            r.live is None,
            r.return_date is None,
            r.outbound_end is None,
            r.self_transfer_airports@.len() == 0,
            r.separate_tickets@.len() == 0,
            r.source@.len() == 0,
            r.fare_basis@.len() == 0,
    {
        Offer {
            id: String::new(),
            kind: "nonstop".to_owned(),
            channel: "ndc".to_owned(),
            source: String::new(),
            layer: "priced-offer".to_owned(),
            segments: Vec::new(),
            price: None,
            base_price: None,
            taxes: None,
            currency: "USD".to_owned(),
            quoted_usd: None,
            cabin: "ECONOMY".to_owned(),
            adults: 1,
            fare_basis: String::new(),
            seats: None,
            last_ticketing_date: None,
            validating_airline: None,
            instant_ticketing: None,
            refundable: false,
            bags_included: 0,
            carrier: String::new(),
            duration_min: 0,
            stops: 0,
            first_flight: String::new(),
            retrieved_at: None,
            expires_at: None,
            note: None,
            live: None,
            return_date: None,
            outbound_end: None,
            self_transfer_airports: Vec::new(),
            separate_tickets: Vec::new(),
        }
    }
}

/// One named risk of using a hidden-city ticket.
pub struct RiskItem {
    pub id: String,
    pub label: String,
    pub severity: String,
    pub predictability: String,
    pub why: String,
}

impl Clone for RiskItem {
    fn clone(&self) -> (r: Self)
        ensures
            r == *self,
    {
        RiskItem {
            id: self.id.clone(),
            label: self.label.clone(),
            severity: self.severity.clone(),
            predictability: self.predictability.clone(),
            why: self.why.clone(),
        }
    }
}

/// The risk summary of a hidden-city ticket; money in cents.
pub struct RiskAssessment {
    pub score: i32,
    pub headline: String,
    pub one_way_only: bool,
    pub carry_on_only: bool,
    pub items: Vec<RiskItem>,
    pub net_saving_estimate: i64,
    pub expected_disruption_cost: i64,
    pub expected_enforcement_cost: i64,
}

/// Two risk summaries hold the same values (the items by their contents).
pub open spec fn same_risk(a: RiskAssessment, b: RiskAssessment) -> bool {
    &&& a.score == b.score
    &&& a.headline == b.headline
    &&& a.one_way_only == b.one_way_only
    &&& a.carry_on_only == b.carry_on_only
    &&& a.items@ == b.items@
    &&& a.net_saving_estimate == b.net_saving_estimate
    &&& a.expected_disruption_cost == b.expected_disruption_cost
    &&& a.expected_enforcement_cost == b.expected_enforcement_cost
}

pub fn clone_items(v: &Vec<RiskItem>) -> (r: Vec<RiskItem>)
    ensures
        r@ == v@,
{
    let mut r: Vec<RiskItem> = Vec::new();
    let mut i: usize = 0;
    while i < v.len()
        invariant
            i <= v@.len(),
            r@ == v@.subrange(0, i as int),
        decreases v@.len() - i,
    {
        r.push(v[i].clone());
        i = i + 1;
        assert(r@ =~= v@.subrange(0, i as int));
    }
    assert(r@ =~= v@);
    r
}

impl Clone for RiskAssessment {
    fn clone(&self) -> (r: Self)
        ensures
            same_risk(r, *self),
    {
        RiskAssessment {
            score: self.score,
            headline: self.headline.clone(),
            one_way_only: self.one_way_only,
            carry_on_only: self.carry_on_only,
            items: clone_items(&self.items),
            net_saving_estimate: self.net_saving_estimate,
            expected_disruption_cost: self.expected_disruption_cost,
            expected_enforcement_cost: self.expected_enforcement_cost,
        }
    }
}

/// A link to a third-party site that can price or issue the trip.
pub struct BookerLink {
    pub id: String,
    pub name: String,
    pub layer: String,
    pub role: String,
    pub url: String,
    pub issues_ticket: bool,
}

impl Clone for BookerLink {
    fn clone(&self) -> (r: Self)
        ensures
            r == *self,
    {
        BookerLink {
            id: self.id.clone(),
            name: self.name.clone(),
            layer: self.layer.clone(),
            role: self.role.clone(),
            url: self.url.clone(),
            issues_ticket: self.issues_ticket,
        }
    }
}

/// A link to a live flight tracker.
pub struct TrackerLink {
    pub id: String,
    pub name: String,
    pub layer: String,
    pub role: String,
    pub url: String,
}

/// A hidden-city match: the honest local ticket, the cheaper through ticket, and
/// what using it risks. `gross_saving` in cents; `saving_pct` in tenths of a percent.
pub struct HiddenCityMatch {
    pub id: String,
    pub hidden_city: String,
    pub hidden_city_name: String,
    pub local_offer: Offer,
    pub through_offer: Offer,
    pub first_flight_match: bool,
    pub gross_saving: i64,
    pub saving_pct: i64,
    pub currency: String,
    pub risk: RiskAssessment,
    pub bookers: Vec<BookerLink>,
    pub ticketed_destination: String,
    pub intended_destination: String,
    pub exit_segment_index: i32,
    pub warnings: Vec<String>,
    pub result_type: String,
}

/// Two matches hold the same values (offers and lists by their contents).
pub open spec fn same_match(a: HiddenCityMatch, b: HiddenCityMatch) -> bool {
    &&& a.id == b.id
    &&& a.hidden_city == b.hidden_city
    &&& a.hidden_city_name == b.hidden_city_name
    &&& same_offer(a.local_offer, b.local_offer)
    &&& same_offer(a.through_offer, b.through_offer)
    &&& a.first_flight_match == b.first_flight_match
    &&& a.gross_saving == b.gross_saving
    &&& a.saving_pct == b.saving_pct
    &&& a.currency == b.currency
    &&& same_risk(a.risk, b.risk)
    &&& a.bookers@ == b.bookers@
    &&& a.ticketed_destination == b.ticketed_destination
    &&& a.intended_destination == b.intended_destination
    &&& a.exit_segment_index == b.exit_segment_index
    &&& a.warnings@ == b.warnings@
    &&& a.result_type == b.result_type
}

pub fn clone_bookers(v: &Vec<BookerLink>) -> (r: Vec<BookerLink>)
    ensures
        r@ == v@,
{
    let mut r: Vec<BookerLink> = Vec::new();
    let mut i: usize = 0;
    while i < v.len()
        invariant
            i <= v@.len(),
            r@ == v@.subrange(0, i as int),
        decreases v@.len() - i,
    {
        r.push(v[i].clone());
        i = i + 1;
        assert(r@ =~= v@.subrange(0, i as int));
    }
    assert(r@ =~= v@);
    r
}

impl Clone for HiddenCityMatch {
    fn clone(&self) -> (r: Self)
        ensures
            same_match(r, *self),
    {
        HiddenCityMatch {
            id: self.id.clone(),
            hidden_city: self.hidden_city.clone(),
            hidden_city_name: self.hidden_city_name.clone(),
            local_offer: self.local_offer.clone(),
            through_offer: self.through_offer.clone(),
            first_flight_match: self.first_flight_match,
            gross_saving: self.gross_saving,
            saving_pct: self.saving_pct,
            currency: self.currency.clone(),
            risk: self.risk.clone(),
            bookers: clone_bookers(&self.bookers),
            ticketed_destination: self.ticketed_destination.clone(),
            intended_destination: self.intended_destination.clone(),
            exit_segment_index: self.exit_segment_index,
            warnings: clone_strings(&self.warnings),
            result_type: self.result_type.clone(),
        }
    }
}

/// A recommended honest ticket and why.
pub struct HonestPick {
    pub kind: String,
    pub reason: String,
    pub offer: Offer,
    pub layover_min: i32,
}

/// An airport or a city (metro) place. Coordinates are not held here.
pub struct Airport {
    pub iata: String,
    pub place_id: String,
    pub icao: Option<String>,
    pub name: String,
    pub city: String,
    pub country: String,
    pub continent: String,
    pub metro: String,
    pub type_: String,
    pub members: Vec<String>,
}

impl Default for Airport {
    fn default() -> (r: Self)
        ensures
            r.iata@.len() == 0,
            r.place_id@.len() == 0,
            r.icao is None,
            r.city@.len() == 0,
            r.country@.len() == 0,
            r.continent@.len() == 0,
            r.members@.len() == 0,
    {
        Airport {
            iata: String::new(),
            place_id: String::new(),
            icao: None,
            name: String::new(),
            city: String::new(),
            country: String::new(),
            continent: String::new(),
            metro: String::new(),
            type_: "large_airport".to_owned(),
            members: Vec::new(),
        }
    }
}

/// A shop request to one supplier for one origin/destination pair.
pub struct ShopRequest {
    pub origin: String,
    pub dest: String,
    pub date: String,
    pub adults: i32,
    pub cabin: String,
    pub currency: String,
    pub nonstop: bool,
    pub max_offers: i32,
    pub return_date: Option<String>,
}

impl Default for ShopRequest {
    fn default() -> (r: Self)
        ensures
            r.origin@.len() == 0,
            r.dest@.len() == 0,
            r.date@.len() == 0,
            r.adults == 1,
            r.nonstop == false,
            r.max_offers == 20,
            r.return_date is None,
    {
        ShopRequest {
            origin: String::new(),
            dest: String::new(),
            date: String::new(),
            adults: 1,
            cabin: "ECONOMY".to_owned(),
            currency: "USD".to_owned(),
            nonstop: false,
            max_offers: 20,
            return_date: None,
        }
    }
}

impl Clone for ShopRequest {
    fn clone(&self) -> (r: Self)
        ensures
            r == *self,
    {
        ShopRequest {
            origin: self.origin.clone(),
            dest: self.dest.clone(),
            date: self.date.clone(),
            adults: self.adults,
            cabin: self.cabin.clone(),
            currency: self.currency.clone(),
            nonstop: self.nonstop,
            max_offers: self.max_offers,
            return_date: clone_opt_string(&self.return_date),
        }
    }
}


/// `out` holds the offers of `src` that `keep` accepts, in order.
pub open spec fn kept(src: Seq<Offer>, out: Seq<Offer>, keep: spec_fn(Offer) -> bool) -> bool
    decreases src.len(),
{
    if src.len() == 0 {
        out.len() == 0
    } else if keep(src.last()) {
        out.len() > 0 && same_offer(out.last(), src.last()) && kept(src.drop_last(), out.drop_last(), keep)
    } else {
        kept(src.drop_last(), out, keep)
    }
}

/// The offers of `offers` whose mask entry is set, in order.
pub fn keep_where(offers: &[Offer], mask: &Vec<bool>, Ghost(keep): Ghost<spec_fn(Offer) -> bool>) -> (r: Vec<Offer>)
    requires
        mask@.len() == offers@.len(),
        forall|i: int| 0 <= i < offers@.len() ==> mask@[i] == keep(#[trigger] offers@[i]),
    ensures
        kept(offers@, r@, keep),
{
    let mut out: Vec<Offer> = Vec::new();
    let mut i: usize = 0;
    while i < offers.len()
        invariant
            i <= offers@.len(),
            mask@.len() == offers@.len(),
            forall|k: int| 0 <= k < offers@.len() ==> mask@[k] == keep(#[trigger] offers@[k]),
            kept(offers@.subrange(0, i as int), out@, keep),
        decreases offers@.len() - i,
    {
        let ghost pre = offers@.subrange(0, i as int);
        assert(offers@.subrange(0, i + 1).drop_last() =~= pre);
        if mask[i] {
            let ghost before = out@;
            out.push(offers[i].clone());
            assert(out@.drop_last() =~= before);
        }
        i = i + 1;
    }
    assert(offers@.subrange(0, offers@.len() as int) =~= offers@);
    out
}

/// A search as the traveller asks it.
pub struct SearchQuery {
    pub origin: String,
    pub destination: String,
    pub date: String,
    pub return_date: Option<String>,
    pub adults: i32,
    pub cabin: String,
    pub currency: String,
    pub include_nearby: bool,
    pub allow_synthetic: bool,
    /// Skip the in-memory search cache; not part of the cache key.
    pub refresh: bool,
}

impl Clone for SearchQuery {
    fn clone(&self) -> (r: Self)
        ensures
            r == *self,
    {
        SearchQuery {
            origin: self.origin.clone(),
            destination: self.destination.clone(),
            date: self.date.clone(),
            return_date: clone_opt_string(&self.return_date),
            adults: self.adults,
            cabin: self.cabin.clone(),
            currency: self.currency.clone(),
            include_nearby: self.include_nearby,
            allow_synthetic: self.allow_synthetic,
            refresh: self.refresh,
        }
    }
}

/// Why a search was refused.
#[derive(Debug)]
pub enum SearchQueryError {
    ReturnBeforeOutbound,
    BadField(&'static str),
}

/// A region of a country.
pub struct Region {
    pub code: String,
    pub local_code: String,
    pub name: String,
    pub iso_country: String,
    pub country_name: String,
    pub continent: String,
}

/// A runway of an airport.
pub struct Runway {
    pub id: i32,
    pub length_ft: Option<i32>,
    pub width_ft: Option<i32>,
    pub surface: String,
    pub lighted: bool,
    pub closed: bool,
    pub le_ident: String,
    pub he_ident: String,
}

/// A radio navigation aid near an airport.
pub struct Navaid {
    pub ident: String,
    pub name: String,
    pub type_: String,
    pub frequency_khz: Option<i32>,
}

/// A request for more hidden-city candidates of a search, skipping some.
pub struct SearchExpandRequest {
    pub query: SearchQuery,
    pub exclude: Vec<String>,
}

/// One flight of an airport's departure board.
pub struct BoardFlight {
    pub flight_number: String,
    pub carrier: Option<String>,
    pub origin: Option<String>,
    pub dest: Option<String>,
    pub scheduled: Option<String>,
    pub estimated: Option<String>,
    pub status: Option<String>,
    pub terminal: Option<String>,
    pub gate: Option<String>,
    pub source: String,
    pub layer: String,
}

/// A historical route from the destination onward: a hint, not a fare.
pub struct ConnectionHint {
    pub dest: String,
    pub dest_name: String,
    pub evidence: String,
    pub source: String,
    pub layer: String,
    pub note: String,
}

/// A data source and what it can and cannot tell.
pub struct SourceDef {
    pub id: String,
    pub name: String,
    pub layer: String,
    pub role: String,
    pub is_not: String,
    pub freshness: String,
    pub url: String,
    pub can_price: bool,
    pub can_book: bool,
    pub can_track: bool,
}

} // verus!
