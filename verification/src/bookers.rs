//! Where to book or compare a trip: the booking sites, their search addresses, and
//! the five links featured for a city pair.
use vstd::prelude::*;
use crate::text::{to_upper, upper, to_lower, lower, cat, decimal, int_text, str_eq, trim, trim_spec,
    to_ascii_upper, upper_ascii, eq_ignore_case, eq_ignore_ascii_case, has_prefix, starts_with, chars_of,
    string_from, utf8_len, byte_len, char_width, width_of, prefix_bytes, byte_prefix, replace_all, replace_spec};
use crate::durations::{parse_i32, parse_i32_spec};
use crate::metros::{is_metro_code, metro_code_known};
use crate::sandbox::{is_test_carrier, test_carrier};
use crate::self_transfer::pair_views;
use vstd::utf8::encode_utf8;
use crate::models::{BookerLink, Airport};
use crate::links::{google_flights_url, google_url_spec, opt_text};
use crate::hidden::views;

verus! {

/// A booking or comparison site: how it is shown, its search address template, and
/// the markets it serves.
pub struct Meta {
    pub id: &'static str,
    pub name: &'static str,
    pub layer: &'static str,
    pub role: &'static str,
    pub issues: bool,
    pub tmpl: &'static str,
    /// Always among the featured links.
    pub core: bool,
    /// Used when a city pair has no regional shop.
    pub global_fill: bool,
    /// Country codes served, where the site does not cover a whole continent.
    pub countries: Vec<&'static str>,
    /// Continent codes served.
    pub continents: Vec<&'static str>,
}

/// A site by its texts: id, name, layer, role, whether it issues tickets, address
/// template, core, global fill, countries, continents.
pub type MetaRow = (Seq<char>, Seq<char>, Seq<char>, Seq<char>, bool, Seq<char>, bool, bool, Seq<Seq<char>>, Seq<Seq<char>>);

/// The texts of a list of static strings.
pub open spec fn str_views(v: Seq<&'static str>) -> Seq<Seq<char>> {
    Seq::new(v.len(), |i: int| v[i]@)
}

/// A site by its texts.
pub open spec fn meta_row(m: Meta) -> MetaRow {
    (m.id@, m.name@, m.layer@, m.role@, m.issues, m.tmpl@, m.core, m.global_fill, str_views(m.countries@), str_views(m.continents@))
}

/// The sites, in the order they are listed.
pub open spec fn meta_rows() -> Seq<MetaRow> {
    seq![
        ("google-flights"@, "Google Flights"@, "meta-search"@, "Metasearch: compares and hands off. Does not issue the e-ticket."@, false, ""@, true, false, seq![], seq![]),
        ("kayak"@, "Kayak"@, "meta-search"@, "Metasearch. Booking completes on an airline or OTA, not on this link alone."@, false, "https://www.kayak.com/flights/{o}-{d}/{kayak_dates}{kayak_adults}?sort=bestflight_a"@, true, false, seq![], seq![]),
        ("skyscanner"@, "Skyscanner"@, "meta-search"@, "Metasearch. Date path is YYMMDD. Not the validating carrier."@, false, "https://www.skyscanner.com/transport/flights/{ol}/{dl}/{sky_path}?adultsv2={adults}&cabinclass={sky_cabin}&rtn={sky_rtn}&preferdirects=false"@, true, false, seq![], seq![]),
        ("momondo"@, "Momondo"@, "meta-search"@, "Kayak-family metasearch. Often wider international OTA coverage."@, false, "https://www.momondo.com/flight-search/{o}-{d}/{kayak_dates}{kayak_adults}?sort=bestflight_a"@, false, false, seq![], seq![]),
        ("cheapflights"@, "Cheapflights"@, "meta-search"@, "Kayak-family metasearch. US-facing comparison."@, false, "https://www.cheapflights.com/flight-search/{o}-{d}/{kayak_dates}{kayak_adults}?sort=bestflight_a"@, false, false, seq![], seq!["NA"@]),
        ("wego"@, "Wego"@, "meta-search"@, "Metasearch strong in the Middle East and Asia."@, false, "https://www.wego.com/flights/searches/{o}-{d}-{wego_dates}/economy/{adults}a"@, false, false, seq![], seq!["AS"@, "AF"@]),
        ("expedia"@, "Expedia"@, "ota"@, "OTA. Typically issues via GDS as merchant of record if you finish checkout there."@, true, "https://www.expedia.com/Flights-Search?flight-type=on&mode=search&trip=oneway&leg1=from:{o},to:{d},departure:{us}TANYT&passengers=adults:{adults},children:0,infantinlap:N"@, false, false, seq![], seq!["NA"@, "OC"@]),
        ("booking-com"@, "Booking.com"@, "ota"@, "OTA. Flight checkout on Booking.com can issue the ticket if you finish there."@, true, "https://flights.booking.com/flights/{ob}-{db}/?type={book_type}&adults={adults}&cabinClass={book_cabin}&depart={date}{book_return}&from={o}&to={d}&sort=BEST"@, false, true, seq![], seq![]),
        ("trip-com"@, "Trip.com"@, "ota"@, "OTA. Trip.com is often merchant of record if you finish checkout there."@, true, "https://www.trip.com/flights/{ol}-to-{dl}/?dcity={o}&acity={d}&ddate={date}{trip_adate}&flighttype={flighttype}&class=ys&quantity={adults}"@, false, false, seq!["CN"@, "HK"@, "TW"@, "MO"@, "JP"@, "KR"@], seq![]),
        ("priceline"@, "Priceline"@, "ota"@, "OTA. Booking Holdings shop. Can issue if you finish checkout there."@, true, "https://www.priceline.com/m/fly/search/{priceline_path}/?cabin-class=ECO&no-of-adults={adults}"@, false, false, seq![], seq![]),
        ("kiwi"@, "Kiwi.com"@, "ota"@, "OTA. Virtual interlining / self-transfer specialist. Issues if you finish there."@, true, "https://www.kiwi.com/en/search/results/{ol}/{dl}/{date}/{kiwi_ret}?adults={adults}"@, false, false, seq![], seq![]),
        ("cheapoair"@, "CheapOair"@, "ota"@, "US OTA. Can issue if you finish checkout there."@, true, "https://www.cheapoair.com/flights/results?from={o}&to={d}&fromDt={us}{cheapo_ret}&tripType={cheapo_trip}&adults={adults}"@, false, false, seq![], seq![]),
        ("edreams"@, "eDreams"@, "ota"@, "European OTA. Can issue if you finish checkout there."@, true, "https://www.edreams.com/flights/{edreams_path}"@, false, false, seq!["TR"@], seq!["EU"@]),
        ("traveloka"@, "Traveloka"@, "ota"@, "Southeast Asia OTA. Can issue if you finish checkout there."@, true, "https://www.traveloka.com/en-en/flight/fullsearch?ap={o}.{d}&dt={tvldt_pair}&ps={adults}.0.0"@, false, false, seq!["TH"@, "VN"@, "ID"@, "MY"@, "SG"@, "PH"@, "KH"@, "LA"@, "MM"@, "BN"@], seq![]),
        ("makemytrip"@, "MakeMyTrip"@, "ota"@, "India OTA. Can issue if you finish checkout there."@, true, "https://www.makemytrip.com/flight/search?itinerary={mmt_itin}&tripType={mmt_trip}&paxType=A-{adults}_C-0_I-0&cabinClass=E"@, false, false, seq!["IN"@], seq![]),
        ("despegar"@, "Despegar"@, "ota"@, "Latin America OTA. Can issue if you finish checkout there."@, true, "https://www.despegar.com/shop/flights/results/{despegar_kind}/{o}/{d}/{date}{despegar_ret}/{adults}/0/0"@, false, false, seq!["MX"@], seq!["SA"@]),
        ("skiplagged-com"@, "Skiplagged.com"@, "specialist-meta"@, "Specialist hidden-city search. Independent of this repo."@, false, "https://skiplagged.com/flights/{o}/{d}/{date}"@, false, false, seq![], seq![]),
    ]
}

fn static_list(items: &[&'static str]) -> (r: Vec<&'static str>)
    ensures
        r@ == items@,
{
    let mut v: Vec<&'static str> = Vec::new();
    let mut i: usize = 0;
    while i < items.len()
        invariant
            i <= items@.len(),
            v@ == items@.subrange(0, i as int),
        decreases items@.len() - i,
    {
        v.push(items[i]);
        i = i + 1;
        assert(v@ =~= items@.subrange(0, i as int));
    }
    assert(v@ =~= items@);
    v
}

/// The sites (see [`meta_rows`]).
pub fn meta_table() -> (r: Vec<Meta>)
    ensures
        r@.len() == meta_rows().len(),
        forall|i: int| 0 <= i < r@.len() ==> meta_row(#[trigger] r@[i]) == meta_rows()[i],
{
    let mut v: Vec<Meta> = Vec::new();
    v.push(Meta { id: "google-flights", name: "Google Flights", layer: "meta-search", role: "Metasearch: compares and hands off. Does not issue the e-ticket.", issues: false, tmpl: "", core: true, global_fill: false, countries: static_list(&[]), continents: static_list(&[]) });
    v.push(Meta { id: "kayak", name: "Kayak", layer: "meta-search", role: "Metasearch. Booking completes on an airline or OTA, not on this link alone.", issues: false, tmpl: "https://www.kayak.com/flights/{o}-{d}/{kayak_dates}{kayak_adults}?sort=bestflight_a", core: true, global_fill: false, countries: static_list(&[]), continents: static_list(&[]) });
    v.push(Meta { id: "skyscanner", name: "Skyscanner", layer: "meta-search", role: "Metasearch. Date path is YYMMDD. Not the validating carrier.", issues: false, tmpl: "https://www.skyscanner.com/transport/flights/{ol}/{dl}/{sky_path}?adultsv2={adults}&cabinclass={sky_cabin}&rtn={sky_rtn}&preferdirects=false", core: true, global_fill: false, countries: static_list(&[]), continents: static_list(&[]) });
    v.push(Meta { id: "momondo", name: "Momondo", layer: "meta-search", role: "Kayak-family metasearch. Often wider international OTA coverage.", issues: false, tmpl: "https://www.momondo.com/flight-search/{o}-{d}/{kayak_dates}{kayak_adults}?sort=bestflight_a", core: false, global_fill: false, countries: static_list(&[]), continents: static_list(&[]) });
    v.push(Meta { id: "cheapflights", name: "Cheapflights", layer: "meta-search", role: "Kayak-family metasearch. US-facing comparison.", issues: false, tmpl: "https://www.cheapflights.com/flight-search/{o}-{d}/{kayak_dates}{kayak_adults}?sort=bestflight_a", core: false, global_fill: false, countries: static_list(&[]), continents: static_list(&["NA"]) });
    v.push(Meta { id: "wego", name: "Wego", layer: "meta-search", role: "Metasearch strong in the Middle East and Asia.", issues: false, tmpl: "https://www.wego.com/flights/searches/{o}-{d}-{wego_dates}/economy/{adults}a", core: false, global_fill: false, countries: static_list(&[]), continents: static_list(&["AS", "AF"]) });
    v.push(Meta { id: "expedia", name: "Expedia", layer: "ota", role: "OTA. Typically issues via GDS as merchant of record if you finish checkout there.", issues: true, tmpl: "https://www.expedia.com/Flights-Search?flight-type=on&mode=search&trip=oneway&leg1=from:{o},to:{d},departure:{us}TANYT&passengers=adults:{adults},children:0,infantinlap:N", core: false, global_fill: false, countries: static_list(&[]), continents: static_list(&["NA", "OC"]) });
    v.push(Meta { id: "booking-com", name: "Booking.com", layer: "ota", role: "OTA. Flight checkout on Booking.com can issue the ticket if you finish there.", issues: true, tmpl: "https://flights.booking.com/flights/{ob}-{db}/?type={book_type}&adults={adults}&cabinClass={book_cabin}&depart={date}{book_return}&from={o}&to={d}&sort=BEST", core: false, global_fill: true, countries: static_list(&[]), continents: static_list(&[]) });
    v.push(Meta { id: "trip-com", name: "Trip.com", layer: "ota", role: "OTA. Trip.com is often merchant of record if you finish checkout there.", issues: true, tmpl: "https://www.trip.com/flights/{ol}-to-{dl}/?dcity={o}&acity={d}&ddate={date}{trip_adate}&flighttype={flighttype}&class=ys&quantity={adults}", core: false, global_fill: false, countries: static_list(&["CN", "HK", "TW", "MO", "JP", "KR"]), continents: static_list(&[]) });
    v.push(Meta { id: "priceline", name: "Priceline", layer: "ota", role: "OTA. Booking Holdings shop. Can issue if you finish checkout there.", issues: true, tmpl: "https://www.priceline.com/m/fly/search/{priceline_path}/?cabin-class=ECO&no-of-adults={adults}", core: false, global_fill: false, countries: static_list(&[]), continents: static_list(&[]) });
    v.push(Meta { id: "kiwi", name: "Kiwi.com", layer: "ota", role: "OTA. Virtual interlining / self-transfer specialist. Issues if you finish there.", issues: true, tmpl: "https://www.kiwi.com/en/search/results/{ol}/{dl}/{date}/{kiwi_ret}?adults={adults}", core: false, global_fill: false, countries: static_list(&[]), continents: static_list(&[]) });
    v.push(Meta { id: "cheapoair", name: "CheapOair", layer: "ota", role: "US OTA. Can issue if you finish checkout there.", issues: true, tmpl: "https://www.cheapoair.com/flights/results?from={o}&to={d}&fromDt={us}{cheapo_ret}&tripType={cheapo_trip}&adults={adults}", core: false, global_fill: false, countries: static_list(&[]), continents: static_list(&[]) });
    v.push(Meta { id: "edreams", name: "eDreams", layer: "ota", role: "European OTA. Can issue if you finish checkout there.", issues: true, tmpl: "https://www.edreams.com/flights/{edreams_path}", core: false, global_fill: false, countries: static_list(&["TR"]), continents: static_list(&["EU"]) });
    v.push(Meta { id: "traveloka", name: "Traveloka", layer: "ota", role: "Southeast Asia OTA. Can issue if you finish checkout there.", issues: true, tmpl: "https://www.traveloka.com/en-en/flight/fullsearch?ap={o}.{d}&dt={tvldt_pair}&ps={adults}.0.0", core: false, global_fill: false, countries: static_list(&["TH", "VN", "ID", "MY", "SG", "PH", "KH", "LA", "MM", "BN"]), continents: static_list(&[]) });
    v.push(Meta { id: "makemytrip", name: "MakeMyTrip", layer: "ota", role: "India OTA. Can issue if you finish checkout there.", issues: true, tmpl: "https://www.makemytrip.com/flight/search?itinerary={mmt_itin}&tripType={mmt_trip}&paxType=A-{adults}_C-0_I-0&cabinClass=E", core: false, global_fill: false, countries: static_list(&["IN"]), continents: static_list(&[]) });
    v.push(Meta { id: "despegar", name: "Despegar", layer: "ota", role: "Latin America OTA. Can issue if you finish checkout there.", issues: true, tmpl: "https://www.despegar.com/shop/flights/results/{despegar_kind}/{o}/{d}/{date}{despegar_ret}/{adults}/0/0", core: false, global_fill: false, countries: static_list(&["MX"]), continents: static_list(&["SA"]) });
    v.push(Meta { id: "skiplagged-com", name: "Skiplagged.com", layer: "specialist-meta", role: "Specialist hidden-city search. Independent of this repo.", issues: false, tmpl: "https://skiplagged.com/flights/{o}/{d}/{date}", core: false, global_fill: false, countries: static_list(&[]), continents: static_list(&[]) });
    assert forall|i: int| 0 <= i < v@.len() implies meta_row(#[trigger] v@[i]) == meta_rows()[i] by {
        assert(str_views(v@[i].countries@) =~= meta_rows()[i].8);
        assert(str_views(v@[i].continents@) =~= meta_rows()[i].9);
    }
    v
}

/// Some code of the list equals `code`, ignoring ASCII case.
pub open spec fn has_code(list: Seq<Seq<char>>, code: Seq<char>) -> bool {
    exists|j: int| 0 <= j < list.len() && eq_ignore_case(#[trigger] list[j], code)
}

/// Whether a pass of the market search takes a site: pass 0 by country, pass 1 by
/// continent, pass 2 the global fill; core sites never.
pub open spec fn selects(pass: int, code: Seq<char>, row: MetaRow) -> bool {
    if pass == 0 {
        !row.6 && code.len() > 0 && has_code(row.8, code)
    } else if pass == 1 {
        !row.6 && code.len() > 0 && has_code(row.9, code)
    } else {
        !row.6 && row.7
    }
}

/// `acc` with `id` added at the end unless it is there.
pub open spec fn add_new(acc: Seq<Seq<char>>, id: Seq<char>) -> Seq<Seq<char>> {
    if acc.contains(id) { acc } else { acc.push(id) }
}

/// One pass over the first `k` sites.
pub open spec fn sweep(acc: Seq<Seq<char>>, pass: int, code: Seq<char>, k: nat) -> Seq<Seq<char>>
    decreases k,
{
    if k == 0 {
        acc
    } else {
        let a = sweep(acc, pass, code, (k - 1) as nat);
        let row = meta_rows()[k - 1];
        if selects(pass, code, row) { add_new(a, row.0) } else { a }
    }
}

/// The shops that fit an airport row: by country, then by continent, then the
/// global fill; each once.
pub open spec fn matching_spec(continent: Seq<char>, country: Seq<char>) -> Seq<Seq<char>> {
    let ctry = upper_ascii(trim_spec(country));
    let cont = upper_ascii(trim_spec(continent));
    let n = meta_rows().len();
    sweep(sweep(sweep(Seq::empty(), 0, ctry, n), 1, cont, n), 2, Seq::empty(), n)
}

fn list_has_code(list: &Vec<&'static str>, code: &str) -> (r: bool)
    ensures
        r == has_code(str_views(list@), code@),
{
    let mut j: usize = 0;
    while j < list.len()
        invariant
            j <= list@.len(),
            forall|k: int| 0 <= k < j ==> !eq_ignore_case(#[trigger] str_views(list@)[k], code@),
        decreases list@.len() - j,
    {
        if eq_ignore_ascii_case(list[j], code) {
            assert(eq_ignore_case(str_views(list@)[j as int], code@));
            return true;
        }
        j = j + 1;
    }
    false
}

fn has_id(ids: &Vec<&'static str>, id: &str) -> (r: bool)
    ensures
        r == str_views(ids@).contains(id@),
{
    let mut j: usize = 0;
    while j < ids.len()
        invariant
            j <= ids@.len(),
            forall|k: int| 0 <= k < j ==> str_views(ids@)[k] != id@,
        decreases ids@.len() - j,
    {
        if str_eq(ids[j], id) {
            assert(str_views(ids@)[j as int] == id@);
            return true;
        }
        j = j + 1;
    }
    false
}

fn select_exec(pass: u8, code: &str, m: &Meta) -> (r: bool)
    ensures
        r == selects(pass as int, code@, meta_row(*m)),
{
    if m.core {
        false
    } else if pass == 0 {
        !code.is_empty() && list_has_code(&m.countries, code)
    } else if pass == 1 {
        !code.is_empty() && list_has_code(&m.continents, code)
    } else {
        m.global_fill
    }
}

fn run_pass(ids: &mut Vec<&'static str>, table: &Vec<Meta>, pass: u8, code: &str)
    requires
        pass <= 2,
        table@.len() == meta_rows().len(),
        forall|i: int| 0 <= i < table@.len() ==> meta_row(#[trigger] table@[i]) == meta_rows()[i],
    ensures
        str_views(final(ids)@) == sweep(str_views(old(ids)@), pass as int, code@, meta_rows().len()),
{
    let ghost start = str_views(ids@);
    let mut i: usize = 0;
    while i < table.len()
        invariant
            pass <= 2,
            i <= table@.len(),
            table@.len() == meta_rows().len(),
            forall|k: int| 0 <= k < table@.len() ==> meta_row(#[trigger] table@[k]) == meta_rows()[k],
            str_views(ids@) == sweep(start, pass as int, code@, i as nat),
        decreases table@.len() - i,
    {
        let m = &table[i];
        assert(meta_row(table@[i as int]) == meta_rows()[i as int]);
        if select_exec(pass, code, m) && !has_id(ids, m.id) {
            let ghost before = str_views(ids@);
            ids.push(m.id);
            assert(str_views(ids@) =~= before.push(m.id@));
        }
        i = i + 1;
    }
}

/// See [`matching_spec`].
fn matching_ids(continent: &str, country: &str) -> (r: Vec<&'static str>)
    ensures
        str_views(r@) == matching_spec(continent@, country@),
{
    let t1 = trim(country);
    let ctry = to_ascii_upper(t1.as_str());
    let t2 = trim(continent);
    let cont = to_ascii_upper(t2.as_str());
    let table = meta_table();
    let mut ids: Vec<&'static str> = Vec::new();
    assert(str_views(ids@) =~= Seq::<Seq<char>>::empty());
    run_pass(&mut ids, &table, 0, ctry.as_str());
    run_pass(&mut ids, &table, 1, cont.as_str());
    run_pass(&mut ids, &table, 2, "");
    proof {
        reveal_strlit("");
        assert(""@ =~= Seq::<char>::empty());
    }
    ids
}

/// The first global-fill site other than `o0`, from site `k` on.
pub open spec fn other_global(o0: Seq<char>, k: nat) -> Option<Seq<char>>
    decreases meta_rows().len() - k,
{
    if k >= meta_rows().len() {
        None
    } else if meta_rows()[k as int].7 && meta_rows()[k as int].0 != o0 {
        Some(meta_rows()[k as int].0)
    } else {
        other_global(o0, k + 1)
    }
}

/// The two market shops of a city pair: the first fitting the origin and the first
/// fitting the destination (Booking.com when none fits); when they are the same,
/// the second shop of the origin, else of the destination, else another global
/// fill, else Expedia.
pub open spec fn market_spec(oc: Seq<char>, octry: Seq<char>, dc: Seq<char>, dctry: Seq<char>) -> (Seq<char>, Seq<char>) {
    let o = matching_spec(oc, octry);
    let d = matching_spec(dc, dctry);
    let o0 = if o.len() > 0 { o[0] } else { "booking-com"@ };
    let d0 = if d.len() > 0 { d[0] } else { "booking-com"@ };
    if o0 != d0 {
        (o0, d0)
    } else if o.len() > 1 {
        (o0, o[1])
    } else if d.len() > 1 {
        (o0, d[1])
    } else {
        match other_global(o0, 0) {
            Some(g) => (o0, g),
            None => (o0, "expedia"@),
        }
    }
}

fn pick_market_ids(oc: &str, octry: &str, dc: &str, dctry: &str) -> (r: (&'static str, &'static str))
    ensures
        (r.0@, r.1@) == market_spec(oc@, octry@, dc@, dctry@),
{
    let o = matching_ids(oc, octry);
    let d = matching_ids(dc, dctry);
    let o0: &'static str = if o.len() > 0 { o[0] } else { "booking-com" };
    let d0: &'static str = if d.len() > 0 { d[0] } else { "booking-com" };
    assert(o.len() > 0 ==> str_views(o@)[0] == o@[0]@);
    assert(d.len() > 0 ==> str_views(d@)[0] == d@[0]@);
    if !str_eq(o0, d0) {
        return (o0, d0);
    }
    if o.len() > 1 {
        assert(str_views(o@)[1] == o@[1]@);
        return (o0, o[1]);
    }
    if d.len() > 1 {
        assert(str_views(d@)[1] == d@[1]@);
        return (o0, d[1]);
    }
    match first_other_global(o0) {
        Some(g) => (o0, g),
        None => (o0, "expedia"),
    }
}

fn first_other_global(o0: &str) -> (r: Option<&'static str>)
    ensures
        match r { Some(g) => other_global(o0@, 0) == Some(g@), None => other_global(o0@, 0) is None },
{
    let table = meta_table();
    let mut k: usize = 0;
    while k < table.len()
        invariant
            k <= table@.len(),
            table@.len() == meta_rows().len(),
            forall|i: int| 0 <= i < table@.len() ==> meta_row(#[trigger] table@[i]) == meta_rows()[i],
            other_global(o0@, k as nat) == other_global(o0@, 0),
        decreases table@.len() - k,
    {
        assert(meta_row(table@[k as int]) == meta_rows()[k as int]);
        if table[k].global_fill && !str_eq(table[k].id, o0) {
            return Some(table[k].id);
        }
        k = k + 1;
    }
    None
}

/// Whether some link of `v` has the id.
pub open spec fn has_link(v: Seq<BookerLink>, id: Seq<char>) -> bool {
    exists|j: int| 0 <= j < v.len() && (#[trigger] v[j]).id@ == id
}

/// The links a featured list can draw from: the first link of each id, without
/// carrier links and without the specialist hidden-city site.
pub open spec fn roster_links(links: Seq<BookerLink>) -> Seq<BookerLink>
    decreases links.len(),
{
    if links.len() == 0 {
        Seq::empty()
    } else {
        let f = roster_links(links.drop_last());
        let b = links.last();
        if has_prefix(b.id@, "carrier-"@) || b.id@ == "skiplagged-com"@ || has_link(f, b.id@) {
            f
        } else {
            f.push(b)
        }
    }
}

/// The position of the first link with the id.
pub open spec fn link_at(v: Seq<BookerLink>, id: Seq<char>) -> Option<int>
    decreases v.len(),
{
    if v.len() == 0 {
        None
    } else {
        match link_at(v.drop_last(), id) {
            Some(k) => Some(k),
            None => if v.last().id@ == id { Some(v.len() - 1) } else { None },
        }
    }
}

/// One of the two Kayak-family sites, of which at most one is featured.
pub open spec fn kayak_family(id: Seq<char>) -> bool {
    id == "momondo"@ || id == "cheapflights"@
}

/// Taking the site `id` into the featured list, if there is room, it has a link not
/// taken yet, and it is not a second Kayak-family site. The state is the list so
/// far and whether a Kayak-family site is in it.
pub open spec fn take_step(pool: Seq<BookerLink>, st: (Seq<BookerLink>, bool), id: Seq<char>, cap: int) -> (Seq<BookerLink>, bool) {
    let (out, used) = st;
    if out.len() >= cap || has_link(out, id) {
        st
    } else {
        match link_at(pool, id) {
            None => st,
            Some(k) => if kayak_family(id) {
                if used { st } else { (out.push(pool[k]), true) }
            } else {
                (out.push(pool[k]), used)
            },
        }
    }
}

/// Taking the sites in order.
pub open spec fn take_all(pool: Seq<BookerLink>, order: Seq<Seq<char>>, cap: int) -> (Seq<BookerLink>, bool)
    decreases order.len(),
{
    if order.len() == 0 {
        (Seq::empty(), false)
    } else {
        take_step(pool, take_all(pool, order.drop_last(), cap), order.last(), cap)
    }
}

/// The ids of links.
pub open spec fn link_ids(v: Seq<BookerLink>) -> Seq<Seq<char>> {
    Seq::new(v.len(), |i: int| v[i].id@)
}

/// The order in which sites are offered a featured place: Google, Kayak, the two
/// market shops, Skyscanner; then the shops fitting the origin and the destination;
/// then every other link in the order given.
pub open spec fn featured_order(links: Seq<BookerLink>, oc: Seq<char>, octry: Seq<char>, dc: Seq<char>, dctry: Seq<char>) -> Seq<Seq<char>> {
    let m = market_spec(oc, octry, dc, dctry);
    seq!["google-flights"@, "kayak"@, m.0, m.1, "skyscanner"@]
        + matching_spec(oc, octry) + matching_spec(dc, dctry)
        + link_ids(roster_links(links))
}

/// The featured links of a city pair: at most `n` (at least one), taken in the
/// order of [`featured_order`].
pub open spec fn featured_spec(links: Seq<BookerLink>, oc: Seq<char>, octry: Seq<char>, dc: Seq<char>, dctry: Seq<char>, n: int) -> Seq<BookerLink> {
    take_all(roster_links(links), featured_order(links, oc, octry, dc, dctry), if n < 1 { 1 } else { n }).0
}

fn link_pos(v: &Vec<BookerLink>, id: &str) -> (r: Option<usize>)
    ensures
        match r { Some(k) => link_at(v@, id@) == Some(k as int) && k < v@.len(), None => link_at(v@, id@) is None },
        r is None <==> !has_link(v@, id@),
{
    let mut j: usize = 0;
    while j < v.len()
        invariant
            j <= v@.len(),
            link_at(v@.subrange(0, j as int), id@) is None,
            forall|k: int| 0 <= k < j ==> (#[trigger] v@[k]).id@ != id@,
        decreases v@.len() - j,
    {
        assert(v@.subrange(0, j + 1).drop_last() =~= v@.subrange(0, j as int));
        if str_eq(v[j].id.as_str(), id) {
            proof { lemma_link_at_prefix(v@, id@, j + 1); }
            return Some(j);
        }
        j = j + 1;
    }
    assert(v@.subrange(0, v@.len() as int) =~= v@);
    None
}

proof fn lemma_link_at_prefix(v: Seq<BookerLink>, id: Seq<char>, n: int)
    requires
        0 < n <= v.len(),
        link_at(v.subrange(0, n), id) is Some,
    ensures
        link_at(v, id) == link_at(v.subrange(0, n), id),
    decreases v.len() - n,
{
    if n < v.len() {
        assert(v.subrange(0, n + 1).drop_last() =~= v.subrange(0, n));
        lemma_link_at_prefix(v, id, n + 1);
        assert(v.subrange(0, v.len() as int) =~= v);
    } else {
        assert(v.subrange(0, n) =~= v);
    }
}

fn roster_of(links: &Vec<BookerLink>) -> (r: Vec<BookerLink>)
    ensures
        r@ == roster_links(links@),
{
    let mut out: Vec<BookerLink> = Vec::new();
    let mut i: usize = 0;
    while i < links.len()
        invariant
            i <= links@.len(),
            out@ == roster_links(links@.subrange(0, i as int)),
        decreases links@.len() - i,
    {
        let ghost pre = links@.subrange(0, i as int);
        assert(links@.subrange(0, i + 1).drop_last() =~= pre);
        let b = &links[i];
        let skip = starts_with(b.id.as_str(), "carrier-") || str_eq(b.id.as_str(), "skiplagged-com")
            || link_pos(&out, b.id.as_str()).is_some();
        if !skip {
            out.push(b.clone());
        }
        i = i + 1;
    }
    assert(links@.subrange(0, links@.len() as int) =~= links@);
    out
}

fn take_id(pool: &Vec<BookerLink>, out: &mut Vec<BookerLink>, used: &mut bool, id: &str, cap: usize)
    ensures
        (final(out)@, *final(used)) == take_step(pool@, (old(out)@, *old(used)), id@, cap as int),
{
    if out.len() >= cap || link_pos(out, id).is_some() {
        return;
    }
    match link_pos(pool, id) {
        None => {},
        Some(k) => {
            if str_eq(id, "momondo") || str_eq(id, "cheapflights") {
                if *used {
                    return;
                }
                *used = true;
            }
            out.push(pool[k].clone());
        },
    }
}

/// The featured links of a city pair (see [`featured_spec`]).
pub fn featured_bookers(links: Vec<BookerLink>, origin_continent: &str, origin_country: &str,
    dest_continent: &str, dest_country: &str, n: usize) -> (r: Vec<BookerLink>)
    ensures
        r@ == featured_spec(links@, origin_continent@, origin_country@, dest_continent@, dest_country@, n as int),
{
    let cap: usize = if n < 1 { 1 } else { n };
    let pool = roster_of(&links);
    let market = pick_market_ids(origin_continent, origin_country, dest_continent, dest_country);
    let mut order: Vec<String> = Vec::new();
    order.push("google-flights".to_owned());
    order.push("kayak".to_owned());
    order.push(market.0.to_owned());
    order.push(market.1.to_owned());
    order.push("skyscanner".to_owned());
    let fo = matching_ids(origin_continent, origin_country);
    let fd = matching_ids(dest_continent, dest_country);
    let ghost head = views(order@);
    let mut i: usize = 0;
    while i < fo.len()
        invariant
            i <= fo@.len(),
            views(order@) == head + str_views(fo@).subrange(0, i as int),
        decreases fo@.len() - i,
    {
        let ghost before = views(order@);
        let t = fo[i].to_owned();
        assert(t@ == str_views(fo@)[i as int]);
        order.push(t);
        assert(views(order@) =~= before.push(str_views(fo@)[i as int]));
        i = i + 1;
        assert(views(order@) =~= head + str_views(fo@).subrange(0, i as int));
    }
    assert(str_views(fo@).subrange(0, fo@.len() as int) =~= str_views(fo@));
    let ghost head2 = views(order@);
    let mut i: usize = 0;
    while i < fd.len()
        invariant
            i <= fd@.len(),
            views(order@) == head2 + str_views(fd@).subrange(0, i as int),
        decreases fd@.len() - i,
    {
        let ghost before = views(order@);
        let t = fd[i].to_owned();
        assert(t@ == str_views(fd@)[i as int]);
        order.push(t);
        assert(views(order@) =~= before.push(str_views(fd@)[i as int]));
        i = i + 1;
        assert(views(order@) =~= head2 + str_views(fd@).subrange(0, i as int));
    }
    assert(str_views(fd@).subrange(0, fd@.len() as int) =~= str_views(fd@));
    let ghost head3 = views(order@);
    let mut i: usize = 0;
    while i < pool.len()
        invariant
            i <= pool@.len(),
            views(order@) == head3 + link_ids(pool@).subrange(0, i as int),
        decreases pool@.len() - i,
    {
        let ghost before = views(order@);
        let t = pool[i].id.clone();
        order.push(t);
        assert(views(order@) =~= before.push(link_ids(pool@)[i as int]));
        i = i + 1;
        assert(views(order@) =~= head3 + link_ids(pool@).subrange(0, i as int));
    }
    assert(link_ids(pool@).subrange(0, pool@.len() as int) =~= link_ids(pool@));
    proof {
        reveal_strlit("google-flights");
        reveal_strlit("kayak");
        reveal_strlit("skyscanner");
    }
    assert(views(order@) =~= featured_order(links@, origin_continent@, origin_country@, dest_continent@, dest_country@));
    let mut out: Vec<BookerLink> = Vec::new();
    let mut used = false;
    let mut i: usize = 0;
    while i < order.len()
        invariant
            i <= order@.len(),
            (out@, used) == take_all(pool@, views(order@).subrange(0, i as int), cap as int),
        decreases order@.len() - i,
    {
        assert(views(order@).subrange(0, i + 1).drop_last() =~= views(order@).subrange(0, i as int));
        take_id(&pool, &mut out, &mut used, order[i].as_str(), cap);
        i = i + 1;
    }
    assert(views(order@).subrange(0, order@.len() as int) =~= views(order@));
    out
}

/// The pieces of `s` between occurrences of `c` (`str::split`).
pub open spec fn split_all(s: Seq<char>, c: char) -> Seq<Seq<char>>
    decreases s.len(),
{
    if s.len() == 0 {
        seq![Seq::empty()]
    } else {
        let p = split_all(s.drop_last(), c);
        if s.last() == c {
            p.push(Seq::empty())
        } else {
            p.drop_last().push(p.last().push(s.last()))
        }
    }
}

pub(crate) proof fn lemma_split_len(s: Seq<char>, c: char)
    ensures
        split_all(s, c).len() >= 1,
    decreases s.len(),
{
    if s.len() > 0 {
        lemma_split_len(s.drop_last(), c);
    }
}

pub(crate) fn split_char(s: &str, c: char) -> (r: Vec<String>)
    ensures
        views(r@) == split_all(s@, c),
{
    let x = chars_of(s);
    let mut out: Vec<String> = Vec::new();
    let mut cur: Vec<char> = Vec::new();
    let mut i: usize = 0;
    while i < x.len()
        invariant
            x@ == s@,
            i <= x@.len(),
            split_all(x@.subrange(0, i as int), c) == views(out@).push(cur@),
        decreases x@.len() - i,
    {
        let ghost pre = x@.subrange(0, i as int);
        let ghost next = x@.subrange(0, i + 1);
        assert(next.drop_last() =~= pre);
        if x[i] == c {
            let ghost o = views(out@);
            out.push(string_from(cur.as_slice()));
            cur = Vec::new();
            assert(views(out@).push(cur@) =~= o.push(views(out@).last()).push(Seq::empty()));
        } else {
            let ghost o = views(out@);
            cur.push(x[i]);
            assert(views(out@).push(cur@) =~= o.push(cur@));
        }
        i = i + 1;
    }
    assert(x@.subrange(0, x@.len() as int) =~= x@);
    let ghost o = views(out@);
    out.push(string_from(cur.as_slice()));
    assert(views(out@) =~= o.push(cur@));
    out
}

/// A date `year-month-day`: the year text, the month (1 to 12) and the day, read as
/// `str::parse` reads numbers; `None` otherwise.
pub open spec fn ymd_spec(date: Seq<char>) -> Option<(Seq<char>, i32, i32)> {
    let p = split_all(date, '-');
    if p.len() == 3 && parse_i32_spec(p[1]) is Some && 1 <= parse_i32_spec(p[1])->0 <= 12
        && parse_i32_spec(p[2]) is Some {
        Some((p[0], parse_i32_spec(p[1])->0, parse_i32_spec(p[2])->0))
    } else {
        None
    }
}

fn ymd(date: &str) -> (r: Option<(String, i32, i32)>)
    ensures
        match (r, ymd_spec(date@)) {
            (Some(a), Some(b)) => a.0@ == b.0 && a.1 == b.1 && a.2 == b.2,
            (None, None) => true,
            _ => false,
        },
{
    let parts = split_char(date, '-');
    proof { lemma_split_len(date@, '-'); }
    if parts.len() != 3 {
        return None;
    }
    let m = match parse_i32(parts[1].as_str()) { Some(m) => m, None => return None };
    let d = match parse_i32(parts[2].as_str()) { Some(d) => d, None => return None };
    if m < 1 || m > 12 {
        return None;
    }
    Some((parts[0].clone(), m, d))
}

/// A number written with at least two digits (`{:02}`): zero-padded when it is a
/// single digit.
pub open spec fn pad2(n: int) -> Seq<char> {
    if 0 <= n <= 9 { "0"@ + decimal(n) } else { decimal(n) }
}

fn pad2_text(n: i32) -> (r: String)
    ensures
        r@ == pad2(n as int),
{
    let t = int_text(n as i64);
    if 0 <= n && n <= 9 { cat("0", t.as_str()) } else { t }
}

/// The three-letter English name of a month.
pub open spec fn month_abbr(m: int) -> Seq<char> {
    if m == 1 { "Jan"@ } else if m == 2 { "Feb"@ } else if m == 3 { "Mar"@ } else if m == 4 { "Apr"@ }
    else if m == 5 { "May"@ } else if m == 6 { "Jun"@ } else if m == 7 { "Jul"@ } else if m == 8 { "Aug"@ }
    else if m == 9 { "Sep"@ } else if m == 10 { "Oct"@ } else if m == 11 { "Nov"@ } else { "Dec"@ }
}

fn month_text(m: i32) -> (r: &'static str)
    ensures
        r@ == month_abbr(m as int),
{
    if m == 1 { "Jan" } else if m == 2 { "Feb" } else if m == 3 { "Mar" } else if m == 4 { "Apr" }
    else if m == 5 { "May" } else if m == 6 { "Jun" } else if m == 7 { "Jul" } else if m == 8 { "Aug" }
    else if m == 9 { "Sep" } else if m == 10 { "Oct" } else if m == 11 { "Nov" } else { "Dec" }
}

/// `MM/DD/YYYY`, or the text itself when it is not a date.
pub open spec fn us_spec(date: Seq<char>) -> Seq<char> {
    match ymd_spec(date) {
        Some((y, m, d)) => pad2(m as int) + "/"@ + pad2(d as int) + "/"@ + y,
        None => date,
    }
}

/// `DDMonYYYY`, or the text itself.
pub open spec fn dmon_spec(date: Seq<char>) -> Seq<char> {
    match ymd_spec(date) {
        Some((y, m, d)) => pad2(d as int) + month_abbr(m as int) + y,
        None => date,
    }
}

/// The last characters of `s` that take exactly `n` bytes, if byte `len - n`
/// starts a character.
pub open spec fn suffix_bytes(s: Seq<char>, n: int) -> Option<Seq<char>>
    decreases s.len(),
{
    if n == 0 {
        Some(Seq::empty())
    } else if n < 0 || s.len() == 0 || char_width(s.last()) > n {
        None
    } else {
        match suffix_bytes(s.drop_last(), n - char_width(s.last())) {
            Some(p) => Some(p.push(s.last())),
            None => None,
        }
    }
}

/// The two-digit year: the last two bytes of the year text when it has two.
pub open spec fn short_year(y: Seq<char>) -> Seq<char> {
    if utf8_len(y) >= 2 { suffix_bytes(y, 2)->0 } else { y }
}

/// `DDMonYY`, or the text itself.
pub open spec fn mmt_spec(date: Seq<char>) -> Seq<char> {
    match ymd_spec(date) {
        Some((y, m, d)) => pad2(d as int) + month_abbr(m as int) + short_year(y),
        None => date,
    }
}

/// `DD-MM-YYYY`, or the text itself.
pub open spec fn tvldt_spec(date: Seq<char>) -> Seq<char> {
    match ymd_spec(date) {
        Some((y, m, d)) => pad2(d as int) + "-"@ + pad2(m as int) + "-"@ + y,
        None => date,
    }
}

/// The two-digit year can be cut off the year text (its last two bytes start a
/// character).
pub open spec fn year_cut_ok(date: Seq<char>) -> bool {
    ymd_spec(date) matches Some((y, _m, _d)) ==> (utf8_len(y) < 2 || suffix_bytes(y, 2) is Some)
}

fn us_text(date: &str) -> (r: String)
    ensures
        r@ == us_spec(date@),
{
    match ymd(date) {
        Some((y, m, d)) => {
            let a = cat(pad2_text(m).as_str(), "/");
            let b = cat(a.as_str(), pad2_text(d).as_str());
            let c = cat(b.as_str(), "/");
            cat(c.as_str(), y.as_str())
        },
        None => date.to_owned(),
    }
}

fn dmon_text(date: &str) -> (r: String)
    ensures
        r@ == dmon_spec(date@),
{
    match ymd(date) {
        Some((y, m, d)) => {
            let a = cat(pad2_text(d).as_str(), month_text(m));
            cat(a.as_str(), y.as_str())
        },
        None => date.to_owned(),
    }
}

fn tvldt_text(date: &str) -> (r: String)
    ensures
        r@ == tvldt_spec(date@),
{
    match ymd(date) {
        Some((y, m, d)) => {
            let a = cat(pad2_text(d).as_str(), "-");
            let b = cat(a.as_str(), pad2_text(m).as_str());
            let c = cat(b.as_str(), "-");
            cat(c.as_str(), y.as_str())
        },
        None => date.to_owned(),
    }
}

fn tail_bytes(s: &str, n: u128) -> (r: Option<String>)
    ensures
        match (r, suffix_bytes(s@, n as int)) {
            (Some(a), Some(b)) => a@ == b,
            (None, None) => true,
            _ => false,
        },
{
    let x = chars_of(s);
    let mut i: usize = x.len();
    let mut b: u128 = 0;
    assert(s@.subrange(0, s@.len() as int) =~= s@);
    assert(s@ + Seq::<char>::empty() =~= s@);
    while b < n
        invariant
            x@ == s@,
            i <= x@.len(),
            b <= n,
            suffix_bytes(s@, n as int) == match suffix_bytes(s@.subrange(0, i as int), n - b) {
                Some(p) => Some(p + s@.subrange(i as int, s@.len() as int)),
                None => None::<Seq<char>>,
            },
        decreases i,
    {
        let ghost rest = s@.subrange(0, i as int);
        if i == 0 {
            return None;
        }
        let w = width_of(x[i - 1]);
        if w > n - b {
            return None;
        }
        assert(rest.drop_last() =~= s@.subrange(0, i - 1));
        assert(rest.last() == x@[i - 1]);
        assert forall|p: Seq<char>| #![auto] p.push(rest.last()) + s@.subrange(i as int, s@.len() as int) == p + s@.subrange(i - 1, s@.len() as int) by {
            assert(p.push(rest.last()) + s@.subrange(i as int, s@.len() as int) =~= p + s@.subrange(i - 1, s@.len() as int));
        }
        b = b + w;
        i = i - 1;
    }
    assert(Seq::<char>::empty() + s@.subrange(i as int, s@.len() as int) =~= s@.subrange(i as int, s@.len() as int));
    Some(string_from(&x.as_slice()[i..x.len()]))
}

fn mmt_text(date: &str) -> (r: String)
    requires
        year_cut_ok(date@),
    ensures
        r@ == mmt_spec(date@),
{
    match ymd(date) {
        Some((y, m, d)) => {
            let a = cat(pad2_text(d).as_str(), month_text(m));
            let yy = if byte_len(y.as_str()) >= 2 {
                match tail_bytes(y.as_str(), 2) { Some(t) => t, None => y.clone() }
            } else {
                y.clone()
            };
            cat(a.as_str(), yy.as_str())
        },
        None => date.to_owned(),
    }
}

/// `a` when `c` holds, else `b`.
pub open spec fn pick(c: bool, a: Seq<char>, b: Seq<char>) -> Seq<char> {
    if c { a } else { b }
}

/// A text without its dashes.
pub open spec fn no_dashes(s: Seq<char>) -> Seq<char> {
    replace_spec(s, "-"@, Seq::empty())
}

/// The text after its first `n` bytes (those bytes starting a character).
pub open spec fn after_bytes(s: Seq<char>, n: int) -> Seq<char> {
    s.subrange(prefix_bytes(s, n)->0.len() as int, s.len() as int)
}

/// Skyscanner's cabin name for an upper-case cabin.
pub open spec fn sky_cabin_spec(cabin_u: Seq<char>) -> Seq<char> {
    if cabin_u == "PREMIUM_ECONOMY"@ {
        "premiumeconomy"@
    } else if cabin_u == "BUSINESS"@ {
        "business"@
    } else if cabin_u == "FIRST"@ {
        "first"@
    } else {
        "economy"@
    }
}

/// Booking.com's place key: `.CITY` for a metro code, `.AIRPORT` otherwise.
pub open spec fn booking_point_spec(code: Seq<char>) -> Seq<char> {
    if is_metro_code(code) { code + ".CITY"@ } else { code + ".AIRPORT"@ }
}

/// The plain-language query of a search.
pub open spec fn search_phrase(o: Seq<char>, d: Seq<char>, date: Seq<char>, ret: Seq<char>) -> Seq<char> {
    pick(ret.len() > 0, "round trip"@, "one way"@) + " flights from "@ + o + " to "@ + d + " on "@ + date
        + pick(ret.len() > 0, " returning "@ + ret, Seq::empty())
}

/// A byte kept as it is by percent-encoding: letters, digits, `-`, `.`, `_`, `~`.
pub open spec fn url_safe_byte(b: u8) -> bool {
    (48 <= b <= 57) || (65 <= b <= 90) || (97 <= b <= 122) || b == 45 || b == 46 || b == 95 || b == 126
}

/// An upper-case hexadecimal digit.
pub open spec fn hex_digit(v: int) -> char {
    if v < 10 { (48 + v) as char } else { (55 + v) as char }
}

/// Percent-encoding of bytes: safe bytes kept, every other byte as `%` and two
/// upper-case hexadecimal digits.
pub open spec fn pct_encode(b: Seq<u8>) -> Seq<char>
    decreases b.len(),
{
    if b.len() == 0 {
        Seq::empty()
    } else {
        let x = b.last();
        pct_encode(b.drop_last()) + if url_safe_byte(x) {
            seq![x as char]
        } else {
            seq!['%', hex_digit(x as int / 16), hex_digit(x as int % 16)]
        }
    }
}

/// Percent-encodes a text with `urlencoding::encode` (its UTF-8 bytes, every byte
/// but letters, digits and `-._~` as `%XX` in upper-case hexadecimal), as
/// `pct_encode` states.
#[verifier::external_body]
fn url_encode(s: &str) -> (r: String)
    ensures
        r@ == pct_encode(encode_utf8(s@)),
{
    urlencoding::encode(s).into_owned()
}

/// The values put into the sites' address templates, in the order they are
/// substituted (longer keys first).
pub open spec fn ctx_spec(o: Seq<char>, d: Seq<char>, date: Seq<char>, ret: Seq<char>, adults: int, cabin_u: Seq<char>) -> Seq<(Seq<char>, Seq<char>)> {
    ctx_part(0, o, d, date, ret, adults, cabin_u) + ctx_part(1, o, d, date, ret, adults, cabin_u)
        + ctx_part(2, o, d, date, ret, adults, cabin_u) + ctx_part(3, o, d, date, ret, adults, cabin_u)
}

/// A quarter of [`ctx_spec`].
pub open spec fn ctx_part(k: int, o: Seq<char>, d: Seq<char>, date: Seq<char>, ret: Seq<char>, adults: int, cabin_u: Seq<char>) -> Seq<(Seq<char>, Seq<char>)> {
    let hr = ret.len() > 0;
    let yymmdd = no_dashes(after_bytes(date, 2));
    let ret_yymmdd = if utf8_len(ret) >= 10 { no_dashes(after_bytes(ret, 2)) } else { Seq::empty() };
    let kayak_adults = if adults <= 1 { Seq::empty() } else { "/"@ + decimal(adults) + "adults"@ };
    let priceline = pick(hr,
        o + "-"@ + d + "-"@ + no_dashes(date) + "/"@ + d + "-"@ + o + "-"@ + no_dashes(ret),
        o + "-"@ + d + "-"@ + no_dashes(date));
    let edreams = pick(hr,
        to_lower(o) + "-"@ + to_lower(d) + "/"@ + date + "/"@ + ret + "/"@ + decimal(adults) + "-0-0/"@,
        to_lower(o) + "-"@ + to_lower(d) + "/"@ + date + "/"@ + decimal(adults) + "-0-0/"@);
    let mmt_itin = pick(hr,
        o + "-"@ + d + "-"@ + mmt_spec(date) + "_"@ + d + "-"@ + o + "-"@ + mmt_spec(ret),
        o + "-"@ + d + "-"@ + mmt_spec(date));
    if k == 0 {
        seq![
            ("priceline_path"@, priceline),
            ("despegar_kind"@, pick(hr, "roundtrip"@, "oneway"@)),
            ("kayak_adults"@, kayak_adults),
            ("edreams_path"@, edreams),
            ("despegar_ret"@, pick(hr, "/"@ + ret, Seq::empty())),
            ("kayak_dates"@, pick(hr, date + "/"@ + ret, date)),
            ("book_return"@, pick(hr, "&return="@ + ret, Seq::empty())),
            ("cheapo_trip"@, pick(hr, "ROUNDTRIP"@, "ONEWAY"@)),
            ("ret_yymmdd"@, ret_yymmdd),
            ("wego_dates"@, pick(hr, dmon_spec(date) + ":"@ + ret, dmon_spec(date) + ":ow"@)),
        ]
    } else if k == 1 {
        seq![
            ("trip_adate"@, pick(hr, "&adate="@ + ret, Seq::empty())),
            ("cheapo_ret"@, pick(hr, "&toDt="@ + us_spec(ret), Seq::empty())),
            ("tvldt_pair"@, pick(hr, tvldt_spec(date) + "."@ + tvldt_spec(ret), tvldt_spec(date) + ".NA"@)),
            ("flighttype"@, pick(hr, "rt"@, "ow"@)),
            ("book_cabin"@, cabin_u),
            ("book_type"@, pick(hr, "ROUNDTRIP"@, "ONEWAY"@)),
            ("sky_cabin"@, sky_cabin_spec(cabin_u)),
            ("sky_path"@, pick(hr, yymmdd + "/"@ + ret_yymmdd + "/"@, yymmdd + "/"@)),
            ("mmt_itin"@, mmt_itin),
            ("mmt_trip"@, pick(hr, "R"@, "O"@)),
        ]
    } else if k == 2 {
        seq![
            ("kiwi_ret"@, pick(hr, ret, "no-return"@)),
            ("ret_ymd"@, no_dashes(ret)),
            ("sky_rtn"@, pick(hr, "1"@, "0"@)),
            ("yymmdd"@, yymmdd),
            ("adults"@, decimal(adults)),
            ("ret_us"@, pick(hr, us_spec(ret), Seq::empty())),
            ("tvldt"@, tvldt_spec(date)),
            ("date"@, date),
            ("dmon"@, dmon_spec(date)),
            ("trip"@, pick(hr, "roundtrip"@, "oneway"@)),
        ]
    } else {
        seq![
            ("ret"@, ret),
            ("ymd"@, no_dashes(date)),
            ("mmt"@, mmt_spec(date)),
            ("ol"@, to_lower(o)),
            ("dl"@, to_lower(d)),
            ("ob"@, booking_point_spec(o)),
            ("db"@, booking_point_spec(d)),
            ("us"@, us_spec(date)),
            ("o"@, o),
            ("d"@, d),
            ("q"@, pct_encode(encode_utf8(search_phrase(o, d, date, ret)))),
        ]
    }
}

/// A template with each `{key}` replaced by its value, keys in the order given.
pub open spec fn subst_spec(tmpl: Seq<char>, ctx: Seq<(Seq<char>, Seq<char>)>) -> Seq<char>
    decreases ctx.len(),
{
    if ctx.len() == 0 {
        tmpl
    } else {
        replace_spec(subst_spec(tmpl, ctx.drop_last()), "{"@ + ctx.last().0 + "}"@, ctx.last().1)
    }
}

fn subst(tmpl: &str, ctx: &Vec<(String, String)>) -> (r: String)
    ensures
        r@ == subst_spec(tmpl@, pair_views(ctx@)),
{
    let mut out = tmpl.to_owned();
    let mut i: usize = 0;
    while i < ctx.len()
        invariant
            i <= ctx@.len(),
            out@ == subst_spec(tmpl@, pair_views(ctx@).subrange(0, i as int)),
        decreases ctx@.len() - i,
    {
        assert(pair_views(ctx@).subrange(0, i + 1).drop_last() =~= pair_views(ctx@).subrange(0, i as int));
        let a = cat("{", ctx[i].0.as_str());
        let pat = cat(a.as_str(), "}");
        assert(pat@.len() > 0) by { reveal_strlit("{"); }
        out = replace_all(out.as_str(), pat.as_str(), ctx[i].1.as_str());
        i = i + 1;
    }
    assert(pair_views(ctx@).subrange(0, ctx@.len() as int) =~= pair_views(ctx@));
    out
}

fn no_dash_text(s: &str) -> (r: String)
    ensures
        r@ == no_dashes(s@),
{
    proof { reveal_strlit("-"); reveal_strlit(""); }
    let r = replace_all(s, "-", "");
    assert(""@ =~= Seq::<char>::empty());
    r
}

fn after_text(s: &str, n: u128) -> (r: String)
    requires
        prefix_bytes(s@, n as int) is Some,
    ensures
        r@ == after_bytes(s@, n as int),
{
    let p = match byte_prefix(s, n) { Some(p) => p, None => String::new() };
    let x = chars_of(s);
    let k = p.as_str().unicode_len();
    proof { lemma_prefix_len(s@, n as int); }
    string_from(&x.as_slice()[k..x.len()])
}

proof fn lemma_prefix_len(s: Seq<char>, n: int)
    requires
        prefix_bytes(s, n) is Some,
    ensures
        prefix_bytes(s, n)->0.len() <= s.len(),
    decreases s.len(),
{
    if n != 0 {
        lemma_prefix_len(s.drop_first(), n - char_width(s[0]));
    }
}

fn booking_point(code: &str) -> (r: String)
    ensures
        r@ == booking_point_spec(code@),
{
    if metro_code_known(code) { cat(code, ".CITY") } else { cat(code, ".AIRPORT") }
}

fn sky_cabin(cabin_u: &str) -> (r: &'static str)
    ensures
        r@ == sky_cabin_spec(cabin_u@),
{
    if str_eq(cabin_u, "PREMIUM_ECONOMY") {
        "premiumeconomy"
    } else if str_eq(cabin_u, "BUSINESS") {
        "business"
    } else if str_eq(cabin_u, "FIRST") {
        "first"
    } else {
        "economy"
    }
}

fn pick_text(c: bool, a: String, b: String) -> (r: String)
    ensures
        r@ == pick(c, a@, b@),
{
    if c { a } else { b }
}

fn cat3(a: &str, b: &str, c: &str) -> (r: String)
    ensures
        r@ == a@ + b@ + c@,
{
    let x = cat(a, b);
    cat(x.as_str(), c)
}

/// Texts of a search whose byte cuts are all on character boundaries: a date of
/// ten bytes or more loses its first two bytes and its year its last two, and so
/// do return dates.
pub open spec fn links_ok(date: Seq<char>, ret: Seq<char>) -> bool {
    utf8_len(date) >= 10 ==> {
        &&& prefix_bytes(date, 2) is Some
        &&& year_cut_ok(date)
        &&& (utf8_len(ret) >= 10 ==> prefix_bytes(ret, 2) is Some)
        &&& (ret.len() > 0 ==> year_cut_ok(ret))
    }
}

fn ctx_values_0(o: &str, d: &str, date: &str, ret: &str, adults: i32, cabin_u: &str) -> (r: Vec<(String, String)>)
    requires
        utf8_len(date@) >= 10,
        links_ok(date@, ret@),
    ensures
        pair_views(r@) == ctx_part(0, o@, d@, date@, ret@, adults as int, cabin_u@),
{
    let hr = !ret.is_empty();
    let ad = int_text(adults as i64);
    let date_nd = no_dash_text(date);
    let ret_nd = no_dash_text(ret);
    let yymmdd = no_dash_text(after_text(date, 2).as_str());
    let ret_yymmdd = if byte_len(ret) >= 10 { no_dash_text(after_text(ret, 2).as_str()) } else { String::new() };
    let ol = lower(o);
    let dl = lower(d);
    let dmon = dmon_text(date);
    let us = us_text(date);
    let tv = tvldt_text(date);
    let mm = mmt_text(date);
    let od = cat3(o, "-", d);
    let do_ = cat3(d, "-", o);
    let kayak_adults = if adults <= 1 { String::new() } else { cat3("/", ad.as_str(), "adults") };
    let priceline = if hr {
        let a = cat3(od.as_str(), "-", date_nd.as_str());
        let b = cat3(a.as_str(), "/", do_.as_str());
        cat3(b.as_str(), "-", ret_nd.as_str())
    } else {
        cat3(od.as_str(), "-", date_nd.as_str())
    };
    let eo = cat3(ol.as_str(), "-", dl.as_str());
    let edreams = if hr {
        let a = cat3(eo.as_str(), "/", date);
        let b = cat3(a.as_str(), "/", ret);
        let c = cat3(b.as_str(), "/", ad.as_str());
        cat(c.as_str(), "-0-0/")
    } else {
        let a = cat3(eo.as_str(), "/", date);
        let c = cat3(a.as_str(), "/", ad.as_str());
        cat(c.as_str(), "-0-0/")
    };
    let mmt_itin = if hr {
        let a = cat3(od.as_str(), "-", mm.as_str());
        let b = cat3(a.as_str(), "_", do_.as_str());
        let mr = mmt_text(ret);
        cat3(b.as_str(), "-", mr.as_str())
    } else {
        cat3(od.as_str(), "-", mm.as_str())
    };
    let phrase = {
        let a = cat(if hr { "round trip" } else { "one way" }, " flights from ");
        let b = cat3(a.as_str(), o, " to ");
        let c = cat3(b.as_str(), d, " on ");
        let e = cat(c.as_str(), date);
        let tail = if hr { cat(" returning ", ret) } else { String::new() };
        cat(e.as_str(), tail.as_str())
    };
    let q = url_encode(phrase.as_str());
    let mut v: Vec<(String, String)> = Vec::new();
    v.push(("priceline_path".to_owned(), priceline));
    v.push(("despegar_kind".to_owned(), (if hr { "roundtrip" } else { "oneway" }).to_owned()));
    v.push(("kayak_adults".to_owned(), kayak_adults));
    v.push(("edreams_path".to_owned(), edreams));
    v.push(("despegar_ret".to_owned(), if hr { cat("/", ret) } else { String::new() }));
    v.push(("kayak_dates".to_owned(), if hr { cat3(date, "/", ret) } else { date.to_owned() }));
    v.push(("book_return".to_owned(), if hr { cat("&return=", ret) } else { String::new() }));
    v.push(("cheapo_trip".to_owned(), (if hr { "ROUNDTRIP" } else { "ONEWAY" }).to_owned()));
    v.push(("ret_yymmdd".to_owned(), ret_yymmdd.clone()));
    v.push(("wego_dates".to_owned(), if hr { cat3(dmon.as_str(), ":", ret) } else { cat(dmon.as_str(), ":ow") }));
    proof { reveal_strlit(""); }
    assert(""@ =~= Seq::<char>::empty());
    let ghost cs = ctx_part(0, o@, d@, date@, ret@, adults as int, cabin_u@);
    assert(pair_views(v@)[0] == cs[0]);
    assert(pair_views(v@)[1] == cs[1]);
    assert(pair_views(v@)[2] == cs[2]);
    assert(pair_views(v@)[3] == cs[3]);
    assert(pair_views(v@)[4] == cs[4]);
    assert(pair_views(v@)[5] == cs[5]);
    assert(pair_views(v@)[6] == cs[6]);
    assert(pair_views(v@)[7] == cs[7]);
    assert(pair_views(v@)[8] == cs[8]);
    assert(pair_views(v@)[9] == cs[9]);
    assert(pair_views(v@) =~= ctx_part(0, o@, d@, date@, ret@, adults as int, cabin_u@));
    v
}

fn ctx_values_1(o: &str, d: &str, date: &str, ret: &str, adults: i32, cabin_u: &str) -> (r: Vec<(String, String)>)
    requires
        utf8_len(date@) >= 10,
        links_ok(date@, ret@),
    ensures
        pair_views(r@) == ctx_part(1, o@, d@, date@, ret@, adults as int, cabin_u@),
{
    let hr = !ret.is_empty();
    let ad = int_text(adults as i64);
    let date_nd = no_dash_text(date);
    let ret_nd = no_dash_text(ret);
    let yymmdd = no_dash_text(after_text(date, 2).as_str());
    let ret_yymmdd = if byte_len(ret) >= 10 { no_dash_text(after_text(ret, 2).as_str()) } else { String::new() };
    let ol = lower(o);
    let dl = lower(d);
    let dmon = dmon_text(date);
    let us = us_text(date);
    let tv = tvldt_text(date);
    let mm = mmt_text(date);
    let od = cat3(o, "-", d);
    let do_ = cat3(d, "-", o);
    let kayak_adults = if adults <= 1 { String::new() } else { cat3("/", ad.as_str(), "adults") };
    let priceline = if hr {
        let a = cat3(od.as_str(), "-", date_nd.as_str());
        let b = cat3(a.as_str(), "/", do_.as_str());
        cat3(b.as_str(), "-", ret_nd.as_str())
    } else {
        cat3(od.as_str(), "-", date_nd.as_str())
    };
    let eo = cat3(ol.as_str(), "-", dl.as_str());
    let edreams = if hr {
        let a = cat3(eo.as_str(), "/", date);
        let b = cat3(a.as_str(), "/", ret);
        let c = cat3(b.as_str(), "/", ad.as_str());
        cat(c.as_str(), "-0-0/")
    } else {
        let a = cat3(eo.as_str(), "/", date);
        let c = cat3(a.as_str(), "/", ad.as_str());
        cat(c.as_str(), "-0-0/")
    };
    let mmt_itin = if hr {
        let a = cat3(od.as_str(), "-", mm.as_str());
        let b = cat3(a.as_str(), "_", do_.as_str());
        let mr = mmt_text(ret);
        cat3(b.as_str(), "-", mr.as_str())
    } else {
        cat3(od.as_str(), "-", mm.as_str())
    };
    let phrase = {
        let a = cat(if hr { "round trip" } else { "one way" }, " flights from ");
        let b = cat3(a.as_str(), o, " to ");
        let c = cat3(b.as_str(), d, " on ");
        let e = cat(c.as_str(), date);
        let tail = if hr { cat(" returning ", ret) } else { String::new() };
        cat(e.as_str(), tail.as_str())
    };
    let q = url_encode(phrase.as_str());
    let mut v: Vec<(String, String)> = Vec::new();
    v.push(("trip_adate".to_owned(), if hr { cat("&adate=", ret) } else { String::new() }));
    v.push(("cheapo_ret".to_owned(), if hr { cat("&toDt=", us_text(ret).as_str()) } else { String::new() }));
    v.push(("tvldt_pair".to_owned(), if hr { cat3(tv.as_str(), ".", tvldt_text(ret).as_str()) } else { cat(tv.as_str(), ".NA") }));
    v.push(("flighttype".to_owned(), (if hr { "rt" } else { "ow" }).to_owned()));
    v.push(("book_cabin".to_owned(), cabin_u.to_owned()));
    v.push(("book_type".to_owned(), (if hr { "ROUNDTRIP" } else { "ONEWAY" }).to_owned()));
    v.push(("sky_cabin".to_owned(), sky_cabin(cabin_u).to_owned()));
    let sky_path = if hr {
        let a = cat3(yymmdd.as_str(), "/", ret_yymmdd.as_str());
        cat(a.as_str(), "/")
    } else {
        cat(yymmdd.as_str(), "/")
    };
    v.push(("sky_path".to_owned(), sky_path));
    v.push(("mmt_itin".to_owned(), mmt_itin));
    v.push(("mmt_trip".to_owned(), (if hr { "R" } else { "O" }).to_owned()));
    proof { reveal_strlit(""); }
    assert(""@ =~= Seq::<char>::empty());
    let ghost cs = ctx_part(1, o@, d@, date@, ret@, adults as int, cabin_u@);
    assert(pair_views(v@)[0] == cs[0]);
    assert(pair_views(v@)[1] == cs[1]);
    assert(pair_views(v@)[2] == cs[2]);
    assert(pair_views(v@)[3] == cs[3]);
    assert(pair_views(v@)[4] == cs[4]);
    assert(pair_views(v@)[5] == cs[5]);
    assert(pair_views(v@)[6] == cs[6]);
    assert(pair_views(v@)[7] == cs[7]);
    assert(pair_views(v@)[8] == cs[8]);
    assert(pair_views(v@)[9] == cs[9]);
    assert(pair_views(v@) =~= ctx_part(1, o@, d@, date@, ret@, adults as int, cabin_u@));
    v
}

fn ctx_values_2(o: &str, d: &str, date: &str, ret: &str, adults: i32, cabin_u: &str) -> (r: Vec<(String, String)>)
    requires
        utf8_len(date@) >= 10,
        links_ok(date@, ret@),
    ensures
        pair_views(r@) == ctx_part(2, o@, d@, date@, ret@, adults as int, cabin_u@),
{
    let hr = !ret.is_empty();
    let ad = int_text(adults as i64);
    let date_nd = no_dash_text(date);
    let ret_nd = no_dash_text(ret);
    let yymmdd = no_dash_text(after_text(date, 2).as_str());
    let ret_yymmdd = if byte_len(ret) >= 10 { no_dash_text(after_text(ret, 2).as_str()) } else { String::new() };
    let ol = lower(o);
    let dl = lower(d);
    let dmon = dmon_text(date);
    let us = us_text(date);
    let tv = tvldt_text(date);
    let mm = mmt_text(date);
    let od = cat3(o, "-", d);
    let do_ = cat3(d, "-", o);
    let kayak_adults = if adults <= 1 { String::new() } else { cat3("/", ad.as_str(), "adults") };
    let priceline = if hr {
        let a = cat3(od.as_str(), "-", date_nd.as_str());
        let b = cat3(a.as_str(), "/", do_.as_str());
        cat3(b.as_str(), "-", ret_nd.as_str())
    } else {
        cat3(od.as_str(), "-", date_nd.as_str())
    };
    let eo = cat3(ol.as_str(), "-", dl.as_str());
    let edreams = if hr {
        let a = cat3(eo.as_str(), "/", date);
        let b = cat3(a.as_str(), "/", ret);
        let c = cat3(b.as_str(), "/", ad.as_str());
        cat(c.as_str(), "-0-0/")
    } else {
        let a = cat3(eo.as_str(), "/", date);
        let c = cat3(a.as_str(), "/", ad.as_str());
        cat(c.as_str(), "-0-0/")
    };
    let mmt_itin = if hr {
        let a = cat3(od.as_str(), "-", mm.as_str());
        let b = cat3(a.as_str(), "_", do_.as_str());
        let mr = mmt_text(ret);
        cat3(b.as_str(), "-", mr.as_str())
    } else {
        cat3(od.as_str(), "-", mm.as_str())
    };
    let phrase = {
        let a = cat(if hr { "round trip" } else { "one way" }, " flights from ");
        let b = cat3(a.as_str(), o, " to ");
        let c = cat3(b.as_str(), d, " on ");
        let e = cat(c.as_str(), date);
        let tail = if hr { cat(" returning ", ret) } else { String::new() };
        cat(e.as_str(), tail.as_str())
    };
    let q = url_encode(phrase.as_str());
    let mut v: Vec<(String, String)> = Vec::new();
    v.push(("kiwi_ret".to_owned(), if hr { ret.to_owned() } else { "no-return".to_owned() }));
    v.push(("ret_ymd".to_owned(), ret_nd));
    v.push(("sky_rtn".to_owned(), (if hr { "1" } else { "0" }).to_owned()));
    v.push(("yymmdd".to_owned(), yymmdd));
    v.push(("adults".to_owned(), ad));
    v.push(("ret_us".to_owned(), if hr { us_text(ret) } else { String::new() }));
    v.push(("tvldt".to_owned(), tv));
    v.push(("date".to_owned(), date.to_owned()));
    v.push(("dmon".to_owned(), dmon));
    v.push(("trip".to_owned(), (if hr { "roundtrip" } else { "oneway" }).to_owned()));
    proof { reveal_strlit(""); }
    assert(""@ =~= Seq::<char>::empty());
    assert(pair_views(v@) =~= ctx_part(2, o@, d@, date@, ret@, adults as int, cabin_u@));
    v
}

fn ctx_values_3(o: &str, d: &str, date: &str, ret: &str, adults: i32, cabin_u: &str) -> (r: Vec<(String, String)>)
    requires
        utf8_len(date@) >= 10,
        links_ok(date@, ret@),
    ensures
        pair_views(r@) == ctx_part(3, o@, d@, date@, ret@, adults as int, cabin_u@),
{
    let hr = !ret.is_empty();
    let ad = int_text(adults as i64);
    let date_nd = no_dash_text(date);
    let ret_nd = no_dash_text(ret);
    let yymmdd = no_dash_text(after_text(date, 2).as_str());
    let ret_yymmdd = if byte_len(ret) >= 10 { no_dash_text(after_text(ret, 2).as_str()) } else { String::new() };
    let ol = lower(o);
    let dl = lower(d);
    let dmon = dmon_text(date);
    let us = us_text(date);
    let tv = tvldt_text(date);
    let mm = mmt_text(date);
    let od = cat3(o, "-", d);
    let do_ = cat3(d, "-", o);
    let kayak_adults = if adults <= 1 { String::new() } else { cat3("/", ad.as_str(), "adults") };
    let priceline = if hr {
        let a = cat3(od.as_str(), "-", date_nd.as_str());
        let b = cat3(a.as_str(), "/", do_.as_str());
        cat3(b.as_str(), "-", ret_nd.as_str())
    } else {
        cat3(od.as_str(), "-", date_nd.as_str())
    };
    let eo = cat3(ol.as_str(), "-", dl.as_str());
    let edreams = if hr {
        let a = cat3(eo.as_str(), "/", date);
        let b = cat3(a.as_str(), "/", ret);
        let c = cat3(b.as_str(), "/", ad.as_str());
        cat(c.as_str(), "-0-0/")
    } else {
        let a = cat3(eo.as_str(), "/", date);
        let c = cat3(a.as_str(), "/", ad.as_str());
        cat(c.as_str(), "-0-0/")
    };
    let mmt_itin = if hr {
        let a = cat3(od.as_str(), "-", mm.as_str());
        let b = cat3(a.as_str(), "_", do_.as_str());
        let mr = mmt_text(ret);
        cat3(b.as_str(), "-", mr.as_str())
    } else {
        cat3(od.as_str(), "-", mm.as_str())
    };
    let phrase = {
        let a = cat(if hr { "round trip" } else { "one way" }, " flights from ");
        let b = cat3(a.as_str(), o, " to ");
        let c = cat3(b.as_str(), d, " on ");
        let e = cat(c.as_str(), date);
        let tail = if hr { cat(" returning ", ret) } else { String::new() };
        cat(e.as_str(), tail.as_str())
    };
    let q = url_encode(phrase.as_str());
    let mut v: Vec<(String, String)> = Vec::new();
    v.push(("ret".to_owned(), ret.to_owned()));
    v.push(("ymd".to_owned(), date_nd));
    v.push(("mmt".to_owned(), mm));
    v.push(("ol".to_owned(), ol));
    v.push(("dl".to_owned(), dl));
    v.push(("ob".to_owned(), booking_point(o)));
    v.push(("db".to_owned(), booking_point(d)));
    v.push(("us".to_owned(), us));
    v.push(("o".to_owned(), o.to_owned()));
    v.push(("d".to_owned(), d.to_owned()));
    v.push(("q".to_owned(), q));
    proof { reveal_strlit(""); }
    assert(""@ =~= Seq::<char>::empty());
    assert(pair_views(v@) =~= ctx_part(3, o@, d@, date@, ret@, adults as int, cabin_u@));
    v
}

fn booker_ctx(o: &str, d: &str, date: &str, ret: &str, adults: i32, cabin_u: &str) -> (r: Vec<(String, String)>)
    requires
        utf8_len(date@) >= 10,
        links_ok(date@, ret@),
    ensures
        pair_views(r@) == ctx_spec(o@, d@, date@, ret@, adults as int, cabin_u@),
{
    let mut v = ctx_values_0(o, d, date, ret, adults, cabin_u);
    let mut b = ctx_values_1(o, d, date, ret, adults, cabin_u);
    let mut c = ctx_values_2(o, d, date, ret, adults, cabin_u);
    let mut e = ctx_values_3(o, d, date, ret, adults, cabin_u);
    let ghost (va, vb, vc, ve) = (v@, b@, c@, e@);
    v.append(&mut b);
    v.append(&mut c);
    v.append(&mut e);
    assert(pair_views(v@) =~= pair_views(va) + pair_views(vb) + pair_views(vc) + pair_views(ve));
    v
}

/// A link by its texts: id, name, layer, role, address, whether the site issues the
/// ticket.
pub type LinkRow = (Seq<char>, Seq<char>, Seq<char>, Seq<char>, Seq<char>, bool);

/// A link by its texts.
pub open spec fn link_row(b: BookerLink) -> LinkRow {
    (b.id@, b.name@, b.layer@, b.role@, b.url@, b.issues_ticket)
}

/// Expedia's round-trip search address.
pub open spec fn expedia_round_trip(o: Seq<char>, d: Seq<char>, us: Seq<char>, ret_us: Seq<char>, adults: int) -> Seq<char> {
    "https://www.expedia.com/Flights-Search?flight-type=on&mode=search&trip=roundtrip&leg1=from:"@ + o + ",to:"@ + d
        + ",departure:"@ + us + "TANYT&leg2=from:"@ + d + ",to:"@ + o + ",departure:"@ + ret_us
        + "TANYT&passengers=adults:"@ + decimal(adults) + ",children:0,infantinlap:N"@
}

/// The role text of a carrier link.
pub open spec fn carrier_role() -> Seq<char> {
    "Carrier name comes from the airline table. Link is a metasearch prefilter, not a PNR on the airline host."@
}

/// The search address of a site for a trip (upper-case airports `o` and `d`).
pub open spec fn site_url(row: MetaRow, o: Seq<char>, d: Seq<char>, date: Seq<char>, ccy: Seq<char>, adults: int,
    cabin_u: Seq<char>, ret_opt: Option<Seq<char>>) -> Seq<char>
{
    let ret = match ret_opt { Some(r) => r, None => Seq::empty() };
    if row.0 == "google-flights"@ {
        google_url_spec(o, d, date, ccy, adults, cabin_u, ret_opt)
    } else if row.0 == "expedia"@ && ret.len() > 0 {
        expedia_round_trip(o, d, us_spec(date), us_spec(ret), adults)
    } else {
        subst_spec(row.5, ctx_spec(o, d, date, ret, adults, cabin_u))
    }
}

/// The links to the direct sites of airlines (code upper-cased), skipping codes
/// shorter than two bytes and test carriers; each goes to the Google search.
pub open spec fn carrier_rows(airlines: Seq<(Seq<char>, Seq<char>)>, google: Seq<char>) -> Seq<LinkRow>
    decreases airlines.len(),
{
    if airlines.len() == 0 {
        Seq::empty()
    } else {
        let init = carrier_rows(airlines.drop_last(), google);
        let (iata, name) = airlines.last();
        let code = to_upper(iata);
        if utf8_len(code) < 2 || test_carrier(code) {
            init
        } else {
            init.push(("carrier-"@ + code, name + " ("@ + code + ")"@, "airline-direct"@, carrier_role(), google, false))
        }
    }
}

/// Every booking link for a trip: one per site, in the order of the sites, then the
/// carrier links; none for a date shorter than ten bytes.
pub open spec fn booker_rows(origin: Seq<char>, dest: Seq<char>, date: Seq<char>, adults: int,
    airlines: Seq<(Seq<char>, Seq<char>)>, currency: Seq<char>, cabin: Seq<char>, ret_opt: Option<Seq<char>>) -> Seq<LinkRow>
{
    let o = to_upper(origin);
    let d = to_upper(dest);
    let ccy = to_upper(if currency.len() == 0 { "USD"@ } else { currency });
    let cabin_u = to_upper(if cabin.len() == 0 { "ECONOMY"@ } else { cabin });
    if utf8_len(date) < 10 {
        Seq::empty()
    } else {
        Seq::new(meta_rows().len(), |i: int| {
            let row = meta_rows()[i];
            (row.0, row.1, row.2, row.3, site_url(row, o, d, date, ccy, adults, cabin_u, ret_opt), row.4)
        }) + carrier_rows(airlines, google_url_spec(o, d, date, ccy, adults, cabin_u, ret_opt))
    }
}

fn expedia_text(o: &str, d: &str, us: &str, ret_us: &str, adults: i32) -> (r: String)
    ensures
        r@ == expedia_round_trip(o@, d@, us@, ret_us@, adults as int),
{
    let a = cat("https://www.expedia.com/Flights-Search?flight-type=on&mode=search&trip=roundtrip&leg1=from:", o);
    let b = cat3(a.as_str(), ",to:", d);
    let c = cat3(b.as_str(), ",departure:", us);
    let e = cat3(c.as_str(), "TANYT&leg2=from:", d);
    let f = cat3(e.as_str(), ",to:", o);
    let g = cat3(f.as_str(), ",departure:", ret_us);
    let h = cat3(g.as_str(), "TANYT&passengers=adults:", int_text(adults as i64).as_str());
    cat(h.as_str(), ",children:0,infantinlap:N")
}

/// See [`booker_rows`].
pub fn booker_links(origin: &str, dest: &str, date: &str, adults: i32, airlines: &[(String, String)],
    currency: &str, cabin: &str, return_date: Option<&str>) -> (r: Vec<BookerLink>)
    requires
        links_ok(date@, match return_date { Some(t) => t@, None => Seq::empty() }),
    ensures
        r@.map_values(|b: BookerLink| link_row(b))
            == booker_rows(origin@, dest@, date@, adults as int, airlines@.map_values(|p: (String, String)| (p.0@, p.1@)),
                currency@, cabin@, opt_text(return_date)),
{
    let o = upper(origin);
    let d = upper(dest);
    let ccy = if currency.is_empty() { upper("USD") } else { upper(currency) };
    let cabin_u = if cabin.is_empty() { upper("ECONOMY") } else { upper(cabin) };
    if byte_len(date) < 10 {
        let v: Vec<BookerLink> = Vec::new();
        assert(v@.map_values(|b: BookerLink| link_row(b)) =~= Seq::<LinkRow>::empty());
        return v;
    }
    proof { reveal_strlit(""); }
    let ret: &str = match return_date { Some(t) => t, None => "" };
    assert(ret@ == (match return_date { Some(t) => t@, None => Seq::<char>::empty() }));
    let ctx = booker_ctx(o.as_str(), d.as_str(), date, ret, adults, cabin_u.as_str());
    let table = meta_table();
    let ghost rows = booker_rows(origin@, dest@, date@, adults as int, airlines@.map_values(|p: (String, String)| (p.0@, p.1@)),
        currency@, cabin@, opt_text(return_date));
    let mut links: Vec<BookerLink> = Vec::new();
    let mut i: usize = 0;
    while i < table.len()
        invariant
            i <= table@.len(),
            table@.len() == meta_rows().len(),
            forall|k: int| 0 <= k < table@.len() ==> meta_row(#[trigger] table@[k]) == meta_rows()[k],
            links@.len() == i,
            pair_views(ctx@) == ctx_spec(o@, d@, date@, ret@, adults as int, cabin_u@),
            o@ == to_upper(origin@),
            d@ == to_upper(dest@),
            ccy@ == to_upper(if currency@.len() == 0 { "USD"@ } else { currency@ }),
            cabin_u@ == to_upper(if cabin@.len() == 0 { "ECONOMY"@ } else { cabin@ }),
            ret@ == (match return_date { Some(t) => t@, None => Seq::<char>::empty() }),
            links_ok(date@, ret@),
            utf8_len(date@) >= 10,
            forall|k: int| 0 <= k < i ==> link_row(#[trigger] links@[k]) == {
                let row = meta_rows()[k];
                (row.0, row.1, row.2, row.3, site_url(row, o@, d@, date@, ccy@, adults as int, cabin_u@, opt_text(return_date)), row.4)
            },
        decreases table@.len() - i,
    {
        let m = &table[i];
        assert(meta_row(table@[i as int]) == meta_rows()[i as int]);
        let url = if str_eq(m.id, "google-flights") {
            google_flights_url(o.as_str(), d.as_str(), date, ccy.as_str(), adults, cabin_u.as_str(), return_date)
        } else if str_eq(m.id, "expedia") && !ret.is_empty() {
            let us = us_text(date);
            let rus = us_text(ret);
            expedia_text(o.as_str(), d.as_str(), us.as_str(), rus.as_str(), adults)
        } else {
            subst(m.tmpl, &ctx)
        };
        links.push(BookerLink {
            id: m.id.to_owned(),
            name: m.name.to_owned(),
            layer: m.layer.to_owned(),
            role: m.role.to_owned(),
            url,
            issues_ticket: m.issues,
        });
        i = i + 1;
    }
    let google = google_flights_url(o.as_str(), d.as_str(), date, ccy.as_str(), adults, cabin_u.as_str(), return_date);
    let ghost head = links@.map_values(|b: BookerLink| link_row(b));
    let ghost al = airlines@.map_values(|p: (String, String)| (p.0@, p.1@));
    assert(head =~= rows.subrange(0, meta_rows().len() as int));
    let mut j: usize = 0;
    while j < airlines.len()
        invariant
            j <= airlines@.len(),
            al == airlines@.map_values(|p: (String, String)| (p.0@, p.1@)),
            links@.map_values(|b: BookerLink| link_row(b)) == head + carrier_rows(al.subrange(0, j as int), google@),
        decreases airlines@.len() - j,
    {
        assert(al.subrange(0, j + 1).drop_last() =~= al.subrange(0, j as int));
        let code = upper(airlines[j].0.as_str());
        if byte_len(code.as_str()) >= 2 && !is_test_carrier(code.as_str()) {
            let ghost before = links@.map_values(|b: BookerLink| link_row(b));
            let name = cat3(airlines[j].1.as_str(), " (", code.as_str());
            let link = BookerLink {
                id: cat("carrier-", code.as_str()),
                name: cat(name.as_str(), ")"),
                layer: "airline-direct".to_owned(),
                role: "Carrier name comes from the airline table. Link is a metasearch prefilter, not a PNR on the airline host.".to_owned(),
                url: google.clone(),
                issues_ticket: false,
            };
            links.push(link);
            assert(links@.map_values(|b: BookerLink| link_row(b)) =~= before.push(link_row(links@.last())));
        }
        j = j + 1;
    }
    assert(al.subrange(0, airlines@.len() as int) =~= al);
    links
}

/// The continent of an optional place (empty without one).
pub open spec fn geo_continent(g: Option<(&str, &str)>) -> Seq<char> {
    match g { Some(p) => p.0@, None => Seq::empty() }
}

/// The country of an optional place (empty without one).
pub open spec fn geo_country(g: Option<(&str, &str)>) -> Seq<char> {
    match g { Some(p) => p.1@, None => Seq::empty() }
}

/// The featured links of a trip: all booking links without carrier links, then the
/// five that belong on the city pair (origin and destination given as continent
/// and country, or nothing).
pub fn featured_booker_links(origin: &str, dest: &str, date: &str, adults: i32, currency: &str, cabin: &str,
    return_date: Option<&str>, origin_geo: Option<(&str, &str)>, dest_geo: Option<(&str, &str)>) -> (r: Vec<BookerLink>)
    requires
        links_ok(date@, match return_date { Some(t) => t@, None => Seq::empty() }),
    ensures
        exists|links: Seq<BookerLink>|
            links.map_values(|b: BookerLink| link_row(b))
                == booker_rows(origin@, dest@, date@, adults as int, Seq::empty(), currency@, cabin@, opt_text(return_date))
            && r@ == #[trigger] featured_spec(links, geo_continent(origin_geo), geo_country(origin_geo),
                geo_continent(dest_geo), geo_country(dest_geo), 5),
{
    let none: Vec<(String, String)> = Vec::new();
    let links = booker_links(origin, dest, date, adults, none.as_slice(), currency, cabin, return_date);
    assert(none@.map_values(|p: (String, String)| (p.0@, p.1@)) =~= Seq::<(Seq<char>, Seq<char>)>::empty());
    let ghost lv = links@;
    proof { reveal_strlit(""); }
    let (oc, oiso) = match origin_geo { Some(g) => g, None => ("", "") };
    let (dc, diso) = match dest_geo { Some(g) => g, None => ("", "") };
    assert(""@ =~= Seq::<char>::empty());
    assert(oc@ == geo_continent(origin_geo) && oiso@ == geo_country(origin_geo));
    assert(dc@ == geo_continent(dest_geo) && diso@ == geo_country(dest_geo));
    let r = featured_bookers(links, oc, oiso, dc, diso, 5);
    assert(r@ == featured_spec(lv, geo_continent(origin_geo), geo_country(origin_geo),
        geo_continent(dest_geo), geo_country(dest_geo), 5));
    r
}

} // verus!
