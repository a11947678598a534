//! Outbound links: flight trackers and the Google Flights search address, whose
//! `tfs` parameter is a small protocol-buffer message in URL-safe base64.
use vstd::prelude::*;
use vstd::utf8::encode_utf8;
use base64::Engine;
use crate::text::{to_upper, upper, to_lower, lower, cat, decimal, int_text, str_eq};
use crate::models::{TrackerLink, Airport};

verus! {

/// The links to live flight trackers for an airport: OpenSky, then the
/// Flightradar24 departures board (lower-case IATA code), then FlightAware (the
/// upper-case ICAO code, or the IATA code when no ICAO code is given).
pub fn tracker_links(iata: &str, icao: &str) -> (r: Vec<TrackerLink>)
    ensures
        r@.len() == 3,
        r@[0].id@ == "opensky"@,
        r@[0].name@ == "OpenSky Network"@,
        r@[0].layer@ == "live-track"@,
        r@[0].role@ == "Crowd ADS-B/MLAT state vectors. This is tracking, not booking."@,
        r@[0].url@ == "https://opensky-network.org/"@,
        r@[1].id@ == "flightradar24"@,
        r@[1].name@ == "Flightradar24 departures"@,
        r@[1].layer@ == "live-track-link"@,
        r@[1].role@ == "Commercial tracker board. We do not ingest their feed."@,
        r@[1].url@ == "https://www.flightradar24.com/airport/"@ + to_lower(to_upper(iata@)) + "/departures"@,
        r@[2].id@ == "flightaware"@,
        r@[2].name@ == "FlightAware airport"@,
        r@[2].layer@ == "live-track-link"@,
        r@[2].role@ == "Commercial status/tracker. We do not call AeroAPI."@,
        r@[2].url@ == "https://www.flightaware.com/live/airport/"@
            + (if icao@.len() == 0 { to_upper(iata@) } else { to_upper(icao@) }),
{
    let up = upper(iata);
    let code = if icao.is_empty() { up.clone() } else { upper(icao) };
    let low = lower(up.as_str());
    let fr = cat("https://www.flightradar24.com/airport/", low.as_str());
    let mut v: Vec<TrackerLink> = Vec::new();
    v.push(TrackerLink {
        id: "opensky".to_owned(),
        name: "OpenSky Network".to_owned(),
        layer: "live-track".to_owned(),
        role: "Crowd ADS-B/MLAT state vectors. This is tracking, not booking.".to_owned(),
        url: "https://opensky-network.org/".to_owned(),
    });
    v.push(TrackerLink {
        id: "flightradar24".to_owned(),
        name: "Flightradar24 departures".to_owned(),
        layer: "live-track-link".to_owned(),
        role: "Commercial tracker board. We do not ingest their feed.".to_owned(),
        url: cat(fr.as_str(), "/departures"),
    });
    v.push(TrackerLink {
        id: "flightaware".to_owned(),
        name: "FlightAware airport".to_owned(),
        layer: "live-track-link".to_owned(),
        role: "Commercial status/tracker. We do not call AeroAPI.".to_owned(),
        url: cat("https://www.flightaware.com/live/airport/", code.as_str()),
    });
    v
}

/// The continent and the country code of an airport.
pub fn airport_geo(ap: &Airport) -> (r: (&str, &str))
    ensures
        r.0@ == ap.continent@,
        r.1@ == ap.country@,
{
    (ap.continent.as_str(), ap.country.as_str())
}

/// The base-64 digit for a value below 64, in the URL-safe alphabet.
pub open spec fn b64_digit(v: int) -> char {
    if v < 26 {
        (65 + v) as char
    } else if v < 52 {
        (97 + v - 26) as char
    } else if v < 62 {
        (48 + v - 52) as char
    } else if v == 62 {
        '-'
    } else {
        '_'
    }
}

/// URL-safe base 64 without padding: each three bytes become four digits of six
/// bits, high bits first; a last one or two bytes become two or three digits, the
/// missing low bits zero.
pub open spec fn base64_url(b: Seq<u8>) -> Seq<char>
    decreases b.len(),
{
    if b.len() == 0 {
        Seq::empty()
    } else if b.len() == 1 {
        let n = b[0] as int;
        seq![b64_digit(n / 4), b64_digit((n % 4) * 16)]
    } else if b.len() == 2 {
        let n = (b[0] as int) * 256 + b[1] as int;
        seq![b64_digit(n / 1024), b64_digit((n / 16) % 64), b64_digit((n % 16) * 4)]
    } else {
        let n = (b[0] as int) * 65536 + (b[1] as int) * 256 + b[2] as int;
        seq![b64_digit(n / 262144), b64_digit((n / 4096) % 64), b64_digit((n / 64) % 64), b64_digit(n % 64)]
            + base64_url(b.subrange(3, b.len() as int))
    }
}

/// Encodes bytes with base64's `URL_SAFE_NO_PAD` engine (`Engine::encode`), which
/// gives the URL-safe alphabet without `=` padding, as `base64_url` states. The
/// engine panics only when the output length overflows `usize`, which no vector
/// (at most `isize::MAX` bytes) reaches.
#[verifier::external_body]
fn url_safe_base64(bytes: &Vec<u8>) -> (r: String)
    ensures
        r@ == base64_url(bytes@),
{
    base64::engine::general_purpose::URL_SAFE_NO_PAD.encode(bytes)
}

/// The base-128 varint of a number: seven bits per byte, low bits first, the high
/// bit set on every byte but the last.
pub open spec fn varint_spec(n: nat) -> Seq<u8>
    decreases n,
{
    if n < 128 {
        seq![n as u8]
    } else {
        seq![(n % 128 + 128) as u8] + varint_spec(n / 128)
    }
}

/// A signed 64-bit number as the unsigned one with the same bits.
pub open spec fn as_unsigned(n: int) -> nat {
    if n < 0 { (n + 0x1_0000_0000_0000_0000) as nat } else { n as nat }
}

/// The key of a field: its number times eight plus the wire type.
pub open spec fn key_spec(field: nat, wire: nat) -> Seq<u8> {
    varint_spec(field * 8 + wire)
}

/// A length-delimited field.
pub open spec fn ld_spec(field: nat, payload: Seq<u8>) -> Seq<u8> {
    key_spec(field, 2) + varint_spec(payload.len()) + payload
}

/// A varint field.
pub open spec fn var_spec(field: nat, n: int) -> Seq<u8> {
    key_spec(field, 0) + varint_spec(as_unsigned(n))
}

/// A text field (its UTF-8 bytes).
pub open spec fn str_field_spec(field: nat, s: Seq<char>) -> Seq<u8> {
    ld_spec(field, encode_utf8(s))
}

/// An airport reference: kind one, then the upper-case code.
pub open spec fn place_spec(code: Seq<char>) -> Seq<u8> {
    var_spec(1, 1) + str_field_spec(2, to_upper(code))
}

/// One leg: its date, then where it leaves from and where it goes.
pub open spec fn leg_spec(date: Seq<char>, from: Seq<char>, to: Seq<char>) -> Seq<u8> {
    str_field_spec(2, date) + ld_spec(13, place_spec(from)) + ld_spec(14, place_spec(to))
}

/// A byte string repeated `n` times.
pub open spec fn repeat(b: Seq<u8>, n: nat) -> Seq<u8>
    decreases n,
{
    if n == 0 { Seq::empty() } else { repeat(b, (n - 1) as nat) + b }
}

/// The adult count the search carries: at least one and at most nine.
pub open spec fn adult_slots(adults: int) -> nat {
    if adults < 1 { 1 } else if adults > 9 { 9 } else { adults as nat }
}

/// The Google Flights search message before encoding.
pub open spec fn tfs_body(origin: Seq<char>, dest: Seq<char>, date: Seq<char>, adults: int, cabin: int,
    ret: Option<Seq<char>>) -> Seq<u8>
{
    var_spec(1, 28) + var_spec(2, 2) + ld_spec(3, leg_spec(date, origin, dest))
        + (match ret { Some(r) => ld_spec(3, leg_spec(r, dest, origin)), None => Seq::empty() })
        + repeat(var_spec(8, 1), adult_slots(adults))
        + var_spec(9, cabin)
        + var_spec(14, 1)
        + ld_spec(16, var_spec(1, -1))
        + var_spec(19, 2)
}

/// Texts short enough for the search message to stay small.
pub open spec fn tfs_fits(origin: Seq<char>, dest: Seq<char>, date: Seq<char>, ret: Option<Seq<char>>) -> bool {
    &&& encode_utf8(to_upper(origin)).len() < 0x100_0000
    &&& encode_utf8(to_upper(dest)).len() < 0x100_0000
    &&& encode_utf8(date).len() < 0x100_0000
    &&& (ret matches Some(r) ==> encode_utf8(r).len() < 0x100_0000)
}

fn varint(n: u64) -> (r: Vec<u8>)
    ensures
        r@ == varint_spec(n as nat),
{
    let mut out: Vec<u8> = Vec::new();
    let mut m: u64 = n;
    loop
        invariant
            out@ + varint_spec(m as nat) == varint_spec(n as nat),
        decreases m,
    {
        let bit: u8 = (m % 128) as u8;
        let next = m / 128;
        if next != 0 {
            let ghost before = out@;
            out.push(bit + 128);
            assert(out@ + varint_spec(next as nat) =~= before + varint_spec(m as nat));
            m = next;
        } else {
            let ghost before = out@;
            out.push(bit);
            assert(out@ =~= before + varint_spec(m as nat));
            return out;
        }
    }
}

fn key(field: u64, wire: u64) -> (r: Vec<u8>)
    requires
        field < 0x1000,
        wire < 8,
    ensures
        r@ == key_spec(field as nat, wire as nat),
{
    varint(field * 8 + wire)
}

fn bytes_of(s: &str) -> (r: Vec<u8>)
    ensures
        r@ == encode_utf8(s@),
{
    let b = s.as_bytes();
    let mut out: Vec<u8> = Vec::new();
    let mut i: usize = 0;
    while i < b.len()
        invariant
            b@ == encode_utf8(s@),
            i <= b@.len(),
            out@ == b@.subrange(0, i as int),
        decreases b@.len() - i,
    {
        out.push(b[i]);
        i = i + 1;
        assert(out@ =~= b@.subrange(0, i as int));
    }
    assert(out@ =~= b@);
    out
}

fn ld(field: u64, payload: Vec<u8>) -> (r: Vec<u8>)
    requires
        field < 0x1000,
    ensures
        r@ == ld_spec(field as nat, payload@),
{
    let mut out = key(field, 2);
    let mut len = varint(payload.len() as u64);
    let mut rest = payload;
    out.append(&mut len);
    out.append(&mut rest);
    out
}

fn var(field: u64, n: i64) -> (r: Vec<u8>)
    requires
        field < 0x1000,
    ensures
        r@ == var_spec(field as nat, n as int),
{
    let u: u64 = if n >= 0 { n as u64 } else { u64::MAX - ((-(n + 1)) as u64) };
    let mut out = key(field, 0);
    let mut v = varint(u);
    out.append(&mut v);
    out
}

fn str_field(field: u64, value: &str) -> (r: Vec<u8>)
    requires
        field < 0x1000,
    ensures
        r@ == str_field_spec(field as nat, value@),
{
    ld(field, bytes_of(value))
}

fn place(code: &str) -> (r: Vec<u8>)
    ensures
        r@ == place_spec(code@),
{
    let mut out = var(1, 1);
    let up = upper(code);
    let mut f = str_field(2, up.as_str());
    out.append(&mut f);
    out
}

/// The Google Flights search message for a trip, in URL-safe base 64.
pub fn google_tfs(origin: &str, dest: &str, date: &str, adults: i32, cabin: i32, return_date: Option<&str>) -> (r: String)
    ensures
        r@ == base64_url(tfs_body(origin@, dest@, date@, adults as int, cabin as int, opt_text(return_date))),
{
    let mut outbound = str_field(2, date);
    let mut p1 = ld(13, place(origin));
    let mut p2 = ld(14, place(dest));
    outbound.append(&mut p1);
    outbound.append(&mut p2);
    let mut body = var(1, 28);
    let mut x = var(2, 2);
    body.append(&mut x);
    let mut x = ld(3, outbound);
    body.append(&mut x);
    let ghost head = body@;
    match return_date {
        Some(ret) => {
            let mut inbound = str_field(2, ret);
            let mut q1 = ld(13, place(dest));
            let mut q2 = ld(14, place(origin));
            inbound.append(&mut q1);
            inbound.append(&mut q2);
            let mut x = ld(3, inbound);
            body.append(&mut x);
        },
        None => {
            assert(body@ =~= head + Seq::<u8>::empty());
        },
    }
    let slots: i32 = if adults < 1 { 1 } else if adults > 9 { 9 } else { adults };
    let ghost before = body@;
    let mut k: i32 = 0;
    while k < slots
        invariant
            0 <= k <= slots,
            body@ == before + repeat(var_spec(8, 1), k as nat),
        decreases slots - k,
    {
        let mut x = var(8, 1);
        body.append(&mut x);
        k = k + 1;
        assert(body@ =~= before + repeat(var_spec(8, 1), k as nat));
    }
    let mut x = var(9, cabin as i64);
    body.append(&mut x);
    let mut x = var(14, 1);
    body.append(&mut x);
    let mut x = ld(16, var(1, -1));
    body.append(&mut x);
    let mut x = var(19, 2);
    body.append(&mut x);
    assert(body@ =~= tfs_body(origin@, dest@, date@, adults as int, cabin as int, opt_text(return_date)));
    url_safe_base64(&body)
}

/// An optional text by its characters.
pub open spec fn opt_text(t: Option<&str>) -> Option<Seq<char>> {
    match t {
        Some(s) => Some(s@),
        None => None,
    }
}

/// The Google Flights cabin number: 2 premium economy, 3 business, 4 first, else 1
/// (by the upper-case name).
pub open spec fn google_cabin_spec(cabin: Seq<char>) -> int {
    let c = to_upper(cabin);
    if c == "PREMIUM_ECONOMY"@ {
        2
    } else if c == "BUSINESS"@ {
        3
    } else if c == "FIRST"@ {
        4
    } else {
        1
    }
}

fn google_cabin(cabin: &str) -> (r: i32)
    ensures
        r == google_cabin_spec(cabin@),
{
    let c = upper(cabin);
    if str_eq(c.as_str(), "PREMIUM_ECONOMY") {
        2
    } else if str_eq(c.as_str(), "BUSINESS") {
        3
    } else if str_eq(c.as_str(), "FIRST") {
        4
    } else {
        1
    }
}

/// The Google Flights address of a search: the message for the upper-case airports,
/// then English and the upper-case currency (USD when none is given).
pub open spec fn google_url_spec(origin: Seq<char>, dest: Seq<char>, date: Seq<char>, currency: Seq<char>,
    adults: int, cabin: Seq<char>, ret: Option<Seq<char>>) -> Seq<char>
{
    let ccy = to_upper(if currency.len() == 0 { "USD"@ } else { currency });
    "https://www.google.com/travel/flights/search?tfs="@
        + base64_url(tfs_body(to_upper(origin), to_upper(dest), date, adults, google_cabin_spec(cabin), ret))
        + "&hl=en&curr="@ + ccy
}

/// See [`google_url_spec`].
pub fn google_flights_url(origin: &str, dest: &str, date: &str, currency: &str, adults: i32, cabin: &str,
    return_date: Option<&str>) -> (r: String)
    ensures
        r@ == google_url_spec(origin@, dest@, date@, currency@, adults as int, cabin@, opt_text(return_date)),
{
    let o = upper(origin);
    let d = upper(dest);
    let ccy = if currency.is_empty() { upper("USD") } else { upper(currency) };
    let tfs = google_tfs(o.as_str(), d.as_str(), date, adults, google_cabin(cabin), return_date);
    let a = cat("https://www.google.com/travel/flights/search?tfs=", tfs.as_str());
    let b = cat(a.as_str(), "&hl=en&curr=");
    cat(b.as_str(), ccy.as_str())
}

} // verus!
