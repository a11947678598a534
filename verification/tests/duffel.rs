use skiplagging::duffel::{
    duffel_offer, offer_request_body, usd_quote, DuffelOfferRaw, DuffelSegmentRaw, DuffelSliceRaw,
    DUFFEL_MAX_CONNECTIONS,
};
use skiplagging::fx::{fallback_rates, mark_rates_trusted, offer_in_usd, with_untrusted_rates};
use skiplagging::hidden::ticketed_destination;
use skiplagging::models::ShopRequest;
use skiplagging::sandbox::is_sandbox_offer;

fn shop_req(origin: &str, dest: &str, date: &str) -> ShopRequest {
    ShopRequest {
        origin: origin.into(),
        dest: dest.into(),
        date: date.into(),
        adults: 1,
        cabin: "ECONOMY".into(),
        currency: "USD".into(),
        nonstop: false,
        max_offers: 25,
        return_date: None,
    }
}

fn flight(o: &str, d: &str, n: &str, dep: &str, arr: &str, dur: &str, aircraft: Option<&str>) -> DuffelSegmentRaw {
    DuffelSegmentRaw {
        origin: Some(o.into()),
        dest: Some(d.into()),
        marketing: Some("AA".into()),
        operating: Some("AA".into()),
        flight_number: n.into(),
        departing_at: Some(dep.into()),
        arriving_at: Some(arr.into()),
        duration: Some(dur.into()),
        aircraft: aircraft.map(|a| a.to_string()),
    }
}

fn pairs(total: Option<i64>, total_ccy: &str) -> Vec<(Option<i64>, String)> {
    vec![(total, total_ccy.into()), (None, String::new()), (None, String::new())]
}

/// The offer of the fixture `DUFFEL_OFFER`, by its fields.
fn duffel_fixture() -> DuffelOfferRaw {
    DuffelOfferRaw {
        id: Some("off_live_1".into()),
        slices: Some(vec![DuffelSliceRaw {
            segments: Some(vec![
                flight("JFK", "ORD", "100", "2026-10-10T08:00", "2026-10-10T10:15", "PT2H15M", Some("32N")),
                flight("ORD", "DEN", "200", "2026-10-10T11:30", "2026-10-10T13:00", "PT2H30M", Some("32N")),
            ]),
            duration: Some("PT5H".into()),
            departure_date: None,
        }]),
        owner: Some("AA".into()),
        live_mode: Some(true),
        passengers: None,
        total_amount: Some(17_000),
        base_amount: Some(14_000),
        tax_amount: Some(3_000),
        total_currency: Some("GBP".into()),
        expires_at: Some("2026-10-10T12:00:00Z".into()),
        usd_pairs: pairs(Some(17_000), "GBP"),
    }
}

#[test]
fn duffel_offer_request_uses_supplier_max_connections() {
    let connecting = offer_request_body(&shop_req("JFK", "DEN", "2026-11-19"));
    assert_eq!(connecting.max_connections, DUFFEL_MAX_CONNECTIONS);
    assert_eq!(DUFFEL_MAX_CONNECTIONS, 2);
    assert_eq!(connecting.slices.len(), 1);
    let mut ns = shop_req("JFK", "ORD", "2026-11-19");
    ns.nonstop = true;
    let nonstop = offer_request_body(&ns);
    assert_eq!(nonstop.max_connections, 0);
}

#[test]
fn duffel_round_trip_request_has_two_slices() {
    let mut req = shop_req("JFK", "ORD", "2026-10-10");
    req.return_date = Some("2026-10-17".into());
    let slices = offer_request_body(&req).slices;
    assert_eq!(slices.len(), 2);
    assert_eq!(slices[0].0, "JFK");
    assert_eq!(slices[0].1, "ORD");
    assert_eq!(slices[1].0, "ORD");
    assert_eq!(slices[1].1, "JFK");
    assert_eq!(slices[1].2, "2026-10-17");
}

#[test]
fn offer_request_clamps_adults_and_lowers_the_cabin() {
    let mut req = shop_req("JFK", "ORD", "2026-10-10");
    req.adults = 12;
    req.cabin = "Premium_Economy".into();
    let r = offer_request_body(&req);
    assert_eq!(r.adults, 9);
    assert_eq!(r.cabin_class, "premium_economy");
    req.adults = 0;
    assert_eq!(offer_request_body(&req).adults, 1);
}

#[test]
fn duffel_get_offer_parses_and_converts_to_usd() {
    let mut rates = fallback_rates();
    mark_rates_trusted(&mut rates);
    let got = duffel_offer(&duffel_fixture(), &shop_req("JFK", "ORD", "2026-10-10"), "2026-09-08T12:00:00+00:00").unwrap();
    assert_eq!(got.live, Some(true));
    assert_eq!(got.currency, "GBP");
    assert_eq!(got.price, Some(17_000));
    assert_eq!(got.adults, 1);
    assert_eq!(got.segments.iter().map(|s| s.dest.as_str()).collect::<Vec<_>>(), ["ORD", "DEN"]);
    let usd = offer_in_usd(&rates, &got).unwrap();
    assert_eq!(usd.currency, "USD");
    assert!(usd.price.unwrap() > 17_000);
}

#[test]
fn duffel_offer_fields_follow_the_raw_offer() {
    let got = duffel_offer(&duffel_fixture(), &shop_req("JFK", "ORD", "2026-10-10"), "2026-09-08T12:00:00+00:00").unwrap();
    assert_eq!(got.id, "duffel-off_live_1");
    assert_eq!(got.kind, "connecting");
    assert_eq!(got.stops, 1);
    assert_eq!(got.outbound_end, Some(1));
    assert_eq!(got.duration_min, 300);
    assert_eq!(got.first_flight, "AA100");
    assert_eq!(got.segments[1].duration_min, 150);
    assert_eq!(got.validating_airline.as_deref(), Some("AA"));
    assert_eq!(got.retrieved_at.as_deref(), Some("2026-09-08T12:00:00+00:00"));
    assert_eq!(got.return_date, None);
    let mut no_slices = duffel_fixture();
    no_slices.slices = Some(vec![]);
    assert!(duffel_offer(&no_slices, &shop_req("JFK", "ORD", "2026-10-10"), "now").is_none());
}

#[test]
fn duffel_missing_live_mode_is_not_sandbox() {
    let mut raw = duffel_fixture();
    raw.live_mode = None;
    raw.passengers = Some(2);
    let got = duffel_offer(&raw, &shop_req("JFK", "ORD", "2026-10-10"), "2026-09-08T12:00:00+00:00").unwrap();
    assert_eq!(got.live, None);
    assert!(!is_sandbox_offer(&got));
    assert_eq!(got.adults, 2);
    assert!(got.note.as_deref().unwrap().contains("live_mode=unknown"));
}

#[test]
fn duffel_two_slice_sets_return_date_without_req() {
    let raw = DuffelOfferRaw {
        id: Some("off_rt".into()),
        slices: Some(vec![
            DuffelSliceRaw {
                segments: Some(vec![flight("JFK", "ORD", "100", "2026-10-10T08:00", "2026-10-10T10:15", "PT2H15M", None)]),
                duration: Some("PT2H15M".into()),
                departure_date: None,
            },
            DuffelSliceRaw {
                segments: Some(vec![flight("ORD", "JFK", "101", "2026-10-17T18:00", "2026-10-17T21:15", "PT2H15M", None)]),
                duration: Some("PT2H15M".into()),
                departure_date: Some("2026-10-17".into()),
            },
        ]),
        owner: None,
        live_mode: Some(true),
        passengers: None,
        total_amount: Some(43_000),
        base_amount: None,
        tax_amount: None,
        total_currency: Some("USD".into()),
        expires_at: None,
        usd_pairs: pairs(Some(43_000), "USD"),
    };
    let got = duffel_offer(&raw, &shop_req("JFK", "ORD", "2026-10-10"), "2026-09-08T12:00:00+00:00").unwrap();
    assert_eq!(got.return_date.as_deref(), Some("2026-10-17"));
    assert_eq!(got.outbound_end, Some(0));
    assert_eq!(ticketed_destination(&got), "ORD");
    assert_eq!(got.stops, 0);
}

#[test]
fn duffel_prefers_native_usd_amount_over_gbp_total() {
    let mut raw = duffel_fixture();
    raw.usd_pairs = vec![(Some(17_000), "GBP".into()), (Some(19_900), "USD".into()), (None, String::new())];
    assert_eq!(usd_quote(&raw.usd_pairs), Some(19_900));
    let got = duffel_offer(&raw, &shop_req("JFK", "ORD", "2026-10-10"), "2026-09-08T12:00:00+00:00").unwrap();
    assert_eq!(got.currency, "GBP");
    assert_eq!(got.price, Some(17_000));
    assert_eq!(got.quoted_usd, Some(19_900));
    let usd = offer_in_usd(&with_untrusted_rates(&fallback_rates()), &got).unwrap();
    assert_eq!(usd.price, Some(19_900));
    assert_eq!(usd.currency, "USD");
}

#[test]
fn duffel_tax_usd_is_not_a_fare() {
    // total, available and converted amounts: only the tax is in US dollars.
    let pairs = vec![(Some(17_000), "GBP".to_string()), (None, String::new()), (None, String::new())];
    assert_eq!(usd_quote(&pairs), None);
}

#[test]
fn usd_quote_stops_at_a_missing_usd_amount_and_skips_zero() {
    assert_eq!(usd_quote(&vec![(None, "usd".to_string()), (Some(500), "USD".to_string())]), None);
    assert_eq!(usd_quote(&vec![(Some(0), "USD".to_string()), (Some(500), "Usd".to_string())]), Some(500));
    assert_eq!(usd_quote(&vec![]), None);
}
