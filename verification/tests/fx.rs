use skiplagging::fx::{fallback_rates, mark_rates_trusted, offer_in_usd, rates_are_live, to_usd, with_untrusted_rates, Rates};
use skiplagging::models::{Offer, SearchQuery, SearchQueryError, Segment};

fn trusted() -> Rates {
    let mut r = fallback_rates();
    mark_rates_trusted(&mut r);
    r
}

fn query(date: &str, return_date: Option<&str>, currency: &str) -> SearchQuery {
    SearchQuery {
        origin: "JFK".into(),
        destination: "ORD".into(),
        date: date.into(),
        return_date: return_date.map(|s| s.to_string()),
        adults: 1,
        cabin: "ECONOMY".into(),
        currency: currency.into(),
        include_nearby: true,
        allow_synthetic: false,
        refresh: false,
    }
}

fn gbp_offer(cents: i64) -> Offer {
    Offer {
        id: "g1".into(),
        kind: "nonstop".into(),
        channel: "ndc".into(),
        source: "duffel".into(),
        segments: vec![Segment {
            origin: "LHR".into(),
            dest: "JFK".into(),
            carrier: "BA".into(),
            flight_number: "BA1".into(),
            dep: "2026-10-10T08:00".into(),
            arr: "2026-10-10T11:00".into(),
            duration_min: 180,
            rbd: "Y".into(),
            ..Segment::default()
        }],
        price: Some(cents),
        currency: "GBP".into(),
        cabin: "ECONOMY".into(),
        fare_basis: "Y".into(),
        carrier: "BA".into(),
        duration_min: 180,
        stops: 0,
        first_flight: "BA1".into(),
        live: Some(true),
        ..Offer::default()
    }
}

#[test]
fn search_query_forces_usd() {
    let mut q = query("2026-10-10", None, "GBP");
    q.validate().unwrap();
    assert_eq!(q.currency, "USD");
}

#[test]
fn search_query_round_trip_order() {
    let mut ok = query("2026-10-10", Some("2026-10-17"), "USD");
    ok.validate().unwrap();
    assert_eq!(ok.return_date.as_deref(), Some("2026-10-17"));
    let mut bad = query("2026-10-17", Some("2026-10-10"), "USD");
    assert!(matches!(bad.validate(), Err(SearchQueryError::ReturnBeforeOutbound)));
}

#[test]
fn search_query_rejects_impossible_dates() {
    for date in ["2026-13-01", "2026-02-30", "2026-00-10", "2026-10-32"] {
        let mut q = query(date, None, "USD");
        assert!(matches!(q.validate(), Err(SearchQueryError::BadField("date"))), "{date}");
    }
}

#[test]
fn to_usd_identity_and_gbp() {
    let rates = trusted();
    assert_eq!(to_usd(&rates, Some(24000), Some("USD")), Some(24000));
    let converted = to_usd(&rates, Some(8000), Some("GBP")).unwrap();
    assert!(converted > 8000);
    assert!(converted < 20000);
    assert_eq!(converted, 10160);
}

#[test]
fn to_usd_omits_foreign_until_fx_fetch() {
    let rates = with_untrusted_rates(&trusted());
    assert!(!rates_are_live(&rates));
    assert_eq!(to_usd(&rates, Some(24000), Some("USD")), Some(24000));
    assert_eq!(to_usd(&rates, Some(8000), Some("GBP")), None);
    assert!(offer_in_usd(&rates, &gbp_offer(10000)).is_none());
}

#[test]
fn offer_in_usd_converts_gbp() {
    let converted = offer_in_usd(&trusted(), &gbp_offer(10000)).unwrap();
    assert_eq!(converted.currency, "USD");
    assert!(converted.price.unwrap() > 10000);
}

#[test]
fn duffel_usd_quote_ranks_without_frankfurter() {
    let rates = with_untrusted_rates(&trusted());
    assert_eq!(to_usd(&rates, Some(17000), Some("GBP")), None);
    let mut offer = gbp_offer(17000);
    offer.quoted_usd = Some(19900);
    let usd = offer_in_usd(&rates, &offer).unwrap();
    assert_eq!(usd.currency, "USD");
    assert_eq!(usd.price, Some(19900));
}

#[test]
fn fallback_rates_are_not_live_until_trusted() {
    let mut rates = fallback_rates();
    assert!(!rates_are_live(&rates));
    mark_rates_trusted(&mut rates);
    assert!(rates_are_live(&rates));
    assert_eq!(to_usd(&rates, Some(100), Some("eur")), Some(108));
}
