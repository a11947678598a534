use skiplagging::candidates::CandidateGraph;
use skiplagging::classify::_classify_hidden;
use skiplagging::discover::_via_stops;
use skiplagging::fx::{fallback_rates, Rates};
use skiplagging::hidden::{
    detect_hidden_city, hidden_city_savings, is_standard_to, itinerary_fingerprint, meaningful_saving,
    refresh_keeps_hidden_city, ticketed_destination,
};
use skiplagging::index::{classify_for_search, observation_meta, ticketed_dests_through, SearchClass};
use skiplagging::mock::{jfk_dfw_den, jfk_dfw_lax, jfk_ord_den, jfk_ord_nonstop, jfk_ord_sea, MockProvider};
use skiplagging::models::{Airport, Offer, Segment, ShopRequest};
use skiplagging::shop::{_cache_state, _needs_city_nonstop, _reuse_indexed_honest};

fn hs(codes: &[&str]) -> Vec<String> {
    codes.iter().map(|s| (*s).to_string()).collect()
}

fn rates() -> Rates {
    fallback_rates()
}

fn stop_seg(o: &str, d: &str, flight: &str, minutes: i32) -> Segment {
    Segment {
        origin: o.into(),
        dest: d.into(),
        carrier: "UA".into(),
        flight_number: flight.into(),
        dep: "2026-11-19T08:00".into(),
        arr: "2026-11-19T10:00".into(),
        duration_min: minutes,
        rbd: "Y".into(),
        ..Segment::default()
    }
}

fn two_stop_exit_b() -> Offer {
    Offer {
        id: "two-stop-exit-b".into(),
        kind: "connecting".into(),
        channel: "ndc".into(),
        source: "duffel".into(),
        segments: vec![
            stop_seg("JFK", "CLT", "UA1", 120),
            stop_seg("CLT", "ORD", "UA2", 120),
            stop_seg("ORD", "DEN", "UA3", 120),
        ],
        price: Some(18000),
        currency: "USD".into(),
        cabin: "ECONOMY".into(),
        fare_basis: "Y".into(),
        carrier: "UA".into(),
        duration_min: 480,
        stops: 2,
        first_flight: "UA1".into(),
        live: Some(true),
        ..Offer::default()
    }
}

fn three_stop_exit_b() -> Offer {
    Offer {
        id: "three-stop-exit-b".into(),
        kind: "connecting".into(),
        channel: "gds".into(),
        source: "duffel".into(),
        segments: vec![
            stop_seg("JFK", "CLT", "UA1", 90),
            stop_seg("CLT", "ATL", "UA2", 90),
            stop_seg("ATL", "ORD", "UA3", 90),
            stop_seg("ORD", "DEN", "UA4", 90),
        ],
        price: Some(16000),
        currency: "USD".into(),
        cabin: "ECONOMY".into(),
        fare_basis: "Y".into(),
        carrier: "UA".into(),
        duration_min: 600,
        stops: 3,
        first_flight: "UA1".into(),
        live: Some(true),
        ..Offer::default()
    }
}

#[test]
fn hidden_when_intermediate_is_intended() {
    let offer = jfk_ord_den("2026-10-10");
    let hit = detect_hidden_city(&offer, &"ORD").unwrap();
    assert_eq!(hit.exit_airport, "ORD");
    assert_eq!(hit.exit_segment_index, 0);
    assert_eq!(
        hit.unused_segments.iter().map(|s| format!("{}{}", s.origin, s.dest)).collect::<Vec<_>>(),
        ["ORDDEN"]
    );
}

#[test]
fn standard_when_ticketed_is_intended() {
    let offer = jfk_ord_den("2026-10-10");
    assert!(detect_hidden_city(&offer, &"DEN").is_none());
    assert!(is_standard_to(&offer, &"DEN"));
    assert!(is_standard_to(&jfk_ord_nonstop("2026-10-10"), &"ORD"));
}

#[test]
fn hidden_when_intended_is_the_second_stop() {
    let through = two_stop_exit_b();
    let hit = detect_hidden_city(&through, &"ORD").unwrap();
    assert_eq!(hit.exit_airport, "ORD");
    assert_eq!(hit.exit_segment_index, 1);
    assert_eq!(hit.unused_segments.iter().map(|s| s.dest.as_str()).collect::<Vec<_>>(), ["DEN"]);
    let honest = jfk_ord_nonstop("2026-11-19");
    let (matches, _) = _classify_hidden(&rates(), &[through], &hs(&["ORD"]), &honest, None, 2000);
    assert_eq!(matches[0].through_offer.id, "two-stop-exit-b");
    assert_eq!(matches[0].exit_segment_index, 1);
}

#[test]
fn hidden_when_intended_is_the_third_stop() {
    let through = three_stop_exit_b();
    let hit = detect_hidden_city(&through, &hs(&["ORD", "MDW"])).unwrap();
    assert_eq!(hit.exit_airport, "ORD");
    assert_eq!(hit.exit_segment_index, 2);
    let honest = jfk_ord_nonstop("2026-11-19");
    let (matches, _) = _classify_hidden(&rates(), &[through], &hs(&["ORD", "MDW"]), &honest, None, 2000);
    assert_eq!(matches.iter().map(|m| m.through_offer.id.as_str()).collect::<Vec<_>>(), ["three-stop-exit-b"]);
}

#[test]
fn rejected_when_path_misses_intended() {
    assert!(detect_hidden_city(&jfk_dfw_lax("2026-10-10"), &"ORD").is_none());
    assert!(!is_standard_to(&jfk_dfw_lax("2026-10-10"), &"ORD"));
}

#[test]
fn round_trip_is_never_hidden_city() {
    let mut through = jfk_ord_den("2026-10-10");
    through.return_date = Some("2026-10-17".into());
    through.outbound_end = Some(1);
    assert!(detect_hidden_city(&through, &"ORD").is_none());
}

#[test]
fn ticketed_destination_uses_outbound_on_round_trip() {
    let mut offer = jfk_ord_nonstop("2026-10-10");
    let mut ret = offer.segments[0].clone();
    ret.origin = "ORD".into();
    ret.dest = "JFK".into();
    ret.dep = "2026-10-17T18:00".into();
    ret.arr = "2026-10-17T21:00".into();
    offer.return_date = Some("2026-10-17".into());
    offer.outbound_end = Some(0);
    offer.segments.push(ret);
    assert_eq!(ticketed_destination(&offer), "ORD");
    assert!(is_standard_to(&offer, &"ORD"));
}

#[test]
fn mock_round_trip_fixture_is_honest_only() {
    let mock = MockProvider::new();
    let req = ShopRequest {
        origin: "JFK".into(),
        dest: "ORD".into(),
        date: "2026-10-10".into(),
        return_date: Some("2026-10-17".into()),
        ..ShopRequest::default()
    };
    let offers = mock.shop(&req);
    assert_eq!(offers.len(), 1);
    let offer = &offers[0];
    assert_eq!(offer.return_date.as_deref(), Some("2026-10-17"));
    assert_eq!(offer.outbound_end, Some(0));
    assert_eq!(ticketed_destination(offer), "ORD");
    assert!(detect_hidden_city(offer, &"ORD").is_none());
    assert_eq!(offer.stops, 0);
}

#[test]
fn refresh_invalid_when_connection_moves() {
    let original = jfk_ord_den("2026-10-10");
    let mutated = jfk_dfw_den("2026-10-10");
    assert!(refresh_keeps_hidden_city(&original, &original, &"ORD"));
    assert!(!refresh_keeps_hidden_city(&original, &mutated, &"ORD"));
}

#[test]
fn savings_calculation() {
    assert_eq!(hidden_city_savings(Some(24000), Some(17000)), Some(7000));
    assert_eq!(hidden_city_savings(Some(24000), Some(18500)), Some(5500));
    assert!(meaningful_saving(Some(7000), 2000));
    assert!(!meaningful_saving(Some(1900), 2000));
}

#[test]
fn fingerprint_groups_same_flights() {
    let a = jfk_ord_den("2026-10-10");
    let mut b = a.clone();
    b.id = "other".into();
    b.price = Some(19900);
    assert_eq!(itinerary_fingerprint(&a), itinerary_fingerprint(&b));
    assert_ne!(itinerary_fingerprint(&a), itinerary_fingerprint(&jfk_ord_sea("2026-10-10")));
}

#[test]
fn mock_jfk_ord_first_target() {
    let date = "2026-10-10";
    let offers = vec![jfk_ord_nonstop(date), jfk_ord_den(date), jfk_ord_sea(date), jfk_dfw_lax(date)];
    let standard = jfk_ord_nonstop(date);
    let (matches, rejected) = _classify_hidden(&rates(), &offers, &hs(&["ORD"]), &standard, None, 2000);
    let mut ids: Vec<&str> = matches.iter().map(|m| m.through_offer.id.as_str()).collect();
    ids.sort();
    assert_eq!(ids, ["mock-jfk-ord-den", "mock-jfk-ord-sea"]);
    for m in &matches {
        if m.through_offer.id == "mock-jfk-ord-den" {
            assert_eq!(m.gross_saving, 7000);
        } else {
            assert_eq!(m.gross_saving, 5500);
        }
    }
    assert!(rejected.iter().any(|row| row.contains("mock-jfk-dfw-lax")));
    assert!(matches.iter().all(|m| m.ticketed_destination == "DEN" || m.ticketed_destination == "SEA"));
    assert!(matches.iter().all(|m| m.intended_destination == "ORD"));
    assert!(matches.iter().all(|m| !m.warnings.is_empty()));
}

#[test]
fn index_one_offer_serves_two_searches() {
    let through = jfk_ord_den("2026-10-10");
    let meta = observation_meta(&through).unwrap();
    assert_eq!(meta.origin, "JFK");
    assert_eq!(meta.ticketed, "DEN");
    assert_eq!(meta.connections, ["ORD"]);
    assert!(matches!(classify_for_search(&through, &hs(&["JFK"]), &hs(&["DEN"])), Some(SearchClass::Standard)));
    assert!(matches!(classify_for_search(&through, &hs(&["JFK"]), &hs(&["ORD"])), Some(SearchClass::HiddenCity)));
    assert!(classify_for_search(&through, &hs(&["JFK"]), &hs(&["SEA"])).is_none());
    assert_eq!(ticketed_dests_through(&[through, jfk_dfw_lax("2026-10-10")], &hs(&["ORD"])), hs(&["DEN"]));
}

#[test]
fn plan_skips_expansion_when_hidden_already_found() {
    let graph = CandidateGraph::new();
    let extra: Vec<String> = hs(&["DEN", "SEA", "SFO"]);
    let (dests, skipped) = graph.plan_expansion("JFK", &hs(&["ORD"]), 8, Some(extra.as_slice()), &[jfk_ord_den("2026-10-10")], true);
    assert!(dests.is_empty());
    assert!(skipped.iter().any(|c| c == "DEN"));
}

#[test]
fn plan_skips_covered_destinations_but_shops_the_rest() {
    let graph = CandidateGraph::new();
    let extra: Vec<String> = hs(&["DEN", "SFO"]);
    let (dests, skipped) = graph.plan_expansion("JFK", &hs(&["ORD"]), 8, Some(extra.as_slice()), &[jfk_ord_den("2026-10-10")], false);
    assert!(dests.iter().any(|c| c == "SFO"));
    assert!(!dests.iter().any(|c| c == "DEN"));
    assert!(skipped.iter().any(|c| c == "DEN"));
}

#[test]
fn plan_expands_only_when_no_through_tickets() {
    let graph = CandidateGraph::new();
    let extra: Vec<String> = hs(&["MIA", "ATL"]);
    let (dests, skipped) = graph.plan_expansion("EWR", &hs(&["BOS"]), 2, Some(extra.as_slice()), &[], false);
    assert_eq!(dests, ["MIA", "ATL"]);
    assert!(skipped.is_empty());
}

#[test]
fn city_nonstop_only_on_first_metro_pair() {
    let city = Airport { type_: "city".into(), ..Airport::default() };
    let airport = Airport { type_: "large_airport".into(), ..Airport::default() };
    assert!(_needs_city_nonstop(&city, &city, 0));
    assert!(!_needs_city_nonstop(&city, &city, 1));
    assert!(!_needs_city_nonstop(&airport, &airport, 0));
}

#[test]
fn cache_state_labels_index_reuse() {
    assert_eq!(_cache_state(&[1], &[] as &[i32]), "index");
    assert_eq!(_cache_state(&[1], &[2]), "index+live");
    assert_eq!(_cache_state(&[] as &[i32], &[2]), "miss");
}

#[test]
fn discover_via_stops_include_later_connections() {
    let mk = |o: &str, d: &str, f: &str, dep: &str, arr: &str| Segment {
        origin: o.into(),
        dest: d.into(),
        carrier: "UA".into(),
        flight_number: f.into(),
        dep: dep.into(),
        arr: arr.into(),
        duration_min: 120,
        rbd: "Y".into(),
        ..Segment::default()
    };
    let offer = Offer {
        id: "two-stop".into(),
        kind: "connecting".into(),
        channel: "ndc".into(),
        source: "duffel".into(),
        segments: vec![
            mk("JFK", "CLT", "UA1", "2026-11-19T08:00", "2026-11-19T10:00"),
            mk("CLT", "ORD", "UA2", "2026-11-19T11:00", "2026-11-19T13:00"),
            mk("ORD", "DEN", "UA3", "2026-11-19T14:00", "2026-11-19T16:00"),
        ],
        price: Some(18000),
        currency: "USD".into(),
        cabin: "ECONOMY".into(),
        fare_basis: "Y".into(),
        carrier: "UA".into(),
        duration_min: 480,
        stops: 2,
        first_flight: "UA1".into(),
        live: Some(true),
        ..Offer::default()
    };
    let (ticketed, vias) = _via_stops(&offer, "JFK");
    assert_eq!(ticketed, "DEN");
    assert_eq!(vias, [(0, "CLT".to_string()), (1, "ORD".to_string())]);
}

fn live_honest(age_secs: i64) -> Offer {
    let mut offer = Offer {
        id: "live-ab".into(),
        kind: "nonstop".into(),
        channel: "ndc".into(),
        source: "duffel".into(),
        segments: vec![Segment {
            origin: "JFK".into(),
            dest: "ORD".into(),
            carrier: "AA".into(),
            flight_number: "AA100".into(),
            dep: "2026-11-19T08:00".into(),
            arr: "2026-11-19T10:15".into(),
            duration_min: 135,
            rbd: "Y".into(),
            ..Segment::default()
        }],
        price: Some(24000),
        currency: "USD".into(),
        cabin: "ECONOMY".into(),
        carrier: "AA".into(),
        duration_min: 135,
        stops: 0,
        first_flight: "AA100".into(),
        live: Some(true),
        ..Offer::default()
    };
    offer.retrieved_at = Some(
        (chrono::Utc::now() - chrono::Duration::seconds(age_secs)).to_rfc3339_opts(chrono::SecondsFormat::Secs, true),
    );
    offer
}

#[test]
fn reuse_indexed_honest_only_fresh_live_duffel() {
    let fresh = live_honest(5);
    assert!(!_reuse_indexed_honest(&[fresh.clone()], true, true));
    assert!(!_reuse_indexed_honest(&[fresh.clone()], false, false));
    assert!(_reuse_indexed_honest(&[fresh.clone()], false, true));
    let stale = live_honest(90);
    assert!(!_reuse_indexed_honest(&[stale], false, true));
    let mut mock = live_honest(5);
    mock.source = "mock".into();
    assert!(!_reuse_indexed_honest(&[mock], false, true));
    let mut sandbox = live_honest(5);
    sandbox.live = Some(false);
    assert!(!_reuse_indexed_honest(&[sandbox], false, true));
    let mut missing = live_honest(5);
    missing.retrieved_at = None;
    assert!(!_reuse_indexed_honest(&[missing], false, true));
}
