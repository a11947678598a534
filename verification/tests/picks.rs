use skiplagging::classify::_hidden_if_cheaper;
use skiplagging::dedupe::_dedupe_itineraries;
use skiplagging::durations::_dur;
use skiplagging::fx::{fallback_rates, mark_rates_trusted, with_untrusted_rates, Rates};
use skiplagging::layover::layover_minutes;
use skiplagging::mock::jfk_ord_roundtrip;
use skiplagging::models::{Airport, HiddenCityMatch, Offer, RiskAssessment, Segment};
use skiplagging::picks::{pick_best, pick_honest};
use skiplagging::risk::assess;
use skiplagging::shop::{_drop_sandbox, _keep_on_route, _prefer_real_carriers, _route_pairs, _via_b, shop_tokens};

fn seg(origin: &str, dest: &str, dep: &str, arr: &str, flight: &str) -> Segment {
    Segment {
        origin: origin.into(),
        dest: dest.into(),
        carrier: "BA".into(),
        operating_carrier: None,
        flight_number: flight.into(),
        dep: dep.into(),
        arr: arr.into(),
        duration_min: 60,
        rbd: "Y".into(),
        ..Segment::default()
    }
}

fn offer_full(
    oid: &str,
    price: Option<i64>,
    segments: Vec<Segment>,
    stops: i32,
    currency: &str,
    source: &str,
    live: Option<bool>,
    duration_min: Option<i32>,
) -> Offer {
    let first = segments.first().map(|s| s.flight_number.clone()).unwrap_or_default();
    let carrier = segments.first().map(|s| s.carrier.clone()).unwrap_or_default();
    let duration = duration_min.unwrap_or_else(|| segments.iter().map(|s| s.duration_min).sum());
    Offer {
        id: oid.into(),
        kind: if stops == 0 { "nonstop".into() } else { "connecting".into() },
        channel: "ndc".into(),
        source: source.into(),
        segments,
        price,
        currency: currency.into(),
        cabin: "ECONOMY".into(),
        fare_basis: "Y".into(),
        carrier,
        duration_min: duration,
        stops,
        first_flight: first,
        live,
        ..Offer::default()
    }
}

fn offer(oid: &str, price: Option<i64>, segments: Vec<Segment>, stops: i32) -> Offer {
    offer_full(oid, price, segments, stops, "USD", "duffel", Some(true), None)
}

fn connect(oid: &str, price: i64, a: Segment, b: Segment, stops: i32) -> Offer {
    offer(oid, Some(price), vec![a, b], stops)
}

fn trusted() -> Rates {
    let mut r = fallback_rates();
    mark_rates_trusted(&mut r);
    r
}

fn risk() -> RiskAssessment {
    RiskAssessment {
        score: 40,
        headline: "test".into(),
        one_way_only: true,
        carry_on_only: true,
        items: vec![],
        net_saving_estimate: 8000,
        expected_disruption_cost: 0,
        expected_enforcement_cost: 0,
    }
}

fn hc_match(oid: &str, through: Offer, local: Offer, saving: i64) -> HiddenCityMatch {
    let hidden = through.segments.last().map(|s| s.dest.clone()).unwrap_or_default();
    HiddenCityMatch {
        id: oid.into(),
        hidden_city: hidden,
        hidden_city_name: "Beyond".into(),
        local_offer: local,
        through_offer: through,
        first_flight_match: true,
        gross_saving: saving,
        saving_pct: 200,
        currency: "USD".into(),
        risk: risk(),
        bookers: vec![],
        ticketed_destination: String::new(),
        intended_destination: String::new(),
        exit_segment_index: 0,
        warnings: vec![],
        result_type: "hidden_city".into(),
    }
}

fn city(iata: &str, members: &[&str]) -> Airport {
    Airport {
        iata: iata.into(),
        type_: "city".into(),
        members: members.iter().map(|m| (*m).to_string()).collect(),
        ..Airport::default()
    }
}

#[test]
fn pick_prefers_cheapest_nonstop_over_dearer_connecting() {
    let cheap = offer("n1", Some(20000), vec![seg("LHR", "JFK", "2026-10-22T08:00", "2026-10-22T11:00", "BA1")], 0);
    let dear = offer("n2", Some(40000), vec![seg("LHR", "JFK", "2026-10-22T09:00", "2026-10-22T12:00", "BA1")], 0);
    let c = connect(
        "c1",
        25000,
        seg("LHR", "DUB", "2026-10-22T08:00", "2026-10-22T09:00", "BA2"),
        seg("DUB", "JFK", "2026-10-22T10:00", "2026-10-22T13:00", "BA3"),
        1,
    );
    let pick = pick_honest(&fallback_rates(), &[dear, cheap], &[c], None).unwrap();
    assert_eq!(pick.kind, "nonstop");
    assert_eq!(pick.offer.id, "n1");
    assert_eq!(pick.reason, "Best — cheapest nonstop");
}

#[test]
fn pick_prefers_cheaper_connecting_over_nonstop() {
    let nonstop = offer("n1", Some(40000), vec![seg("LHR", "JFK", "2026-10-22T08:00", "2026-10-22T11:00", "BA1")], 0);
    let c = connect(
        "c1",
        18000,
        seg("LHR", "DUB", "2026-10-22T08:00", "2026-10-22T09:00", "BA2"),
        seg("DUB", "JFK", "2026-10-22T10:00", "2026-10-22T13:00", "BA3"),
        1,
    );
    let pick = pick_honest(&fallback_rates(), &[nonstop], &[c], None).unwrap();
    assert_eq!(pick.kind, "connecting");
    assert_eq!(pick.offer.id, "c1");
}

#[test]
fn pick_uses_price_then_shortest_layover() {
    let long_wait = connect(
        "c1",
        18000,
        seg("LHR", "DUB", "2026-10-22T08:00", "2026-10-22T09:00", "BA2"),
        seg("DUB", "JFK", "2026-10-22T14:00", "2026-10-22T17:00", "BA3"),
        1,
    );
    let short_wait = connect(
        "c2",
        22000,
        seg("LHR", "AMS", "2026-10-22T08:00", "2026-10-22T09:00", "BA4"),
        seg("AMS", "JFK", "2026-10-22T10:00", "2026-10-22T13:00", "BA5"),
        1,
    );
    assert_eq!(layover_minutes(&long_wait), 300);
    assert_eq!(layover_minutes(&short_wait), 60);
    let pick = pick_honest(&fallback_rates(), &[], &[long_wait, short_wait], None).unwrap();
    assert_eq!(pick.kind, "connecting");
    assert_eq!(pick.offer.id, "c1");
    assert_eq!(pick.layover_min, 300);
}

#[test]
fn assess_none_local_price_does_not_raise() {
    let local = offer("n", None, vec![seg("JFK", "ORD", "2026-10-10T08:00", "2026-10-10T10:00", "BA1")], 0);
    let through = connect(
        "h",
        10000,
        seg("JFK", "ORD", "2026-10-10T08:00", "2026-10-10T10:00", "BA1"),
        seg("ORD", "DEN", "2026-10-10T11:00", "2026-10-10T13:00", "BA1"),
        1,
    );
    let risk = assess(&local, &through, "DEN", "ORD", "", "");
    assert!(!risk.items.is_empty());
}

#[test]
fn international_docs_risk_when_countries_differ() {
    let local = offer("n", Some(40000), vec![seg("JFK", "LHR", "2026-10-10T08:00", "2026-10-10T20:00", "BA1")], 0);
    let through = connect(
        "h",
        20000,
        seg("JFK", "LHR", "2026-10-10T08:00", "2026-10-10T20:00", "BA1"),
        seg("LHR", "CDG", "2026-10-10T22:00", "2026-10-10T23:20", "BA2"),
        1,
    );
    let domestic = assess(&local, &through, "DEN", "ORD", "US", "US");
    let intl = assess(&local, &through, "CDG", "LHR", "US", "GB");
    assert!(intl.items.iter().any(|i| i.id == "documents"));
    assert!(!domestic.items.iter().any(|i| i.id == "documents"));
    assert!(intl.score < domestic.score);
    assert!(intl.expected_disruption_cost > domestic.expected_disruption_cost);
}

#[test]
fn layover_minutes_round_trip_ignores_the_stay_at_b() {
    let rt = jfk_ord_roundtrip("2026-10-10", "2026-10-17");
    assert_eq!(layover_minutes(&rt), 0);
}

#[test]
fn pick_same_price_prefers_shorter_layover() {
    let long_wait = connect(
        "c1",
        20000,
        seg("LHR", "DUB", "2026-10-22T08:00", "2026-10-22T09:00", "BA2"),
        seg("DUB", "JFK", "2026-10-22T14:00", "2026-10-22T17:00", "BA3"),
        1,
    );
    let short_wait = connect(
        "c2",
        20000,
        seg("LHR", "AMS", "2026-10-22T08:00", "2026-10-22T09:00", "BA4"),
        seg("AMS", "JFK", "2026-10-22T10:00", "2026-10-22T13:00", "BA5"),
        1,
    );
    let pick = pick_honest(&fallback_rates(), &[], &[long_wait, short_wait], None).unwrap();
    assert_eq!(pick.offer.id, "c2");
    assert_eq!(pick.layover_min, 60);
}

#[test]
fn pick_converts_foreign_currency_to_usd() {
    let rates = trusted();
    let usd = offer("n1", Some(40000), vec![seg("LHR", "JFK", "2026-10-22T08:00", "2026-10-22T11:00", "BA1")], 0);
    let gbp = offer_full("n2", Some(8000), vec![seg("LHR", "JFK", "2026-10-22T09:00", "2026-10-22T12:00", "BA1")], 0, "GBP", "duffel", Some(true), None);
    let pick = pick_honest(&rates, &[usd, gbp], &[], None).unwrap();
    assert_eq!(pick.offer.id, "n2");
    assert_eq!(pick.offer.currency, "USD");
    assert!(pick.offer.price.unwrap() < 40000);
}

#[test]
fn untrusted_gbp_is_not_ranked_on_fallback() {
    let rates = with_untrusted_rates(&trusted());
    let usd = offer("n1", Some(24000), vec![seg("JFK", "ORD", "2026-10-22T08:00", "2026-10-22T10:00", "AA1")], 0);
    let gbp = offer_full("n2", Some(17000), vec![seg("LHR", "JFK", "2026-10-22T09:00", "2026-10-22T12:00", "BA1")], 0, "GBP", "duffel", Some(true), None);
    let pick = pick_honest(&rates, &[usd, gbp], &[], Some("USD")).unwrap();
    assert_eq!(pick.offer.id, "n1");
    assert_eq!(pick.offer.currency, "USD");
    assert_eq!(pick.offer.price, Some(24000));
}

#[test]
fn pick_uses_requested_currency_when_present() {
    let rates = trusted();
    let usd = offer("n1", Some(40000), vec![seg("LHR", "JFK", "2026-10-22T08:00", "2026-10-22T11:00", "BA1")], 0);
    let gbp = offer_full("n2", Some(8000), vec![seg("LHR", "JFK", "2026-10-22T09:00", "2026-10-22T12:00", "BA1")], 0, "GBP", "duffel", Some(true), None);
    let pick = pick_honest(&rates, &[usd, gbp], &[], Some("USD")).unwrap();
    assert_eq!(pick.offer.id, "n2");
    assert_eq!(pick.offer.currency, "USD");
}

#[test]
fn hidden_only_when_cheaper_than_honest_pick() {
    let rates = fallback_rates();
    let honest = pick_honest(
        &rates,
        &[offer("n1", Some(30000), vec![seg("LHR", "BOS", "2026-10-22T08:00", "2026-10-22T11:00", "BA1")], 0)],
        &[],
        None,
    )
    .unwrap();
    let cheap_through = connect(
        "h1",
        22000,
        seg("LHR", "BOS", "2026-10-22T08:00", "2026-10-22T11:00", "BA9"),
        seg("BOS", "JFK", "2026-10-22T12:00", "2026-10-22T13:00", "BA10"),
        1,
    );
    let mut dear_through = cheap_through.clone();
    dear_through.id = "h2".into();
    dear_through.price = Some(35000);
    let cheap_match = hc_match("m1", cheap_through, honest.offer.clone(), 8000);
    let dear_match = hc_match("m2", dear_through, honest.offer.clone(), -5000);
    assert_eq!(_hidden_if_cheaper(&rates, &[cheap_match.clone()], Some(&honest)).unwrap().id, "m1");
    assert!(_hidden_if_cheaper(&rates, &[dear_match], Some(&honest)).is_none());
    assert!(_hidden_if_cheaper(&rates, &[cheap_match], None).is_none());
    assert!(pick_honest(&rates, &[], &[], None).is_none());
}

#[test]
fn hidden_shown_when_converted_price_is_cheaper() {
    let rates = trusted();
    let honest = pick_honest(
        &rates,
        &[offer("n1", Some(30000), vec![seg("LHR", "BOS", "2026-10-22T08:00", "2026-10-22T11:00", "BA1")], 0)],
        &[],
        None,
    )
    .unwrap();
    let gbp_through = offer_full(
        "h1",
        Some(8000),
        vec![
            seg("LHR", "BOS", "2026-10-22T08:00", "2026-10-22T11:00", "BA9"),
            seg("BOS", "JFK", "2026-10-22T12:00", "2026-10-22T13:00", "BA10"),
        ],
        1,
        "GBP",
        "duffel",
        Some(true),
        None,
    );
    assert!(_hidden_if_cheaper(&rates, &[hc_match("m1", gbp_through, honest.offer.clone(), 22000)], Some(&honest)).is_some());
}

#[test]
fn hidden_not_shown_when_converted_price_is_not_cheaper() {
    let rates = trusted();
    let honest = pick_honest(
        &rates,
        &[offer("n1", Some(30000), vec![seg("LHR", "BOS", "2026-10-22T08:00", "2026-10-22T11:00", "BA1")], 0)],
        &[],
        None,
    )
    .unwrap();
    let gbp_through = offer_full(
        "h1",
        Some(80000),
        vec![
            seg("LHR", "BOS", "2026-10-22T08:00", "2026-10-22T11:00", "BA9"),
            seg("BOS", "JFK", "2026-10-22T12:00", "2026-10-22T13:00", "BA10"),
        ],
        1,
        "GBP",
        "duffel",
        Some(true),
        None,
    );
    assert!(_hidden_if_cheaper(&rates, &[hc_match("m1", gbp_through, honest.offer.clone(), -50000)], Some(&honest)).is_none());
}

#[test]
fn via_b_allows_any_intermediate_stop() {
    let through = connect(
        "h1",
        22000,
        seg("LHR", "BOS", "2026-10-22T08:00", "2026-10-22T11:00", "BA9"),
        seg("BOS", "JFK", "2026-10-22T12:00", "2026-10-22T13:00", "BA10"),
        1,
    );
    assert!(_via_b(&through, "LHR", "BOS", "JFK"));
    assert!(_via_b(&through, vec!["LHR".to_string(), "LGW".to_string()], vec!["BOS".to_string(), "BDL".to_string()], "JFK"));
    assert!(!_via_b(&through, "LHR", "JFK", "BOS"));
    assert!(!_via_b(&through, "LGW", "BOS", "JFK"));
    let two_stop = offer(
        "h2",
        Some(19000),
        vec![
            seg("LHR", "DUB", "2026-10-22T08:00", "2026-10-22T09:00", "BA1"),
            seg("DUB", "BOS", "2026-10-22T10:00", "2026-10-22T13:00", "BA2"),
            seg("BOS", "JFK", "2026-10-22T14:00", "2026-10-22T15:00", "BA3"),
        ],
        2,
    );
    assert!(_via_b(&two_stop, "LHR", "BOS", "JFK"));
    assert!(!_via_b(&two_stop, "LHR", "DUB", "BOS"));
    let nonstop = offer("n1", Some(30000), vec![seg("LHR", "JFK", "2026-10-22T08:00", "2026-10-22T11:00", "BA1")], 0);
    assert!(!_via_b(&nonstop, "LHR", "BOS", "JFK"));
}

#[test]
fn keep_on_route_drops_other_airports() {
    let paris_london = offer("n1", Some(11000), vec![seg("CDG", "LGW", "2026-09-19T10:00", "2026-09-19T10:55", "BA1")], 0);
    let junk = offer("n2", Some(4100), vec![seg("VIY", "SEN", "2026-09-19T13:56", "2026-09-19T13:57", "BA1")], 0);
    let kept = _keep_on_route(
        &[paris_london, junk],
        &vec!["CDG".into(), "ORY".into(), "PAR".into()],
        &vec!["LGW".into(), "LHR".into(), "LON".into()],
    );
    assert_eq!(kept.iter().map(|o| o.id.as_str()).collect::<Vec<_>>(), ["n1"]);
}

#[test]
fn codeshare_keeps_one_itinerary() {
    let ib = offer("ib", Some(4100), vec![seg("CDG", "LHR", "2026-09-19T13:56", "2026-09-19T14:56", "IB1")], 0);
    let mut ba = ib.clone();
    ba.id = "ba".into();
    ba.price = Some(4200);
    ba.carrier = "BA".into();
    ba.first_flight = "BA1".into();
    ba.segments[0].flight_number = "BA1".into();
    ba.segments[0].carrier = "BA".into();
    let kept = _dedupe_itineraries(&[ib, ba]);
    assert_eq!(kept.len(), 1);
    assert_eq!(kept[0].id, "ib");
}

#[test]
fn drop_sandbox_duffel_keeps_live_and_mock() {
    let mut fake = offer_full("ba-test", Some(7100), vec![seg("JFK", "ORD", "2026-10-10T06:58", "2026-10-10T08:08", "BA0105")], 0, "GBP", "duffel", Some(false), None);
    fake.note = Some("Duffel offer. live_mode=False.".into());
    let mut live = offer("ba-live", Some(41000), vec![seg("JFK", "LHR", "2026-10-10T18:00", "2026-10-11T06:10", "BA0112")], 0);
    live.live = Some(true);
    let mock = offer_full("aa", Some(24000), vec![seg("JFK", "ORD", "2026-10-10T08:00", "2026-10-10T10:15", "AA100")], 0, "USD", "mock", None, None);
    let kept = _drop_sandbox(&[fake, live, mock]);
    assert_eq!(kept.iter().map(|o| o.id.as_str()).collect::<Vec<_>>(), ["ba-live", "aa"]);
}

#[test]
fn prefer_real_carriers_skips_duffel_airways() {
    let mut zz = offer("zz", Some(4100), vec![seg("CDG", "LHR", "2026-09-19T13:56", "2026-09-19T14:56", "ZZ1")], 0);
    zz.carrier = "ZZ".into();
    let ba = offer("ba", Some(11000), vec![seg("CDG", "LHR", "2026-09-19T10:00", "2026-09-19T11:00", "BA1")], 0);
    let kept = _prefer_real_carriers(vec![zz, ba]);
    assert_eq!(kept.iter().map(|o| o.id.as_str()).collect::<Vec<_>>(), ["ba"]);
}

#[test]
fn duffel_duration_parses_overnight() {
    assert_eq!(_dur("PT2H30M"), 150);
    assert_eq!(_dur("P1DT30M"), 1470);
    assert_eq!(_dur("P1DT2H30M"), 1590);
    assert_eq!(_dur(""), 0);
    assert_eq!(_dur("PT2H30.5M"), 0);
}

#[test]
fn best_is_nonstop_when_cheapest_is_connecting() {
    let rates = fallback_rates();
    let nonstop = offer_full("n1", Some(40000), vec![seg("LHR", "JFK", "2026-10-22T08:00", "2026-10-22T11:00", "BA1")], 0, "USD", "duffel", Some(true), Some(420));
    let c = offer_full(
        "c1",
        Some(18000),
        vec![
            seg("LHR", "DUB", "2026-10-22T08:00", "2026-10-22T09:00", "BA2"),
            seg("DUB", "JFK", "2026-10-22T10:00", "2026-10-22T13:00", "BA3"),
        ],
        1,
        "USD",
        "duffel",
        Some(true),
        Some(600),
    );
    let cheap = pick_honest(&rates, &[nonstop.clone()], &[c.clone()], None).unwrap();
    let best = pick_best(&rates, &[nonstop], &[c], Some(&cheap)).unwrap();
    assert_eq!(cheap.offer.id, "c1");
    assert_eq!(best.offer.id, "n1");
    assert_eq!(best.reason, "Best — cheapest nonstop");
}

#[test]
fn best_omitted_when_cheapest_is_already_the_nonstop() {
    let rates = fallback_rates();
    let cheap_ns = offer_full("n1", Some(20000), vec![seg("LHR", "JFK", "2026-10-22T08:00", "2026-10-22T11:00", "BA1")], 0, "USD", "duffel", Some(true), Some(420));
    let dear_ns = offer_full("n2", Some(35000), vec![seg("LHR", "JFK", "2026-10-22T12:00", "2026-10-22T15:00", "BA1")], 0, "USD", "duffel", Some(true), Some(420));
    let cheap = pick_honest(&rates, &[cheap_ns.clone(), dear_ns.clone()], &[], None).unwrap();
    assert!(pick_best(&rates, &[cheap_ns, dear_ns], &[], Some(&cheap)).is_none());
}

#[test]
fn best_stays_cheapest_nonstop_not_faster_dearer() {
    let rates = fallback_rates();
    let slow = offer_full("n1", Some(20000), vec![seg("LHR", "JFK", "2026-10-22T08:00", "2026-10-22T16:00", "BA1")], 0, "USD", "duffel", Some(true), Some(480));
    let fast = offer_full("n2", Some(22000), vec![seg("LHR", "JFK", "2026-10-22T09:00", "2026-10-22T15:00", "BA1")], 0, "USD", "duffel", Some(true), Some(360));
    let cheap = pick_honest(&rates, &[slow.clone(), fast.clone()], &[], None).unwrap();
    assert_eq!(cheap.offer.id, "n1");
    assert!(pick_best(&rates, &[slow, fast], &[], Some(&cheap)).is_none());
}

#[test]
fn city_shop_tokens_include_member_airports() {
    let paris = city("PAR", &["CDG", "ORY", "BVA"]);
    let london = city("LON", &["LHR", "LGW", "STN", "LCY"]);
    assert_eq!(shop_tokens(&paris), ["PAR", "CDG", "ORY", "BVA"]);
    assert_eq!(shop_tokens(&london), ["LON", "LHR", "LGW", "STN"]);
    let pairs = _route_pairs(&shop_tokens(&paris), &shop_tokens(&london));
    assert_eq!(pairs[0], ("PAR".to_string(), "LON".to_string()));
    assert!(pairs.contains(&("CDG".to_string(), "LHR".to_string())));
    assert!(pairs.contains(&("CDG".to_string(), "LGW".to_string())));
    assert!(pairs.contains(&("ORY".to_string(), "LGW".to_string())));
    assert!(pairs[1..].iter().all(|(o, d)| o != "PAR" || d != "LON"));
}

#[test]
fn best_is_fewest_stops_when_cheapest_connects_more() {
    let rates = fallback_rates();
    let two_stop = offer_full(
        "c2",
        Some(15000),
        vec![
            seg("LHR", "DUB", "2026-10-22T08:00", "2026-10-22T09:00", "BA2"),
            seg("DUB", "BOS", "2026-10-22T10:00", "2026-10-22T13:00", "BA3"),
            seg("BOS", "JFK", "2026-10-22T14:00", "2026-10-22T15:00", "BA6"),
        ],
        2,
        "USD",
        "duffel",
        Some(true),
        Some(420),
    );
    let one_stop = offer_full(
        "c1",
        Some(20000),
        vec![
            seg("LHR", "AMS", "2026-10-22T08:00", "2026-10-22T09:00", "BA4"),
            seg("AMS", "JFK", "2026-10-22T10:00", "2026-10-22T13:00", "BA5"),
        ],
        1,
        "USD",
        "duffel",
        Some(true),
        Some(300),
    );
    let cheap = pick_honest(&rates, &[], &[two_stop.clone(), one_stop.clone()], None).unwrap();
    let best = pick_best(&rates, &[], &[two_stop, one_stop], Some(&cheap)).unwrap();
    assert_eq!(cheap.offer.id, "c2");
    assert_eq!(best.offer.id, "c1");
    assert_eq!(best.reason, "Best — cheapest one stop");
}
