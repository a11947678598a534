use skiplagging::annotate::{apply_ticketed_airports, hints_from_spokes, place_key, ticketed_code};
use skiplagging::models::{Airport, HiddenCityMatch, Offer, RiskAssessment, Segment};
use skiplagging::risk::assess;

fn offer(oid: &str, price: i64, legs: &[(&str, &str)]) -> Offer {
    let segments: Vec<Segment> = legs
        .iter()
        .enumerate()
        .map(|(i, (o, d))| Segment {
            origin: (*o).into(),
            dest: (*d).into(),
            carrier: "AA".into(),
            flight_number: format!("AA{}", 100 + i),
            dep: format!("2026-10-10T0{}:00", 8 + i * 2),
            arr: format!("2026-10-10T0{}:30", 9 + i * 2),
            duration_min: 90,
            ..Segment::default()
        })
        .collect();
    Offer {
        id: oid.into(),
        price: Some(price),
        currency: "USD".into(),
        stops: segments.len() as i32 - 1,
        segments,
        live: Some(true),
        ..Offer::default()
    }
}

fn hc_match(hidden: &str, ticketed: &str) -> HiddenCityMatch {
    HiddenCityMatch {
        id: format!("m-{hidden}"),
        hidden_city: hidden.into(),
        hidden_city_name: "Beyond".into(),
        local_offer: offer("local", 30000, &[("JFK", "ORD")]),
        through_offer: offer("through", 12000, &[("JFK", "ORD"), ("ORD", hidden)]),
        first_flight_match: true,
        gross_saving: 18000,
        saving_pct: 600,
        currency: "USD".into(),
        risk: RiskAssessment {
            score: 0,
            headline: String::new(),
            one_way_only: true,
            carry_on_only: true,
            items: vec![],
            net_saving_estimate: 0,
            expected_disruption_cost: 0,
            expected_enforcement_cost: 0,
        },
        bookers: vec![],
        ticketed_destination: ticketed.into(),
        intended_destination: "ORD".into(),
        exit_segment_index: 0,
        warnings: vec![],
        result_type: "hidden_city".into(),
    }
}

fn airport(iata: &str, city: &str, country: &str) -> Airport {
    Airport { iata: iata.into(), city: city.into(), country: country.into(), ..Airport::default() }
}

#[test]
fn ticketed_code_falls_back_to_hidden_city() {
    assert_eq!(ticketed_code(&hc_match("DFW", "")), "DFW");
    assert_eq!(ticketed_code(&hc_match("DFW", "LAX")), "LAX");
}

#[test]
fn place_key_prefers_place_id() {
    let mut a = airport("JFK", "New York", "US");
    assert_eq!(place_key(&a), "JFK");
    a.place_id = "CITY-NYC".into();
    assert_eq!(place_key(&a), "CITY-NYC");
}

#[test]
fn ticketed_airports_name_matches_and_assess_risk_abroad() {
    let mut matches = vec![hc_match("YYZ", ""), hc_match("ZZZ", "")];
    let aps = vec![airport("YYZ", "Toronto", "CA")];
    apply_ticketed_airports(&mut matches, "US", &aps);
    assert_eq!(matches[0].hidden_city_name, "Toronto (YYZ)");
    let expected = assess(&matches[0].local_offer, &matches[0].through_offer, "YYZ", "ORD", "US", "CA");
    assert_eq!(matches[0].risk.score, expected.score);
    assert_eq!(matches[0].risk.headline, expected.headline);
    assert_ne!(matches[0].risk.headline, "");
    assert_eq!(matches[1].hidden_city_name, "Beyond");
    assert_eq!(matches[1].risk.score, 0);
}

fn spoke(code: &str, airline: &str, n: i64) -> (String, String, i64) {
    (code.into(), airline.into(), n)
}

#[test]
fn hints_skip_origin_and_repeats() {
    let spokes = vec![spoke("LAX", "AA", 3), spoke("JFK", "DL", 2), spoke("LAX", "UA", 9), spoke("SEA", "AS", 1)];
    let aps = vec![airport("LAX", "Los Angeles", "US")];
    let hints = hints_from_spokes(&spokes, &aps, "jfk-x");
    assert_eq!(hints.len(), 2);
    assert_eq!(hints[0].dest, "LAX");
    assert_eq!(hints[0].dest_name, "Los Angeles (LAX)");
    assert_eq!(hints[0].evidence, "AA appears on 3 OpenFlights B→C record(s)");
    assert_eq!(hints[1].dest_name, "SEA");
    assert_eq!(hints[1].source, "openflights-routes");
}

#[test]
fn hints_stop_at_twenty_four() {
    let spokes: Vec<(String, String, i64)> = (0..40).map(|i| spoke(&format!("C{i:02}"), "AA", 1)).collect();
    let hints = hints_from_spokes(&spokes, &[], "JFK");
    assert_eq!(hints.len(), 24);
    assert_eq!(hints[23].dest, "C23");
}
