use skiplagging::deal_hits::{deal_match, scan_hits};
use skiplagging::fx::fallback_rates;
use skiplagging::models::{Offer, Segment};

fn seg(o: &str, d: &str, flight: &str) -> Segment {
    Segment {
        origin: o.into(),
        dest: d.into(),
        carrier: "BA".into(),
        flight_number: flight.into(),
        dep: "2026-10-28T08:00".into(),
        arr: "2026-10-28T11:00".into(),
        duration_min: 180,
        rbd: "Y".into(),
        ..Segment::default()
    }
}

fn live(id: &str, cents: i64, segs: Vec<Segment>) -> Offer {
    let stops = segs.len() as i32 - 1;
    Offer {
        id: id.into(),
        kind: "connecting".into(),
        channel: "ndc".into(),
        source: "duffel".into(),
        segments: segs,
        price: Some(cents),
        currency: "USD".into(),
        cabin: "ECONOMY".into(),
        carrier: "BA".into(),
        stops,
        live: Some(true),
        ..Offer::default()
    }
}

fn through(id: &str, cents: i64) -> Offer {
    live(id, cents, vec![seg("JFK", "ORD", "BA1"), seg("ORD", "LAX", "BA2")])
}

#[test]
fn cheaper_through_ticket_is_a_deal_once_per_stop_and_destination() {
    let rates = fallback_rates();
    let local = live("local", 20_000, vec![seg("JFK", "ORD", "BA9")]);
    let cheapest = vec![("ORD".to_string(), local)];
    let offers = vec![through("t1", 10_000), through("t2", 9_000), through("dear", 19_500)];
    let hits = scan_hits(&rates, "jfk", &offers, &cheapest, 2_000);
    assert_eq!(hits.len(), 1);
    assert_eq!(hits[0].ticket_id, "t1");
    assert_eq!(hits[0].dest_b, "ORD");
    assert_eq!(hits[0].dest_c, "LAX");
    assert_eq!(hits[0].exit_index, 0);
    assert_eq!(hits[0].through.price, Some(10_000));
    assert_eq!(hits[0].local.price, Some(20_000));
}

#[test]
fn small_savings_test_fares_and_unknown_stops_are_not_deals() {
    let rates = fallback_rates();
    let local = live("local", 20_000, vec![seg("JFK", "ORD", "BA9")]);
    let mut not_live = local.clone();
    not_live.live = Some(false);
    let near = vec![through("near", 19_000)];
    assert!(scan_hits(&rates, "JFK", &near, &vec![("ORD".to_string(), local.clone())], 2_000).is_empty());
    let cheap = vec![through("cheap", 5_000)];
    assert!(scan_hits(&rates, "JFK", &cheap, &vec![("ORD".to_string(), not_live)], 2_000).is_empty());
    assert!(scan_hits(&rates, "JFK", &cheap, &vec![("DEN".to_string(), local)], 2_000).is_empty());
}

#[test]
fn deal_record_names_the_route_and_links_to_the_ticketed_destination() {
    let rates = fallback_rates();
    let local = live("local", 20_000, vec![seg("JFK", "ORD", "BA9")]);
    let hits = scan_hits(&rates, "JFK", &vec![through("t1", 10_000)], &vec![("ORD".to_string(), local)], 2_000);
    let m = deal_match(&hits[0], "JFK", "2026-10-28", "US", "Los Angeles", "US");
    assert_eq!(m.id, "disc-JFK-ORD-LAX-t1");
    assert_eq!(m.hidden_city, "LAX");
    assert_eq!(m.hidden_city_name, "Los Angeles (LAX)");
    assert_eq!(m.gross_saving, 10_000);
    assert_eq!(m.bookers.len(), 17);
    assert_eq!(m.exit_segment_index, 0);
}
