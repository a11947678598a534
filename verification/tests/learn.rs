use skiplagging::fx::{fallback_rates, mark_rates_trusted, Rates};
use skiplagging::learn::{build_batch, LearnBatch, StatDelta};
use skiplagging::mock::jfk_ord_roundtrip;
use skiplagging::models::{Offer, Segment};
use skiplagging::times::Instant;

fn now() -> Instant {
    // 2026-09-08T12:00:00Z
    Instant { secs: 1_788_868_800, nanos: 0 }
}

fn trusted() -> Rates {
    let mut r = fallback_rates();
    mark_rates_trusted(&mut r);
    r
}

fn seg(o: &str, d: &str, flight: &str, carrier: &str) -> Segment {
    Segment {
        origin: o.into(),
        dest: d.into(),
        carrier: carrier.into(),
        operating_carrier: None,
        flight_number: flight.into(),
        dep: "2026-10-10T08:00".into(),
        arr: "2026-10-10T10:00".into(),
        duration_min: 120,
        rbd: "Y".into(),
        ..Segment::default()
    }
}

fn priced(oid: &str, cents: i64, segs: Vec<Segment>, currency: &str, source: &str) -> Offer {
    let stops = segs.len() as i32 - 1;
    let carrier = segs.first().map(|s| s.carrier.clone()).unwrap_or_default();
    let first = segs.first().map(|s| s.flight_number.clone()).unwrap_or_default();
    Offer {
        id: oid.into(),
        kind: if stops == 0 { "nonstop".into() } else { "connecting".into() },
        channel: "ndc".into(),
        source: source.into(),
        segments: segs,
        price: Some(cents),
        currency: currency.into(),
        cabin: "ECONOMY".into(),
        fare_basis: "Y".into(),
        carrier,
        stops,
        first_flight: first,
        live: Some(true),
        expires_at: Some("2026-09-08T12:30:00Z".into()),
        ..Offer::default()
    }
}

fn codes(v: &[&str]) -> Vec<String> {
    v.iter().map(|s| (*s).to_string()).collect()
}

fn jfk_ord_batch(probed: &[&str]) -> LearnBatch {
    let honest = priced("aa", 24000, vec![seg("JFK", "ORD", "AA100", "AA")], "USD", "duffel");
    let den = priced("den", 17000, vec![seg("JFK", "ORD", "UA200", "UA"), seg("ORD", "DEN", "UA300", "UA")], "USD", "duffel");
    let sea = priced("sea", 30000, vec![seg("JFK", "ORD", "AS400", "AS"), seg("ORD", "SEA", "AS500", "AS")], "USD", "duffel");
    let lax = priced("lax", 15000, vec![seg("JFK", "DFW", "AA600", "AA"), seg("DFW", "LAX", "AA700", "AA")], "USD", "duffel");
    build_batch(
        &trusted(),
        &[honest, den, sea, lax],
        &codes(&["JFK"]),
        &codes(&["ORD"]),
        Some(24000),
        Some("USD"),
        &codes(probed),
        "2026-10-10",
        1,
        "ECONOMY",
        None,
        None,
        Some(now()),
    )
}

fn row<'a>(b: &'a LearnBatch, o: &str, i: &str, t: &str) -> Option<&'a StatDelta> {
    b.stats.iter().find(|r| r.origin == o && r.intended == i && r.ticketed == t)
}

fn has_edge(b: &LearnBatch, o: &str, d: &str, c: &str, f: &str) -> bool {
    b.edges.iter().any(|e| e.origin == o && e.dest == d && e.carrier == c && e.flight_number == f)
}

#[test]
fn learner_records_every_fare_and_flight_edge() {
    let batch = jfk_ord_batch(&["DEN", "SEA", "LAX", "PHX"]);
    let mut uids: Vec<&str> = batch.fares.iter().map(|f| f.offer_uid.as_str()).collect();
    uids.sort();
    assert_eq!(uids, ["aa", "den", "lax", "sea"]);
    let den = batch.fares.iter().find(|f| f.offer_uid == "den").unwrap();
    assert_eq!(den.origin, "JFK");
    assert_eq!(den.ticketed, "DEN");
    assert_eq!(den.connections, ["ORD"]);
    assert_eq!(den.price, 17000);
    assert_eq!(den.expires_at.as_deref(), Some("2026-09-08T12:30:00Z"));
    assert!(has_edge(&batch, "JFK", "ORD", "UA", "UA200"));
    assert!(has_edge(&batch, "ORD", "DEN", "UA", "UA300"));
    let edge = batch
        .edges
        .iter()
        .find(|e| e.origin == "JFK" && e.dest == "ORD" && e.carrier == "UA" && e.flight_number == "UA200")
        .unwrap();
    assert!(edge.travel_dates.iter().any(|d| d == "2026-10-10"));
    assert_eq!((batch.observed_at.secs, batch.observed_at.nanos), (now().secs, now().nanos));
}

#[test]
fn learner_scores_probes_success_and_savings() {
    let batch = jfk_ord_batch(&["DEN", "SEA", "LAX", "PHX"]);
    let den = row(&batch, "JFK", "ORD", "DEN").unwrap();
    assert_eq!(den.observations, 1);
    assert_eq!(den.successful_connections, 1);
    assert_eq!(den.cheaper_than_direct_count, 1);
    assert_eq!(den.savings, [7000]);
    // 70 of 240 dollars: 29.17 percent
    assert_eq!(den.saving_pcts, [2917]);
    assert_eq!(den.best_through_price, Some(17000));
    let sea = row(&batch, "JFK", "ORD", "SEA").unwrap();
    assert_eq!(sea.observations, 1);
    assert_eq!(sea.successful_connections, 1);
    assert_eq!(sea.cheaper_than_direct_count, 0);
    let lax = row(&batch, "JFK", "ORD", "LAX").unwrap();
    assert_eq!(lax.observations, 1);
    assert_eq!(lax.successful_connections, 0);
    assert_eq!(row(&batch, "JFK", "DFW", "LAX").unwrap().successful_connections, 1);
    let phx = row(&batch, "JFK", "ORD", "PHX").unwrap();
    assert_eq!(phx.observations, 1);
    assert_eq!(phx.successful_connections, 0);
    assert!(batch.stats.iter().all(|r| r.ticketed != "ORD"));
}

#[test]
fn learner_counts_index_hits_without_double_counting_probes() {
    let batch = jfk_ord_batch(&[]);
    let den = row(&batch, "JFK", "ORD", "DEN").unwrap();
    assert_eq!(den.observations, 1);
    assert_eq!(den.successful_connections, 1);
}

#[test]
fn learner_converts_gbp_and_ignores_offers_from_other_origins() {
    let honest = priced("aa", 24000, vec![seg("JFK", "ORD", "AA100", "AA")], "USD", "duffel");
    let gbp = priced("gbp", 8000, vec![seg("JFK", "ORD", "BA1", "BA"), seg("ORD", "DEN", "BA2", "BA")], "GBP", "duffel");
    let other = priced("ewr", 9000, vec![seg("EWR", "ORD", "UA9", "UA"), seg("ORD", "DEN", "UA10", "UA")], "USD", "duffel");
    let batch = build_batch(
        &trusted(),
        &[honest, gbp, other],
        &codes(&["JFK"]),
        &codes(&["ORD"]),
        Some(24000),
        Some("USD"),
        &codes(&["DEN"]),
        "2026-10-10",
        1,
        "ECONOMY",
        None,
        None,
        Some(now()),
    );
    let den = row(&batch, "JFK", "ORD", "DEN").unwrap();
    assert_eq!(den.successful_connections, 1);
    assert_eq!(den.cheaper_than_direct_count, 1);
    assert!(row(&batch, "EWR", "ORD", "DEN").is_none());
    let mut uids: Vec<&str> = batch.fares.iter().map(|f| f.offer_uid.as_str()).collect();
    uids.sort();
    assert_eq!(uids, ["aa", "gbp"]);
    assert!(batch.fares.iter().all(|f| f.currency == "USD"));
}

#[test]
fn learner_round_trip_ticketed_is_outbound_dest() {
    let rt = jfk_ord_roundtrip("2026-10-10", "2026-10-17");
    let batch = build_batch(
        &trusted(),
        &[rt],
        &codes(&["JFK"]),
        &codes(&["ORD"]),
        Some(43000),
        Some("USD"),
        &[],
        "2026-10-10",
        1,
        "ECONOMY",
        None,
        None,
        Some(now()),
    );
    let fare = &batch.fares[0];
    assert_eq!(fare.ticketed, "ORD");
    assert!(fare.connections.is_empty());
    assert!(!has_edge(&batch, "ORD", "JFK", "AA", "AA101"));
    assert!(batch.stats.is_empty());
}

#[test]
fn learner_uses_the_named_probe_pair() {
    let batch = build_batch(
        &trusted(),
        &[],
        &codes(&["jfk", "ewr"]),
        &codes(&["ord"]),
        None,
        None,
        &codes(&["den", "den", "ord", "ewr"]),
        "2026-10-10",
        1,
        "ECONOMY",
        Some("lga-x"),
        None,
        Some(now()),
    );
    // probed DEN once; ORD is intended and EWR an origin
    assert_eq!(batch.stats.len(), 1);
    let den = row(&batch, "LGA", "ORD", "DEN").unwrap();
    assert_eq!(den.observations, 1);
    assert!(!den.success);
}

#[test]
fn savings_summary_keeps_history_bounded() {
    let history: Vec<i128> = (0..300).map(|i| i as i128 * 100).collect();
    let kept = skiplagging::learn::merge_savings(&history, &[100_000]);
    assert_eq!(kept.len(), 200);
    assert_eq!(*kept.last().unwrap(), 100_000);
    assert_eq!(skiplagging::learn::summarize_savings(&[7_000, 9_000, 11_000]), (9_000, 9_000, 11_000));
    assert_eq!(skiplagging::learn::summarize_savings(&[]), (0, 0, 0));
}
