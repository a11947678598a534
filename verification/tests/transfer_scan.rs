use skiplagging::hubs::keep_legs;
use skiplagging::models::{Offer, Segment};
use skiplagging::transfer_scan::{finish_transfer_scan, start_transfer_scan, tables_fit, transfer_step, LegPass, TransferAction};

fn codes(v: &[&str]) -> Vec<String> {
    v.iter().map(|s| (*s).to_string()).collect()
}

fn seg(o: &str, d: &str, dep: &str, arr: &str, flight: &str) -> Segment {
    Segment {
        origin: o.into(),
        dest: d.into(),
        carrier: "AA".into(),
        flight_number: flight.into(),
        dep: dep.into(),
        arr: arr.into(),
        duration_min: 120,
        rbd: "Y".into(),
        ..Segment::default()
    }
}

fn offer(oid: &str, cents: i64, segs: Vec<Segment>, carrier: &str) -> Offer {
    let stops = (segs.len().saturating_sub(1)) as i32;
    let duration = segs.iter().map(|s| s.duration_min).sum();
    Offer {
        id: oid.into(),
        kind: if stops == 0 { "nonstop".into() } else { "connecting".into() },
        source: "duffel".into(),
        segments: segs,
        price: Some(cents),
        currency: "USD".into(),
        cabin: "ECONOMY".into(),
        carrier: carrier.into(),
        duration_min: duration,
        stops,
        ..Offer::default()
    }
}

fn shop_of(a: &TransferAction) -> (String, String, String) {
    match a {
        TransferAction::Shop { from, to, date } => (from.clone(), to.clone(), date.clone()),
        TransferAction::Combine => panic!("expected a shop"),
    }
}

#[test]
fn keep_legs_keeps_usable_legs_cheapest_first() {
    let offers = vec![
        offer("dear", 30_000, vec![seg("JFK", "ORD", "2026-05-01T08:00", "2026-05-01T10:00", "AA1")], "AA"),
        offer("cheap", 10_000, vec![seg("JFK", "ORD", "2026-05-01T09:00", "2026-05-01T11:00", "AA2")], "AA"),
        offer("wrong_end", 5_000, vec![seg("JFK", "DEN", "2026-05-01T09:00", "2026-05-01T11:00", "AA3")], "AA"),
        offer(
            "one_stop",
            4_000,
            vec![
                seg("JFK", "DTW", "2026-05-01T06:00", "2026-05-01T08:00", "AA4"),
                seg("DTW", "ORD", "2026-05-01T09:00", "2026-05-01T10:00", "AA5"),
            ],
            "AA",
        ),
        offer("sandbox", 1_000, vec![seg("JFK", "ORD", "2026-05-01T07:00", "2026-05-01T09:00", "ZZ1")], "ZZ"),
    ];
    let kept = keep_legs(offers, &codes(&["ORD"]), &codes(&["LAX"]));
    let ids: Vec<&str> = kept.iter().map(|o| o.id.as_str()).collect();
    assert_eq!(ids, vec!["cheap", "dear", "one_stop"]);
}

#[test]
fn keep_legs_drops_hidden_city_and_long_tickets() {
    let through = offer(
        "through",
        2_000,
        vec![
            seg("JFK", "ORD", "2026-05-01T06:00", "2026-05-01T08:00", "AA1"),
            seg("ORD", "LAX", "2026-05-01T09:00", "2026-05-01T11:00", "AA2"),
        ],
        "AA",
    );
    let long = offer(
        "long",
        2_000,
        vec![
            seg("JFK", "A1", "2026-05-01T01:00", "2026-05-01T02:00", "AA3"),
            seg("A1", "A2", "2026-05-01T03:00", "2026-05-01T04:00", "AA4"),
            seg("A2", "A3", "2026-05-01T05:00", "2026-05-01T06:00", "AA5"),
            seg("A3", "LAX", "2026-05-01T07:00", "2026-05-01T08:00", "AA6"),
        ],
        "AA",
    );
    let kept = keep_legs(vec![through, long], &codes(&["LAX"]), &codes(&["ORD"]));
    assert!(kept.is_empty());
}

#[test]
fn keep_legs_keeps_four_at_most() {
    let offers: Vec<Offer> = (0..6)
        .map(|i| offer(&format!("o{}", i), 10_000 - i * 100, vec![seg("JFK", "ORD", "2026-05-01T08:00", "2026-05-01T10:00", "AA1")], "AA"))
        .collect();
    let kept = keep_legs(offers, &codes(&["ORD"]), &codes(&["LAX"]));
    let ids: Vec<&str> = kept.iter().map(|o| o.id.as_str()).collect();
    assert_eq!(ids, vec!["o5", "o4", "o3", "o2"]);
}

#[test]
fn transfer_scan_shops_inbound_then_outbound_dates_then_pairs() {
    let (s, a) = start_transfer_scan(
        "BEY".into(),
        "CBR".into(),
        "2026-05-01".into(),
        "deep",
        codes(&["KUL", "DPS"]),
        vec![("KUL".to_string(), "DPS".to_string())],
        codes(&["CBR"]),
    );
    assert_eq!(s.dates, codes(&["2026-05-01", "2026-05-02"]));
    let mut seen = vec![shop_of(&a)];
    let mut s = s;
    loop {
        let (t, a) = transfer_step(s, vec![]);
        s = t;
        match a {
            TransferAction::Shop { .. } => seen.push(shop_of(&a)),
            TransferAction::Combine => break,
        }
    }
    let want: Vec<(String, String, String)> = vec![
        ("BEY", "KUL", "2026-05-01"),
        ("BEY", "DPS", "2026-05-01"),
        ("KUL", "CBR", "2026-05-01"),
        ("KUL", "CBR", "2026-05-02"),
        ("DPS", "CBR", "2026-05-01"),
        ("DPS", "CBR", "2026-05-02"),
        ("KUL", "DPS", "2026-05-01"),
    ]
    .into_iter()
    .map(|(a, b, c)| (a.to_string(), b.to_string(), c.to_string()))
    .collect();
    assert_eq!(seen, want);
    assert!(s.pass == LegPass::Done);
    assert_eq!(s.inbound.len(), 2);
    assert_eq!(s.outbound.len(), 2);
    assert!(s.mids.is_empty());
}

#[test]
fn transfer_scan_fast_mode_shops_one_date_and_no_pairs() {
    let (s, a) = start_transfer_scan(
        "BEY".into(),
        "CBR".into(),
        "2026-05-01".into(),
        "fast",
        codes(&["KUL"]),
        vec![("KUL".to_string(), "DPS".to_string())],
        codes(&["CBR"]),
    );
    assert_eq!(shop_of(&a), ("BEY".to_string(), "KUL".to_string(), "2026-05-01".to_string()));
    assert!(s.pairs.is_empty());
    let (s, a) = transfer_step(s, vec![]);
    assert_eq!(shop_of(&a), ("KUL".to_string(), "CBR".to_string(), "2026-05-01".to_string()));
    let (s, a) = transfer_step(s, vec![]);
    assert!(matches!(a, TransferAction::Combine));
    assert!(s.pass == LegPass::Done);
}

#[test]
fn transfer_scan_without_hubs_joins_at_once() {
    let (s, a) = start_transfer_scan("BEY".into(), "CBR".into(), "2026-05-01".into(), "balanced", vec![], vec![], codes(&["CBR"]));
    assert!(matches!(a, TransferAction::Combine));
    let (trips, legs) = finish_transfer_scan(&s).unwrap();
    assert!(trips.is_empty());
    assert!(legs.is_empty());
}

#[test]
fn transfer_scan_joins_two_tickets_at_a_hub() {
    let (s, _) = start_transfer_scan("JFK".into(), "LAX".into(), "2026-05-01".into(), "fast", codes(&["ORD"]), vec![], codes(&["LAX"]));
    let first = offer("in", 10_000, vec![seg("JFK", "ORD", "2026-05-01T08:00:00", "2026-05-01T10:00:00", "AA1")], "AA");
    let (s, _) = transfer_step(s, vec![first]);
    let second = offer("out", 12_000, vec![seg("ORD", "LAX", "2026-05-01T14:00:00", "2026-05-01T16:00:00", "AA2")], "AA");
    let (s, a) = transfer_step(s, vec![second]);
    assert!(matches!(a, TransferAction::Combine));
    assert!(tables_fit(&s));
    let (trips, legs) = finish_transfer_scan(&s).unwrap();
    assert_eq!(trips.len(), 1);
    assert_eq!(trips[0].price, Some(22_000));
    assert_eq!(trips[0].segments.len(), 2);
    assert_eq!(legs.len(), 2);
    assert_eq!(legs[0].id, "in");
}

#[test]
fn transfer_scan_refuses_to_join_out_of_range_prices() {
    let (s, _) = start_transfer_scan("JFK".into(), "LAX".into(), "2026-05-01".into(), "fast", codes(&["ORD"]), vec![], codes(&["LAX"]));
    let huge = offer("in", i64::MAX, vec![seg("JFK", "ORD", "2026-05-01T08:00:00", "2026-05-01T10:00:00", "AA1")], "AA");
    let (s, _) = transfer_step(s, vec![huge]);
    assert!(!tables_fit(&s));
    assert!(finish_transfer_scan(&s).is_none());
}

fn trip(oid: &str, cents: Option<i64>, flight: &str, tickets: usize) -> Offer {
    let mut o = offer(oid, 0, vec![seg("JFK", "LAX", "2026-05-01T08:00:00", "2026-05-01T12:00:00", flight)], "AA");
    o.price = cents;
    o.separate_tickets = (0..tickets)
        .map(|_| skiplagging::models::SeparateTicket {
            origin: "JFK".into(),
            dest: "LAX".into(),
            date: "2026-05-01".into(),
            price: 0,
            currency: "USD".into(),
            carrier: "AA".into(),
        })
        .collect();
    o
}

#[test]
fn ranked_trips_come_cheapest_first_with_distinct_flights() {
    let cands = vec![
        trip("a", Some(30_000), "AA1", 2),
        trip("b", None, "AA2", 2),
        trip("c", Some(20_000), "AA3", 2),
        trip("c_again", Some(25_000), "AA3", 2),
        trip("many_cheap", Some(10_000), "AA4", 3),
        trip("many_dear", Some(40_000), "AA5", 3),
    ];
    let ranked = skiplagging::hubs::rank_trips(&cands, 8);
    let ids: Vec<&str> = ranked.iter().map(|o| o.id.as_str()).collect();
    assert_eq!(ids, vec!["many_cheap", "c", "a", "b"]);
}
