use skiplagging::hubs::combine_at_hubs;
use skiplagging::models::{Offer, Segment};
use skiplagging::self_transfer::{bridge_pairs, connection_minutes, pick_transfer_hubs, stitch_chain};

fn codes(v: &[&str]) -> Vec<String> {
    v.iter().map(|s| (*s).to_string()).collect()
}

fn seg(o: &str, d: &str, dep: &str, arr: &str, flight: &str, carrier: &str) -> Segment {
    Segment {
        origin: o.into(),
        dest: d.into(),
        carrier: carrier.into(),
        operating_carrier: None,
        flight_number: flight.into(),
        dep: dep.into(),
        arr: arr.into(),
        duration_min: 120,
        rbd: "Y".into(),
        ..Segment::default()
    }
}

fn priced(oid: &str, cents: i64, segs: Vec<Segment>, carrier: &str, currency: &str) -> Offer {
    let stops = (segs.len().saturating_sub(1)) as i32;
    let first = segs.first().map(|s| s.flight_number.clone()).unwrap_or_default();
    let duration = segs.iter().map(|s| s.duration_min).sum();
    Offer {
        id: oid.into(),
        kind: if stops == 0 { "nonstop".into() } else { "connecting".into() },
        channel: "ndc".into(),
        source: "duffel".into(),
        segments: segs,
        price: Some(cents),
        currency: currency.into(),
        cabin: "ECONOMY".into(),
        fare_basis: "Y".into(),
        carrier: carrier.into(),
        duration_min: duration,
        stops,
        first_flight: first,
        live: Some(true),
        ..Offer::default()
    }
}

#[test]
fn pick_hubs_ranks_overlap_first() {
    let hubs = pick_transfer_hubs("BEY", "CBR", &codes(&["KUL", "DXB"]), &codes(&["KUL", "SYD", "DPS"]), 4, &vec![], &vec![]);
    assert_eq!(hubs[0], "KUL");
    assert!(!hubs.iter().any(|h| h == "BEY" || h == "CBR"));
}

#[test]
fn one_sided_overlap_uses_the_graph_not_a_hub_list() {
    let hubs = pick_transfer_hubs("BEY", "CBR", &codes(&["DXB", "DOH"]), &codes(&["SYD", "MEL"]), 4, &vec![], &vec![]);
    let allowed = codes(&["DXB", "DOH", "SYD", "MEL"]);
    assert!(hubs.iter().all(|h| allowed.contains(h)));
    assert!(!hubs.iter().any(|h| h == "BEY" || h == "CBR"));
}

#[test]
fn extra_hubs_fill_when_overlap_is_thin() {
    let extra = codes(&["SIN", "FRA", "KUL"]);
    let hubs = pick_transfer_hubs("BEY", "CBR", &codes(&["DXB"]), &codes(&["SYD"]), 4, &extra, &vec![]);
    assert!(hubs[0] == "DXB" || hubs[0] == "SYD");
    assert!(hubs.iter().any(|h| h == "SIN"));
}

#[test]
fn bridge_pairs_only_when_no_shared_hub() {
    let pairs = bridge_pairs(&codes(&["KUL", "SIN", "DPS", "SYD"]), &codes(&["KUL", "SIN"]), &codes(&["DPS", "SYD"]), 2);
    assert_eq!(&pairs[..2], [("KUL".to_string(), "DPS".to_string()), ("KUL".to_string(), "SYD".to_string())]);
}

#[test]
fn bridge_pairs_skip_when_two_tickets_already_work() {
    assert!(bridge_pairs(&codes(&["KUL", "DXB"]), &codes(&["KUL"]), &codes(&["KUL", "SYD"]), 2).is_empty());
    assert!(bridge_pairs(&codes(&["ORD", "DTW", "ATL"]), &vec![], &vec![], 2).is_empty());
    assert_eq!(
        bridge_pairs(&codes(&["DXB", "DOH"]), &codes(&["DXB"]), &codes(&["DOH"]), 2),
        [("DXB".to_string(), "DOH".to_string())]
    );
}

#[test]
fn pick_hubs_zero_limit() {
    assert!(pick_transfer_hubs("BEY", "CBR", &codes(&["KUL"]), &codes(&["SYD"]), 0, &vec![], &vec![]).is_empty());
}

#[test]
fn stitch_two_tickets_three_stops_like_kayak() {
    let left = priced(
        "airasia",
        28000,
        vec![
            seg("BEY", "SHJ", "2026-11-19T12:15", "2026-11-19T16:20", "G9412", "G9"),
            seg("SHJ", "KUL", "2026-11-19T21:25", "2026-11-20T08:40", "D7107", "AK"),
        ],
        "AK",
        "USD",
    );
    let right = priced(
        "virgin",
        43700,
        vec![
            seg("KUL", "DPS", "2026-11-20T15:35", "2026-11-20T18:30", "VA80", "VA"),
            seg("DPS", "CBR", "2026-11-20T21:25", "2026-11-21T07:00", "VA81", "VA"),
        ],
        "VA",
        "USD",
    );
    let joined = stitch_chain(&[left, right], "CBR").unwrap();
    assert_eq!(joined.kind, "self-transfer");
    assert_eq!(joined.price, Some(71700));
    assert_eq!(joined.stops, 3);
    assert_eq!(joined.self_transfer_airports, ["KUL"]);
    assert_eq!(
        joined.segments[..joined.segments.len() - 1].iter().map(|s| s.dest.as_str()).collect::<Vec<_>>(),
        ["SHJ", "KUL", "DPS"]
    );
    assert_eq!(joined.segments.last().unwrap().dest, "CBR");
    assert_eq!(joined.separate_tickets.len(), 2);
    assert!(joined.note.as_deref().unwrap().to_lowercase().contains("not hidden-city"));
    assert_eq!(joined.id, "self-airasia+virgin");
    assert_eq!(joined.separate_tickets[0].date, "2026-11-19");
    assert_eq!(joined.separate_tickets[1].dest, "CBR");
}

#[test]
fn stitch_three_tickets_two_self_transfers() {
    let a = priced("t1", 20000, vec![seg("BEY", "KUL", "2026-11-19T12:15", "2026-11-20T08:40", "AK1", "AK")], "AK", "USD");
    let b = priced("t2", 22000, vec![seg("KUL", "DPS", "2026-11-20T15:35", "2026-11-20T18:30", "AK2", "AK")], "AK", "USD");
    let c = priced("t3", 29700, vec![seg("DPS", "CBR", "2026-11-20T21:25", "2026-11-21T07:00", "VA81", "VA")], "VA", "USD");
    let joined = stitch_chain(&[a, b, c], "CBR").unwrap();
    assert_eq!(joined.price, Some(71700));
    assert_eq!(joined.self_transfer_airports, ["KUL", "DPS"]);
    assert_eq!(joined.stops, 2);
}

#[test]
fn stitch_rejects_tight_self_transfer() {
    let left = priced("a", 10000, vec![seg("BEY", "KUL", "2026-11-19T08:00", "2026-11-19T20:00", "AK1", "AK")], "AK", "USD");
    let right = priced("b", 10000, vec![seg("KUL", "CBR", "2026-11-19T21:00", "2026-11-20T10:00", "VA1", "VA")], "VA", "USD");
    assert!(stitch_chain(&[left, right], "CBR").is_none());
}

#[test]
fn stitch_rejects_inbound_that_already_visits_b() {
    let left = priced(
        "via-cbr",
        40000,
        vec![
            seg("BEY", "CBR", "2026-11-19T08:00", "2026-11-20T10:00", "QF1", "QF"),
            seg("CBR", "SYD", "2026-11-20T12:00", "2026-11-20T13:00", "QF2", "QF"),
        ],
        "QF",
        "USD",
    );
    let right = priced("back", 5000, vec![seg("SYD", "CBR", "2026-11-20T18:00", "2026-11-20T19:30", "VA9", "VA")], "VA", "USD");
    assert!(stitch_chain(&[left, right], "CBR").is_none());
}

#[test]
fn stitch_rejects_mixed_currency() {
    let left = priced("a", 10000, vec![seg("BEY", "KUL", "2026-11-19T08:00", "2026-11-19T20:00", "AK1", "AK")], "AK", "USD");
    let right = priced("b", 10000, vec![seg("KUL", "CBR", "2026-11-20T08:00", "2026-11-20T22:00", "VA1", "VA")], "VA", "EUR");
    assert!(stitch_chain(&[left, right], "CBR").is_none());
}

#[test]
fn stitch_rejects_cabin_mismatch() {
    let left = priced("a", 10000, vec![seg("BEY", "KUL", "2026-11-19T08:00", "2026-11-19T20:00", "AK1", "AK")], "AK", "USD");
    let mut right = priced("b", 10000, vec![seg("KUL", "CBR", "2026-11-20T08:00", "2026-11-20T22:00", "VA1", "VA")], "VA", "USD");
    right.cabin = "BUSINESS".into();
    assert!(stitch_chain(&[left, right], "CBR").is_none());
}

#[test]
fn combine_keeps_cheapest() {
    let left = priced("a", 10000, vec![seg("BEY", "KUL", "2026-11-19T08:00", "2026-11-19T20:00", "AK1", "AK")], "AK", "USD");
    let cheap = priced("b1", 20000, vec![seg("KUL", "CBR", "2026-11-20T08:00", "2026-11-20T22:00", "VA1", "VA")], "VA", "USD");
    let dear = priced("b2", 90000, vec![seg("KUL", "CBR", "2026-11-20T09:00", "2026-11-20T23:00", "VA2", "VA")], "VA", "USD");
    let out = combine_at_hubs(
        &vec![("KUL".to_string(), vec![left])],
        &vec![("KUL".to_string(), vec![dear, cheap])],
        &codes(&["CBR"]),
        None,
        8,
    );
    assert_eq!(out[0].price, Some(30000));
}

#[test]
fn stitch_rejects_six_flights() {
    let left = priced(
        "a",
        20000,
        vec![
            seg("BEY", "SHJ", "2026-11-19T12:15", "2026-11-19T16:20", "G91", "AK"),
            seg("SHJ", "KUL", "2026-11-19T21:25", "2026-11-20T08:40", "D71", "AK"),
            seg("KUL", "SIN", "2026-11-20T11:00", "2026-11-20T12:30", "AK3", "AK"),
        ],
        "AK",
        "USD",
    );
    let right = priced(
        "b",
        20000,
        vec![
            seg("SIN", "DPS", "2026-11-20T16:00", "2026-11-20T18:30", "VA1", "VA"),
            seg("DPS", "SYD", "2026-11-20T21:25", "2026-11-21T04:00", "VA2", "VA"),
            seg("SYD", "CBR", "2026-11-21T08:00", "2026-11-21T09:00", "VA3", "VA"),
        ],
        "VA",
        "USD",
    );
    assert!(stitch_chain(&[left, right], "CBR").is_none());
}

#[test]
fn combine_keeps_three_ticket_only_when_cheaper() {
    let left = priced("a", 10000, vec![seg("BEY", "KUL", "2026-11-19T08:00", "2026-11-19T20:00", "AK1", "AK")], "AK", "USD");
    let two_right = priced("b", 20000, vec![seg("KUL", "CBR", "2026-11-20T08:00", "2026-11-20T22:00", "VA1", "VA")], "VA", "USD");
    let mid = priced("m", 5000, vec![seg("KUL", "DPS", "2026-11-20T08:00", "2026-11-20T12:00", "AK2", "AK")], "AK", "USD");
    let dear_last = priced("c", 40000, vec![seg("DPS", "CBR", "2026-11-20T16:00", "2026-11-21T06:00", "VA9", "VA")], "VA", "USD");
    let mids = vec![(("KUL".to_string(), "DPS".to_string()), vec![mid.clone()])];
    let out = combine_at_hubs(
        &vec![("KUL".to_string(), vec![left.clone()])],
        &vec![("KUL".to_string(), vec![two_right.clone()]), ("DPS".to_string(), vec![dear_last])],
        &codes(&["CBR"]),
        Some(&mids),
        8,
    );
    assert!(!out.is_empty());
    assert!(out.iter().all(|o| o.separate_tickets.len() == 2));
    let cheap_last = priced("c2", 8000, vec![seg("DPS", "CBR", "2026-11-20T16:00", "2026-11-21T06:00", "VA8", "VA")], "VA", "USD");
    let cheaper = combine_at_hubs(
        &vec![("KUL".to_string(), vec![left])],
        &vec![("KUL".to_string(), vec![two_right]), ("DPS".to_string(), vec![cheap_last])],
        &codes(&["CBR"]),
        Some(&mids),
        8,
    );
    assert_eq!(cheaper[0].price, Some(23000));
    assert_eq!(cheaper[0].separate_tickets.len(), 3);
}

#[test]
fn connection_minutes_missing_times() {
    assert!(connection_minutes("", "2026-11-20T08:00").is_none());
}

#[test]
fn connection_minutes_counts_the_gap() {
    assert_eq!(connection_minutes("2026-11-19T20:00", "2026-11-20T08:00"), Some(720));
}

#[test]
fn transfer_hubs_skip_the_ends_repeats_and_long_codes() {
    let hubs = pick_transfer_hubs(
        "bey",
        "cbr",
        &codes(&["kul", "BEY", "KUL", "DXB"]),
        &codes(&["cbr", "KUL", "SYDNEY"]),
        3,
        &codes(&["doh", "DXB"]),
        &vec![],
    );
    assert!(hubs.len() <= 3);
    assert_eq!(hubs[0], "KUL");
    for (i, h) in hubs.iter().enumerate() {
        assert_eq!(h.len(), 3);
        assert!(h != "BEY" && h != "CBR");
        assert!(!hubs[..i].contains(h));
    }
}
