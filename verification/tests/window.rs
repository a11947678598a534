use chrono::{Duration, TimeZone, Utc};
use skiplagging::models::{Offer, Segment};
use skiplagging::times::Instant;
use skiplagging::window::{human_mins, urgency_rank, window_for, FarePoint};

fn through(dep: &str) -> Offer {
    Offer {
        id: "t".into(),
        kind: "hidden-city".into(),
        segments: vec![
            Segment {
                origin: "JFK".into(),
                dest: "ORD".into(),
                carrier: "AA".into(),
                flight_number: "AA100".into(),
                dep: dep.into(),
                arr: dep.into(),
                duration_min: 150,
                ..Segment::default()
            },
            Segment {
                origin: "ORD".into(),
                dest: "DEN".into(),
                carrier: "AA".into(),
                flight_number: "AA200".into(),
                dep: dep.into(),
                arr: dep.into(),
                duration_min: 150,
                ..Segment::default()
            },
        ],
        price: Some(18000),
        currency: "USD".into(),
        ..Offer::default()
    }
}

fn offer_at(dep: &str, seats: Option<i32>, expires: Option<&str>, cents: i64) -> Offer {
    let mut o = through(dep);
    o.seats = seats;
    o.expires_at = expires.map(|s| s.to_string());
    o.price = Some(cents);
    o
}

fn now() -> chrono::DateTime<Utc> {
    Utc.with_ymd_and_hms(2026, 9, 10, 12, 0, 0).unwrap()
}

fn instant(t: chrono::DateTime<Utc>) -> Instant {
    Instant { secs: t.timestamp(), nanos: t.timestamp_subsec_nanos() }
}

fn point(cents: i64, at: chrono::DateTime<Utc>) -> FarePoint {
    FarePoint {
        fingerprint: String::new(),
        origin: "JFK".into(),
        ticketed: "DEN".into(),
        date: "2026-10-10".into(),
        price: cents,
        observed_at: instant(at),
    }
}

#[test]
fn two_seats_is_now() {
    let dep = (now() + Duration::days(14)).to_rfc3339();
    let w = window_for(&offer_at(&dep, Some(2), None, 18000), Some(18000), &[], &instant(now()));
    assert_eq!(w.urgency, "now");
    assert!(w.label.contains("seats"));
    assert!(w.headline.contains("through ticket"));
}

#[test]
fn quote_expiring_is_now() {
    let dep = (now() + Duration::days(20)).to_rfc3339();
    let exp = (now() + Duration::minutes(12)).to_rfc3339();
    let w = window_for(&offer_at(&dep, Some(9), Some(&exp), 18000), Some(18000), &[], &instant(now()));
    assert_eq!(w.urgency, "now");
    assert!(w.headline.contains("dies"));
}

#[test]
fn departs_tonight_is_now() {
    let dep = (now() + Duration::hours(11)).to_rfc3339();
    let w = window_for(&offer_at(&dep, Some(9), None, 18000), Some(18000), &[], &instant(now()));
    assert_eq!(w.urgency, "now");
    assert!(w.headline.contains("close in"));
}

#[test]
fn three_days_out_is_soon() {
    let dep = (now() + Duration::hours(48)).to_rfc3339();
    let w = window_for(&offer_at(&dep, Some(9), None, 18000), Some(18000), &[], &instant(now()));
    assert_eq!(w.urgency, "soon");
}

#[test]
fn far_out_few_seats_stays_urgent() {
    let dep = (now() + Duration::days(40)).to_rfc3339();
    let w = window_for(&offer_at(&dep, Some(4), None, 18000), Some(18000), &[], &instant(now()));
    assert_eq!(w.urgency, "soon");
}

#[test]
fn rising_price_bumps_open_to_watch() {
    let dep = (now() + Duration::days(30)).to_rfc3339();
    let series = vec![point(14000, now() - Duration::days(20)), point(17000, now() - Duration::days(2))];
    let w = window_for(&offer_at(&dep, Some(9), None, 18000), Some(18000), &series, &instant(now()));
    assert_eq!(w.trend, "rising");
    assert!(urgency_rank(&w.urgency) >= urgency_rank("watch"));
    assert!(w.low.unwrap() <= 14050);
    assert!(w.points.len() >= 2);
}

#[test]
fn sparkline_keeps_current_and_low() {
    let dep = (now() + Duration::days(16)).to_rfc3339();
    let mut series = Vec::new();
    for i in 0..40i64 {
        series.push(point(20000 - i * 100, now() - Duration::days(40 - i)));
    }
    let w = window_for(&offer_at(&dep, None, None, 15000), Some(15000), &series, &instant(now()));
    assert!(w.points.len() <= 24);
    assert!(w.points.last().unwrap().price <= 15100);
    assert!(w.low.unwrap() <= w.high.unwrap());
}

#[test]
fn human_minutes_reads() {
    assert_eq!(human_mins(12), "12 min");
    assert_eq!(human_mins(180), "3h");
    assert_eq!(human_mins(3 * 1440), "3d");
}

#[test]
fn urgency_order() {
    assert!(urgency_rank("now") > urgency_rank("soon"));
    assert!(urgency_rank("soon") > urgency_rank("watch"));
    assert!(urgency_rank("watch") > urgency_rank("open"));
}
