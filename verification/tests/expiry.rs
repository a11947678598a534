use chrono::{Duration, SecondsFormat, TimeZone, Utc};
use skiplagging::expiry::{offer_unexpired_at, unexpired_at};
use skiplagging::models::{Offer, Segment};
use skiplagging::times::Instant;

fn priced(expires: Option<&str>) -> Offer {
    Offer {
        id: "o".into(),
        kind: "nonstop".into(),
        channel: "ndc".into(),
        source: "duffel".into(),
        segments: vec![Segment {
            origin: "JFK".into(),
            dest: "ORD".into(),
            carrier: "BA".into(),
            flight_number: "AA1".into(),
            dep: "2026-10-10T08:00".into(),
            arr: "2026-10-10T10:00".into(),
            duration_min: 60,
            rbd: "Y".into(),
            ..Segment::default()
        }],
        price: Some(20000),
        currency: "USD".into(),
        cabin: "ECONOMY".into(),
        fare_basis: "Y".into(),
        carrier: "AA".into(),
        duration_min: 60,
        stops: 0,
        first_flight: "AA1".into(),
        live: Some(true),
        expires_at: expires.map(|s| s.to_string()),
        ..Offer::default()
    }
}

fn at(t: chrono::DateTime<Utc>) -> Instant {
    Instant { secs: t.timestamp(), nanos: t.timestamp_subsec_nanos() }
}

#[test]
fn missing_expires_at_is_kept() {
    let now = Utc.with_ymd_and_hms(2026, 9, 8, 12, 0, 0).unwrap();
    assert!(offer_unexpired_at(&priced(None), Some(at(now))));
}

#[test]
fn past_expires_at_is_dropped() {
    let now = Utc.with_ymd_and_hms(2026, 9, 8, 12, 0, 0).unwrap();
    let dead = priced(Some(&(now - Duration::minutes(1)).to_rfc3339_opts(SecondsFormat::Secs, true)));
    let live = priced(Some(&(now + Duration::minutes(30)).to_rfc3339_opts(SecondsFormat::Secs, true)));
    assert!(!offer_unexpired_at(&dead, Some(at(now))));
    assert!(offer_unexpired_at(&live, Some(at(now))));
    let kept = unexpired_at(&[dead, live.clone()], Some(at(now)));
    assert_eq!(kept.iter().map(|o| o.id.as_str()).collect::<Vec<_>>(), ["o"]);
    assert_eq!(kept[0].expires_at, live.expires_at);
}
