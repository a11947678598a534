use skiplagging::models::{Offer, Segment};
use skiplagging::sandbox::{is_live_fare, is_sandbox_offer};

fn live_offer() -> Offer {
    Offer {
        id: "ok".into(),
        kind: "nonstop".into(),
        channel: "ndc".into(),
        source: "duffel".into(),
        segments: vec![Segment {
            origin: "JFK".into(),
            dest: "LHR".into(),
            carrier: "BA".into(),
            flight_number: "BA1".into(),
            dep: "2026-10-28T08:00".into(),
            arr: "2026-10-28T11:00".into(),
            duration_min: 180,
            rbd: "Y".into(),
            ..Segment::default()
        }],
        price: Some(20000),
        currency: "USD".into(),
        cabin: "ECONOMY".into(),
        fare_basis: "Y".into(),
        carrier: "BA".into(),
        duration_min: 180,
        stops: 0,
        first_flight: "BA1".into(),
        live: Some(true),
        ..Offer::default()
    }
}

#[test]
fn live_fare_rejects_test_inventory() {
    let live = live_offer();
    let mut fake = live.clone();
    fake.live = Some(false);
    fake.note = Some("Duffel offer. live_mode=False.".into());
    let mut mock = live.clone();
    mock.source = "mock".into();
    mock.live = None;
    let mut zz = live.clone();
    zz.carrier = "ZZ".into();
    zz.segments[0].carrier = "ZZ".into();
    assert!(is_live_fare(&live));
    assert!(is_sandbox_offer(&fake));
    assert!(!is_live_fare(&fake));
    assert!(!is_live_fare(&mock));
    assert!(!is_live_fare(&zz));
}
