use skiplagging::budget::{start_ledger, timed_shop_admit, timed_shop_record, Ledger};

fn shop(ledger: &mut Ledger, provider: &str, dest: &str, purpose: &str, ok: bool, offers: i32) -> bool {
    if !timed_shop_admit(ledger, provider, purpose) {
        return false;
    }
    timed_shop_record(ledger, provider, "jfk", dest, "2026-10-10", purpose, ok, offers, 5);
    true
}

#[test]
fn ledger_records_paid_calls_and_free_mock() {
    let mut ledger = start_ledger(5000, 12);
    assert!(shop(&mut ledger, "duffel", "DEN", "expand", true, 1));
    assert!(shop(&mut ledger, "duffel", "SEA", "expand", false, 0));
    assert!(shop(&mut ledger, "mock", "ORD", "direct", true, 1));
    assert_eq!(ledger.calls().len(), 3);
    assert_eq!(ledger.paid().len(), 2);
    // two paid calls at half a cent: one cent
    assert_eq!(ledger.total_cost(), 10_000);
    let calls = ledger.calls();
    let failed = calls.iter().find(|c| c.dest == "SEA").unwrap();
    assert!(!failed.ok && failed.offers == 0);
    assert_eq!(failed.origin, "JFK");
    let mock = calls.iter().find(|c| c.provider == "mock").unwrap();
    assert_eq!(mock.cost_micros, 0);
}

#[test]
fn ledger_caps_paid_calls() {
    let mut ledger = start_ledger(5000, 1);
    let first = shop(&mut ledger, "duffel", "DEN", "expand", true, 1);
    let second = shop(&mut ledger, "duffel", "SEA", "expand", true, 1);
    assert!(first);
    assert!(!second);
    assert_eq!(ledger.paid().len(), 1);
}

#[test]
fn ledger_caps_concurrent_paid_calls() {
    let mut ledger = start_ledger(5000, 2);
    // three calls admitted before any of them ends
    let admitted: Vec<bool> = ["AAA", "BBB", "CCC"]
        .iter()
        .map(|_| timed_shop_admit(&mut ledger, "duffel", "direct"))
        .collect();
    assert_eq!(admitted.iter().filter(|a| **a).count(), 2);
    for (dest, ok) in ["AAA", "BBB", "CCC"].iter().zip(admitted) {
        if ok {
            timed_shop_record(&mut ledger, "duffel", "JFK", dest, "2026-10-10", "direct", true, 1, 200);
        }
    }
    assert_eq!(ledger.paid().len(), 2);
    assert_eq!(ledger.remaining(), 0);
}

#[test]
fn default_ledger_is_empty() {
    let ledger = Ledger::default();
    assert_eq!(ledger.total_cost(), 0);
    assert_eq!(ledger.remaining(), 12);
    assert_eq!(ledger.cost_per_call(), 5000);
}

#[test]
fn held_direct_slot_is_kept_from_other_purposes() {
    let mut ledger = start_ledger(5000, 2);
    ledger.hold_direct_slot();
    assert_eq!(ledger.remaining(), 1);
    assert!(ledger.reserve_purpose(1, "expand"));
    assert!(!ledger.reserve_purpose(1, "expand"));
    assert!(ledger.reserve_purpose(1, "direct"));
    assert_eq!(ledger.remaining(), 0);
    assert!(!ledger.has_paid_direct());
    timed_shop_record(&mut ledger, "duffel", "JFK", "LAX", "2026-10-10", "direct", true, 3, 10);
    assert!(ledger.has_paid_direct());
    ledger.release_direct_hold();
    assert_eq!(ledger.remaining(), 0);
}

#[test]
fn total_cost_rounds_to_four_decimals() {
    let mut ledger = start_ledger(1234, 5);
    assert!(ledger.reserve(1));
    timed_shop_record(&mut ledger, "duffel", "JFK", "LAX", "2026-10-10", "expand", true, 1, 10);
    // 0.001234 USD rounds to 0.0012
    assert_eq!(ledger.total_cost(), 1200);
    assert!(ledger.reserve(0));
    assert!(!ledger.reserve(5));
}
