use skiplagging::models::SearchQueryError;
use skiplagging::query::error_detail;
use skiplagging::discover::{deal_scan_step, missing_vias, scan_gate, start_deal_scan, DealScanAction, DealScanEvent};
use skiplagging::ingest::{best_airports, record_field, csv_table, geonames, type_rank, AirportCsvRow};
use skiplagging::learn::{merge_travel_dates, StatDelta};
use skiplagging::models::{Offer, Segment};
use skiplagging::places::{rank_airport_rows, AirportRow};
use skiplagging::planner::{search_step, start_search, SearchAction, SearchEvent};
use skiplagging::route_store::{merge_route_stat, new_route_row};
use skiplagging::text::int_text;
use skiplagging::times::Instant;

fn strs(v: &[&str]) -> Vec<String> {
    v.iter().map(|s| (*s).to_string()).collect()
}

#[test]
fn int_text_writes_decimal() {
    assert_eq!(int_text(0), "0");
    assert_eq!(int_text(-4205), "-4205");
    assert_eq!(int_text(i64::MIN), i64::MIN.to_string());
}

fn delta() -> StatDelta {
    StatDelta {
        origin: "JFK".into(),
        intended: "ORD".into(),
        ticketed: "DEN".into(),
        observations: 1,
        successful_connections: 1,
        cheaper_than_direct_count: 1,
        savings: vec![7000],
        saving_pcts: vec![2917],
        currency: "USD".into(),
        best_through_price: Some(17000),
        success: true,
        cheaper: true,
    }
}

#[test]
fn route_rows_add_up_and_keep_the_lower_price() {
    let now = Instant { secs: 1_788_868_800, nanos: 0 };
    let row = new_route_row(&delta(), &now);
    assert_eq!(row.observations, 0);
    let once = merge_route_stat(&row, &delta(), &now);
    assert_eq!((once.observations, once.successful_connections, once.cheaper_than_direct_count), (1, 1, 1));
    assert_eq!(once.success_rate, 10000);
    assert_eq!(once.savings, vec![7000]);
    assert_eq!((once.average_saving, once.median_saving, once.maximum_saving), (7000, 7000, 7000));
    assert_eq!(once.average_saving_percent, 2917);
    assert_eq!(once.best_through_price, Some(17000));
    let mut d2 = delta();
    d2.savings = vec![9000];
    d2.saving_pcts = vec![3750];
    d2.best_through_price = Some(15000);
    d2.observations = 2;
    let twice = merge_route_stat(&once, &d2, &now);
    assert_eq!(twice.observations, 3);
    assert_eq!(twice.successful_connections, 2);
    assert_eq!(twice.savings, vec![7000, 9000]);
    assert_eq!(twice.median_saving, 8000);
    assert_eq!(twice.average_saving_percent, 3334);
    assert_eq!(twice.best_through_price, Some(15000));
    assert_eq!(twice.success_rate, 6667);
}

#[test]
fn travel_dates_are_sorted_distinct_and_bounded() {
    let r = merge_travel_dates(&strs(&["2026-10-12", "2026-10-10"]), &strs(&["2026-10-11", "2026-10-10"]));
    assert_eq!(r, strs(&["2026-10-10", "2026-10-11", "2026-10-12"]));
    let many: Vec<String> = (0..70).map(|i| format!("2026-{:02}", i)).collect();
    let kept = merge_travel_dates(&many, &vec![]);
    assert_eq!(kept.len(), 60);
    assert_eq!(kept[0], "2026-10");
    assert_eq!(kept[59], "2026-69");
}

#[test]
fn deal_scan_needs_a_publishing_token() {
    assert_eq!(scan_gate(false, false), Some("No Duffel token"));
    assert!(scan_gate(true, false).unwrap().starts_with("Need a Duffel live token"));
    assert_eq!(scan_gate(true, true), None);
}

fn seg(o: &str, d: &str) -> Segment {
    Segment { origin: o.into(), dest: d.into(), carrier: "AA".into(), flight_number: "AA1".into(), ..Segment::default() }
}

fn offer(legs: &[(&str, &str)]) -> Offer {
    Offer { price: Some(10000), segments: legs.iter().map(|(o, d)| seg(o, d)).collect(), ..Offer::default() }
}

#[test]
fn missing_vias_are_sorted_new_stops() {
    let offers = vec![
        offer(&[("JFK", "ORD"), ("ORD", "DEN")]),
        offer(&[("JFK", "ATL"), ("ATL", "DEN")]),
        offer(&[("JFK", "CLT"), ("CLT", "MIA")]),
        offer(&[("JFK", "BOS")]),
    ];
    let r = missing_vias(&offers, "jfk", &strs(&["DEN", "MIA", "ORD"]), &strs(&["CLT"]));
    assert_eq!(r, strs(&["ATL"]));
}

#[test]
fn deal_scan_walks_pairs_in_order() {
    let s = start_deal_scan(1, 2);
    let (s, a) = deal_scan_step(&s, DealScanEvent::Begin);
    assert!(matches!(a, DealScanAction::LoadDests { date_i: 0, hub_i: 0 }));
    let (s, a) = deal_scan_step(&s, DealScanEvent::DestsLoaded { n: 0 });
    assert!(matches!(a, DealScanAction::LoadDests { date_i: 0, hub_i: 1 }));
    let (s, a) = deal_scan_step(&s, DealScanEvent::DestsLoaded { n: 1 });
    assert!(matches!(a, DealScanAction::ShopDest { k: 0 }));
    let (s, a) = deal_scan_step(&s, DealScanEvent::Shopped { nonempty: false });
    assert!(matches!(a, DealScanAction::FindMissing));
    let (s, a) = deal_scan_step(&s, DealScanEvent::MissingFound { n: 0 });
    assert!(matches!(a, DealScanAction::Compare));
    let (s, a) = deal_scan_step(&s, DealScanEvent::Compared { hits: 2 });
    assert!(matches!(a, DealScanAction::Finish));
    assert_eq!((s.scanned, s.shops, s.empty_shops, s.found), (1, 1, 1, 2));
}

#[test]
fn search_shops_honest_first_and_skips_expansion_with_a_hidden_fare() {
    let s = start_search(true, false, true, true, false, 0, 12, 20);
    let (s, a) = search_step(&s, SearchEvent::Begin);
    assert!(matches!(a, SearchAction::HoldDirectAndShopHonest));
    let (s, a) = search_step(&s, SearchEvent::HonestShopped { honest_found: true, mock_covered: false, hidden_found: 1 });
    assert!(matches!(a, SearchAction::ReleaseHoldAndShopSelfTransfers));
    let (_, a) = search_step(&s, SearchEvent::SelfTransfersShopped);
    assert!(matches!(a, SearchAction::Finish));
    let deep = start_search(false, true, false, true, false, 12, 12, 20);
    let (deep, a) = search_step(&deep, SearchEvent::Begin);
    assert!(matches!(a, SearchAction::ShopHonestMockOnly));
    let (_, a) = search_step(&deep, SearchEvent::HonestShopped { honest_found: true, mock_covered: true, hidden_found: 3 });
    assert!(matches!(a, SearchAction::ReleaseHoldAndChoose { budget: 8 }));
}

fn csv_row(iata: &str, typ: &str, sched: &str, name: &str) -> AirportCsvRow {
    AirportCsvRow {
        iata_code: Some(iata.into()),
        type_: Some(typ.into()),
        scheduled_service: Some(sched.into()),
        icao_code: None,
        gps_code: Some("kxyz".into()),
        ident: Some(" X ".into()),
        name: Some(name.into()),
        municipality: Some(" Town ".into()),
        iso_country: Some("us".into()),
        iso_region: Some("US-NY".into()),
        continent: Some("na".into()),
        wikipedia_link: Some(" ".into()),
        home_link: None,
        local_code: None,
        keywords: None,
        coords_ok: true,
        elevation_ft: Some(10),
    }
}

#[test]
fn best_airport_prefers_scheduled_then_larger() {
    assert_eq!(type_rank("medium_airport"), 1);
    let rows = vec![
        csv_row("abc", "small_airport", "yes", "Small"),
        csv_row("ABC", "large_airport", "no", "Large"),
        csv_row("ABC", "medium_airport", "YES", "Medium"),
        csv_row("ABC", "medium_airport", "yes", "Medium two"),
        csv_row("A1C", "large_airport", "yes", "Bad code"),
        csv_row("XYZ", "", "no", " "),
    ];
    let best = best_airports(&rows);
    assert_eq!(best.len(), 2);
    assert_eq!(best[0].iata, "ABC");
    assert_eq!(best[0].name, "Medium");
    assert_eq!(best[0].rank, (0, 1));
    assert_eq!(best[0].row, 2);
    assert_eq!(best[0].icao.as_deref(), Some("KXYZ"));
    assert_eq!(best[0].municipality, "Town");
    assert_eq!(best[0].wikipedia, None);
    assert_eq!(best[1].iata, "XYZ");
    assert_eq!(best[1].name, "XYZ");
    assert_eq!(best[1].type_, "unknown");
}

#[test]
fn geonames_reads_country_lines() {
    let mut line = vec!["de", "deu", "276", "GM", " Germany ", "Berlin", "357022", "82927922", "eu", ".de", "eur", "Euro", "49", "", "", "de,nds", "2921044"];
    let text = format!("# header\n\n{}\r\nXX\tshort\n{}\n", line.join("\t"), {
        line[4] = "Deutschland";
        line.join("\t")
    });
    let g = geonames(&text);
    assert_eq!(g.len(), 1);
    assert_eq!(g[0].iso2, "DE");
    assert_eq!(g[0].iso3.as_deref(), Some("DEU"));
    assert_eq!(g[0].name, "Deutschland");
    assert_eq!(g[0].continent, "EU");
    assert_eq!(g[0].currency_code, "EUR");
    assert_eq!(g[0].languages, "de,nds");
    assert_eq!(g[0].geoname_id_text.as_deref(), Some("2921044"));
}

#[test]
fn csv_table_splits_header_and_reads_columns() {
    let (h, recs) = csv_table("iata_code,name,iata_code\nJFK,\"Kennedy, NY\",JFX\nLGA\n").unwrap();
    assert_eq!(h, strs(&["iata_code", "name", "iata_code"]));
    assert_eq!(recs.len(), 2);
    assert_eq!(record_field(&h, &recs[0], "name").as_deref(), Some("Kennedy, NY"));
    assert_eq!(record_field(&h, &recs[0], "iata_code").as_deref(), Some("JFX"));
    assert_eq!(record_field(&h, &recs[1], "iata_code").as_deref(), Some("LGA"));
    assert_eq!(record_field(&h, &recs[1], "name"), None);
}

fn arow(iata: &str, sched: bool) -> AirportRow {
    AirportRow {
        iata: iata.into(),
        icao: None,
        ident: None,
        name: format!("{iata} airport"),
        municipality: "Town".into(),
        iso_country: "US".into(),
        iso_region: "US-NY".into(),
        continent: "NA".into(),
        country_name: "United States".into(),
        region_name: "New York".into(),
        elevation_ft: None,
        type_: "large_airport".into(),
        scheduled_service: sched,
        wikipedia: None,
        home_link: None,
        gps_code: None,
        local_code: None,
        keywords: None,
        source: "ourairports".into(),
    }
}

#[test]
fn airport_ranking_puts_scheduled_first_and_caps_others() {
    let rows = vec![(500, arow("BBB", false)), (400, arow("AAA", true)), (400, arow("AAB", true)),
        (900, arow("CCC", false)), (100, arow("DDD", false))];
    let r: Vec<String> = rank_airport_rows(&rows, "town", 10).into_iter().map(|a| a.iata).collect();
    assert_eq!(r, strs(&["AAA", "AAB", "CCC", "BBB"]));
    let exact: Vec<String> = rank_airport_rows(&rows, "ccc", 2).into_iter().map(|a| a.iata).collect();
    assert_eq!(exact, strs(&["CCC", "BBB"]));
}

#[test]
fn pg_url_drops_the_async_driver_and_leaves_plain_urls() {
    assert_eq!(skiplagging::query::normalize_pg_url("postgresql+asyncpg://u@h/db"), "postgresql://u@h/db");
    assert_eq!(skiplagging::query::normalize_pg_url("postgres+asyncpg://u@h/db"), "postgres://u@h/db");
    assert_eq!(skiplagging::query::normalize_pg_url("postgresql://u@h/db"), "postgresql://u@h/db");
    let once = skiplagging::query::normalize_pg_url("postgresql+asyncpg://u@h/db");
    assert_eq!(skiplagging::query::normalize_pg_url(&once), once);
}

#[test]
fn separate_tickets_must_undercut_the_honest_fare() {
    let cheap = Offer { price: Some(9000), id: "a".into(), ..Offer::default() };
    let equal = Offer { price: Some(10000), id: "b".into(), ..Offer::default() };
    let unpriced = Offer { price: None, id: "c".into(), ..Offer::default() };
    let all = vec![cheap, equal, unpriced];
    let ids = |v: Vec<Offer>| v.into_iter().map(|o| o.id).collect::<Vec<_>>();
    assert_eq!(ids(skiplagging::shop::below_honest(&all, Some(10000))), strs(&["a"]));
    assert_eq!(ids(skiplagging::shop::below_honest(&all, None)), strs(&["a", "b", "c"]));
    assert!(skiplagging::shop::below_honest(&all, Some(0)).is_empty());
}

#[test]
fn refused_searches_get_field_messages() {
    assert_eq!(error_detail(&SearchQueryError::BadField("origin")), "Invalid origin IATA or city code.");
    assert_eq!(error_detail(&SearchQueryError::BadField("adults")), "Adults must be between 1 and 9.");
    assert_eq!(
        error_detail(&SearchQueryError::BadField("cabin")),
        "Cabin must be ECONOMY, PREMIUM_ECONOMY, BUSINESS, or FIRST."
    );
    assert_eq!(
        error_detail(&SearchQueryError::ReturnBeforeOutbound),
        "Return date must be on or after the outbound date."
    );
    assert_eq!(error_detail(&SearchQueryError::BadField("seats")), "seats");
}
