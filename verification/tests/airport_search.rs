use skiplagging::airport_search::{
    floored_search_rows, search_city_hit, search_country_iso, search_fallback_rows, search_fallback_word, shape_airport_search,
};
use skiplagging::places::{score_airport, AirportRow};

fn row(iata: &str, name: &str, city: &str, country: &str, kind: &str, sched: bool) -> AirportRow {
    AirportRow {
        iata: iata.to_string(),
        icao: None,
        ident: None,
        name: name.to_string(),
        municipality: city.to_string(),
        iso_country: country.to_string(),
        iso_region: String::new(),
        continent: String::new(),
        country_name: String::new(),
        region_name: String::new(),
        elevation_ft: None,
        type_: kind.to_string(),
        scheduled_service: sched,
        wikipedia: None,
        home_link: None,
        gps_code: None,
        local_code: None,
        keywords: None,
        source: "ourairports".to_string(),
    }
}

fn codes(v: &[AirportRow]) -> Vec<String> {
    v.iter().map(|r| r.iata.clone()).collect()
}

#[test]
fn country_boost_and_floor_shape_the_scores() {
    let cdg = row("CDG", "Charles de Gaulle", "Paris", "FR", "large_airport", true);
    let pas = row("PAS", "Pasadena Field", "Pasadena", "US", "small_airport", false);
    let base = score_airport(&cdg, "paris");
    let s = floored_search_rows(&[cdg.clone(), pas.clone()], "paris", Some("FR"));
    assert_eq!(s.len(), 1);
    assert_eq!(s[0].0, base + 400);
    let short = floored_search_rows(&[cdg.clone()], "pa", Some("FR"));
    assert!(short.is_empty() || short[0].0 == score_airport(&cdg, "pa") + 40);
    let none = floored_search_rows(&[pas], "tokyo", None);
    assert!(none.is_empty());
}

#[test]
fn city_hit_brings_sibling_airports_with_extra_points() {
    let jfk = row("JFK", "John F Kennedy International Airport", "New York", "US", "large_airport", true);
    let lga = row("LGA", "LaGuardia Airport", "New York", "US", "large_airport", true);
    let ewr = row("EWR", "Newark Liberty International Airport", "Newark", "US", "large_airport", true);
    let heli = row("JRB", "Downtown Heliport", "New York", "US", "heliport", false);
    let rows = vec![jfk.clone(), lga.clone()];
    let s = floored_search_rows(&rows, "New York", None);
    let hit = search_city_hit(&s, "New York").unwrap();
    assert_eq!(hit.iata, "JFK");
    let shown = shape_airport_search(&rows, "New York", None, &[ewr.clone(), heli, jfk.clone()], 8);
    let got = codes(&shown);
    assert!(got.contains(&"EWR".to_string()));
    assert!(got.contains(&"JFK".to_string()) && got.contains(&"LGA".to_string()));
    assert!(!got.contains(&"JRB".to_string()));
    assert_eq!(got.len(), 3);
}

#[test]
fn without_a_city_hit_nearby_airports_are_ignored() {
    let cdg = row("CDG", "Charles de Gaulle", "Paris", "FR", "large_airport", true);
    let ory = row("ORY", "Orly", "Paris", "FR", "large_airport", true);
    let shown = shape_airport_search(&[cdg], "CDG", None, &[ory], 8);
    assert_eq!(codes(&shown), vec!["CDG".to_string()]);
}

#[test]
fn fallback_searches_the_first_folded_word_only_when_nothing_matched() {
    assert_eq!(search_fallback_word(true, false, "São Paulo").as_deref(), Some("sao"));
    assert_eq!(search_fallback_word(true, false, "new york").as_deref(), Some("new"));
    assert_eq!(search_fallback_word(true, false, "paris"), None);
    assert_eq!(search_fallback_word(false, false, "São Paulo"), None);
    assert_eq!(search_fallback_word(true, true, "São Paulo"), None);
}

#[test]
fn fallback_rows_match_the_folded_text_and_skip_held_codes() {
    let gru = row("GRU", "Guarulhos International", "Sao Paulo", "BR", "large_airport", true);
    let cgh = row("CGH", "Congonhas", "São Paulo", "BR", "medium_airport", true);
    let far = row("XYZ", "Elsewhere Field", "Nowhere", "BR", "medium_airport", true);
    let got = search_fallback_rows(&[gru.clone()], &[gru, cgh.clone(), far, cgh], "São Paulo");
    assert_eq!(codes(&got), vec!["CGH".to_string()]);
}

fn country(iso2: &str, iso3: &str, name: &str, capital: &str) -> skiplagging::places::CountryRow {
    skiplagging::places::CountryRow {
        iso2: iso2.into(),
        iso3: Some(iso3.into()),
        name: name.into(),
        capital: capital.into(),
        currency_code: "EUR".into(),
    }
}

#[test]
fn query_names_a_country_by_name_code_or_alias() {
    let rows = vec![country("FR", "FRA", "France", "Paris"), country("DE", "DEU", "Germany", "Berlin")];
    assert_eq!(search_country_iso("France", &rows).as_deref(), Some("FR"));
    assert_eq!(search_country_iso("fr", &rows).as_deref(), Some("FR"));
    assert_eq!(search_country_iso("deu", &rows).as_deref(), Some("DE"));
    assert_eq!(search_country_iso("fran", &rows), None);
    assert_eq!(search_country_iso("tokyo", &rows), None);
    assert_eq!(search_country_iso("holland", &rows).as_deref(), Some("NL"));
}
