use skiplagging::durations::{dur, dur_checked};
use skiplagging::places::{
    city_label, country_alias, fold, has_phrase, keyword_parts, metro_matches, prefix_token, score_airport,
    score_country, tokens, AirportRow, CountryRow,
};

#[test]
fn fold_lowers_and_drops_accents() {
    assert_eq!(fold("  São Paulo "), "sao paulo");
    assert_eq!(fold("Zürich"), "zurich");
}

#[test]
fn tokens_are_alphanumeric_runs() {
    assert_eq!(tokens("New York (JFK), T4"), ["new", "york", "jfk", "t4"]);
    assert!(tokens("--").is_empty());
}

#[test]
fn prefix_token_needs_four_bytes_and_a_short_tail() {
    assert!(prefix_token("Frankfurt am Main", "frankfur"));
    assert!(!prefix_token("Frankfurt am Main", "fra"));
    assert!(!prefix_token("Frankfurt am Main", "frankfurt"));
    assert!(!prefix_token("Frankfurt am Main", "fran"));
}

#[test]
fn keywords_split_on_commas_and_semicolons() {
    assert_eq!(keyword_parts(Some(" Heathrow ; London,, LHR ")), ["Heathrow", "London", "LHR"]);
    assert!(keyword_parts(None).is_empty());
    assert!(keyword_parts(Some(" ; , ")).is_empty());
}

#[test]
fn city_label_trims_parentheses_and_states() {
    assert_eq!(city_label(" New York (Queens) ", "JFK Intl"), "New York");
    assert_eq!(city_label("Washington, DC", "Dulles"), "Washington");
    assert_eq!(city_label("St, X", "Y"), "St, X");
    assert_eq!(city_label("  ", "Dulles"), "Dulles");
}

#[test]
fn optional_duration_reads_zero_without_text() {
    assert_eq!(dur(None), 0);
    assert_eq!(dur(Some("PT45M")), 45);
    assert_eq!(dur(Some("pt1h")), 60);
    assert_eq!(dur(Some("P3D")), 4320);
    assert_eq!(dur(Some("PT59S")), 0);
    assert_eq!(dur(Some("1H")), 0);
    assert_eq!(dur_checked(Some("P9999999D")), None);
    assert_eq!(dur_checked(Some("PT2H")), Some(120));
}

#[test]
fn has_phrase_needs_word_edges() {
    assert!(has_phrase("New York City", "new york"));
    assert!(has_phrase("Greater Paris (CDG)", "paris"));
    assert!(!has_phrase("Parisian", "paris"));
    assert!(!has_phrase("", "paris"));
    assert!(!has_phrase("Paris", " "));
}

fn jfk_row(kind: &str) -> AirportRow {
    AirportRow {
        iata: "JFK".to_string(),
        icao: Some("KJFK".to_string()),
        ident: Some("KJFK".to_string()),
        name: "John F Kennedy International Airport".to_string(),
        municipality: "New York".to_string(),
        iso_country: "US".to_string(),
        iso_region: "US-NY".to_string(),
        continent: "NA".to_string(),
        country_name: "United States".to_string(),
        region_name: "New York".to_string(),
        elevation_ft: Some(13),
        type_: kind.to_string(),
        scheduled_service: true,
        wikipedia: None,
        home_link: None,
        gps_code: None,
        local_code: None,
        keywords: Some("Manhattan, New York City, NYC, Idlewild".to_string()),
        source: "ourairports".to_string(),
    }
}

#[test]
fn score_airport_ranks_code_and_city_matches() {
    let row = jfk_row("large_airport");
    // exact code 1000, scheduled service 120, large airport 45
    assert_eq!(score_airport(&row, "JFK"), 1165);
    // keyword phrase 40, city 420, region 55, service 120 + 90, large airport 45
    assert_eq!(score_airport(&row, "New York"), 770);
    assert_eq!(score_airport(&row, "  "), 0);
    assert_eq!(score_airport(&row, "Tokyo"), 0);
}

#[test]
fn score_airport_drops_non_airports_unless_the_code_matches() {
    let heli = jfk_row("heliport");
    assert_eq!(score_airport(&heli, "New York"), 0);
    // exact code 1000, service 120, heliport -35
    assert_eq!(score_airport(&heli, "jfk"), 1085);
}

fn germany() -> CountryRow {
    CountryRow {
        iso2: "DE".to_string(),
        iso3: Some("DEU".to_string()),
        name: "Germany".to_string(),
        capital: "Berlin".to_string(),
        currency_code: "EUR".to_string(),
    }
}

#[test]
fn country_alias_knows_other_names() {
    assert_eq!(country_alias("deutschland"), Some("DE"));
    assert_eq!(country_alias("great britain"), Some("GB"));
    assert_eq!(country_alias("germany"), None);
}

#[test]
fn score_country_weighs_codes_names_and_aliases() {
    let de = germany();
    assert_eq!(score_country(&de, "Deutschland"), 1000);
    assert_eq!(score_country(&de, "de"), 1000);
    assert_eq!(score_country(&de, "DEU"), 900);
    assert_eq!(score_country(&de, "Germany"), 800);
    assert_eq!(score_country(&de, "ger"), 520);
    assert_eq!(score_country(&de, "eur"), 60);
    assert_eq!(score_country(&de, "Berlin"), 450);
    assert_eq!(score_country(&de, " "), 1);
    assert_eq!(score_country(&de, "xyz"), 0);
}

#[test]
fn metro_matches_code_city_and_aliases() {
    assert!(metro_matches("New York", "NYC", "New York", &["Big Apple"]));
    assert!(metro_matches("nyc", "NYC", "New York", &[]));
    assert!(metro_matches("new", "NYC", "New York", &[]));
    assert!(metro_matches("big", "NYC", "New York", &["Big Apple"]));
    assert!(!metro_matches("ny", "NYC", "New York", &[]));
    assert!(!metro_matches("", "NYC", "New York", &["Big Apple"]));
    assert!(!metro_matches("x", "NYC", "New York", &["Xanadu"]));
}
