use skiplagging::countries::{continent_list, merge_countries, merge_regions};
use skiplagging::ingest::GeoCountry;

fn strs(v: &[&str]) -> Vec<String> {
    v.iter().map(|s| (*s).to_string()).collect()
}

fn geo(iso2: &str, name: &str, continent: &str) -> GeoCountry {
    GeoCountry {
        iso2: iso2.into(),
        iso3: Some(format!("{iso2}X")),
        iso_numeric: Some("001".into()),
        name: name.into(),
        capital: "Capital".into(),
        area_text: "1000".into(),
        population_text: "5000".into(),
        continent: continent.into(),
        tld: ".x".into(),
        currency_code: "XXX".into(),
        currency_name: "Unit".into(),
        phone: "1".into(),
        languages: "en".into(),
        geoname_id_text: Some("42".into()),
    }
}

#[test]
fn ourairports_countries_are_enriched_then_geonames_only_ones_follow() {
    let headers = strs(&["id", "code", "name", "continent", "wikipedia_link"]);
    let rows = vec![
        strs(&["1", " us ", "United States", "na", "https://w/us"]),
        strs(&["2", "FR", "", "", ""]),
        strs(&["3", "XYZ", "Bad", "EU", ""]),
        strs(&["4", "US", "USA", "", ""]),
    ];
    let g = vec![geo("FR", "France", "EU"), geo("DE", "Germany", "EU"), geo("US", "United States", "NA")];
    let c = merge_countries(&rows, &headers, &g);
    let codes: Vec<&str> = c.iter().map(|x| x.iso2.as_str()).collect();
    assert_eq!(codes, vec!["US", "FR", "DE"]);
    assert_eq!(c[0].name, "USA");
    assert_eq!(c[0].continent, "NA");
    assert_eq!(c[0].sources, "ourairports+geonames");
    assert_eq!(c[0].wikipedia, None);
    assert_eq!(c[1].name, "France");
    assert_eq!(c[1].continent, "EU");
    assert_eq!(c[1].capital, "Capital");
    assert_eq!(c[1].population_text.as_deref(), Some("5000"));
    assert_eq!(c[2].sources, "geonames");
    assert_eq!(c[2].name, "Germany");
}

#[test]
fn country_without_geonames_line_keeps_its_own_fields() {
    let headers = strs(&["code", "name"]);
    let rows = vec![strs(&["ZZ", ""])];
    let c = merge_countries(&rows, &headers, &vec![]);
    assert_eq!(c.len(), 1);
    assert_eq!(c[0].name, "ZZ");
    assert_eq!(c[0].sources, "ourairports");
    assert_eq!(c[0].iso3, None);
    assert_eq!(c[0].continent, "");
}

#[test]
fn continents_are_sorted_once_each_with_names() {
    let headers = strs(&["code", "continent"]);
    let rows = vec![strs(&["US", "NA"]), strs(&["FR", "EU"]), strs(&["CA", "NA"]), strs(&["AQ", ""])];
    let c = merge_countries(&rows, &headers, &vec![]);
    let list = continent_list(&c);
    assert_eq!(
        list,
        vec![("EU".to_string(), "Europe".to_string()), ("NA".to_string(), "North America".to_string())]
    );
}

#[test]
fn regions_keep_the_last_row_of_each_code() {
    let headers = strs(&["code", "local_code", "name", "iso_country", "continent", "wikipedia_link"]);
    let rows = vec![
        strs(&["US-NY", "NY", "New York", "us", "na", ""]),
        strs(&["", "X", "Blank", "us", "na", ""]),
        strs(&["US-NY", "NY", "", "us", "na", "https://w/ny"]),
    ];
    let r = merge_regions(&rows, &headers);
    assert_eq!(r.len(), 1);
    assert_eq!(r[0].name, "US-NY");
    assert_eq!(r[0].iso_country, "US");
    assert_eq!(r[0].continent, "NA");
    assert_eq!(r[0].wikipedia.as_deref(), Some("https://w/ny"));
}
