//! The country, region and continent tables built from the reference data: the
//! OurAirports country list enriched from GeoNames, the GeoNames-only countries
//! after it, the continents those countries name, and the OurAirports regions.
use vstd::prelude::*;
use crate::text::{upper, to_upper, trim, trim_spec, str_eq, byte_len, utf8_len};
use crate::hidden::views;
use crate::ingest::{GeoCountry, column_of, record_field, opt_view, nonempty, nonempty_spec};
use crate::learn::{insert_sorted, strictly_ascending, sorted_set_of};

verus! {

/// A country of the tables. Numbers stay as the text GeoNames gives (area,
/// population, GeoNames id), `None` where there is no GeoNames line.
pub struct CountryRec {
    pub iso2: String,
    pub iso3: Option<String>,
    pub iso_numeric: Option<String>,
    pub name: String,
    pub continent: String,
    pub capital: String,
    pub currency_code: String,
    pub currency_name: String,
    pub tld: String,
    pub phone: String,
    pub languages: String,
    pub area_text: Option<String>,
    pub population_text: Option<String>,
    pub geoname_id_text: Option<String>,
    pub wikipedia: Option<String>,
    pub sources: String,
}

/// A country by its texts.
pub struct CountryView {
    pub iso2: Seq<char>,
    pub iso3: Option<Seq<char>>,
    pub iso_numeric: Option<Seq<char>>,
    pub name: Seq<char>,
    pub continent: Seq<char>,
    pub capital: Seq<char>,
    pub currency_code: Seq<char>,
    pub currency_name: Seq<char>,
    pub tld: Seq<char>,
    pub phone: Seq<char>,
    pub languages: Seq<char>,
    pub area_text: Option<Seq<char>>,
    pub population_text: Option<Seq<char>>,
    pub geoname_id_text: Option<Seq<char>>,
    pub wikipedia: Option<Seq<char>>,
    pub sources: Seq<char>,
}

/// The texts of a country.
pub open spec fn country_view(c: CountryRec) -> CountryView {
    CountryView {
        iso2: c.iso2@,
        iso3: opt_view(c.iso3),
        iso_numeric: opt_view(c.iso_numeric),
        name: c.name@,
        continent: c.continent@,
        capital: c.capital@,
        currency_code: c.currency_code@,
        currency_name: c.currency_name@,
        tld: c.tld@,
        phone: c.phone@,
        languages: c.languages@,
        area_text: opt_view(c.area_text),
        population_text: opt_view(c.population_text),
        geoname_id_text: opt_view(c.geoname_id_text),
        wikipedia: opt_view(c.wikipedia),
        sources: c.sources@,
    }
}

/// The texts of some countries.
pub open spec fn country_views(v: Seq<CountryRec>) -> Seq<CountryView> {
    v.map_values(|c: CountryRec| country_view(c))
}

/// The first GeoNames country of a code.
pub open spec fn geo_for(geo: Seq<GeoCountry>, code: Seq<char>) -> Option<GeoCountry>
    decreases geo.len(),
{
    if geo.len() == 0 {
        None
    } else if geo[0].iso2@ == code {
        Some(geo[0])
    } else {
        geo_for(geo.drop_first(), code)
    }
}

/// A column of a record, or nothing (a missing column reads as empty).
pub open spec fn col(headers: Seq<Seq<char>>, rec: Seq<Seq<char>>, name: Seq<char>) -> Seq<char> {
    match column_of(headers, rec, name) { Some(t) => t, None => Seq::empty() }
}

/// A column trimmed and upper-cased, when that is not empty.
pub open spec fn upper_filled(headers: Seq<Seq<char>>, rec: Seq<Seq<char>>, name: Seq<char>) -> Option<Seq<char>> {
    match column_of(headers, rec, name) {
        Some(t) => if to_upper(trim_spec(t)).len() > 0 { Some(to_upper(trim_spec(t))) } else { None },
        None => None,
    }
}

/// The country an OurAirports row gives: its code trimmed and upper-cased, two
/// bytes long (else no country); its own name and continent when given, else the
/// GeoNames ones (the name falling back to the code); the rest from GeoNames when
/// the code is there; its Wikipedia link when given.
pub open spec fn oa_country(headers: Seq<Seq<char>>, rec: Seq<Seq<char>>, geo: Seq<GeoCountry>) -> Option<CountryView> {
    let code = to_upper(trim_spec(col(headers, rec, "code"@)));
    let g = geo_for(geo, code);
    if utf8_len(code) != 2 {
        None
    } else {
        Some(CountryView {
            iso2: code,
            iso3: match g { Some(x) => opt_view(x.iso3), None => None },
            iso_numeric: match g { Some(x) => opt_view(x.iso_numeric), None => None },
            name: match nonempty_spec(column_of(headers, rec, "name"@)) {
                Some(n) => n,
                None => match g { Some(x) => x.name@, None => code },
            },
            continent: match upper_filled(headers, rec, "continent"@) {
                Some(c) => c,
                None => match g { Some(x) => x.continent@, None => Seq::empty() },
            },
            capital: match g { Some(x) => x.capital@, None => Seq::empty() },
            currency_code: match g { Some(x) => x.currency_code@, None => Seq::empty() },
            currency_name: match g { Some(x) => x.currency_name@, None => Seq::empty() },
            tld: match g { Some(x) => x.tld@, None => Seq::empty() },
            phone: match g { Some(x) => x.phone@, None => Seq::empty() },
            languages: match g { Some(x) => x.languages@, None => Seq::empty() },
            area_text: match g { Some(x) => Some(x.area_text@), None => None },
            population_text: match g { Some(x) => Some(x.population_text@), None => None },
            geoname_id_text: match g { Some(x) => opt_view(x.geoname_id_text), None => None },
            wikipedia: nonempty_spec(column_of(headers, rec, "wikipedia_link"@)),
            sources: if g is Some { "ourairports+geonames"@ } else { "ourairports"@ },
        })
    }
}

/// A country known to GeoNames alone.
pub open spec fn geo_country(g: GeoCountry) -> CountryView {
    CountryView {
        iso2: g.iso2@,
        iso3: opt_view(g.iso3),
        iso_numeric: opt_view(g.iso_numeric),
        name: if g.name@.len() == 0 { g.iso2@ } else { g.name@ },
        continent: g.continent@,
        capital: g.capital@,
        currency_code: g.currency_code@,
        currency_name: g.currency_name@,
        tld: g.tld@,
        phone: g.phone@,
        languages: g.languages@,
        area_text: Some(g.area_text@),
        population_text: Some(g.population_text@),
        geoname_id_text: opt_view(g.geoname_id_text),
        wikipedia: None,
        sources: "geonames"@,
    }
}

/// Where a table holds a code first.
pub open spec fn code_index(t: Seq<CountryView>, code: Seq<char>) -> Option<int>
    decreases t.len(),
{
    if t.len() == 0 {
        None
    } else {
        match code_index(t.drop_last(), code) {
            Some(a) => Some(a),
            None => if t.last().iso2 == code { Some(t.len() - 1) } else { None },
        }
    }
}

/// The countries of the first `n` OurAirports rows: one per code, in order of the
/// code's first row, each as its last row gives it.
pub open spec fn oa_table(headers: Seq<Seq<char>>, rows: Seq<Seq<Seq<char>>>, geo: Seq<GeoCountry>, n: int) -> Seq<CountryView>
    decreases n,
{
    if n <= 0 {
        Seq::empty()
    } else {
        let prev = oa_table(headers, rows, geo, n - 1);
        match oa_country(headers, rows[n - 1], geo) {
            None => prev,
            Some(c) => match code_index(prev, c.iso2) {
                Some(a) => prev.update(a, c),
                None => prev.push(c),
            },
        }
    }
}

/// `t` followed by the first `n` GeoNames countries whose code is not yet held.
pub open spec fn with_geo(t: Seq<CountryView>, geo: Seq<GeoCountry>, n: int) -> Seq<CountryView>
    decreases n,
{
    if n <= 0 {
        t
    } else {
        let prev = with_geo(t, geo, n - 1);
        if code_index(prev, geo[n - 1].iso2@) is Some { prev } else { prev.push(geo_country(geo[n - 1])) }
    }
}

/// The merged country table (see [`oa_table`], [`with_geo`]).
pub open spec fn countries_spec(headers: Seq<Seq<char>>, rows: Seq<Seq<Seq<char>>>, geo: Seq<GeoCountry>) -> Seq<CountryView> {
    with_geo(oa_table(headers, rows, geo, rows.len() as int), geo, geo.len() as int)
}

/// The texts of the records of a table.
pub open spec fn rows_view(v: Seq<Vec<String>>) -> Seq<Seq<Seq<char>>> {
    v.map_values(|r: Vec<String>| views(r@))
}

fn geo_index(geo: &Vec<GeoCountry>, code: &str) -> (r: Option<usize>)
    ensures
        match r {
            None => geo_for(geo@, code@) is None,
            Some(i) => i < geo@.len() && geo_for(geo@, code@) == Some(geo@[i as int]),
        },
{
    let mut i: usize = 0;
    assert(geo@.subrange(0, geo@.len() as int) =~= geo@);
    while i < geo.len()
        invariant
            i <= geo@.len(),
            geo_for(geo@, code@) == geo_for(geo@.subrange(i as int, geo@.len() as int), code@),
        decreases geo@.len() - i,
    {
        let ghost rest = geo@.subrange(i as int, geo@.len() as int);
        assert(rest.drop_first() =~= geo@.subrange(i + 1, geo@.len() as int));
        if str_eq(geo[i].iso2.as_str(), code) {
            assert(rest[0] == geo@[i as int]);
            return Some(i);
        }
        i = i + 1;
    }
    assert(geo@.subrange(i as int, geo@.len() as int).len() == 0);
    None
}

fn field(headers: &Vec<String>, rec: &Vec<String>, name: &str) -> (r: String)
    ensures
        r@ == col(views(headers@), views(rec@), name@),
{
    match record_field(headers, rec, name) {
        Some(t) => t,
        None => String::new(),
    }
}

fn opt_clone(s: &Option<String>) -> (r: Option<String>)
    ensures
        opt_view(r) == opt_view(*s),
{
    match s { Some(t) => Some(t.clone()), None => None }
}

fn country_from(headers: &Vec<String>, rec: &Vec<String>, geo: &Vec<GeoCountry>) -> (r: Option<CountryRec>)
    ensures
        match r {
            None => oa_country(views(headers@), views(rec@), geo@) is None,
            Some(c) => oa_country(views(headers@), views(rec@), geo@) == Some(country_view(c)),
        },
{
    proof {
        reveal_strlit("code");
        reveal_strlit("name");
        reveal_strlit("continent");
        reveal_strlit("wikipedia_link");
        reveal_strlit("ourairports+geonames");
        reveal_strlit("ourairports");
    }
    let raw = field(headers, rec, "code");
    let t = trim(raw.as_str());
    let code = upper(t.as_str());
    if byte_len(code.as_str()) != 2 {
        return None;
    }
    let gi = geo_index(geo, code.as_str());
    let name = match nonempty(&record_field(headers, rec, "name")) {
        Some(n) => n,
        None => match gi { Some(i) => geo[i].name.clone(), None => code.clone() },
    };
    let cont = match record_field(headers, rec, "continent") {
        Some(x) => {
            let tx = trim(x.as_str());
            let u = upper(tx.as_str());
            if u.as_str().is_empty() { None } else { Some(u) }
        },
        None => None,
    };
    let continent = match cont {
        Some(c) => c,
        None => match gi { Some(i) => geo[i].continent.clone(), None => String::new() },
    };
    let wikipedia = nonempty(&record_field(headers, rec, "wikipedia_link"));
    let c = match gi {
        Some(i) => {
            let g = &geo[i];
            CountryRec {
                iso2: code,
                iso3: opt_clone(&g.iso3),
                iso_numeric: opt_clone(&g.iso_numeric),
                name,
                continent,
                capital: g.capital.clone(),
                currency_code: g.currency_code.clone(),
                currency_name: g.currency_name.clone(),
                tld: g.tld.clone(),
                phone: g.phone.clone(),
                languages: g.languages.clone(),
                area_text: Some(g.area_text.clone()),
                population_text: Some(g.population_text.clone()),
                geoname_id_text: opt_clone(&g.geoname_id_text),
                wikipedia,
                sources: "ourairports+geonames".to_owned(),
            }
        },
        None => CountryRec {
            iso2: code,
            iso3: None,
            iso_numeric: None,
            name,
            continent,
            capital: String::new(),
            currency_code: String::new(),
            currency_name: String::new(),
            tld: String::new(),
            phone: String::new(),
            languages: String::new(),
            area_text: None,
            population_text: None,
            geoname_id_text: None,
            wikipedia,
            sources: "ourairports".to_owned(),
        },
    };
    Some(c)
}

fn country_of_geo(g: &GeoCountry) -> (r: CountryRec)
    ensures
        country_view(r) == geo_country(*g),
{
    proof { reveal_strlit("geonames"); }
    CountryRec {
        iso2: g.iso2.clone(),
        iso3: opt_clone(&g.iso3),
        iso_numeric: opt_clone(&g.iso_numeric),
        name: if g.name.as_str().is_empty() { g.iso2.clone() } else { g.name.clone() },
        continent: g.continent.clone(),
        capital: g.capital.clone(),
        currency_code: g.currency_code.clone(),
        currency_name: g.currency_name.clone(),
        tld: g.tld.clone(),
        phone: g.phone.clone(),
        languages: g.languages.clone(),
        area_text: Some(g.area_text.clone()),
        population_text: Some(g.population_text.clone()),
        geoname_id_text: opt_clone(&g.geoname_id_text),
        wikipedia: None,
        sources: "geonames".to_owned(),
    }
}

fn find_code(v: &Vec<CountryRec>, code: &str) -> (r: Option<usize>)
    ensures
        match r {
            None => code_index(country_views(v@), code@) is None,
            Some(a) => code_index(country_views(v@), code@) == Some(a as int) && a < v@.len(),
        },
{
    let ghost t = country_views(v@);
    let mut i: usize = 0;
    while i < v.len()
        invariant
            i <= v@.len(),
            t == country_views(v@),
            code_index(t.subrange(0, i as int), code@) is None,
        decreases v@.len() - i,
    {
        assert(t.subrange(0, i + 1).drop_last() =~= t.subrange(0, i as int));
        if str_eq(v[i].iso2.as_str(), code) {
            assert(code_index(t.subrange(0, i + 1), code@) == Some(i as int));
            proof { lemma_code_index_prefix(t, i + 1); }
            return Some(i);
        }
        i = i + 1;
    }
    assert(t.subrange(0, i as int) =~= t);
    None
}

proof fn lemma_code_index_prefix(t: Seq<CountryView>, n: int)
    requires
        0 <= n <= t.len(),
    ensures
        forall|code: Seq<char>| code_index(t.subrange(0, n), code) is Some
            ==> #[trigger] code_index(t, code) == code_index(t.subrange(0, n), code),
    decreases t.len() - n,
{
    if n < t.len() {
        lemma_code_index_prefix(t, n + 1);
        assert forall|code: Seq<char>| code_index(t.subrange(0, n), code) is Some
            implies #[trigger] code_index(t, code) == code_index(t.subrange(0, n), code) by {
            assert(t.subrange(0, n + 1).drop_last() =~= t.subrange(0, n));
        }
    } else {
        assert(t.subrange(0, n) =~= t);
    }
}

/// The merged country table, exactly [`countries_spec`]: the OurAirports countries
/// (header row `headers`, records `oa_rows`) enriched from GeoNames, then the
/// GeoNames-only countries.
pub fn merge_countries(oa_rows: &Vec<Vec<String>>, headers: &Vec<String>, geo: &Vec<GeoCountry>) -> (r: Vec<CountryRec>)
    ensures
        country_views(r@) == countries_spec(views(headers@), rows_view(oa_rows@), geo@),
{
    let ghost hs = views(headers@);
    let ghost rs = rows_view(oa_rows@);
    let mut out: Vec<CountryRec> = Vec::new();
    let mut i: usize = 0;
    while i < oa_rows.len()
        invariant
            i <= oa_rows@.len(),
            hs == views(headers@),
            rs == rows_view(oa_rows@),
            country_views(out@) == oa_table(hs, rs, geo@, i as int),
        decreases oa_rows@.len() - i,
    {
        assert(rs[i as int] == views(oa_rows@[i as int]@));
        match country_from(headers, &oa_rows[i], geo) {
            None => {},
            Some(c) => {
                let ghost prev = country_views(out@);
                match find_code(&out, c.iso2.as_str()) {
                    Some(a) => {
                        out.set(a, c);
                        assert(country_views(out@) =~= prev.update(a as int, country_view(c)));
                    },
                    None => {
                        out.push(c);
                        assert(country_views(out@) =~= prev.push(country_view(c)));
                    },
                }
            },
        }
        i = i + 1;
    }
    let ghost base = country_views(out@);
    let mut j: usize = 0;
    while j < geo.len()
        invariant
            j <= geo@.len(),
            country_views(out@) == with_geo(base, geo@, j as int),
        decreases geo@.len() - j,
    {
        let ghost prev = country_views(out@);
        match find_code(&out, geo[j].iso2.as_str()) {
            Some(_) => {},
            None => {
                let c = country_of_geo(&geo[j]);
                out.push(c);
                assert(country_views(out@) =~= prev.push(geo_country(geo@[j as int])));
            },
        }
        j = j + 1;
    }
    out
}

/// The name of a continent code (the code itself when unknown).
pub open spec fn continent_name_spec(code: Seq<char>) -> Seq<char> {
    if code == "AF"@ { "Africa"@ }
    else if code == "AN"@ { "Antarctica"@ }
    else if code == "AS"@ { "Asia"@ }
    else if code == "EU"@ { "Europe"@ }
    else if code == "NA"@ { "North America"@ }
    else if code == "OC"@ { "Oceania"@ }
    else if code == "SA"@ { "South America"@ }
    else { code }
}

/// See [`continent_name_spec`].
pub fn continent_name(code: &str) -> (r: String)
    ensures
        r@ == continent_name_spec(code@),
{
    proof {
        reveal_strlit("AF"); reveal_strlit("Africa");
        reveal_strlit("AN"); reveal_strlit("Antarctica");
        reveal_strlit("AS"); reveal_strlit("Asia");
        reveal_strlit("EU"); reveal_strlit("Europe");
        reveal_strlit("NA"); reveal_strlit("North America");
        reveal_strlit("OC"); reveal_strlit("Oceania");
        reveal_strlit("SA"); reveal_strlit("South America");
    }
    if str_eq(code, "AF") { "Africa".to_owned() }
    else if str_eq(code, "AN") { "Antarctica".to_owned() }
    else if str_eq(code, "AS") { "Asia".to_owned() }
    else if str_eq(code, "EU") { "Europe".to_owned() }
    else if str_eq(code, "NA") { "North America".to_owned() }
    else if str_eq(code, "OC") { "Oceania".to_owned() }
    else if str_eq(code, "SA") { "South America".to_owned() }
    else { code.to_owned() }
}

/// The continent codes the countries name (blank ones left out).
pub open spec fn continent_codes(t: Seq<CountryView>) -> Set<Seq<char>> {
    Set::new(|c: Seq<char>| c.len() > 0 && exists|k: int| 0 <= k < t.len() && (#[trigger] t[k]).continent == c)
}

/// The continents of a country table: each code the countries name, once, in
/// ascending order, with its name.
pub fn continent_list(countries: &Vec<CountryRec>) -> (r: Vec<(String, String)>)
    ensures
        sorted_set_of(r@.map_values(|p: (String, String)| p.0@), continent_codes(country_views(countries@))),
        forall|k: int| 0 <= k < r@.len() ==> (#[trigger] r@[k]).1@ == continent_name_spec(r@[k].0@),
{
    let ghost t = country_views(countries@);
    let mut codes: Vec<String> = Vec::new();
    let mut i: usize = 0;
    while i < countries.len()
        invariant
            i <= countries@.len(),
            t == country_views(countries@),
            strictly_ascending(views(codes@)),
            views(codes@).to_set() == Set::new(|c: Seq<char>| c.len() > 0
                && exists|k: int| 0 <= k < i && (#[trigger] t[k]).continent == c),
        decreases countries@.len() - i,
    {
        let ghost before = views(codes@).to_set();
        let c = countries[i].continent.as_str();
        if !c.is_empty() {
            insert_sorted(&mut codes, c);
        }
        proof {
            let next = Set::new(|x: Seq<char>| x.len() > 0 && exists|k: int| 0 <= k < i + 1 && (#[trigger] t[k]).continent == x);
            assert(t[i as int].continent == countries@[i as int].continent@);
            assert forall|x: Seq<char>| views(codes@).to_set().contains(x) <==> next.contains(x) by {
                if next.contains(x) {
                    let k = choose|k: int| 0 <= k < i + 1 && (#[trigger] t[k]).continent == x;
                    if k < i {
                        assert(before.contains(x));
                    }
                }
                if before.contains(x) {
                    let k = choose|k: int| 0 <= k < i && (#[trigger] t[k]).continent == x;
                    assert(next.contains(x));
                }
            }
            assert(views(codes@).to_set() =~= next);
        }
        i = i + 1;
    }
    assert(views(codes@).to_set() =~= continent_codes(t));
    let mut out: Vec<(String, String)> = Vec::new();
    let mut j: usize = 0;
    while j < codes.len()
        invariant
            j <= codes@.len(),
            out@.len() == j,
            forall|k: int| 0 <= k < j ==> (#[trigger] out@[k]).0@ == codes@[k]@ && out@[k].1@ == continent_name_spec(codes@[k]@),
        decreases codes@.len() - j,
    {
        let name = continent_name(codes[j].as_str());
        out.push((codes[j].clone(), name));
        j = j + 1;
    }
    assert(out@.map_values(|p: (String, String)| p.0@) =~= views(codes@));
    out
}

/// A region of the tables.
pub struct RegionRec {
    pub code: String,
    pub local_code: String,
    pub name: String,
    pub iso_country: String,
    pub continent: String,
    pub wikipedia: Option<String>,
}

/// A region by its texts.
pub struct RegionView {
    pub code: Seq<char>,
    pub local_code: Seq<char>,
    pub name: Seq<char>,
    pub iso_country: Seq<char>,
    pub continent: Seq<char>,
    pub wikipedia: Option<Seq<char>>,
}

/// The texts of a region.
pub open spec fn region_view(r: RegionRec) -> RegionView {
    RegionView {
        code: r.code@,
        local_code: r.local_code@,
        name: r.name@,
        iso_country: r.iso_country@,
        continent: r.continent@,
        wikipedia: opt_view(r.wikipedia),
    }
}

/// The texts of some regions.
pub open spec fn region_views(v: Seq<RegionRec>) -> Seq<RegionView> {
    v.map_values(|r: RegionRec| region_view(r))
}

/// The region an OurAirports row gives: its code trimmed (none when blank), its
/// local code trimmed, its name (the code when blank), its country and continent
/// trimmed and upper-cased, its Wikipedia link when given.
pub open spec fn oa_region(headers: Seq<Seq<char>>, rec: Seq<Seq<char>>) -> Option<RegionView> {
    let code = trim_spec(col(headers, rec, "code"@));
    if code.len() == 0 {
        None
    } else {
        Some(RegionView {
            code: code,
            local_code: trim_spec(col(headers, rec, "local_code"@)),
            name: match nonempty_spec(column_of(headers, rec, "name"@)) { Some(n) => n, None => code },
            iso_country: to_upper(trim_spec(col(headers, rec, "iso_country"@))),
            continent: to_upper(trim_spec(col(headers, rec, "continent"@))),
            wikipedia: nonempty_spec(column_of(headers, rec, "wikipedia_link"@)),
        })
    }
}

/// Where a region table holds a code first.
pub open spec fn region_index(t: Seq<RegionView>, code: Seq<char>) -> Option<int>
    decreases t.len(),
{
    if t.len() == 0 {
        None
    } else {
        match region_index(t.drop_last(), code) {
            Some(a) => Some(a),
            None => if t.last().code == code { Some(t.len() - 1) } else { None },
        }
    }
}

/// The regions of the first `n` rows: one per code, in order of the code's first
/// row, each as its last row gives it.
pub open spec fn region_table(headers: Seq<Seq<char>>, rows: Seq<Seq<Seq<char>>>, n: int) -> Seq<RegionView>
    decreases n,
{
    if n <= 0 {
        Seq::empty()
    } else {
        let prev = region_table(headers, rows, n - 1);
        match oa_region(headers, rows[n - 1]) {
            None => prev,
            Some(r) => match region_index(prev, r.code) {
                Some(a) => prev.update(a, r),
                None => prev.push(r),
            },
        }
    }
}

fn region_from(headers: &Vec<String>, rec: &Vec<String>) -> (r: Option<RegionRec>)
    ensures
        match r {
            None => oa_region(views(headers@), views(rec@)) is None,
            Some(x) => oa_region(views(headers@), views(rec@)) == Some(region_view(x)),
        },
{
    proof {
        reveal_strlit("code");
        reveal_strlit("local_code");
        reveal_strlit("name");
        reveal_strlit("iso_country");
        reveal_strlit("continent");
        reveal_strlit("wikipedia_link");
    }
    let raw = field(headers, rec, "code");
    let code = trim(raw.as_str());
    if code.as_str().is_empty() {
        return None;
    }
    let lc = field(headers, rec, "local_code");
    let name = match nonempty(&record_field(headers, rec, "name")) { Some(n) => n, None => code.clone() };
    let ic = field(headers, rec, "iso_country");
    let ct = field(headers, rec, "continent");
    let ict = trim(ic.as_str());
    let ctt = trim(ct.as_str());
    Some(RegionRec {
        code,
        local_code: trim(lc.as_str()),
        name,
        iso_country: upper(ict.as_str()),
        continent: upper(ctt.as_str()),
        wikipedia: nonempty(&record_field(headers, rec, "wikipedia_link")),
    })
}

proof fn lemma_region_index_prefix(t: Seq<RegionView>, n: int)
    requires
        0 <= n <= t.len(),
    ensures
        forall|code: Seq<char>| region_index(t.subrange(0, n), code) is Some
            ==> #[trigger] region_index(t, code) == region_index(t.subrange(0, n), code),
    decreases t.len() - n,
{
    if n < t.len() {
        lemma_region_index_prefix(t, n + 1);
        assert forall|code: Seq<char>| region_index(t.subrange(0, n), code) is Some
            implies #[trigger] region_index(t, code) == region_index(t.subrange(0, n), code) by {
            assert(t.subrange(0, n + 1).drop_last() =~= t.subrange(0, n));
        }
    } else {
        assert(t.subrange(0, n) =~= t);
    }
}

fn find_region(v: &Vec<RegionRec>, code: &str) -> (r: Option<usize>)
    ensures
        match r {
            None => region_index(region_views(v@), code@) is None,
            Some(a) => region_index(region_views(v@), code@) == Some(a as int) && a < v@.len(),
        },
{
    let ghost t = region_views(v@);
    let mut i: usize = 0;
    while i < v.len()
        invariant
            i <= v@.len(),
            t == region_views(v@),
            region_index(t.subrange(0, i as int), code@) is None,
        decreases v@.len() - i,
    {
        assert(t.subrange(0, i + 1).drop_last() =~= t.subrange(0, i as int));
        if str_eq(v[i].code.as_str(), code) {
            assert(region_index(t.subrange(0, i + 1), code@) == Some(i as int));
            proof { lemma_region_index_prefix(t, i + 1); }
            return Some(i);
        }
        i = i + 1;
    }
    assert(t.subrange(0, i as int) =~= t);
    None
}

/// The region table, exactly [`region_table`] over every OurAirports region row.
pub fn merge_regions(rows: &Vec<Vec<String>>, headers: &Vec<String>) -> (r: Vec<RegionRec>)
    ensures
        region_views(r@) == region_table(views(headers@), rows_view(rows@), rows@.len() as int),
{
    let ghost hs = views(headers@);
    let ghost rs = rows_view(rows@);
    let mut out: Vec<RegionRec> = Vec::new();
    let mut i: usize = 0;
    while i < rows.len()
        invariant
            i <= rows@.len(),
            hs == views(headers@),
            rs == rows_view(rows@),
            region_views(out@) == region_table(hs, rs, i as int),
        decreases rows@.len() - i,
    {
        assert(rs[i as int] == views(rows@[i as int]@));
        match region_from(headers, &rows[i]) {
            None => {},
            Some(x) => {
                let ghost prev = region_views(out@);
                match find_region(&out, x.code.as_str()) {
                    Some(a) => {
                        out.set(a, x);
                        assert(region_views(out@) =~= prev.update(a as int, region_view(x)));
                    },
                    None => {
                        out.push(x);
                        assert(region_views(out@) =~= prev.push(region_view(x)));
                    },
                }
            },
        }
        i = i + 1;
    }
    out
}

/// No code is held twice.
pub open spec fn codes_distinct(t: Seq<CountryView>) -> bool {
    forall|a: int, b: int| 0 <= a < b < t.len() ==> (#[trigger] t[a]).iso2 != (#[trigger] t[b]).iso2
}

proof fn lemma_code_index(t: Seq<CountryView>, code: Seq<char>)
    ensures
        code_index(t, code) is None <==> forall|k: int| 0 <= k < t.len() ==> (#[trigger] t[k]).iso2 != code,
        code_index(t, code) matches Some(a) ==> 0 <= a < t.len() && t[a].iso2 == code,
    decreases t.len(),
{
    if t.len() > 0 {
        lemma_code_index(t.drop_last(), code);
        if code_index(t.drop_last(), code) is None && t.last().iso2 != code {
            assert forall|k: int| 0 <= k < t.len() implies (#[trigger] t[k]).iso2 != code by {
                if k < t.len() - 1 { assert(t[k] == t.drop_last()[k]); }
            }
        }
        if let Some(a) = code_index(t.drop_last(), code) {
            assert(t[a] == t.drop_last()[a]);
        }
    }
}

proof fn lemma_oa_distinct(headers: Seq<Seq<char>>, rows: Seq<Seq<Seq<char>>>, geo: Seq<GeoCountry>, n: int)
    ensures
        codes_distinct(oa_table(headers, rows, geo, n)),
    decreases n,
{
    if n > 0 {
        lemma_oa_distinct(headers, rows, geo, n - 1);
        let prev = oa_table(headers, rows, geo, n - 1);
        if let Some(c) = oa_country(headers, rows[n - 1], geo) {
            lemma_code_index(prev, c.iso2);
            let t = oa_table(headers, rows, geo, n);
            assert forall|a: int, b: int| 0 <= a < b < t.len() implies (#[trigger] t[a]).iso2 != (#[trigger] t[b]).iso2 by {
                match code_index(prev, c.iso2) {
                    Some(x) => {
                        if a != x && b != x { assert(t[a] == prev[a] && t[b] == prev[b]); }
                        else if a == x { assert(t[b] == prev[b]); assert(prev[a].iso2 != prev[b].iso2); }
                        else { assert(t[a] == prev[a]); assert(prev[a].iso2 != prev[b].iso2); }
                    },
                    None => {
                        if b < prev.len() { assert(t[a] == prev[a] && t[b] == prev[b]); }
                        else { assert(t[a] == prev[a]); }
                    },
                }
            }
        }
    }
}

proof fn lemma_geo_distinct(t: Seq<CountryView>, geo: Seq<GeoCountry>, n: int)
    requires
        codes_distinct(t),
    ensures
        codes_distinct(with_geo(t, geo, n)),
        with_geo(t, geo, n).subrange(0, t.len() as int) == t,
        with_geo(t, geo, n).len() >= t.len(),
    decreases n,
{
    if n > 0 {
        lemma_geo_distinct(t, geo, n - 1);
        let prev = with_geo(t, geo, n - 1);
        lemma_code_index(prev, geo[n - 1].iso2@);
        let w = with_geo(t, geo, n);
        if code_index(prev, geo[n - 1].iso2@) is None {
            assert forall|a: int, b: int| 0 <= a < b < w.len() implies (#[trigger] w[a]).iso2 != (#[trigger] w[b]).iso2 by {
                assert(w[a] == prev[a]);
                if b < prev.len() { assert(w[b] == prev[b]); }
            }
            assert(w.subrange(0, t.len() as int) =~= prev.subrange(0, t.len() as int));
        }
    }
}

/// The merged country table holds each code once, and every country of the
/// OurAirports list keeps its place ahead of the GeoNames-only ones.
pub proof fn law_countries_once(headers: Seq<Seq<char>>, rows: Seq<Seq<Seq<char>>>, geo: Seq<GeoCountry>)
    ensures
        codes_distinct(countries_spec(headers, rows, geo)),
        countries_spec(headers, rows, geo).subrange(0, oa_table(headers, rows, geo, rows.len() as int).len() as int)
            == oa_table(headers, rows, geo, rows.len() as int),
{
    lemma_oa_distinct(headers, rows, geo, rows.len() as int);
    lemma_geo_distinct(oa_table(headers, rows, geo, rows.len() as int), geo, geo.len() as int);
}

} // verus!
