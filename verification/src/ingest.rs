//! The reference data's own formats: the GeoNames country table (tab-separated
//! lines) and the OurAirports airport list (CSV, read with the `csv` crate), from
//! which one airport is kept per IATA code.
use vstd::prelude::*;
use crate::text::{upper, to_upper, trim, trim_spec, str_eq, eq_ignore_ascii_case, chars_of};
use crate::hidden::views;
use crate::text::{eq_ignore_case, utf8_len, byte_len, string_from};
use crate::bookers::{split_all, split_char};

verus! {

/// What the `csv` crate reads from a text (flexible record lengths, the header row
/// read as the first record): every record's fields, or `None` when it stops on an
/// error.
pub uninterp spec fn csv_records(text: Seq<char>) -> Option<Seq<Seq<Seq<char>>>>;

/// The fields of a list of records.
pub open spec fn record_views(v: Seq<Vec<String>>) -> Seq<Seq<Seq<char>>> {
    v.map_values(|r: Vec<String>| views(r@))
}

/// Reads every record of a CSV text with `csv::ReaderBuilder` (flexible, the header
/// row as the first record); the records are named by `csv_records`.
#[verifier::external_body]
pub(crate) fn read_csv(text: &str) -> (r: Option<Vec<Vec<String>>>)
    ensures
        match r { Some(v) => csv_records(text@) == Some(record_views(v@)), None => csv_records(text@) is None },
{
    let mut reader = csv::ReaderBuilder::new().flexible(true).has_headers(false).from_reader(text.as_bytes());
    let mut out = Vec::new();
    for rec in reader.records() {
        match rec {
            Ok(rec) => out.push(rec.iter().map(|f| f.to_string()).collect()),
            Err(_) => return None,
        }
    }
    Some(out)
}

/// The preference of an airport type: large, medium, small, then everything else.
pub open spec fn type_rank_spec(t: Seq<char>) -> i32 {
    if t == "large_airport"@ { 0 } else if t == "medium_airport"@ { 1 } else if t == "small_airport"@ { 2 } else { 9 }
}

/// See [`type_rank_spec`].
pub fn type_rank(t: &str) -> (r: i32)
    ensures
        r == type_rank_spec(t@),
{
    if str_eq(t, "large_airport") { 0 } else if str_eq(t, "medium_airport") { 1 } else if str_eq(t, "small_airport") { 2 } else { 9 }
}

/// A field, trimmed, when it is there and not blank.
pub open spec fn nonempty_spec(s: Option<Seq<char>>) -> Option<Seq<char>> {
    match s { Some(t) => if trim_spec(t).len() > 0 { Some(trim_spec(t)) } else { None }, None => None }
}

/// The text of an optional string.
pub open spec fn opt_view(s: Option<String>) -> Option<Seq<char>> {
    match s { Some(t) => Some(t@), None => None }
}

/// See [`nonempty_spec`].
pub fn nonempty(s: &Option<String>) -> (r: Option<String>)
    ensures
        opt_view(r) == nonempty_spec(opt_view(*s)),
{
    match s {
        Some(t) => {
            let x = trim(t.as_str());
            if x.as_str().is_empty() { None } else { Some(x) }
        },
        None => None,
    }
}

/// A row of the airport list, by column (`None` where the column is missing), with
/// what its floating-point columns give: whether both coordinates read as numbers,
/// and the elevation in whole feet.
pub struct AirportCsvRow {
    pub iata_code: Option<String>,
    pub type_: Option<String>,
    pub scheduled_service: Option<String>,
    pub icao_code: Option<String>,
    pub gps_code: Option<String>,
    pub ident: Option<String>,
    pub name: Option<String>,
    pub municipality: Option<String>,
    pub iso_country: Option<String>,
    pub iso_region: Option<String>,
    pub continent: Option<String>,
    pub wikipedia_link: Option<String>,
    pub home_link: Option<String>,
    pub local_code: Option<String>,
    pub keywords: Option<String>,
    pub coords_ok: bool,
    pub elevation_ft: Option<i32>,
}

/// The airport kept for one IATA code; `row` says which row it came from (its
/// coordinates are read there).
pub struct AirportCand {
    pub iata: String,
    pub icao: Option<String>,
    pub ident: Option<String>,
    pub name: String,
    pub municipality: String,
    pub iso_country: String,
    pub iso_region: String,
    pub continent: String,
    pub elevation_ft: Option<i32>,
    pub type_: String,
    pub scheduled_service: bool,
    pub wikipedia: Option<String>,
    pub home_link: Option<String>,
    pub gps_code: Option<String>,
    pub local_code: Option<String>,
    pub keywords: Option<String>,
    pub rank: (i32, i32),
    pub row: usize,
}

/// A field's text, empty when missing.
pub open spec fn or_empty(s: Option<String>) -> Seq<char> {
    match s { Some(t) => t@, None => Seq::empty() }
}

/// The IATA code of a row: trimmed and upper-cased.
pub open spec fn row_iata(r: AirportCsvRow) -> Seq<char> {
    to_upper(trim_spec(or_empty(r.iata_code)))
}

/// Three ASCII letters.
pub open spec fn iata_shape(s: Seq<char>) -> bool {
    s.len() == 3 && forall|i: int| 0 <= i < 3 ==> ('a' <= #[trigger] s[i] <= 'z' || 'A' <= s[i] <= 'Z')
}

/// A row that can be an airport: a three-letter IATA code and coordinates.
pub open spec fn row_usable(r: AirportCsvRow) -> bool {
    iata_shape(row_iata(r)) && r.coords_ok
}

/// Whether a row has scheduled service (`yes`, any case).
pub open spec fn row_scheduled(r: AirportCsvRow) -> bool {
    match r.scheduled_service { Some(s) => eq_ignore_case(s@, "yes"@), None => false }
}

/// How a row ranks: scheduled service first, then by type.
pub open spec fn row_rank(r: AirportCsvRow) -> (i32, i32) {
    (if row_scheduled(r) { 0i32 } else { 1i32 }, type_rank_spec(or_empty(r.type_)))
}

/// `a` ranks strictly before `b`.
pub open spec fn rank_before(a: (i32, i32), b: (i32, i32)) -> bool {
    a.0 < b.0 || (a.0 == b.0 && a.1 < b.1)
}

/// `c` is the airport read from row `j`.
pub open spec fn cand_of(c: AirportCand, r: AirportCsvRow, j: int) -> bool {
    let iata = row_iata(r);
    &&& c.iata@ == iata
    &&& opt_view(c.icao) == (match nonempty_spec(opt_view(r.icao_code)) {
            Some(t) => Some(to_upper(t)),
            None => match nonempty_spec(opt_view(r.gps_code)) { Some(t) => Some(to_upper(t)), None => None },
        })
    &&& opt_view(c.ident) == nonempty_spec(opt_view(r.ident))
    &&& c.name@ == (match nonempty_spec(opt_view(r.name)) { Some(t) => t, None => iata })
    &&& c.municipality@ == trim_spec(or_empty(r.municipality))
    &&& c.iso_country@ == to_upper(trim_spec(or_empty(r.iso_country)))
    &&& c.iso_region@ == trim_spec(or_empty(r.iso_region))
    &&& c.continent@ == to_upper(trim_spec(or_empty(r.continent)))
    &&& c.elevation_ft == r.elevation_ft
    &&& c.type_@ == (if or_empty(r.type_).len() == 0 { "unknown"@ } else { or_empty(r.type_) })
    &&& c.scheduled_service == row_scheduled(r)
    &&& opt_view(c.wikipedia) == nonempty_spec(opt_view(r.wikipedia_link))
    &&& opt_view(c.home_link) == nonempty_spec(opt_view(r.home_link))
    &&& opt_view(c.gps_code) == (match nonempty_spec(opt_view(r.gps_code)) { Some(t) => Some(to_upper(t)), None => None })
    &&& opt_view(c.local_code) == nonempty_spec(opt_view(r.local_code))
    &&& opt_view(c.keywords) == nonempty_spec(opt_view(r.keywords))
    &&& c.rank == row_rank(r)
    &&& c.row == j
}

/// Row `j` is the one kept for its code: usable, no usable row with that code ranks
/// before it, and none before it ranks the same.
pub open spec fn best_row(rows: Seq<AirportCsvRow>, j: int) -> bool {
    &&& 0 <= j < rows.len()
    &&& row_usable(rows[j])
    &&& forall|k: int| 0 <= k < rows.len() && row_usable(#[trigger] rows[k]) && row_iata(rows[k]) == row_iata(rows[j])
        ==> !rank_before(row_rank(rows[k]), row_rank(rows[j])) && (k < j ==> row_rank(rows[k]) != row_rank(rows[j]))
}

fn upper_opt(s: Option<String>) -> (r: Option<String>)
    ensures
        opt_view(r) == (match opt_view(s) { Some(t) => Some(to_upper(t)), None => None }),
{
    match s { Some(t) => Some(upper(t.as_str())), None => None }
}

fn field(s: &Option<String>) -> (r: String)
    ensures
        r@ == or_empty(*s),
{
    match s { Some(t) => t.clone(), None => String::new() }
}

fn all_letters(s: &str) -> (r: bool)
    ensures
        r == iata_shape(s@),
{
    let x = chars_of(s);
    if x.len() != 3 {
        return false;
    }
    let mut i: usize = 0;
    while i < 3
        invariant
            i <= 3,
            x@ == s@,
            x@.len() == 3,
            forall|k: int| 0 <= k < i ==> ('a' <= #[trigger] x@[k] <= 'z' || 'A' <= x@[k] <= 'Z'),
        decreases 3 - i,
    {
        let c = x[i];
        if !(('a' <= c && c <= 'z') || ('A' <= c && c <= 'Z')) {
            return false;
        }
        i = i + 1;
    }
    true
}

fn cand_from(r: &AirportCsvRow, j: usize) -> (c: Option<AirportCand>)
    ensures
        match c { Some(c) => row_usable(*r) && cand_of(c, *r, j as int), None => !row_usable(*r) },
{
    let raw = field(&r.iata_code);
    let t = trim(raw.as_str());
    let iata = upper(t.as_str());
    if !all_letters(iata.as_str()) || !r.coords_ok {
        return None;
    }
    let typ = field(&r.type_);
    let scheduled = match &r.scheduled_service { Some(s) => eq_ignore_ascii_case(s.as_str(), "yes"), None => false };
    let rank: (i32, i32) = (if scheduled { 0 } else { 1 }, type_rank(typ.as_str()));
    let icao = match nonempty(&r.icao_code) {
        Some(v) => Some(upper(v.as_str())),
        None => upper_opt(nonempty(&r.gps_code)),
    };
    let name = match nonempty(&r.name) { Some(v) => v, None => iata.clone() };
    let unknown = "unknown";
    proof { reveal_strlit("unknown"); }
    let type_ = if typ.as_str().is_empty() { unknown.to_string() } else { typ };
    let m = field(&r.municipality);
    let ic = field(&r.iso_country);
    let ir = field(&r.iso_region);
    let co = field(&r.continent);
    let tc = trim(ic.as_str());
    let tco = trim(co.as_str());
    Some(AirportCand {
        iata,
        icao,
        ident: nonempty(&r.ident),
        name,
        municipality: trim(m.as_str()),
        iso_country: upper(tc.as_str()),
        iso_region: trim(ir.as_str()),
        continent: upper(tco.as_str()),
        elevation_ft: r.elevation_ft,
        type_,
        scheduled_service: scheduled,
        wikipedia: nonempty(&r.wikipedia_link),
        home_link: nonempty(&r.home_link),
        gps_code: upper_opt(nonempty(&r.gps_code)),
        local_code: nonempty(&r.local_code),
        keywords: nonempty(&r.keywords),
        rank,
        row: j,
    })
}

/// `r` keeps one airport per IATA code among the first `n` rows: the best row (see
/// [`best_row`]) of each code, each code once.
pub open spec fn kept_best(r: Seq<AirportCand>, rows: Seq<AirportCsvRow>) -> bool {
    &&& forall|a: int, b: int| 0 <= a < b < r.len() ==> (#[trigger] r[a]).iata@ != (#[trigger] r[b]).iata@
    &&& forall|a: int| 0 <= a < r.len() ==> best_row(rows, (#[trigger] r[a]).row as int)
        && cand_of(r[a], rows[r[a].row as int], r[a].row as int)
    &&& forall|k: int| 0 <= k < rows.len() && row_usable(#[trigger] rows[k])
        ==> exists|a: int| 0 <= a < r.len() && (#[trigger] r[a]).iata@ == row_iata(rows[k])
}

fn find_iata(v: &Vec<AirportCand>, iata: &String) -> (r: Option<usize>)
    ensures
        match r {
            Some(a) => a < v@.len() && v@[a as int].iata@ == iata@,
            None => forall|a: int| 0 <= a < v@.len() ==> (#[trigger] v@[a]).iata@ != iata@,
        },
{
    let mut i: usize = 0;
    while i < v.len()
        invariant
            i <= v@.len(),
            forall|a: int| 0 <= a < i ==> (#[trigger] v@[a]).iata@ != iata@,
        decreases v@.len() - i,
    {
        if str_eq(v[i].iata.as_str(), iata.as_str()) {
            return Some(i);
        }
        i = i + 1;
    }
    None
}

/// One airport per IATA code: of the usable rows with that code, the one with
/// scheduled service and then the larger type (see [`type_rank_spec`]), the first of
/// equals; codes in order of their first usable row.
pub fn best_airports(rows: &[AirportCsvRow]) -> (r: Vec<AirportCand>)
    ensures
        kept_best(r@, rows@),
{
    let mut best: Vec<AirportCand> = Vec::new();
    let mut i: usize = 0;
    while i < rows.len()
        invariant
            i <= rows@.len(),
            kept_best(best@, rows@.subrange(0, i as int)),
            forall|a: int| 0 <= a < best@.len() ==> (#[trigger] best@[a]).row < i,
        decreases rows@.len() - i,
    {
        let ghost pre = rows@.subrange(0, i as int);
        let ghost next = rows@.subrange(0, i + 1);
        let ghost old_best = best@;
        proof {
            assert forall|k: int| 0 <= k < i implies #[trigger] next[k] == pre[k] && pre[k] == rows@[k] by {}
            assert(next[i as int] == rows@[i as int]);
        }
        match cand_from(&rows[i], i) {
            None => {
                proof {
                    assert forall|a: int| 0 <= a < best@.len() implies best_row(next, (#[trigger] best@[a]).row as int)
                        && cand_of(best@[a], next[best@[a].row as int], best@[a].row as int) by {
                        let j = best@[a].row as int;
                        assert(best_row(pre, j));
                        assert forall|k: int| 0 <= k < next.len() && row_usable(#[trigger] next[k]) && row_iata(next[k]) == row_iata(next[j])
                            implies !rank_before(row_rank(next[k]), row_rank(next[j])) && (k < j ==> row_rank(next[k]) != row_rank(next[j])) by {
                            if k < i { assert(next[k] == pre[k]); }
                        }
                    }
                    assert forall|k: int| 0 <= k < next.len() && row_usable(#[trigger] next[k])
                        implies exists|a: int| 0 <= a < best@.len() && (#[trigger] best@[a]).iata@ == row_iata(next[k]) by {
                        assert(k < i);
                        assert(next[k] == pre[k]);
                        assert(row_usable(pre[k]));
                    }
                }
            },
            Some(c) => {
                match find_iata(&best, &c.iata) {
                    None => {
                        best.push(c);
                        proof {
                            let n = old_best.len() as int;
                            assert forall|a: int, b: int| 0 <= a < b < best@.len() implies (#[trigger] best@[a]).iata@ != (#[trigger] best@[b]).iata@ by {
                                if b < n { assert(best@[a] == old_best[a] && best@[b] == old_best[b]); } else { assert(best@[a] == old_best[a]); }
                            }
                            assert forall|a: int| 0 <= a < best@.len() implies best_row(next, (#[trigger] best@[a]).row as int)
                                && cand_of(best@[a], next[best@[a].row as int], best@[a].row as int) by {
                                if a < n {
                                    assert(best@[a] == old_best[a]);
                                    let j = best@[a].row as int;
                                    assert(best_row(pre, j));
                                    assert forall|k: int| 0 <= k < next.len() && row_usable(#[trigger] next[k]) && row_iata(next[k]) == row_iata(next[j])
                                        implies !rank_before(row_rank(next[k]), row_rank(next[j])) && (k < j ==> row_rank(next[k]) != row_rank(next[j])) by {
                                        if k < i { assert(next[k] == pre[k]); } else {
                                            assert(old_best[a].iata@ == row_iata(pre[j]));
                                        }
                                    }
                                } else {
                                    assert forall|k: int| 0 <= k < next.len() && row_usable(#[trigger] next[k]) && row_iata(next[k]) == row_iata(next[i as int])
                                        implies !rank_before(row_rank(next[k]), row_rank(next[i as int])) && (k < i ==> row_rank(next[k]) != row_rank(next[i as int])) by {
                                        if k < i {
                                            assert(next[k] == pre[k]);
                                            assert(row_usable(pre[k]));
                                            let a2 = choose|a2: int| 0 <= a2 < old_best.len() && (#[trigger] old_best[a2]).iata@ == row_iata(pre[k]);
                                        }
                                    }
                                }
                            }
                            assert forall|k: int| 0 <= k < next.len() && row_usable(#[trigger] next[k])
                                implies exists|a: int| 0 <= a < best@.len() && (#[trigger] best@[a]).iata@ == row_iata(next[k]) by {
                                if k < i {
                                    assert(next[k] == pre[k]);
                                    let a2 = choose|a2: int| 0 <= a2 < old_best.len() && (#[trigger] old_best[a2]).iata@ == row_iata(pre[k]);
                                    assert(best@[a2] == old_best[a2]);
                                } else {
                                    assert(best@[n] == c);
                                }
                            }
                        }
                    },
                    Some(a) => {
                        let better = rank_lt(c.rank, best[a].rank);
                        if better {
                            best.set(a, c);
                        }
                        proof {
                            if better { assert(best@[a as int].row == i); assert(old_best[a as int].row < i); }
                        }
                        proof {
                            lemma_best_step(old_best, best@, pre, next, rows@, i as int, a as int);
                        }
                    },
                }
            },
        }
        i = i + 1;
    }
    assert(rows@.subrange(0, i as int) =~= rows@);
    best
}

fn rank_lt(a: (i32, i32), b: (i32, i32)) -> (r: bool)
    ensures
        r == rank_before(a, b),
{
    a.0 < b.0 || (a.0 == b.0 && a.1 < b.1)
}

#[verifier::rlimit(50)]
proof fn lemma_best_step(old_best: Seq<AirportCand>, best: Seq<AirportCand>, pre: Seq<AirportCsvRow>, next: Seq<AirportCsvRow>,
    rows: Seq<AirportCsvRow>, i: int, a: int)
    requires
        0 <= i < rows.len(),
        pre == rows.subrange(0, i),
        next == rows.subrange(0, i + 1),
        kept_best(old_best, pre),
        forall|q: int| 0 <= q < old_best.len() ==> (#[trigger] old_best[q]).row < i,
        0 <= a < old_best.len(),
        row_usable(rows[i]),
        old_best[a].iata@ == row_iata(rows[i]),
        best.len() == old_best.len(),
        forall|q: int| 0 <= q < best.len() && q != a ==> best[q] == old_best[q],
        best[a] == old_best[a] || (rank_before(row_rank(rows[i]), old_best[a].rank) && cand_of(best[a], rows[i], i)),
        !rank_before(row_rank(rows[i]), old_best[a].rank) ==> best[a] == old_best[a],
        best[a] == old_best[a] ==> !rank_before(row_rank(rows[i]), old_best[a].rank),
    ensures
        kept_best(best, next),
        forall|q: int| 0 <= q < best.len() ==> (#[trigger] best[q]).row < i + 1,
{
    assert forall|k: int| 0 <= k < i implies #[trigger] next[k] == pre[k] && pre[k] == rows[k] by {}
    assert(next[i] == rows[i]);
    let ja = old_best[a].row as int;
    assert(best_row(pre, ja));
    assert(old_best[a].rank == row_rank(pre[ja]));
    assert forall|x: int, y: int| 0 <= x < y < best.len() implies (#[trigger] best[x]).iata@ != (#[trigger] best[y]).iata@ by {
        assert(old_best[x].iata@ != old_best[y].iata@);
        if x == a { assert(best[x].iata@ == old_best[x].iata@); }
        if y == a { assert(best[y].iata@ == old_best[y].iata@); }
    }
    assert forall|q: int| 0 <= q < best.len() implies best_row(next, (#[trigger] best[q]).row as int)
        && cand_of(best[q], next[best[q].row as int], best[q].row as int) by {
        if q != a || best[a] == old_best[a] {
            assert(best[q] == old_best[q]);
            let j = old_best[q].row as int;
            assert(best_row(pre, j));
            assert forall|k: int| 0 <= k < next.len() && row_usable(#[trigger] next[k]) && row_iata(next[k]) == row_iata(next[j])
                implies !rank_before(row_rank(next[k]), row_rank(next[j])) && (k < j ==> row_rank(next[k]) != row_rank(next[j])) by {
                if k < i { assert(next[k] == pre[k]); } else if q != a {
                    assert(old_best[q].iata@ == row_iata(pre[j]));
                    assert(old_best[q].iata@ != old_best[a].iata@);
                } else {
                    assert(row_rank(next[j]) == old_best[a].rank);
                    assert(!rank_before(row_rank(rows[i]), old_best[a].rank));
                }
            }
        } else {
            assert forall|k: int| 0 <= k < next.len() && row_usable(#[trigger] next[k]) && row_iata(next[k]) == row_iata(next[i])
                implies !rank_before(row_rank(next[k]), row_rank(next[i])) && (k < i ==> row_rank(next[k]) != row_rank(next[i])) by {
                if k < i {
                    assert(next[k] == pre[k]);
                    assert(row_iata(pre[k]) == row_iata(pre[ja]));
                }
            }
        }
    }
    assert forall|k: int| 0 <= k < next.len() && row_usable(#[trigger] next[k])
        implies exists|x: int| 0 <= x < best.len() && (#[trigger] best[x]).iata@ == row_iata(next[k]) by {
        if k < i {
            assert(next[k] == pre[k]);
            let x = choose|x: int| 0 <= x < old_best.len() && (#[trigger] old_best[x]).iata@ == row_iata(pre[k]);
            if x == a { assert(best[a].iata@ == old_best[a].iata@); } else { assert(best[x] == old_best[x]); }
        } else {
            assert(best[a].iata@ == old_best[a].iata@);
        }
    }
}

/// A line without the carriage return that ended it.
pub open spec fn strip_cr(x: Seq<char>) -> Seq<char> {
    if x.len() > 0 && x.last() == '\r' { x.drop_last() } else { x }
}

/// Each piece without its final carriage return.
pub open spec fn strip_all(v: Seq<Seq<char>>) -> Seq<Seq<char>> {
    v.map_values(|x: Seq<char>| strip_cr(x))
}

/// The lines of a text as `str::lines` gives them: split at each `\n`, a `\r` just
/// before it dropped, and no empty line after a final `\n`.
pub open spec fn text_lines(s: Seq<char>) -> Seq<Seq<char>> {
    let p = split_all(s, '\n');
    let n = p.len() as int;
    let full = strip_all(p.subrange(0, n - 1));
    if p[n - 1].len() > 0 { full.push(p[n - 1]) } else { full }
}

/// A country of the GeoNames table, its number columns as text.
pub struct GeoCountry {
    pub iso2: String,
    pub iso3: Option<String>,
    pub iso_numeric: Option<String>,
    pub name: String,
    pub capital: String,
    pub area_text: String,
    pub population_text: String,
    pub continent: String,
    pub tld: String,
    pub currency_code: String,
    pub currency_name: String,
    pub phone: String,
    pub languages: String,
    pub geoname_id_text: Option<String>,
}

/// A table line that names a country: not blank, not a `#` comment, fifteen columns
/// or more, and a two-byte code in the first.
pub open spec fn geo_line_ok(l: Seq<char>) -> bool {
    let cols = split_all(l, '\t');
    &&& l.len() > 0
    &&& l[0] != '#'
    &&& cols.len() >= 15
    &&& utf8_len(to_upper(trim_spec(cols[0]))) == 2
}

/// The country code of a table line.
pub open spec fn geo_code(l: Seq<char>) -> Seq<char> {
    to_upper(trim_spec(split_all(l, '\t')[0]))
}

/// An upper-cased record_field, when not blank.
pub open spec fn upper_nonempty(s: Seq<char>) -> Option<Seq<char>> {
    if trim_spec(s).len() > 0 { Some(to_upper(trim_spec(s))) } else { None }
}

/// `g` is the country read from line `l`.
pub open spec fn geo_of(g: GeoCountry, l: Seq<char>) -> bool {
    let c = split_all(l, '\t');
    &&& g.iso2@ == geo_code(l)
    &&& opt_view(g.iso3) == upper_nonempty(c[1])
    &&& opt_view(g.iso_numeric) == (if trim_spec(c[2]).len() > 0 { Some(trim_spec(c[2])) } else { None })
    &&& g.name@ == trim_spec(c[4])
    &&& g.capital@ == trim_spec(c[5])
    &&& g.area_text@ == c[6]
    &&& g.population_text@ == c[7]
    &&& g.continent@ == to_upper(trim_spec(c[8]))
    &&& g.tld@ == trim_spec(c[9])
    &&& g.currency_code@ == to_upper(trim_spec(c[10]))
    &&& g.currency_name@ == trim_spec(c[11])
    &&& g.phone@ == trim_spec(c[12])
    &&& g.languages@ == (if c.len() > 15 { trim_spec(c[15]) } else { Seq::empty() })
    &&& opt_view(g.geoname_id_text) == (if c.len() > 16 { Some(c[16]) } else { None })
}

/// `g` is what the last line of its code among `lines` gives.
pub open spec fn from_last_line(g: GeoCountry, lines: Seq<Seq<char>>) -> bool {
    exists|j: int| 0 <= j < lines.len() && geo_line_ok(#[trigger] lines[j]) && geo_of(g, lines[j])
        && forall|k: int| j < k < lines.len() && geo_line_ok(#[trigger] lines[k]) ==> geo_code(lines[k]) != geo_code(lines[j])
}

/// `r` holds one country per code among `lines`: the one its last line gives, each
/// code once.
pub open spec fn geo_table(r: Seq<GeoCountry>, lines: Seq<Seq<char>>) -> bool {
    &&& forall|a: int, b: int| 0 <= a < b < r.len() ==> (#[trigger] r[a]).iso2@ != (#[trigger] r[b]).iso2@
    &&& forall|a: int| 0 <= a < r.len() ==> from_last_line(#[trigger] r[a], lines)
    &&& forall|k: int| 0 <= k < lines.len() && geo_line_ok(#[trigger] lines[k])
        ==> exists|a: int| 0 <= a < r.len() && (#[trigger] r[a]).iso2@ == geo_code(lines[k])
}

fn text_lines_of(s: &str) -> (r: Vec<String>)
    ensures
        views(r@) == text_lines(s@),
{
    let p = split_char(s, '\n');
    proof { crate::bookers::lemma_split_len(s@, '\n'); }
    let n = p.len();
    let mut out: Vec<String> = Vec::new();
    let mut i: usize = 0;
    while i + 1 < n
        invariant
            n == p@.len() >= 1,
            i + 1 <= n,
            views(p@) == split_all(s@, '\n'),
            views(out@) == strip_all(views(p@).subrange(0, i as int)),
        decreases n - i,
    {
        let x = chars_of(p[i].as_str());
        let m = if x.len() > 0 && x[x.len() - 1] == '\r' { x.len() - 1 } else { x.len() };
        let line = crate::text::take_chars(p[i].as_str(), m);
        let ghost before = out@;
        assert(views(p@)[i as int] == x@);
        out.push(line);
        proof {
            assert(views(before).len() == before.len());
            let want = strip_all(views(p@).subrange(0, i + 1));
            assert(x@.subrange(0, m as int) =~= strip_cr(x@));
            assert forall|q: int| 0 <= q < i + 1 implies views(out@)[q] == want[q] by {
                if q < i {
                    assert(out@[q] == before[q]);
                    assert(views(before)[q] == strip_all(views(p@).subrange(0, i as int))[q]);
                } else {
                    assert(out@[q] == line);
                    assert(views(p@).subrange(0, i + 1)[q] == x@);
                }
            }
            assert(views(out@) =~= want);
        }
        i = i + 1;
    }
    let last = &p[n - 1];
    assert(views(p@)[n - 1] == last@);
    if !last.as_str().is_empty() {
        let ghost before = out@;
        out.push(last.clone());
        proof {
            assert(views(before).len() == before.len());
            assert(views(out@) =~= views(before).push(last@));
        }
    }
    out
}

fn trimmed(s: &String) -> (r: String)
    ensures
        r@ == trim_spec(s@),
{
    trim(s.as_str())
}

fn geo_from(l: &String) -> (r: Option<GeoCountry>)
    ensures
        match r { Some(g) => geo_line_ok(l@) && geo_of(g, l@), None => !geo_line_ok(l@) },
{
    let x = chars_of(l.as_str());
    if x.len() == 0 || x[0] == '#' {
        return None;
    }
    let c = split_char(l.as_str(), '\t');
    if c.len() < 15 {
        return None;
    }
    proof {
        assert forall|q: int| 0 <= q < c@.len() implies #[trigger] views(c@)[q] == c@[q]@ by {}
    }
    let t0 = trimmed(&c[0]);
    let iso2 = upper(t0.as_str());
    if byte_len(iso2.as_str()) != 2 {
        return None;
    }
    let t1 = trimmed(&c[1]);
    let iso3 = if t1.as_str().is_empty() { None } else { Some(upper(t1.as_str())) };
    let t2 = trimmed(&c[2]);
    let iso_numeric = if t2.as_str().is_empty() { None } else { Some(t2) };
    let t8 = trimmed(&c[8]);
    let t10 = trimmed(&c[10]);
    let languages = if c.len() > 15 { trimmed(&c[15]) } else { String::new() };
    let geoname_id_text = if c.len() > 16 { Some(c[16].clone()) } else { None };
    Some(GeoCountry {
        iso2,
        iso3,
        iso_numeric,
        name: trimmed(&c[4]),
        capital: trimmed(&c[5]),
        area_text: c[6].clone(),
        population_text: c[7].clone(),
        continent: upper(t8.as_str()),
        tld: trimmed(&c[9]),
        currency_code: upper(t10.as_str()),
        currency_name: trimmed(&c[11]),
        phone: trimmed(&c[12]),
        languages,
        geoname_id_text,
    })
}

fn find_iso2(v: &Vec<GeoCountry>, code: &String) -> (r: Option<usize>)
    ensures
        match r {
            Some(a) => a < v@.len() && v@[a as int].iso2@ == code@,
            None => forall|a: int| 0 <= a < v@.len() ==> (#[trigger] v@[a]).iso2@ != code@,
        },
{
    let mut i: usize = 0;
    while i < v.len()
        invariant
            i <= v@.len(),
            forall|a: int| 0 <= a < i ==> (#[trigger] v@[a]).iso2@ != code@,
        decreases v@.len() - i,
    {
        if str_eq(v[i].iso2.as_str(), code.as_str()) {
            return Some(i);
        }
        i = i + 1;
    }
    None
}

#[verifier::rlimit(100)]
#[verifier::spinoff_prover]
/// The countries of the GeoNames table: one per code, from its last line, codes in
/// order of their first line.
pub fn geonames(text: &str) -> (r: Vec<GeoCountry>)
    ensures
        geo_table(r@, text_lines(text@)),
{
    let lines = text_lines_of(text);
    let ghost ls = views(lines@);
    let mut out: Vec<GeoCountry> = Vec::new();
    let mut i: usize = 0;
    while i < lines.len()
        invariant
            i <= lines@.len(),
            ls == views(lines@),
            geo_table(out@, ls.subrange(0, i as int)),
        decreases lines@.len() - i,
    {
        let ghost pre = ls.subrange(0, i as int);
        let ghost next = ls.subrange(0, i + 1);
        let ghost old_out = out@;
        proof {
            assert forall|k: int| 0 <= k < i implies #[trigger] next[k] == pre[k] by {}
            assert(next[i as int] == lines@[i as int]@);
        }
        match geo_from(&lines[i]) {
            None => {
                proof {
                    assert forall|a: int| 0 <= a < out@.len() implies from_last_line(#[trigger] out@[a], next) by {
                        assert(from_last_line(out@[a], pre));
                        let j = choose|j: int| 0 <= j < pre.len() && geo_line_ok(#[trigger] pre[j]) && geo_of(out@[a], pre[j])
                            && forall|k: int| j < k < pre.len() && geo_line_ok(#[trigger] pre[k]) ==> geo_code(pre[k]) != geo_code(pre[j]);
                        assert(next[j] == pre[j]);
                        assert forall|k: int| j < k < next.len() && geo_line_ok(#[trigger] next[k]) implies geo_code(next[k]) != geo_code(next[j]) by {
                            assert(k < i);
                            assert(next[k] == pre[k]);
                        }
                    }
                    assert forall|k: int| 0 <= k < next.len() && geo_line_ok(#[trigger] next[k])
                        implies exists|a: int| 0 <= a < out@.len() && (#[trigger] out@[a]).iso2@ == geo_code(next[k]) by {
                        assert(k < i);
                        assert(next[k] == pre[k]);
                    }
                }
            },
            Some(g) => {
                let found = find_iso2(&out, &g.iso2);
                match found {
                    None => { out.push(g); },
                    Some(a) => { out.set(a, g); },
                }
                proof {
                    let n = old_out.len() as int;
                    let li = next[i as int];
                    assert forall|x: int, y: int| 0 <= x < y < out@.len() implies (#[trigger] out@[x]).iso2@ != (#[trigger] out@[y]).iso2@ by {
                        if found is Some {
                            assert(old_out[x].iso2@ != old_out[y].iso2@);
                            if x == found->0 as int { assert(out@[x].iso2@ == old_out[x].iso2@); }
                            if y == found->0 as int { assert(out@[y].iso2@ == old_out[y].iso2@); }
                        } else if y < n {
                            assert(old_out[x].iso2@ != old_out[y].iso2@);
                        }
                    }
                    assert forall|a: int| 0 <= a < out@.len() implies from_last_line(#[trigger] out@[a], next) by {
                        if (found is Some && a == found->0 as int) || a == n {
                            assert(geo_of(out@[a], next[i as int]));
                        } else {
                            assert(out@[a] == old_out[a]);
                            assert(from_last_line(old_out[a], pre));
                            let j = choose|j: int| 0 <= j < pre.len() && geo_line_ok(#[trigger] pre[j]) && geo_of(old_out[a], pre[j])
                                && forall|k: int| j < k < pre.len() && geo_line_ok(#[trigger] pre[k]) ==> geo_code(pre[k]) != geo_code(pre[j]);
                            assert(next[j] == pre[j]);
                            assert forall|k: int| j < k < next.len() && geo_line_ok(#[trigger] next[k]) implies geo_code(next[k]) != geo_code(next[j]) by {
                                if k < i { assert(next[k] == pre[k]); } else {
                                    assert(geo_code(pre[j]) == old_out[a].iso2@);
                                    if found is Some { assert(old_out[a].iso2@ != old_out[found->0 as int].iso2@); }
                                }
                            }
                        }
                    }
                    assert forall|k: int| 0 <= k < next.len() && geo_line_ok(#[trigger] next[k])
                        implies exists|a: int| 0 <= a < out@.len() && (#[trigger] out@[a]).iso2@ == geo_code(next[k]) by {
                        if k < i {
                            assert(next[k] == pre[k]);
                            let a = choose|a: int| 0 <= a < old_out.len() && (#[trigger] old_out[a]).iso2@ == geo_code(pre[k]);
                            if found is Some && a == found->0 as int { assert(out@[a].iso2@ == g.iso2@); } else { assert(out@[a] == old_out[a]); }
                        } else {
                            if found is Some { assert(out@[found->0 as int].iso2@ == geo_code(li)); } else { assert(out@[n].iso2@ == geo_code(li)); }
                        }
                    }
                }
            },
        }
        i = i + 1;
    }
    assert(ls.subrange(0, i as int) =~= ls);
    out
}

/// A CSV text's header row and its other records (`None` when the reader stops on
/// an error; no header for an empty text).
pub fn csv_table(text: &str) -> (r: Option<(Vec<String>, Vec<Vec<String>>)>)
    ensures
        match csv_records(text@) {
            None => r is None,
            Some(v) => r matches Some(t) && (if v.len() == 0 { views(t.0@).len() == 0 && t.1@.len() == 0 } else {
                views(t.0@) == v[0] && record_views(t.1@) == v.subrange(1, v.len() as int)
            }),
        },
{
    let mut recs = match read_csv(text) { Some(v) => v, None => return None };
    if recs.len() == 0 {
        return Some((Vec::new(), Vec::new()));
    }
    let ghost all = recs@;
    let header = recs.remove(0);
    proof {
        assert(recs@ =~= all.subrange(1, all.len() as int));
        assert(record_views(recs@) =~= record_views(all).subrange(1, all.len() as int));
    }
    Some((header, recs))
}

/// A field of a record by its column name: the last column of that name that the
/// record reaches.
pub open spec fn column_of(headers: Seq<Seq<char>>, rec: Seq<Seq<char>>, name: Seq<char>) -> Option<Seq<char>>
    decreases headers.len(),
{
    if headers.len() == 0 {
        None
    } else {
        let k = headers.len() - 1;
        if headers[k] == name && k < rec.len() { Some(rec[k]) } else { column_of(headers.drop_last(), rec, name) }
    }
}

/// See [`column_of`].
pub fn record_field(headers: &Vec<String>, rec: &Vec<String>, name: &str) -> (r: Option<String>)
    ensures
        opt_view(r) == column_of(views(headers@), views(rec@), name@),
{
    let mut k = headers.len();
    assert(views(headers@).subrange(0, k as int) =~= views(headers@));
    while k > 0
        invariant
            k <= headers@.len(),
            column_of(views(headers@), views(rec@), name@) == column_of(views(headers@).subrange(0, k as int), views(rec@), name@),
        decreases k,
    {
        let ghost h = views(headers@).subrange(0, k as int);
        assert(h.drop_last() =~= views(headers@).subrange(0, k - 1));
        if str_eq(headers[k - 1].as_str(), name) && k - 1 < rec.len() {
            assert(views(rec@)[k - 1] == rec@[k - 1]@);
            return Some(rec[k - 1].clone());
        }
        k = k - 1;
    }
    None
}

} // verus!
