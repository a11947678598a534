//! Airport search: the candidate rows scored, boosted toward a country the query
//! names, kept above a floor, joined by the sibling airports of a city the query
//! names exactly, narrowed to rows that match the city, and ranked.
use vstd::prelude::*;
use crate::text::{to_lower, lower, str_eq, utf8_len, chars_of, is_ws, ws, has_infix, contains_str, cat, string_from};
use crate::hidden::views;
use crate::places::{
    AirportRow, score_airport, score_airport_spec, fold, fold_spec, city_label, city_label_spec, has_phrase,
    has_phrase_spec, keyword_parts, kept_pieces_opt, opt_or_empty, rank_airport_rows, airport_keys, exact_code_hit,
    shown_rows, rows_in,
};
use crate::order::sorted_by;
use crate::places::{CountryRow, score_country, score_country_spec, country_alias, country_alias_spec};
use crate::learn::{text_less, less_text, lemma_text_irreflexive, lemma_text_transitive, lemma_text_total};
use crate::text::byte_len;

verus! {

pub proof fn lemma_score_bound(row: AirportRow, needle: Seq<char>)
    ensures
        -1000 <= score_airport_spec(row, needle) <= 5000,
{
}

/// The boost a row earns for lying in the country the query names: 400 for queries
/// of three characters or more, 40 for shorter ones (a two-letter country code is
/// also a city prefix).
pub open spec fn country_boost(row: AirportRow, needle: Seq<char>, iso: Option<Seq<char>>) -> int {
    match iso {
        Some(c) => if row.iso_country@ == c { if needle.len() >= 3 { 400int } else { 40 } } else { 0 },
        None => 0,
    }
}

/// The rows scored for the query, with the country boost.
pub open spec fn boosted_rows(rows: Seq<AirportRow>, needle: Seq<char>, iso: Option<Seq<char>>) -> Seq<(i32, AirportRow)>
    decreases rows.len(),
{
    if rows.len() == 0 {
        Seq::empty()
    } else {
        let r = rows.last();
        boosted_rows(rows.drop_last(), needle, iso).push(
            ((score_airport_spec(r, needle) + country_boost(r, needle, iso)) as i32, r))
    }
}

/// The rows in country `c`, in order.
pub open spec fn in_country(s: Seq<(i32, AirportRow)>, c: Seq<char>) -> Seq<(i32, AirportRow)>
    decreases s.len(),
{
    if s.len() == 0 {
        s
    } else {
        let p = in_country(s.drop_last(), c);
        if s.last().1.iso_country@ == c { p.push(s.last()) } else { p }
    }
}

/// For a query of three characters or more naming a country, only the rows in that
/// country when there are any.
pub open spec fn country_narrowed(s: Seq<(i32, AirportRow)>, needle: Seq<char>, iso: Option<Seq<char>>) -> Seq<(i32, AirportRow)> {
    match iso {
        Some(c) => if needle.len() >= 3 && in_country(s, c).len() > 0 { in_country(s, c) } else { s },
        None => s,
    }
}

/// The rows scoring at least 50, in order.
pub open spec fn above_floor(s: Seq<(i32, AirportRow)>) -> Seq<(i32, AirportRow)>
    decreases s.len(),
{
    if s.len() == 0 {
        s
    } else {
        let p = above_floor(s.drop_last());
        if s.last().0 >= 50 { p.push(s.last()) } else { p }
    }
}

/// The row's city, as shown, folds to the folded query.
pub open spec fn city_is_query(row: AirportRow, needle: Seq<char>) -> bool {
    fold_spec(city_label_spec(row.municipality@, row.name@)) == fold_spec(needle)
}

/// The first row with scheduled service whose city is the query.
pub open spec fn city_hit(s: Seq<(i32, AirportRow)>, needle: Seq<char>) -> Option<AirportRow>
    decreases s.len(),
{
    if s.len() == 0 {
        None
    } else if city_is_query(s[0].1, needle) && s[0].1.scheduled_service {
        Some(s[0].1)
    } else {
        city_hit(s.drop_first(), needle)
    }
}

/// Some row has the code.
pub open spec fn has_iata(s: Seq<(i32, AirportRow)>, code: Seq<char>) -> bool {
    exists|k: int| 0 <= k < s.len() && (#[trigger] s[k]).1.iata@ == code
}

/// A large or medium airport with scheduled service.
pub open spec fn sibling_kind(r: AirportRow) -> bool {
    r.scheduled_service && (r.type_@ == "large_airport"@ || r.type_@ == "medium_airport"@)
}

/// The rows joined by the first `n` nearby airports: each one not yet held and of
/// [`sibling_kind`] comes last with its score plus 160; also the codes it added.
pub open spec fn with_siblings(s: Seq<(i32, AirportRow)>, near: Seq<AirportRow>, needle: Seq<char>, n: int)
    -> (Seq<(i32, AirportRow)>, Seq<Seq<char>>)
    decreases n,
{
    if n <= 0 {
        (s, Seq::empty())
    } else {
        let p = with_siblings(s, near, needle, n - 1);
        let ap = near[n - 1];
        if has_iata(p.0, ap.iata@) || !sibling_kind(ap) {
            p
        } else {
            (p.0.push(((score_airport_spec(ap, needle) + 160) as i32, ap)), p.1.push(ap.iata@))
        }
    }
}

/// A row stays when the query names its city: it is a sibling, its city is the
/// query, its city or name holds the query as a phrase, a keyword folds to it or
/// holds it, or the query is its IATA or ICAO code.
pub open spec fn city_row(r: AirportRow, needle: Seq<char>, sibs: Seq<Seq<char>>) -> bool {
    let q = fold_spec(needle);
    let kws = kept_pieces_opt(r.keywords);
    ||| sibs.contains(r.iata@)
    ||| city_is_query(r, needle)
    ||| has_phrase_spec(r.municipality@, needle)
    ||| has_phrase_spec(r.name@, needle)
    ||| (exists|k: int| 0 <= k < kws.len() && (fold_spec(#[trigger] kws[k]) == q || has_phrase_spec(kws[k], needle)))
    ||| q == to_lower(r.iata@)
    ||| q == to_lower(opt_or_empty(r.icao))
}

/// The rows that stay (see [`city_row`]), in order.
pub open spec fn city_rows(s: Seq<(i32, AirportRow)>, needle: Seq<char>, sibs: Seq<Seq<char>>) -> Seq<(i32, AirportRow)>
    decreases s.len(),
{
    if s.len() == 0 {
        s
    } else {
        let p = city_rows(s.drop_last(), needle, sibs);
        if city_row(s.last().1, needle, sibs) { p.push(s.last()) } else { p }
    }
}

/// Some row's city is the query.
pub open spec fn any_city(s: Seq<(i32, AirportRow)>, needle: Seq<char>) -> bool {
    exists|k: int| 0 <= k < s.len() && city_is_query((#[trigger] s[k]).1, needle)
}

/// The scored rows before ranking: boosted, narrowed to the country, above the
/// floor.
pub open spec fn floored_rows(rows: Seq<AirportRow>, needle: Seq<char>, iso: Option<Seq<char>>) -> Seq<(i32, AirportRow)> {
    above_floor(country_narrowed(boosted_rows(rows, needle, iso), needle, iso))
}

/// The scored rows a search ranks: [`floored_rows`]; joined by the siblings from
/// `near` when a scheduled row's city is the query; then, when some row's city is
/// the query, only the rows that stay (see [`city_row`]) if any do.
pub open spec fn search_rows(rows: Seq<AirportRow>, needle: Seq<char>, iso: Option<Seq<char>>, near: Seq<AirportRow>)
    -> Seq<(i32, AirportRow)>
{
    let s1 = floored_rows(rows, needle, iso);
    let s2 = if city_hit(s1, needle) is Some { with_siblings(s1, near, needle, near.len() as int) } else { (s1, Seq::empty()) };
    let kept = city_rows(s2.0, needle, s2.1);
    if any_city(s2.0, needle) && kept.len() > 0 { kept } else { s2.0 }
}

/// The text of an optional query part.
pub open spec fn opt_str_view(s: Option<&str>) -> Option<Seq<char>> {
    match s { Some(c) => Some(c@), None => None }
}

fn opt_str(s: &Option<String>) -> (r: Option<&str>)
    ensures
        match r { Some(t) => s matches Some(x) && t@ == x@, None => s is None },
{
    match s { Some(t) => Some(t.as_str()), None => None }
}

/// See [`floored_rows`]; `needle` is the trimmed query.
pub fn floored_search_rows(rows: &[AirportRow], needle: &str, country_iso: Option<&str>) -> (r: Vec<(i32, AirportRow)>)
    ensures
        r@ == floored_rows(rows@, needle@, match country_iso { Some(c) => Some(c@), None => None }),
{
    let ghost iso = match country_iso { Some(c) => Some(c@), None => None };
    let nlen = chars_of(needle).len();
    let mut b: Vec<(i32, AirportRow)> = Vec::new();
    let mut i: usize = 0;
    while i < rows.len()
        invariant
            i <= rows@.len(),
            iso == (match country_iso { Some(c) => Some(c@), None => None::<Seq<char>> }),
            nlen == needle@.len(),
            b@ == boosted_rows(rows@.subrange(0, i as int), needle@, iso),
        decreases rows@.len() - i,
    {
        let r = &rows[i];
        let s = score_airport(r, needle);
        proof { lemma_score_bound(*r, needle@); }
        let boost: i32 = match country_iso {
            Some(c) => if str_eq(r.iso_country.as_str(), c) { if nlen >= 3 { 400 } else { 40 } } else { 0 },
            None => 0,
        };
        b.push((s + boost, r.clone()));
        assert(rows@.subrange(0, i + 1).drop_last() =~= rows@.subrange(0, i as int));
        i = i + 1;
    }
    assert(rows@.subrange(0, i as int) =~= rows@);
    let narrowed = match country_iso {
        Some(c) => {
            let mut inc: Vec<(i32, AirportRow)> = Vec::new();
            let mut k: usize = 0;
            while k < b.len()
                invariant
                    k <= b@.len(),
                    inc@ == in_country(b@.subrange(0, k as int), c@),
                decreases b@.len() - k,
            {
                assert(b@.subrange(0, k + 1).drop_last() =~= b@.subrange(0, k as int));
                if str_eq(b[k].1.iso_country.as_str(), c) {
                    inc.push((b[k].0, b[k].1.clone()));
                }
                k = k + 1;
            }
            assert(b@.subrange(0, k as int) =~= b@);
            if nlen >= 3 && inc.len() > 0 { inc } else { b }
        },
        None => b,
    };
    let mut out: Vec<(i32, AirportRow)> = Vec::new();
    let mut k: usize = 0;
    while k < narrowed.len()
        invariant
            k <= narrowed@.len(),
            out@ == above_floor(narrowed@.subrange(0, k as int)),
        decreases narrowed@.len() - k,
    {
        assert(narrowed@.subrange(0, k + 1).drop_last() =~= narrowed@.subrange(0, k as int));
        if narrowed[k].0 >= 50 {
            out.push((narrowed[k].0, narrowed[k].1.clone()));
        }
        k = k + 1;
    }
    assert(narrowed@.subrange(0, k as int) =~= narrowed@);
    out
}

/// See [`city_hit`]: the row whose nearby airports are fetched.
pub fn search_city_hit(s: &Vec<(i32, AirportRow)>, needle: &str) -> (r: Option<AirportRow>)
    ensures
        r == city_hit(s@, needle@),
{
    let q = fold(needle);
    let mut i: usize = 0;
    assert(s@.subrange(0, s@.len() as int) =~= s@);
    while i < s.len()
        invariant
            i <= s@.len(),
            q@ == fold_spec(needle@),
            city_hit(s@, needle@) == city_hit(s@.subrange(i as int, s@.len() as int), needle@),
        decreases s@.len() - i,
    {
        let ghost rest = s@.subrange(i as int, s@.len() as int);
        assert(rest.drop_first() =~= s@.subrange(i + 1, s@.len() as int));
        assert(rest[0] == s@[i as int]);
        let label = city_label(s[i].1.municipality.as_str(), s[i].1.name.as_str());
        let fl = fold(label.as_str());
        if str_eq(fl.as_str(), q.as_str()) && s[i].1.scheduled_service {
            return Some(s[i].1.clone());
        }
        i = i + 1;
    }
    assert(s@.subrange(i as int, s@.len() as int).len() == 0);
    None
}

fn holds_iata(s: &Vec<(i32, AirportRow)>, code: &str) -> (r: bool)
    ensures
        r == has_iata(s@, code@),
{
    let mut k: usize = 0;
    while k < s.len()
        invariant
            k <= s@.len(),
            forall|j: int| 0 <= j < k ==> (#[trigger] s@[j]).1.iata@ != code@,
        decreases s@.len() - k,
    {
        if str_eq(s[k].1.iata.as_str(), code) {
            return true;
        }
        k = k + 1;
    }
    false
}

fn is_sibling_kind(r: &AirportRow) -> (b: bool)
    ensures
        b == sibling_kind(*r),
{
    proof {
        reveal_strlit("large_airport");
        reveal_strlit("medium_airport");
    }
    r.scheduled_service && (str_eq(r.type_.as_str(), "large_airport") || str_eq(r.type_.as_str(), "medium_airport"))
}

fn holds_code(v: &Vec<String>, code: &str) -> (r: bool)
    ensures
        r == views(v@).contains(code@),
{
    let mut k: usize = 0;
    while k < v.len()
        invariant
            k <= v@.len(),
            forall|j: int| 0 <= j < k ==> (#[trigger] v@[j])@ != code@,
        decreases v@.len() - k,
    {
        if str_eq(v[k].as_str(), code) {
            assert(views(v@)[k as int] == code@);
            return true;
        }
        k = k + 1;
    }
    proof {
        if views(v@).contains(code@) {
            let j = choose|j: int| 0 <= j < views(v@).len() && views(v@)[j] == code@;
            assert(v@[j]@ == code@);
        }
    }
    false
}

fn keeps_row(r: &AirportRow, needle: &str, sibs: &Vec<String>) -> (b: bool)
    ensures
        b == city_row(*r, needle@, views(sibs@)),
{
    let q = fold(needle);
    let kws = keyword_parts(opt_str(&r.keywords));
    assert(views(kws@) == kept_pieces_opt(r.keywords));
    let mut kw = false;
    let mut k: usize = 0;
    while k < kws.len()
        invariant
            k <= kws@.len(),
            q@ == fold_spec(needle@),
            views(kws@) == kept_pieces_opt(r.keywords),
            kw == exists|j: int| 0 <= j < k && (fold_spec(#[trigger] kept_pieces_opt(r.keywords)[j]) == q@
                || has_phrase_spec(kept_pieces_opt(r.keywords)[j], needle@)),
        decreases kws@.len() - k,
    {
        assert(views(kws@)[k as int] == kws@[k as int]@);
        let f = fold(kws[k].as_str());
        if str_eq(f.as_str(), q.as_str()) || has_phrase(kws[k].as_str(), needle) {
            kw = true;
        }
        k = k + 1;
    }
    let label = city_label(r.municipality.as_str(), r.name.as_str());
    let fl = fold(label.as_str());
    let iata_l = lower(r.iata.as_str());
    let icao_raw: &str = match &r.icao { Some(s) => s.as_str(), None => "" };
    proof { reveal_strlit(""); }
    assert(icao_raw@ == opt_or_empty(r.icao));
    let icao_l = lower(icao_raw);
    holds_code(sibs, r.iata.as_str())
        || str_eq(fl.as_str(), q.as_str())
        || has_phrase(r.municipality.as_str(), needle)
        || has_phrase(r.name.as_str(), needle)
        || kw
        || str_eq(q.as_str(), iata_l.as_str())
        || str_eq(q.as_str(), icao_l.as_str())
}

/// The airports a search shows: [`search_rows`] over the candidate rows, the
/// country the query names and the nearby airports of its city hit (see
/// [`search_city_hit`]), ranked as [`shown_rows`] says. `needle` is the trimmed
/// query.
pub fn shape_airport_search(rows: &[AirportRow], needle: &str, country_iso: Option<&str>, near: &[AirportRow], limit: usize)
    -> (r: Vec<AirportRow>)
    ensures
        ({
            let s = search_rows(rows@, needle@, opt_str_view(country_iso), near@);
            exists|p: Seq<usize>| #[trigger] sorted_by(airport_keys(s, exact_code_hit(s, needle@)), p)
                && r@ == shown_rows(rows_in(s, p), exact_code_hit(s, needle@), limit as int)
        }),
{
    let ghost iso = match country_iso { Some(c) => Some(c@), None => None::<Seq<char>> };
    let s1 = floored_search_rows(rows, needle, country_iso);
    let hit = search_city_hit(&s1, needle);
    let mut s2 = s1;
    let mut sibs: Vec<String> = Vec::new();
    if hit.is_some() {
        let mut n: usize = 0;
        while n < near.len()
            invariant
                n <= near@.len(),
                (s2@, views(sibs@)) == with_siblings(floored_rows(rows@, needle@, iso), near@, needle@, n as int),
            decreases near@.len() - n,
        {
            let ap = &near[n];
            if !holds_iata(&s2, ap.iata.as_str()) && is_sibling_kind(ap) {
                let sc = score_airport(ap, needle);
                proof { lemma_score_bound(*ap, needle@); }
                let ghost bs = views(sibs@);
                s2.push((sc + 160, ap.clone()));
                sibs.push(ap.iata.clone());
                assert(views(sibs@) =~= bs.push(ap.iata@));
            }
            n = n + 1;
        }
    } else {
        assert(views(sibs@) =~= Seq::<Seq<char>>::empty());
    }
    assert((s2@, views(sibs@)) == (if city_hit(floored_rows(rows@, needle@, iso), needle@) is Some {
        with_siblings(floored_rows(rows@, needle@, iso), near@, needle@, near@.len() as int)
    } else {
        (floored_rows(rows@, needle@, iso), Seq::empty())
    }));
    let q = fold(needle);
    let mut any = false;
    let mut kept: Vec<(i32, AirportRow)> = Vec::new();
    let mut k: usize = 0;
    while k < s2.len()
        invariant
            k <= s2@.len(),
            q@ == fold_spec(needle@),
            kept@ == city_rows(s2@.subrange(0, k as int), needle@, views(sibs@)),
            any == exists|j: int| 0 <= j < k && city_is_query((#[trigger] s2@[j]).1, needle@),
        decreases s2@.len() - k,
    {
        assert(s2@.subrange(0, k + 1).drop_last() =~= s2@.subrange(0, k as int));
        let label = city_label(s2[k].1.municipality.as_str(), s2[k].1.name.as_str());
        let fl = fold(label.as_str());
        if str_eq(fl.as_str(), q.as_str()) {
            any = true;
        }
        if keeps_row(&s2[k].1, needle, &sibs) {
            kept.push((s2[k].0, s2[k].1.clone()));
        }
        k = k + 1;
    }
    assert(s2@.subrange(0, k as int) =~= s2@);
    let fin = if any && kept.len() > 0 { kept } else { s2 };
    assert(fin@ == search_rows(rows@, needle@, iso, near@));
    let out = rank_airport_rows(fin.as_slice(), needle, limit);
    proof {
        let s = fin@;
        let p = choose|p: Seq<usize>| #[trigger] sorted_by(airport_keys(s, exact_code_hit(s, needle@)), p)
            && out@ == shown_rows(rows_in(s, p), exact_code_hit(s, needle@), limit as int);
        assert(sorted_by(airport_keys(s, exact_code_hit(s, needle@)), p));
        let t = search_rows(rows@, needle@, opt_str_view(country_iso), near@);
        assert(t == s);
        assert(sorted_by(airport_keys(t, exact_code_hit(t, needle@)), p));
        assert(out@ == shown_rows(rows_in(t, p), exact_code_hit(t, needle@), limit as int));
    }
    out
}

/// `s` without its leading white space.
pub open spec fn skip_ws(s: Seq<char>) -> Seq<char>
    decreases s.len(),
{
    if s.len() > 0 && is_ws(s[0]) { skip_ws(s.drop_first()) } else { s }
}

/// The characters of `s` up to its first white space.
pub open spec fn take_word(s: Seq<char>) -> Seq<char>
    decreases s.len(),
{
    if s.len() == 0 || is_ws(s[0]) { Seq::empty() } else { seq![s[0]] + take_word(s.drop_first()) }
}

/// The first white-space-separated word of `s`, or `s` itself when it has none.
pub open spec fn first_word(s: Seq<char>) -> Seq<char> {
    let t = skip_ws(s);
    if t.len() == 0 { s } else { take_word(t) }
}

/// When a search with no candidate rows and no country falls back to a text match
/// on the city, name and keywords: the folded query differs from the lower-cased one
/// or holds a space. The word it matches with is the first word of the folded
/// query.
pub open spec fn fallback_word(rows_empty: bool, has_country: bool, needle: Seq<char>) -> Option<Seq<char>> {
    let q = fold_spec(needle);
    if rows_empty && !has_country && (q != to_lower(needle) || q.contains(' ')) { Some(first_word(q)) } else { None }
}

/// See [`fallback_word`]; `needle` is the trimmed query.
pub fn search_fallback_word(rows_empty: bool, has_country: bool, needle: &str) -> (r: Option<String>)
    ensures
        opt_string_view(r) == fallback_word(rows_empty, has_country, needle@),
{
    let q = fold(needle);
    let l = lower(needle);
    let cs = chars_of(q.as_str());
    let mut space = false;
    let mut i: usize = 0;
    while i < cs.len()
        invariant
            i <= cs@.len(),
            cs@ == q@,
            space == exists|k: int| 0 <= k < i && cs@[k] == ' ',
        decreases cs@.len() - i,
    {
        if cs[i] == ' ' {
            space = true;
        }
        i = i + 1;
    }
    assert(space == q@.contains(' '));
    if !(rows_empty && !has_country && (!str_eq(q.as_str(), l.as_str()) || space)) {
        return None;
    }
    let mut a: usize = 0;
    assert(cs@.subrange(0, cs@.len() as int) =~= cs@);
    while a < cs.len() && ws(cs[a])
        invariant
            a <= cs@.len(),
            skip_ws(cs@) == skip_ws(cs@.subrange(a as int, cs@.len() as int)),
        decreases cs@.len() - a,
    {
        let ghost rest = cs@.subrange(a as int, cs@.len() as int);
        assert(rest.drop_first() =~= cs@.subrange(a + 1, cs@.len() as int));
        a = a + 1;
    }
    let ghost t = cs@.subrange(a as int, cs@.len() as int);
    assert(skip_ws(t) == t);
    assert(skip_ws(cs@) == t);
    if a == cs.len() {
        return Some(q);
    }
    let mut b: usize = a;
    let mut word: Vec<char> = Vec::new();
    while b < cs.len() && !ws(cs[b])
        invariant
            a <= b <= cs@.len(),
            word@ == cs@.subrange(a as int, b as int),
            take_word(t) == word@ + take_word(cs@.subrange(b as int, cs@.len() as int)),
        decreases cs@.len() - b,
    {
        let ghost rest = cs@.subrange(b as int, cs@.len() as int);
        assert(rest.drop_first() =~= cs@.subrange(b + 1, cs@.len() as int));
        word.push(cs[b]);
        assert(word@ + take_word(cs@.subrange(b + 1, cs@.len() as int)) =~= word@.drop_last() + (seq![rest[0]] + take_word(rest.drop_first())));
        b = b + 1;
    }
    assert(take_word(cs@.subrange(b as int, cs@.len() as int)) =~= Seq::<char>::empty());
    Some(string_from(word.as_slice()))
}

/// The text of an optional string.
pub open spec fn opt_string_view(s: Option<String>) -> Option<Seq<char>> {
    match s { Some(t) => Some(t@), None => None }
}

/// What a fallback row is matched on: its city, name, keywords, country name and
/// region name, each folded, joined by spaces.
pub open spec fn fallback_blob(r: AirportRow) -> Seq<char> {
    fold_spec(r.municipality@) + " "@ + fold_spec(r.name@) + " "@ + fold_spec(opt_or_empty(r.keywords)) + " "@
        + fold_spec(r.country_name@) + " "@ + fold_spec(r.region_name@)
}

/// A fallback row matches the folded query `q`: its blob holds `q`, or its city or
/// name holds it as a phrase.
pub open spec fn fallback_hit(r: AirportRow, q: Seq<char>) -> bool {
    has_infix(fallback_blob(r), q) || has_phrase_spec(r.municipality@, q) || has_phrase_spec(r.name@, q)
}

/// Some row of `s` has the code.
pub open spec fn rows_hold(s: Seq<AirportRow>, code: Seq<char>) -> bool {
    exists|k: int| 0 <= k < s.len() && (#[trigger] s[k]).iata@ == code
}

/// The rows of the first `n` fallback rows that join `have`: each that matches the
/// folded query and whose code is not yet held, in order.
pub open spec fn fallback_rows(have: Seq<AirportRow>, extra: Seq<AirportRow>, q: Seq<char>, n: int) -> Seq<AirportRow>
    decreases n,
{
    if n <= 0 {
        Seq::empty()
    } else {
        let p = fallback_rows(have, extra, q, n - 1);
        let r = extra[n - 1];
        if rows_hold(have + p, r.iata@) || !fallback_hit(r, q) { p } else { p.push(r) }
    }
}

fn blob_of(r: &AirportRow) -> (b: String)
    ensures
        b@ == fallback_blob(*r),
{
    proof { reveal_strlit(" "); reveal_strlit(""); }
    let kw: &str = match &r.keywords { Some(k) => k.as_str(), None => "" };
    assert(kw@ == opt_or_empty(r.keywords));
    let a = cat(fold(r.municipality.as_str()).as_str(), " ");
    let a = cat(a.as_str(), fold(r.name.as_str()).as_str());
    let a = cat(a.as_str(), " ");
    let a = cat(a.as_str(), fold(kw).as_str());
    let a = cat(a.as_str(), " ");
    let a = cat(a.as_str(), fold(r.country_name.as_str()).as_str());
    let a = cat(a.as_str(), " ");
    cat(a.as_str(), fold(r.region_name.as_str()).as_str())
}

fn held(have: &[AirportRow], added: &Vec<AirportRow>, code: &str) -> (b: bool)
    ensures
        b == rows_hold(have@ + added@, code@),
{
    let ghost all = have@ + added@;
    let mut k: usize = 0;
    while k < have.len()
        invariant
            k <= have@.len(),
            all == have@ + added@,
            forall|j: int| 0 <= j < k ==> (#[trigger] all[j]).iata@ != code@,
        decreases have@.len() - k,
    {
        assert(all[k as int] == have@[k as int]);
        if str_eq(have[k].iata.as_str(), code) {
            return true;
        }
        k = k + 1;
    }
    let mut m: usize = 0;
    while m < added.len()
        invariant
            m <= added@.len(),
            all == have@ + added@,
            forall|j: int| 0 <= j < have@.len() + m ==> (#[trigger] all[j]).iata@ != code@,
        decreases added@.len() - m,
    {
        assert(all[have@.len() + m] == added@[m as int]);
        if str_eq(added[m].iata.as_str(), code) {
            return true;
        }
        m = m + 1;
    }
    false
}

/// The fallback rows that join the candidate rows `have`, exactly
/// [`fallback_rows`] over `extra` for the folded query.
pub fn search_fallback_rows(have: &[AirportRow], extra: &[AirportRow], needle: &str) -> (r: Vec<AirportRow>)
    ensures
        r@ == fallback_rows(have@, extra@, fold_spec(needle@), extra@.len() as int),
{
    let q = fold(needle);
    let mut out: Vec<AirportRow> = Vec::new();
    let mut i: usize = 0;
    while i < extra.len()
        invariant
            i <= extra@.len(),
            q@ == fold_spec(needle@),
            out@ == fallback_rows(have@, extra@, q@, i as int),
        decreases extra@.len() - i,
    {
        let r = &extra[i];
        if !held(have, &out, r.iata.as_str()) {
            let blob = blob_of(r);
            if contains_str(blob.as_str(), q.as_str()) || has_phrase(r.municipality.as_str(), q.as_str())
                || has_phrase(r.name.as_str(), q.as_str()) {
                out.push(r.clone());
            }
        }
        i = i + 1;
    }
    out
}

/// The score of country `i` for the query.
pub open spec fn cscore(rows: Seq<CountryRow>, needle: Seq<char>, i: int) -> int {
    score_country_spec(rows[i], needle)
}

/// Country `j` ranks ahead of country `i`: a higher score, then the lesser name,
/// then the earlier place.
pub open spec fn ranks_ahead(rows: Seq<CountryRow>, needle: Seq<char>, j: int, i: int) -> bool {
    ||| cscore(rows, needle, j) > cscore(rows, needle, i)
    ||| (cscore(rows, needle, j) == cscore(rows, needle, i) && text_less(rows[j].name@, rows[i].name@))
    ||| (cscore(rows, needle, j) == cscore(rows, needle, i) && rows[j].name@ == rows[i].name@ && j < i)
}

/// Country `i` scores above zero and no such country ranks ahead of it.
pub open spec fn top_country(rows: Seq<CountryRow>, needle: Seq<char>, i: int) -> bool {
    &&& 0 <= i < rows.len()
    &&& cscore(rows, needle, i) > 0
    &&& forall|j: int| 0 <= j < rows.len() && j != i && cscore(rows, needle, j) > 0 ==> !#[trigger] ranks_ahead(rows, needle, j, i)
}

/// The first country scoring above zero whose code (the two-letter one, or the
/// three-letter one when `three`) folds to `q`.
pub open spec fn first_code_country(rows: Seq<CountryRow>, needle: Seq<char>, q: Seq<char>, three: bool, k: int) -> Option<int>
    decreases rows.len() - k,
{
    if k < 0 || k >= rows.len() {
        None
    } else if cscore(rows, needle, k) > 0
        && fold_spec(if three { opt_or_empty(rows[k].iso3) } else { rows[k].iso2@ }) == q {
        Some(k)
    } else {
        first_code_country(rows, needle, q, three, k + 1)
    }
}

/// The country a query names: a common other name; else, among the countries
/// scoring above zero, the first whose two-letter code (two-byte query) or
/// three-letter code (three-byte query) it is; else the top country when the query
/// is its code, its three-letter code or its name (all folded); else none.
pub open spec fn named_country(needle: Seq<char>, rows: Seq<CountryRow>) -> Option<Seq<char>> {
    let q = fold_spec(needle);
    match country_alias_spec(q) {
        Some(a) => Some(a),
        None => {
            let two = if utf8_len(q) == 2 { first_code_country(rows, needle, q, false, 0) } else { None };
            let three = if utf8_len(q) == 3 { first_code_country(rows, needle, q, true, 0) } else { None };
            if !(exists|i: int| 0 <= i < rows.len() && cscore(rows, needle, i) > 0) {
                None
            } else if two is Some {
                Some(rows[two->0].iso2@)
            } else if three is Some {
                Some(rows[three->0].iso2@)
            } else {
                let t = choose|t: int| top_country(rows, needle, t);
                if q == fold_spec(rows[t].iso2@) || q == fold_spec(opt_or_empty(rows[t].iso3)) || q == fold_spec(rows[t].name@) {
                    Some(rows[t].iso2@)
                } else {
                    None
                }
            }
        },
    }
}

proof fn lemma_ahead_transitive(rows: Seq<CountryRow>, needle: Seq<char>, a: int, b: int, c: int)
    requires
        ranks_ahead(rows, needle, a, b),
        ranks_ahead(rows, needle, b, c),
    ensures
        ranks_ahead(rows, needle, a, c),
{
    if cscore(rows, needle, a) == cscore(rows, needle, b) && cscore(rows, needle, b) == cscore(rows, needle, c) {
        if text_less(rows[a].name@, rows[b].name@) && text_less(rows[b].name@, rows[c].name@) {
            lemma_text_transitive(rows[a].name@, rows[b].name@, rows[c].name@);
        }
    }
}

proof fn lemma_ahead_total(rows: Seq<CountryRow>, needle: Seq<char>, a: int, b: int)
    requires
        a != b,
    ensures
        ranks_ahead(rows, needle, a, b) || ranks_ahead(rows, needle, b, a),
{
    if rows[a].name@ != rows[b].name@ {
        lemma_text_total(rows[a].name@, rows[b].name@);
    }
}

proof fn lemma_ahead_asym(rows: Seq<CountryRow>, needle: Seq<char>, a: int, b: int)
    requires
        ranks_ahead(rows, needle, a, b),
    ensures
        !ranks_ahead(rows, needle, b, a),
{
    if ranks_ahead(rows, needle, b, a) {
        lemma_ahead_transitive(rows, needle, a, b, a);
        lemma_text_irreflexive(rows[a].name@);
    }
}

fn code_country(rows: &[CountryRow], needle: &str, q: &str, three: bool) -> (r: Option<usize>)
    ensures
        match r {
            Some(i) => first_code_country(rows@, needle@, q@, three, 0) == Some(i as int),
            None => first_code_country(rows@, needle@, q@, three, 0) is None,
        },
        r matches Some(i) ==> i < rows@.len(),
{
    let mut k: usize = 0;
    while k < rows.len()
        invariant
            k <= rows@.len(),
            first_code_country(rows@, needle@, q@, three, 0) == first_code_country(rows@, needle@, q@, three, k as int),
        decreases rows@.len() - k,
    {
        let sc = score_country(&rows[k], needle);
        let code: &str = if three {
            match &rows[k].iso3 { Some(s) => s.as_str(), None => "" }
        } else {
            rows[k].iso2.as_str()
        };
        proof { reveal_strlit(""); }
        assert(code@ == (if three { opt_or_empty(rows@[k as int].iso3) } else { rows@[k as int].iso2@ }));
        let f = fold(code);
        if sc > 0 && str_eq(f.as_str(), q) {
            return Some(k);
        }
        k = k + 1;
    }
    None
}

/// See [`named_country`]: the country a query names, from the country rows.
pub fn search_country_iso(needle: &str, rows: &[CountryRow]) -> (r: Option<String>)
    ensures
        opt_string_view(r) == named_country(needle@, rows@),
{
    let q = fold(needle);
    match country_alias(q.as_str()) {
        Some(a) => return Some(a.to_owned()),
        None => {},
    }
    let ql = byte_len(q.as_str());
    let mut best: Option<usize> = None;
    let mut best_score: i32 = 0;
    let mut k: usize = 0;
    while k < rows.len()
        invariant
            k <= rows@.len(),
            match best {
                None => forall|j: int| 0 <= j < k ==> cscore(rows@, needle@, j) <= 0,
                Some(b) => b < k && best_score == cscore(rows@, needle@, b as int) && cscore(rows@, needle@, b as int) > 0
                    && forall|j: int| 0 <= j < k && j != b && cscore(rows@, needle@, j) > 0
                        ==> !#[trigger] ranks_ahead(rows@, needle@, j, b as int),
            },
        decreases rows@.len() - k,
    {
        let sc = score_country(&rows[k], needle);
        if sc > 0 {
            match best {
                None => {
                    best = Some(k);
                    best_score = sc;
                },
                Some(b) => {
                    let ahead = sc > best_score
                        || (sc == best_score && less_text(rows[k].name.as_str(), rows[b].name.as_str()));
                    proof {
                        if !ahead {
                            if rows@[k as int].name@ == rows@[b as int].name@ && sc == best_score {
                                assert(!ranks_ahead(rows@, needle@, k as int, b as int));
                            }
                        }
                    }
                    if ahead {
                        proof {
                            assert(ranks_ahead(rows@, needle@, k as int, b as int));
                            assert forall|j: int| 0 <= j < k + 1 && j != k && cscore(rows@, needle@, j) > 0
                                implies !#[trigger] ranks_ahead(rows@, needle@, j, k as int) by {
                                if ranks_ahead(rows@, needle@, j, k as int) {
                                    lemma_ahead_transitive(rows@, needle@, j, k as int, b as int);
                                    if j == b as int {
                                        lemma_ahead_asym(rows@, needle@, k as int, b as int);
                                    }
                                }
                            }
                        }
                        best = Some(k);
                        best_score = sc;
                    }
                },
            }
        }
        k = k + 1;
    }
    let b = match best {
        None => {
            return None;
        },
        Some(b) => b,
    };
    assert(top_country(rows@, needle@, b as int));
    if ql == 2 {
        match code_country(rows, needle, q.as_str(), false) {
            Some(i) => return Some(rows[i].iso2.clone()),
            None => {},
        }
    }
    if ql == 3 {
        match code_country(rows, needle, q.as_str(), true) {
            Some(i) => return Some(rows[i].iso2.clone()),
            None => {},
        }
    }
    proof {
        let t = choose|t: int| top_country(rows@, needle@, t);
        if t != b as int {
            lemma_ahead_total(rows@, needle@, t, b as int);
        }
        assert(t == b as int);
    }
    let top = &rows[b];
    let iso3: &str = match &top.iso3 { Some(s) => s.as_str(), None => "" };
    proof { reveal_strlit(""); }
    assert(iso3@ == opt_or_empty(top.iso3));
    let f2 = fold(top.iso2.as_str());
    let f3 = fold(iso3);
    let fnm = fold(top.name.as_str());
    if str_eq(q.as_str(), f2.as_str()) || str_eq(q.as_str(), f3.as_str()) || str_eq(q.as_str(), fnm.as_str()) {
        Some(top.iso2.clone())
    } else {
        None
    }
}

} // verus!
