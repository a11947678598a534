//! Text rules for airport search: the folded form of a name, its word tokens, the
//! city label of an airport row and its keyword list.
use vstd::prelude::*;
use unicode_normalization::UnicodeNormalization;
use crate::text::{to_lower, lower, trim, trim_spec, chars_of, string_from, push_char, utf8_len, byte_len,
    has_prefix, starts_with, cat, str_eq, matches_at};
use crate::hidden::views;
use crate::order::{sorted_by, sort_order};
use crate::models::clone_opt_string;

verus! {

/// What unicode_normalization's `nfkd` gives for a text (compatibility decomposition).
pub uninterp spec fn nfkd_form(s: Seq<char>) -> Seq<char>;

/// What unicode_normalization's `is_combining_mark` says of a character
/// (General_Category Mark).
pub uninterp spec fn combining_mark(c: char) -> bool;

/// The compatibility decomposition of a text, with `UnicodeNormalization::nfkd`
/// collected into a string; the result is named by `nfkd_form`.
#[verifier::external_body]
fn decompose(s: &str) -> (r: String)
    ensures
        r@ == nfkd_form(s@),
{
    s.nfkd().collect::<String>()
}

/// Whether a character is a combining mark, by
/// `unicode_normalization::char::is_combining_mark`; named by `combining_mark`.
#[verifier::external_body]
fn is_mark(c: char) -> (r: bool)
    ensures
        r == combining_mark(c),
{
    unicode_normalization::char::is_combining_mark(c)
}

/// `s` without its combining marks.
pub open spec fn without_marks(s: Seq<char>) -> Seq<char>
    decreases s.len(),
{
    if s.len() == 0 {
        s
    } else if combining_mark(s.last()) {
        without_marks(s.drop_last())
    } else {
        without_marks(s.drop_last()).push(s.last())
    }
}

/// The folded form of a text: decomposed, marks dropped, lower-cased, trimmed.
pub open spec fn fold_spec(s: Seq<char>) -> Seq<char> {
    trim_spec(to_lower(without_marks(nfkd_form(s))))
}

/// See [`fold_spec`].
pub fn fold(s: &str) -> (r: String)
    ensures
        r@ == fold_spec(s@),
{
    let d = decompose(s);
    let x = chars_of(d.as_str());
    let mut kept = String::new();
    let mut i: usize = 0;
    while i < x.len()
        invariant
            x@ == nfkd_form(s@),
            i <= x@.len(),
            kept@ == without_marks(x@.subrange(0, i as int)),
        decreases x@.len() - i,
    {
        assert(x@.subrange(0, i + 1).drop_last() =~= x@.subrange(0, i as int));
        if !is_mark(x[i]) {
            push_char(&mut kept, x[i]);
        }
        i = i + 1;
    }
    assert(x@.subrange(0, x@.len() as int) =~= x@);
    let l = lower(kept.as_str());
    trim(l.as_str())
}

/// A character of a search token: `a`..`z` or `0`..`9`.
pub open spec fn is_token_char(c: char) -> bool {
    ('a' <= c && c <= 'z') || ('0' <= c && c <= '9')
}

/// The maximal runs of token characters in `s`, left to right.
pub open spec fn runs(s: Seq<char>) -> Seq<Seq<char>>
    decreases s.len(),
{
    if s.len() == 0 {
        Seq::empty()
    } else {
        let init = runs(s.drop_last());
        let c = s.last();
        if !is_token_char(c) {
            init
        } else if s.len() >= 2 && is_token_char(s[s.len() - 2]) {
            init.drop_last().push(init.last().push(c))
        } else {
            init.push(seq![c])
        }
    }
}

proof fn lemma_runs_nonempty(s: Seq<char>)
    requires
        s.len() > 0,
        is_token_char(s.last()),
    ensures
        runs(s).len() > 0,
{
}

fn token_char(c: char) -> (r: bool)
    ensures
        r == is_token_char(c),
{
    ('a' <= c && c <= 'z') || ('0' <= c && c <= '9')
}

/// The search tokens of a text: the runs of `a`..`z` and `0`..`9` in its folded
/// form.
pub fn tokens(s: &str) -> (r: Vec<String>)
    ensures
        views(r@) == runs(fold_spec(s@)),
{
    let f = fold(s);
    let x = chars_of(f.as_str());
    let mut out: Vec<String> = Vec::new();
    let mut cur = String::new();
    let mut in_run = false;
    let mut i: usize = 0;
    while i < x.len()
        invariant
            x@ == fold_spec(s@),
            i <= x@.len(),
            in_run == (i > 0 && is_token_char(x@[i - 1])),
            in_run ==> views(out@).push(cur@) == runs(x@.subrange(0, i as int)),
            !in_run ==> views(out@) == runs(x@.subrange(0, i as int)),
        decreases x@.len() - i,
    {
        let ghost pre = x@.subrange(0, i as int);
        let ghost next = x@.subrange(0, i + 1);
        assert(next.drop_last() =~= pre);
        assert(next.last() == x@[i as int]);
        let c = x[i];
        if token_char(c) {
            if in_run {
                assert(next[next.len() - 2] == x@[i - 1]);
                let ghost o = views(out@);
                push_char(&mut cur, c);
                assert(o.push(cur@) =~= runs(pre).drop_last().push(runs(pre).last().push(c)));
            } else {
                let ghost o = views(out@);
                cur = String::new();
                push_char(&mut cur, c);
                assert(cur@ =~= seq![c]);
                if i > 0 {
                    assert(next[next.len() - 2] == x@[i - 1]);
                }
                assert(o.push(cur@) =~= runs(pre).push(seq![c]));
            }
            in_run = true;
        } else {
            if in_run {
                let ghost o = views(out@);
                let t = cur.clone();
                out.push(t);
                assert(views(out@) =~= o.push(cur@));
            }
            in_run = false;
        }
        i = i + 1;
    }
    if in_run {
        let ghost o = views(out@);
        out.push(cur);
        assert(views(out@) =~= o.push(cur@));
    }
    assert(x@.subrange(0, x@.len() as int) =~= x@);
    out
}

/// Whether some token of `hay` starts with the folded `needle` and is one or two
/// bytes longer, the folded needle being at least four bytes.
pub open spec fn prefix_token_spec(hay: Seq<char>, needle: Seq<char>) -> bool {
    let n = fold_spec(needle);
    let toks = runs(fold_spec(hay));
    &&& utf8_len(n) >= 4
    &&& exists|i: int| 0 <= i < toks.len() && has_prefix(#[trigger] toks[i], n)
        && 1 <= utf8_len(toks[i]) - utf8_len(n) <= 2
}

/// See [`prefix_token_spec`].
pub fn prefix_token(hay: &str, needle: &str) -> (r: bool)
    ensures
        r == prefix_token_spec(hay@, needle@),
{
    let n = fold(needle);
    let nl = byte_len(n.as_str());
    if nl < 4 {
        return false;
    }
    let toks = tokens(hay);
    let mut i: usize = 0;
    while i < toks.len()
        invariant
            n@ == fold_spec(needle@),
            nl == utf8_len(n@),
            nl >= 4,
            views(toks@) == runs(fold_spec(hay@)),
            i <= toks@.len(),
            forall|k: int| 0 <= k < i ==> !(has_prefix(#[trigger] views(toks@)[k], n@)
                && 1 <= utf8_len(views(toks@)[k]) - utf8_len(n@) <= 2),
        decreases toks@.len() - i,
    {
        let t = toks[i].as_str();
        assert(views(toks@)[i as int] == t@);
        if starts_with(t, n.as_str()) {
            let tl = byte_len(t);
            if tl > nl && tl - nl <= 2 {
                let ghost ts = runs(fold_spec(hay@));
                assert(ts[i as int] == t@);
                assert(has_prefix(ts[i as int], n@) && 1 <= utf8_len(ts[i as int]) - utf8_len(n@) <= 2);
                return true;
            }
        }
        i = i + 1;
    }
    assert(!prefix_token_spec(hay@, needle@)) by {
        let ts = runs(fold_spec(hay@));
        assert forall|k: int| 0 <= k < ts.len() implies !(has_prefix(#[trigger] ts[k], n@)
            && 1 <= utf8_len(ts[k]) - utf8_len(n@) <= 2) by {
            assert(views(toks@)[k] == ts[k]);
        }
    }
    false
}

/// A keyword separator: `,` or `;`.
pub open spec fn is_sep(c: char) -> bool {
    c == ',' || c == ';'
}

/// The pieces of `s` between separators (one piece when there is none).
pub open spec fn pieces(s: Seq<char>) -> Seq<Seq<char>>
    decreases s.len(),
{
    if s.len() == 0 {
        seq![Seq::empty()]
    } else {
        let p = pieces(s.drop_last());
        if is_sep(s.last()) {
            p.push(Seq::empty())
        } else {
            p.drop_last().push(p.last().push(s.last()))
        }
    }
}

proof fn lemma_pieces_len(s: Seq<char>)
    ensures
        pieces(s).len() >= 1,
    decreases s.len(),
{
    if s.len() > 0 {
        lemma_pieces_len(s.drop_last());
    }
}

/// The trimmed pieces that are not empty.
pub open spec fn kept_pieces(p: Seq<Seq<char>>) -> Seq<Seq<char>>
    decreases p.len(),
{
    if p.len() == 0 {
        Seq::empty()
    } else if trim_spec(p.last()).len() > 0 {
        kept_pieces(p.drop_last()).push(trim_spec(p.last()))
    } else {
        kept_pieces(p.drop_last())
    }
}

/// The keywords of an airport row: the text split at commas and semicolons, each
/// piece trimmed, empty pieces dropped; none without a text.
pub fn keyword_parts(raw: Option<&str>) -> (r: Vec<String>)
    ensures
        views(r@) == (match raw { Some(s) => kept_pieces(pieces(s@)), None => Seq::empty() }),
{
    let s = match raw {
        Some(s) => s,
        None => return Vec::new(),
    };
    let x = chars_of(s);
    let mut out: Vec<String> = Vec::new();
    let mut cur: Vec<char> = Vec::new();
    let mut i: usize = 0;
    assert(x@.subrange(0, 0) =~= Seq::<char>::empty());
    while i < x.len()
        invariant
            x@ == s@,
            i <= x@.len(),
            pieces(x@.subrange(0, i as int)).last() == cur@,
            kept_pieces(pieces(x@.subrange(0, i as int)).drop_last()) == views(out@),
        decreases x@.len() - i,
    {
        let ghost pre = x@.subrange(0, i as int);
        let ghost next = x@.subrange(0, i + 1);
        assert(next.drop_last() =~= pre);
        proof { lemma_pieces_len(pre); }
        let c = x[i];
        if c == ',' || c == ';' {
            let piece = string_from(cur.as_slice());
            let t = trim(piece.as_str());
            let ghost o = views(out@);
            assert(pieces(next).drop_last() =~= pieces(pre));
            assert(pieces(pre) =~= pieces(pre).drop_last().push(cur@));
            if !t.as_str().is_empty() {
                out.push(t);
                assert(views(out@) =~= o.push(trim_spec(cur@)));
            }
            cur = Vec::new();
            assert(pieces(next).last() =~= cur@);
        } else {
            cur.push(c);
            assert(pieces(next).drop_last() =~= pieces(pre).drop_last());
        }
        i = i + 1;
    }
    assert(x@.subrange(0, x@.len() as int) =~= x@);
    proof { lemma_pieces_len(x@); }
    let piece = string_from(cur.as_slice());
    let t = trim(piece.as_str());
    let ghost o = views(out@);
    assert(pieces(x@) =~= pieces(x@).drop_last().push(cur@));
    if !t.as_str().is_empty() {
        out.push(t);
        assert(views(out@) =~= o.push(trim_spec(cur@)));
    }
    out
}

/// The first position of a character in a text.
pub open spec fn first_at(s: Seq<char>, c: char) -> Option<int>
    decreases s.len(),
{
    if s.len() == 0 {
        None
    } else {
        match first_at(s.drop_last(), c) {
            Some(k) => Some(k),
            None => if s.last() == c { Some(s.len() - 1) } else { None },
        }
    }
}

/// The text before the first occurrence of a character, if it occurs.
pub open spec fn head_before(s: Seq<char>, c: char) -> Option<Seq<char>> {
    match first_at(s, c) {
        Some(k) => Some(s.subrange(0, k)),
        None => None,
    }
}

fn split_head(s: &str, c: char) -> (r: Option<String>)
    ensures
        match (r, head_before(s@, c)) {
            (Some(a), Some(b)) => a@ == b,
            (None, None) => true,
            _ => false,
        },
{
    let x = chars_of(s);
    let mut i: usize = 0;
    while i < x.len()
        invariant
            x@ == s@,
            i <= x@.len(),
            first_at(x@.subrange(0, i as int), c) is None,
        decreases x@.len() - i,
    {
        assert(x@.subrange(0, i + 1).drop_last() =~= x@.subrange(0, i as int));
        if x[i] == c {
            proof { lemma_first_at_prefix(x@, c, i + 1); }
            return Some(string_from(&x.as_slice()[0..i]));
        }
        i = i + 1;
    }
    assert(x@.subrange(0, x@.len() as int) =~= x@);
    None
}

pub proof fn lemma_first_at_prefix(s: Seq<char>, c: char, n: int)
    requires
        0 < n <= s.len(),
        first_at(s.subrange(0, n), c) is Some,
    ensures
        first_at(s, c) == first_at(s.subrange(0, n), c),
    decreases s.len() - n,
{
    if n < s.len() {
        assert(s.subrange(0, n + 1).drop_last() =~= s.subrange(0, n));
        lemma_first_at_prefix(s, c, n + 1);
        assert(s.subrange(0, s.len() as int) =~= s);
    } else {
        assert(s.subrange(0, n) =~= s);
    }
}

/// The city an airport row is shown under: the municipality, trimmed, cut before
/// a `(`, and before a `,` when what precedes it has at least three bytes; the
/// airport name when nothing is left.
pub open spec fn city_label_spec(municipality: Seq<char>, name: Seq<char>) -> Seq<char> {
    let m0 = trim_spec(municipality);
    let m1 = match head_before(m0, '(') { Some(h) => trim_spec(h), None => m0 };
    let m2 = match head_before(m1, ',') {
        Some(h) => if utf8_len(h) >= 3 { trim_spec(h) } else { m1 },
        None => m1,
    };
    if m2.len() == 0 { name } else { m2 }
}

/// See [`city_label_spec`].
pub fn city_label(municipality: &str, name: &str) -> (r: String)
    ensures
        r@ == city_label_spec(municipality@, name@),
{
    let mut m = trim(municipality);
    match split_head(m.as_str(), '(') {
        Some(h) => { m = trim(h.as_str()); },
        None => {},
    }
    match split_head(m.as_str(), ',') {
        Some(h) => {
            if byte_len(h.as_str()) >= 3 {
                m = trim(h.as_str());
            }
        },
        None => {},
    }
    if m.as_str().is_empty() {
        name.to_owned()
    } else {
        m
    }
}

/// `n` occurs in `h` at `k` as a whole word: not preceded or followed by `a`..`z` or
/// `0`..`9`.
pub open spec fn phrase_at(h: Seq<char>, n: Seq<char>, k: int) -> bool {
    &&& 0 <= k && k + n.len() <= h.len()
    &&& h.subrange(k, k + n.len()) == n
    &&& (k == 0 || !is_token_char(h[k - 1]))
    &&& (k + n.len() == h.len() || !is_token_char(h[k + n.len()]))
}

/// Whether the folded `needle` occurs as a whole word in the folded `hay` (either
/// being empty, never).
pub open spec fn has_phrase_spec(hay: Seq<char>, needle: Seq<char>) -> bool {
    let n = fold_spec(needle);
    let h = fold_spec(hay);
    &&& n.len() > 0
    &&& h.len() > 0
    &&& (h == n || has_prefix(h, n + " "@) || has_prefix(h, n + "("@) || has_prefix(h, n + ","@)
        || exists|k: int| #[trigger] phrase_at(h, n, k))
}

/// See [`has_phrase_spec`].
pub fn has_phrase(hay: &str, needle: &str) -> (r: bool)
    ensures
        r == has_phrase_spec(hay@, needle@),
{
    let n = fold(needle);
    let h = fold(hay);
    if n.as_str().is_empty() || h.as_str().is_empty() {
        return false;
    }
    let sp = cat(n.as_str(), " ");
    let pa = cat(n.as_str(), "(");
    let co = cat(n.as_str(), ",");
    if str_eq(h.as_str(), n.as_str()) || starts_with(h.as_str(), sp.as_str()) || starts_with(h.as_str(), pa.as_str())
        || starts_with(h.as_str(), co.as_str()) {
        return true;
    }
    let x = chars_of(h.as_str());
    let y = chars_of(n.as_str());
    if y.len() > x.len() {
        assert forall|k: int| !phrase_at(h@, n@, k) by {}
        return false;
    }
    let last = x.len() - y.len();
    let mut k: usize = 0;
    while k <= last
        invariant
            x@ == h@,
            y@ == n@,
            k <= last,
            last + y@.len() == x@.len(),
            k + y@.len() <= x@.len(),
            x@.len() <= usize::MAX,
            n@ == fold_spec(needle@),
            h@ == fold_spec(hay@),
            n@.len() > 0,
            h@.len() > 0,
            !(h@ == n@ || has_prefix(h@, n@ + " "@) || has_prefix(h@, n@ + "("@) || has_prefix(h@, n@ + ","@)),
            forall|j: int| 0 <= j < k ==> !phrase_at(h@, n@, j),
        decreases last + 1 - k,
    {
        let end = k + y.len();
        if matches_at(&x, &y, k) {
            let before_ok = k == 0 || !token_char(x[k - 1]);
            let after_ok = end == x.len() || !token_char(x[end]);
            if before_ok && after_ok {
                assert(phrase_at(h@, n@, k as int));
                return true;
            }
        }
        if k == last {
            assert forall|j: int| !phrase_at(h@, n@, j) by {
                if 0 <= j && j < k {
                } else if j == k as int {
                }
            }
            return false;
        }
        k = k + 1;
    }
    false
}

/// The rank bonus of an airport type; other types weigh -15.
pub open spec fn type_weight_spec(t: Seq<char>) -> int {
    if t == "large_airport"@ { 45 } else if t == "medium_airport"@ { 18 } else if t == "small_airport"@ { 0 }
    else if t == "seaplane_base"@ { -10 } else if t == "heliport"@ { -35 } else if t == "balloonport"@ { -40 }
    else if t == "closed"@ { -80 } else { -15 }
}

fn type_weight(t: &str) -> (r: i32)
    ensures
        r == type_weight_spec(t@),
{
    if str_eq(t, "large_airport") { 45 } else if str_eq(t, "medium_airport") { 18 } else if str_eq(t, "small_airport") { 0 }
    else if str_eq(t, "seaplane_base") { -10 } else if str_eq(t, "heliport") { -35 } else if str_eq(t, "balloonport") { -40 }
    else if str_eq(t, "closed") { -80 } else { -15 }
}

/// An airport row of the reference gazetteer, as search scores it (coordinates
/// and the load time are not held here).
pub struct AirportRow {
    pub iata: String,
    pub icao: Option<String>,
    pub ident: Option<String>,
    pub name: String,
    pub municipality: String,
    pub iso_country: String,
    pub iso_region: String,
    pub continent: String,
    pub country_name: String,
    pub region_name: String,
    pub elevation_ft: Option<i32>,
    pub type_: String,
    pub scheduled_service: bool,
    pub wikipedia: Option<String>,
    pub home_link: Option<String>,
    pub gps_code: Option<String>,
    pub local_code: Option<String>,
    pub keywords: Option<String>,
    pub source: String,
}

/// The text of an optional string, empty without one.
pub open spec fn opt_or_empty(s: Option<String>) -> Seq<char> {
    match s { Some(t) => t@, None => Seq::empty() }
}

/// Some keyword folds to the query.
pub open spec fn kw_exact(kws: Seq<Seq<char>>, q: Seq<char>) -> bool {
    exists|i: int| 0 <= i < kws.len() && fold_spec(#[trigger] kws[i]) == q
}

/// Some keyword holds the query as a word and is a single token.
pub open spec fn kw_single(kws: Seq<Seq<char>>, q: Seq<char>) -> bool {
    exists|i: int| 0 <= i < kws.len() && has_phrase_spec(#[trigger] kws[i], q) && runs(fold_spec(kws[i])).len() == 1
}

/// Some keyword holds the query as a word.
pub open spec fn kw_any(kws: Seq<Seq<char>>, q: Seq<char>) -> bool {
    exists|i: int| 0 <= i < kws.len() && has_phrase_spec(#[trigger] kws[i], q)
}

/// The points the codes earn: an exact IATA or ICAO match, else an IATA prefix of
/// three or more bytes, a two-byte IATA prefix, or an ICAO prefix of four or more.
pub open spec fn code_points(iata: Seq<char>, icao: Seq<char>, q: Seq<char>) -> int {
    let ql = utf8_len(q);
    if iata == q || icao == q { 1000 } else if has_prefix(iata, q) && ql >= 3 { 720 }
    else if has_prefix(iata, q) && ql == 2 { 160 } else if has_prefix(icao, q) && ql >= 4 { 700 } else { 0 }
}

/// The points the keywords earn: one that folds to the query, else one single-word
/// keyword holding it as a word, else any keyword holding it as a word.
pub open spec fn keyword_points(kws: Seq<Seq<char>>, q: Seq<char>) -> int {
    if kw_exact(kws, q) { 460 } else if kw_single(kws, q) { 240 } else if kw_any(kws, q) { 40 } else { 0 }
}

/// The points the city earns, judged on its label (see [`city_label_spec`]) and on the
/// raw municipality.
pub open spec fn city_points(city: Seq<char>, name: Seq<char>, q: Seq<char>) -> int {
    let city_l = city_label_spec(city, name);
    let fc = fold_spec(city_l);
    let ql = utf8_len(q);
    if fc == q { 420 } else if has_prefix(fc, q) && ql >= 2 { 300 }
    else if has_phrase_spec(city_l, q) || has_prefix(fc, q + " "@) { 300 } else if has_phrase_spec(city, q) { 80 }
    else if prefix_token_spec(city_l, q) { 60 } else { 0 }
}

/// The points the airport's name earns.
pub open spec fn name_points(name: Seq<char>, q: Seq<char>) -> int {
    let fname = fold_spec(name);
    if has_phrase_spec(name, q) { 160 } else if has_prefix(fname, q + " "@) || has_prefix(fname, q + "-"@) { 100 } else { 0 }
}

/// The points the country name (queries of four bytes or more), the country code
/// (two-byte queries) and the region name (five bytes or more) earn together.
pub open spec fn place_points(country: Seq<char>, iso: Seq<char>, region: Seq<char>, q: Seq<char>) -> int {
    let ql = utf8_len(q);
    (if ql >= 4 && has_phrase_spec(country, q) { 90int } else { 0 })
        + (if ql == 2 && q == to_lower(iso) { 100int } else { 0 })
        + (if ql >= 5 && has_phrase_spec(region, q) { 55int } else { 0 })
}

/// The airport types that search ranks as airports.
pub open spec fn is_airport_kind(t: Seq<char>) -> bool {
    t == "large_airport"@ || t == "medium_airport"@ || t == "small_airport"@
}

/// The points scheduled service earns (more for a large airport whose city is the
/// query), or loses when there is none.
pub open spec fn service_points(scheduled: bool, t: Seq<char>, city_is_query: bool) -> int {
    if scheduled { 120 + if t == "large_airport"@ && city_is_query { 90int } else { 0 } } else { -90 }
}

/// The points an airport row earns for a query: code matches, then keywords, city,
/// name, country and region matches, scheduled service and type; zero for an empty
/// query, for a row that is no airport unless a code equals the query, and for a row
/// that matches nowhere.
pub open spec fn score_airport_spec(row: AirportRow, needle: Seq<char>) -> int {
    let q = fold_spec(needle);
    let ql = utf8_len(q);
    let iata = to_lower(row.iata@);
    let icao = to_lower(opt_or_empty(row.icao));
    let kws = kept_pieces_opt(row.keywords);
    let ct = city_points(row.municipality@, row.name@, q);
    let nm = name_points(row.name@, q);
    let pl = place_points(row.country_name@, row.iso_country@, row.region_name@, q);
    let code_hit = iata == q || icao == q || (has_prefix(iata, q) && ql >= 2);
    let hit = kw_exact(kws, q) || kw_any(kws, q) || ct > 0 || nm > 0 || pl > 0 || code_hit;
    let fc = fold_spec(city_label_spec(row.municipality@, row.name@));
    if q.len() == 0 || (!is_airport_kind(row.type_@) && iata != q && icao != q) || !hit {
        0
    } else {
        code_points(iata, icao, q) + keyword_points(kws, q) + ct + nm + pl
            + service_points(row.scheduled_service, row.type_@, fc == q) + type_weight_spec(row.type_@)
    }
}

/// The keywords of an optional keyword text.
pub open spec fn kept_pieces_opt(k: Option<String>) -> Seq<Seq<char>> {
    match k { Some(t) => kept_pieces(pieces(t@)), None => Seq::empty() }
}

fn kw_scores(kws: &Vec<String>, q: &String) -> (r: (bool, bool, bool))
    ensures
        r.0 == kw_exact(views(kws@), q@),
        r.1 == kw_single(views(kws@), q@),
        r.2 == kw_any(views(kws@), q@),
{
    let mut exact = false;
    let mut single = false;
    let mut any = false;
    let mut i: usize = 0;
    while i < kws.len()
        invariant
            i <= kws@.len(),
            exact == exists|j: int| 0 <= j < i && fold_spec(#[trigger] views(kws@)[j]) == q@,
            single == exists|j: int| 0 <= j < i && has_phrase_spec(#[trigger] views(kws@)[j], q@) && runs(fold_spec(views(kws@)[j])).len() == 1,
            any == exists|j: int| 0 <= j < i && has_phrase_spec(#[trigger] views(kws@)[j], q@),
        decreases kws@.len() - i,
    {
        let k = kws[i].as_str();
        assert(views(kws@)[i as int] == k@);
        let f = fold(k);
        if str_eq(f.as_str(), q.as_str()) {
            exact = true;
        }
        let ph = has_phrase(k, q.as_str());
        if ph {
            any = true;
            let t = tokens(k);
            if t.len() == 1 {
                single = true;
            }
        }
        i = i + 1;
    }
    (exact, single, any)
}

fn code_points_of(iata: &str, icao: &str, q: &str) -> (r: i32)
    ensures
        r == code_points(iata@, icao@, q@),
{
    let ql = byte_len(q);
    let iata_pre = starts_with(iata, q);
    if str_eq(iata, q) || str_eq(icao, q) { 1000 } else if iata_pre && ql >= 3 { 720 }
    else if iata_pre && ql == 2 { 160 } else if starts_with(icao, q) && ql >= 4 { 700 } else { 0 }
}

fn city_points_of(city: &str, name: &str, q: &str) -> (r: (i32, bool))
    ensures
        r.0 == city_points(city@, name@, q@),
        r.1 == (fold_spec(city_label_spec(city@, name@)) == q@),
{
    let ql = byte_len(q);
    let city_l = city_label(city, name);
    let fc = fold(city_l.as_str());
    let q_sp = cat(q, " ");
    let same = str_eq(fc.as_str(), q);
    let pts: i32 = if same { 420 } else if starts_with(fc.as_str(), q) && ql >= 2 { 300 }
        else if has_phrase(city_l.as_str(), q) || starts_with(fc.as_str(), q_sp.as_str()) { 300 }
        else if has_phrase(city, q) { 80 } else if prefix_token(city_l.as_str(), q) { 60 } else { 0 };
    (pts, same)
}

fn name_points_of(name: &str, q: &str) -> (r: i32)
    ensures
        r == name_points(name@, q@),
{
    let fname = fold(name);
    let q_sp = cat(q, " ");
    let q_dash = cat(q, "-");
    if has_phrase(name, q) { 160 } else if starts_with(fname.as_str(), q_sp.as_str())
        || starts_with(fname.as_str(), q_dash.as_str()) { 100 } else { 0 }
}

fn place_points_of(country: &str, iso: &str, region: &str, q: &str) -> (r: i32)
    ensures
        r == place_points(country@, iso@, region@, q@),
{
    let ql = byte_len(q);
    let cn: i32 = if ql >= 4 && has_phrase(country, q) { 90 } else { 0 };
    let iso_l = lower(iso);
    let io: i32 = if ql == 2 && str_eq(q, iso_l.as_str()) { 100 } else { 0 };
    let rg: i32 = if ql >= 5 && has_phrase(region, q) { 55 } else { 0 };
    cn + io + rg
}

/// See [`score_airport_spec`].
pub fn score_airport(row: &AirportRow, needle: &str) -> (r: i32)
    ensures
        r == score_airport_spec(*row, needle@),
{
    let q = fold(needle);
    if q.as_str().is_empty() {
        return 0;
    }
    let qs = q.as_str();
    let ql = byte_len(qs);
    let iata = lower(row.iata.as_str());
    let icao_raw: &str = match &row.icao { Some(s) => s.as_str(), None => "" };
    proof { reveal_strlit(""); }
    assert(icao_raw@ == opt_or_empty(row.icao));
    let icao = lower(icao_raw);
    let iata_eq = str_eq(iata.as_str(), qs);
    let icao_eq = str_eq(icao.as_str(), qs);
    let t = row.type_.as_str();
    let kind_ok = str_eq(t, "large_airport") || str_eq(t, "medium_airport") || str_eq(t, "small_airport");
    if !kind_ok && !iata_eq && !icao_eq {
        return 0;
    }
    let code = code_points_of(iata.as_str(), icao.as_str(), qs);
    let kr: Option<&str> = match &row.keywords { Some(s) => Some(s.as_str()), None => None };
    let kws = keyword_parts(kr);
    assert(views(kws@) == kept_pieces_opt(row.keywords));
    let (exact, single, any) = kw_scores(&kws, &q);
    let kw: i32 = if exact { 460 } else if single { 240 } else if any { 40 } else { 0 };
    let (ct, city_is_q) = city_points_of(row.municipality.as_str(), row.name.as_str(), qs);
    let nm = name_points_of(row.name.as_str(), qs);
    let pl = place_points_of(row.country_name.as_str(), row.iso_country.as_str(), row.region_name.as_str(), qs);
    let code_hit = iata_eq || icao_eq || (starts_with(iata.as_str(), qs) && ql >= 2);
    if !(exact || any || ct > 0 || nm > 0 || pl > 0 || code_hit) {
        return 0;
    }
    let service: i32 = if row.scheduled_service {
        120 + if str_eq(t, "large_airport") && city_is_q { 90 } else { 0 }
    } else {
        -90
    };
    code + kw + ct + nm + pl + service + type_weight(t)
}

/// The country code that a common other name of a country stands for.
pub open spec fn country_alias_spec(q: Seq<char>) -> Option<Seq<char>> {
    if q == "deutschland"@ { Some("DE"@) }
    else if q == "ivory"@ { Some("CI"@) }
    else if q == "ivory coast"@ { Some("CI"@) }
    else if q == "holland"@ { Some("NL"@) }
    else if q == "uk"@ { Some("GB"@) }
    else if q == "england"@ { Some("GB"@) }
    else if q == "britain"@ { Some("GB"@) }
    else if q == "great britain"@ { Some("GB"@) }
    else if q == "uae"@ { Some("AE"@) }
    else if q == "korea"@ { Some("KR"@) }
    else if q == "south korea"@ { Some("KR"@) }
    else if q == "north korea"@ { Some("KP"@) }
    else if q == "czech"@ { Some("CZ"@) }
    else if q == "czechia"@ { Some("CZ"@) }
    else if q == "czech republic"@ { Some("CZ"@) }
    else if q == "russia"@ { Some("RU"@) }
    else if q == "burma"@ { Some("MM"@) }
    else if q == "myanmar"@ { Some("MM"@) }
    else if q == "cape verde"@ { Some("CV"@) }
    else if q == "east timor"@ { Some("TL"@) }
    else if q == "swaziland"@ { Some("SZ"@) }
    else if q == "macedonia"@ { Some("MK"@) }
    else if q == "bolivia"@ { Some("BO"@) }
    else if q == "tanzania"@ { Some("TZ"@) }
    else if q == "iran"@ { Some("IR"@) }
    else if q == "laos"@ { Some("LA"@) }
    else if q == "syria"@ { Some("SY"@) }
    else if q == "vietnam"@ { Some("VN"@) }
    else if q == "venezuela"@ { Some("VE"@) }
    else { None }
}

/// See [`country_alias_spec`].
pub fn country_alias(q: &str) -> (r: Option<&'static str>)
    ensures
        match r { Some(c) => country_alias_spec(q@) == Some(c@), None => country_alias_spec(q@) is None },
{
    if str_eq(q, "deutschland") { Some("DE") }
    else if str_eq(q, "ivory") { Some("CI") }
    else if str_eq(q, "ivory coast") { Some("CI") }
    else if str_eq(q, "holland") { Some("NL") }
    else if str_eq(q, "uk") { Some("GB") }
    else if str_eq(q, "england") { Some("GB") }
    else if str_eq(q, "britain") { Some("GB") }
    else if str_eq(q, "great britain") { Some("GB") }
    else if str_eq(q, "uae") { Some("AE") }
    else if str_eq(q, "korea") { Some("KR") }
    else if str_eq(q, "south korea") { Some("KR") }
    else if str_eq(q, "north korea") { Some("KP") }
    else if str_eq(q, "czech") { Some("CZ") }
    else if str_eq(q, "czechia") { Some("CZ") }
    else if str_eq(q, "czech republic") { Some("CZ") }
    else if str_eq(q, "russia") { Some("RU") }
    else if str_eq(q, "burma") { Some("MM") }
    else if str_eq(q, "myanmar") { Some("MM") }
    else if str_eq(q, "cape verde") { Some("CV") }
    else if str_eq(q, "east timor") { Some("TL") }
    else if str_eq(q, "swaziland") { Some("SZ") }
    else if str_eq(q, "macedonia") { Some("MK") }
    else if str_eq(q, "bolivia") { Some("BO") }
    else if str_eq(q, "tanzania") { Some("TZ") }
    else if str_eq(q, "iran") { Some("IR") }
    else if str_eq(q, "laos") { Some("LA") }
    else if str_eq(q, "syria") { Some("SY") }
    else if str_eq(q, "vietnam") { Some("VN") }
    else if str_eq(q, "venezuela") { Some("VE") }
    else { None }
}

/// A country of the reference gazetteer, as search scores it.
pub struct CountryRow {
    pub iso2: String,
    pub iso3: Option<String>,
    pub name: String,
    pub capital: String,
    pub currency_code: String,
}

/// The points a country earns for a query: its codes, its name, its capital, its
/// currency (three-byte queries) and the common other names; an empty query gives
/// every country one point.
pub open spec fn score_country_spec(row: CountryRow, needle: Seq<char>) -> int {
    let q = fold_spec(needle);
    let fname = fold_spec(row.name@);
    let fcap = fold_spec(row.capital@);
    if q.len() == 0 {
        1
    } else {
        (if fold_spec(row.iso2@) == q { 1000int } else { 0 })
            + (if fold_spec(opt_or_empty(row.iso3)) == q { 900int } else { 0 })
            + (if fname == q { 800int } else if has_prefix(fname, q) { 520 } else if has_phrase_spec(row.name@, q) { 320 } else { 0 })
            + (if fcap == q { 450int } else if has_phrase_spec(row.capital@, q) { 180 } else { 0 })
            + (if utf8_len(q) == 3 && fold_spec(row.currency_code@) == q { 60int } else { 0 })
            + (if country_alias_spec(q) == Some(row.iso2@) { 1000int } else { 0 })
    }
}

/// See [`score_country_spec`].
pub fn score_country(row: &CountryRow, needle: &str) -> (r: i32)
    ensures
        r == score_country_spec(*row, needle@),
{
    let q = fold(needle);
    let qs = q.as_str();
    if qs.is_empty() {
        return 1;
    }
    let iso3_raw: &str = match &row.iso3 { Some(s) => s.as_str(), None => "" };
    proof { reveal_strlit(""); }
    assert(iso3_raw@ == opt_or_empty(row.iso3));
    let iso2 = fold(row.iso2.as_str());
    let iso3 = fold(iso3_raw);
    let fname = fold(row.name.as_str());
    let fcap = fold(row.capital.as_str());
    let mut score: i32 = 0;
    if str_eq(iso2.as_str(), qs) {
        score = score + 1000;
    }
    if str_eq(iso3.as_str(), qs) {
        score = score + 900;
    }
    if str_eq(fname.as_str(), qs) {
        score = score + 800;
    } else if starts_with(fname.as_str(), qs) {
        score = score + 520;
    } else if has_phrase(row.name.as_str(), qs) {
        score = score + 320;
    }
    if str_eq(fcap.as_str(), qs) {
        score = score + 450;
    } else if has_phrase(row.capital.as_str(), qs) {
        score = score + 180;
    }
    if byte_len(qs) == 3 {
        let cur = fold(row.currency_code.as_str());
        if str_eq(cur.as_str(), qs) {
            score = score + 60;
        }
    }
    match country_alias(qs) {
        Some(c) => {
            if str_eq(c, row.iso2.as_str()) {
                score = score + 1000;
            }
        },
        None => {},
    }
    score
}

/// Whether a metro area answers a query: by its code or city exactly, by its city
/// as a word or a prefix (queries of two bytes or more), by an alias exactly, or by
/// an alias as a prefix or a word (two bytes or more).
pub open spec fn metro_matches_spec(needle: Seq<char>, code: Seq<char>, city: Seq<char>, aliases: Seq<Seq<char>>) -> bool {
    let q = fold_spec(needle);
    let ql = utf8_len(q);
    &&& q.len() > 0
    &&& {
        ||| q == fold_spec(code) || q == fold_spec(city)
        ||| ql >= 2 && (has_phrase_spec(city, needle) || has_prefix(fold_spec(city), q))
        ||| exists|i: int| 0 <= i < aliases.len() && q == fold_spec(#[trigger] aliases[i])
        ||| ql >= 2 && exists|i: int| 0 <= i < aliases.len()
            && (has_prefix(fold_spec(#[trigger] aliases[i]), q) || has_phrase_spec(aliases[i], needle))
    }
}

/// The text of each alias.
pub open spec fn str_views(v: Seq<&str>) -> Seq<Seq<char>> {
    v.map_values(|s: &str| s@)
}

/// See [`metro_matches_spec`].
pub fn metro_matches(needle: &str, code: &str, city: &str, aliases: &[&str]) -> (r: bool)
    ensures
        r == metro_matches_spec(needle@, code@, city@, str_views(aliases@)),
{
    let q = fold(needle);
    let qs = q.as_str();
    if qs.is_empty() {
        return false;
    }
    let fcode = fold(code);
    let fcity = fold(city);
    if str_eq(qs, fcode.as_str()) || str_eq(qs, fcity.as_str()) {
        return true;
    }
    let ql = byte_len(qs);
    if ql >= 2 && (has_phrase(city, needle) || starts_with(fcity.as_str(), qs)) {
        return true;
    }
    let ghost al = str_views(aliases@);
    let mut exact = false;
    let mut loose = false;
    let mut i: usize = 0;
    while i < aliases.len()
        invariant
            i <= aliases@.len(),
            al == str_views(aliases@),
            q@ == fold_spec(needle@),
            exact == exists|j: int| 0 <= j < i && q@ == fold_spec(#[trigger] al[j]),
            loose == exists|j: int| 0 <= j < i
                && (has_prefix(fold_spec(#[trigger] al[j]), q@) || has_phrase_spec(al[j], needle@)),
        decreases aliases@.len() - i,
    {
        let a: &str = aliases[i];
        assert(al[i as int] == a@);
        let fa = fold(a);
        if str_eq(q.as_str(), fa.as_str()) {
            exact = true;
        }
        if starts_with(fa.as_str(), q.as_str()) || has_phrase(a, needle) {
            loose = true;
        }
        i = i + 1;
    }
    exact || (ql >= 2 && loose)
}

impl Clone for AirportRow {
    fn clone(&self) -> (r: Self)
        ensures
            r == *self,
    {
        AirportRow {
            iata: self.iata.clone(),
            icao: clone_opt_string(&self.icao),
            ident: clone_opt_string(&self.ident),
            name: self.name.clone(),
            municipality: self.municipality.clone(),
            iso_country: self.iso_country.clone(),
            iso_region: self.iso_region.clone(),
            continent: self.continent.clone(),
            country_name: self.country_name.clone(),
            region_name: self.region_name.clone(),
            elevation_ft: self.elevation_ft,
            type_: self.type_.clone(),
            scheduled_service: self.scheduled_service,
            wikipedia: clone_opt_string(&self.wikipedia),
            home_link: clone_opt_string(&self.home_link),
            gps_code: clone_opt_string(&self.gps_code),
            local_code: clone_opt_string(&self.local_code),
            keywords: clone_opt_string(&self.keywords),
            source: self.source.clone(),
        }
    }
}

/// The query is three bytes and one of the rows has it as its IATA code.
pub open spec fn exact_code_hit(rows: Seq<(i32, AirportRow)>, needle: Seq<char>) -> bool {
    utf8_len(fold_spec(needle)) == 3 && exists|i: int| 0 <= i < rows.len() && fold_spec(needle) == to_lower((#[trigger] rows[i]).1.iata@)
}

/// The characters of a code as sort keys.
pub open spec fn char_keys(s: Seq<char>) -> Seq<i64> {
    s.map_values(|c: char| (c as u32) as i64)
}

/// How a scored row sorts: scheduled rows (every row, for an exact code) first, then
/// by score, highest first, then by IATA code.
pub open spec fn airport_key(row: (i32, AirportRow), exact: bool) -> Seq<i64> {
    seq![if row.1.scheduled_service || exact { 0i64 } else { 1i64 }, (0 - row.0) as i64] + char_keys(row.1.iata@)
}

/// The sort keys of the rows.
pub open spec fn airport_keys(rows: Seq<(i32, AirportRow)>, exact: bool) -> Seq<Seq<i64>> {
    rows.map_values(|r: (i32, AirportRow)| airport_key(r, exact))
}

/// The rows with or without scheduled service, in order.
pub open spec fn by_service(s: Seq<AirportRow>, scheduled: bool) -> Seq<AirportRow>
    decreases s.len(),
{
    if s.len() == 0 { Seq::empty() } else {
        let p = by_service(s.drop_last(), scheduled);
        if s.last().scheduled_service == scheduled { p.push(s.last()) } else { p }
    }
}

/// The first `n` of a list of rows.
pub open spec fn first_rows(s: Seq<AirportRow>, n: int) -> Seq<AirportRow> {
    if s.len() > n { s.subrange(0, n) } else { s }
}

/// The rows shown, from the rows in sorted order: all of them for an exact code;
/// else the scheduled ones and then at most two others; at most `limit`.
pub open spec fn shown_rows(sorted: Seq<AirportRow>, exact: bool, limit: int) -> Seq<AirportRow> {
    first_rows(if exact { sorted } else { by_service(sorted, true) + first_rows(by_service(sorted, false), 2) }, limit)
}

/// The sequences of some keys.
pub open spec fn key_seqs(keys: Seq<Vec<i64>>) -> Seq<Seq<i64>> {
    keys.map_values(|k: Vec<i64>| k@)
}

/// The rows in the order of `p`.
pub open spec fn rows_in(rows: Seq<(i32, AirportRow)>, p: Seq<usize>) -> Seq<AirportRow> {
    p.map_values(|k: usize| rows[k as int].1)
}

fn row_key(row: &(i32, AirportRow), exact: bool) -> (k: Vec<i64>)
    ensures
        k@ == airport_key(*row, exact),
{
    let mut k: Vec<i64> = Vec::new();
    k.push(if row.1.scheduled_service || exact { 0 } else { 1 });
    k.push(-(row.0 as i64));
    let cs = chars_of(row.1.iata.as_str());
    let mut i: usize = 0;
    while i < cs.len()
        invariant
            i <= cs@.len(),
            cs@ == row.1.iata@,
            k@ == seq![if row.1.scheduled_service || exact { 0i64 } else { 1i64 }, (0 - row.0) as i64] + char_keys(cs@.subrange(0, i as int)),
        decreases cs@.len() - i,
    {
        k.push(cs[i] as u32 as i64);
        i = i + 1;
        assert(char_keys(cs@.subrange(0, i as int)) =~= char_keys(cs@.subrange(0, i - 1)).push((cs@[i - 1] as u32) as i64));
        assert(k@ =~= seq![if row.1.scheduled_service || exact { 0i64 } else { 1i64 }, (0 - row.0) as i64] + char_keys(cs@.subrange(0, i as int)));
    }
    assert(cs@.subrange(0, i as int) =~= cs@);
    k
}

/// The airports a search shows, from the scored candidate rows: see [`shown_rows`],
/// the rows sorted stably by [`airport_key`].
pub fn rank_airport_rows(rows: &[(i32, AirportRow)], needle: &str, limit: usize) -> (r: Vec<AirportRow>)
    ensures
        exists|p: Seq<usize>| #[trigger] sorted_by(airport_keys(rows@, exact_code_hit(rows@, needle@)), p)
            && r@ == shown_rows(rows_in(rows@, p), exact_code_hit(rows@, needle@), limit as int),
{
    let q = fold(needle);
    let mut exact = false;
    if byte_len(q.as_str()) == 3 {
        let mut i: usize = 0;
        while i < rows.len()
            invariant
                i <= rows@.len(),
                q@ == fold_spec(needle@),
                !exact ==> forall|j: int| 0 <= j < i ==> fold_spec(needle@) != to_lower((#[trigger] rows@[j]).1.iata@),
                exact ==> exists|j: int| 0 <= j < rows@.len() && fold_spec(needle@) == to_lower((#[trigger] rows@[j]).1.iata@),
            decreases rows@.len() - i,
        {
            let l = lower(rows[i].1.iata.as_str());
            if str_eq(q.as_str(), l.as_str()) {
                exact = true;
            }
            i = i + 1;
        }
    }
    assert(exact == exact_code_hit(rows@, needle@));
    let mut keys: Vec<Vec<i64>> = Vec::new();
    let mut i: usize = 0;
    while i < rows.len()
        invariant
            i <= rows@.len(),
            key_seqs(keys@) == airport_keys(rows@.subrange(0, i as int), exact),
        decreases rows@.len() - i,
    {
        let ghost before = keys@;
        let kk = row_key(&rows[i], exact);
        keys.push(kk);
        proof {
            assert(key_seqs(before).len() == before.len());
            assert(keys@ == before.push(kk));
            assert(rows@.subrange(0, i + 1)[i as int] == rows@[i as int]);
            assert forall|j: int| 0 <= j < i + 1 implies #[trigger] key_seqs(keys@)[j]
                == airport_keys(rows@.subrange(0, i + 1), exact)[j] by {
                if j < i {
                    assert(keys@[j] == before[j]);
                    assert(key_seqs(before)[j] == airport_keys(rows@.subrange(0, i as int), exact)[j]);
                    assert(rows@.subrange(0, i + 1)[j] == rows@.subrange(0, i as int)[j]);
                } else {
                    assert(keys@[j] == kk);
                }
            }
            assert(key_seqs(keys@) =~= airport_keys(rows@.subrange(0, i + 1), exact));
        }
        i = i + 1;
    }
    assert(rows@.subrange(0, i as int) =~= rows@);
    let p = sort_order(&keys);
    let ghost ks = airport_keys(rows@, exact);
    assert(keys@.map_values(|k: Vec<i64>| k@) =~= key_seqs(keys@));
    assert(keys@.map_values(|k: Vec<i64>| k@) == ks);
    let ghost sorted = rows_in(rows@, p@);
    let mut sched: Vec<AirportRow> = Vec::new();
    let mut other: Vec<AirportRow> = Vec::new();
    let mut all: Vec<AirportRow> = Vec::new();
    let mut j: usize = 0;
    while j < p.len()
        invariant
            j <= p@.len() == rows@.len(),
            forall|k: int| 0 <= k < p@.len() ==> (#[trigger] p@[k] as int) < rows@.len(),
            sorted == rows_in(rows@, p@),
            all@ == sorted.subrange(0, j as int),
            sched@ == by_service(sorted.subrange(0, j as int), true),
            other@ == by_service(sorted.subrange(0, j as int), false),
        decreases p@.len() - j,
    {
        let row = rows[p[j]].1.clone();
        proof {
            assert(sorted[j as int] == rows@[p@[j as int] as int].1);
            assert(sorted.subrange(0, j + 1).drop_last() =~= sorted.subrange(0, j as int));
        }
        all.push(row.clone());
        if row.scheduled_service {
            sched.push(row);
        } else {
            other.push(row);
        }
        j = j + 1;
        assert(all@ =~= sorted.subrange(0, j as int));
    }
    assert(sorted.subrange(0, j as int) =~= sorted);
    let mut chosen: Vec<AirportRow> = Vec::new();
    if exact {
        chosen = all;
    } else {
        chosen = sched;
        let mut k: usize = 0;
        while k < other.len() && k < 2
            invariant
                k <= other@.len(),
                k <= 2,
                chosen@ == by_service(sorted, true) + other@.subrange(0, k as int),
            decreases other@.len() - k,
        {
            chosen.push(other[k].clone());
            k = k + 1;
            assert(chosen@ =~= by_service(sorted, true) + other@.subrange(0, k as int));
        }
        assert(other@.subrange(0, k as int) =~= first_rows(other@, 2));
    }
    let mut out: Vec<AirportRow> = Vec::new();
    let mut k: usize = 0;
    while k < chosen.len() && k < limit
        invariant
            k <= chosen@.len(),
            k <= limit,
            out@ == chosen@.subrange(0, k as int),
        decreases chosen@.len() - k,
    {
        out.push(chosen[k].clone());
        k = k + 1;
        assert(out@ =~= chosen@.subrange(0, k as int));
    }
    assert(out@ =~= first_rows(chosen@, limit as int));
    out
}

} // verus!
