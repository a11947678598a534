//! Checking a search before it runs, and the keys searches are cached and stored under.
use vstd::prelude::*;
use crate::models::{SearchQuery, SearchQueryError};
use crate::text::{to_upper, upper, trim, trim_spec, str_eq, cat, decimal, int_text, replace_all, replace_spec};
use crate::metros::{normalize_place_id, place_id_spec};
use crate::text::{utf8_len, byte_len};
use crate::times::{iso_date_parses, parses_as_iso_date};

verus! {

/// A date written `YYYY-MM-DD`: ten bytes that chrono reads as a calendar date.
pub open spec fn iso_date(s: Seq<char>) -> bool {
    utf8_len(s) == 10 && iso_date_parses(s)
}

pub fn is_iso_date(s: &str) -> (r: bool)
    ensures
        r == iso_date(s@),
{
    byte_len(s) == 10 && parses_as_iso_date(s)
}

/// `a` sorts strictly before `b`, character by character (the order of `str`'s `<`).
pub open spec fn text_lt(a: Seq<char>, b: Seq<char>) -> bool
    decreases a.len(),
{
    if b.len() == 0 {
        false
    } else if a.len() == 0 {
        true
    } else if a[0] != b[0] {
        (a[0] as u32) < (b[0] as u32)
    } else {
        text_lt(a.drop_first(), b.drop_first())
    }
}

pub fn text_less(a: &str, b: &str) -> (r: bool)
    ensures
        r == text_lt(a@, b@),
{
    let x = crate::text::chars_of(a);
    let y = crate::text::chars_of(b);
    let mut i: usize = 0;
    assert(a@.subrange(0, a@.len() as int) =~= a@);
    assert(b@.subrange(0, b@.len() as int) =~= b@);
    while i < x.len() && i < y.len()
        invariant
            x@ == a@,
            y@ == b@,
            i <= x@.len(),
            i <= y@.len(),
            forall|k: int| 0 <= k < i ==> x@[k] == y@[k],
            text_lt(a@, b@) == text_lt(a@.subrange(i as int, a@.len() as int), b@.subrange(i as int, b@.len() as int)),
        decreases x@.len() - i,
    {
        let ghost sa = a@.subrange(i as int, a@.len() as int);
        let ghost sb = b@.subrange(i as int, b@.len() as int);
        if x[i] != y[i] {
            return (x[i] as u32) < (y[i] as u32);
        }
        assert(sa.drop_first() =~= a@.subrange(i + 1, a@.len() as int));
        assert(sb.drop_first() =~= b@.subrange(i + 1, b@.len() as int));
        i = i + 1;
    }
    i < y.len()
}

/// The cabins a search may ask for.
pub open spec fn known_cabin(c: Seq<char>) -> bool {
    c == "ECONOMY"@ || c == "PREMIUM_ECONOMY"@ || c == "BUSINESS"@ || c == "FIRST"@
}

/// A place id of 3 to 8 bytes.
pub open spec fn place_len_ok(p: Seq<char>) -> bool {
    3 <= utf8_len(p) <= 8
}

/// The error a normalised search gets, if any, checked in this order: origin,
/// destination, date, return date (a date, not before the outbound date), adults
/// (1 to 9), cabin.
pub open spec fn query_error(origin: Seq<char>, dest: Seq<char>, date: Seq<char>, ret: Option<Seq<char>>, adults: i32, cabin: Seq<char>) -> Option<SearchQueryError> {
    if !place_len_ok(origin) {
        Some(SearchQueryError::BadField("origin"))
    } else if !place_len_ok(dest) {
        Some(SearchQueryError::BadField("destination"))
    } else if !iso_date(date) {
        Some(SearchQueryError::BadField("date"))
    } else if ret matches Some(r) && !iso_date(r) {
        Some(SearchQueryError::BadField("return_date"))
    } else if ret matches Some(r) && text_lt(r, date) {
        Some(SearchQueryError::ReturnBeforeOutbound)
    } else if !(1 <= adults <= 9) {
        Some(SearchQueryError::BadField("adults"))
    } else if !known_cabin(cabin) {
        Some(SearchQueryError::BadField("cabin"))
    } else {
        None
    }
}

/// Every check before the cabin's passes.
pub open spec fn checks_before_cabin(origin: Seq<char>, dest: Seq<char>, date: Seq<char>, ret: Option<Seq<char>>, adults: i32) -> bool {
    &&& place_len_ok(origin)
    &&& place_len_ok(dest)
    &&& iso_date(date)
    &&& !(ret matches Some(r) && (!iso_date(r) || text_lt(r, date)))
    &&& 1 <= adults <= 9
}

/// The field an error names, if it names one.
pub open spec fn error_field(e: SearchQueryError) -> Option<Seq<char>> {
    match e {
        SearchQueryError::BadField(f) => Some(f@),
        SearchQueryError::ReturnBeforeOutbound => None,
    }
}

/// Two results agree: both `Ok`, or errors naming the same field (or both the
/// return-before-outbound error).
pub open spec fn same_outcome(r: Result<(), SearchQueryError>, e: Option<SearchQueryError>) -> bool {
    match (r, e) {
        (Ok(()), None) => true,
        (Err(a), Some(b)) => (a is ReturnBeforeOutbound) == (b is ReturnBeforeOutbound) && error_field(a) == error_field(b),
        _ => false,
    }
}

impl SearchQuery {
    /// Normalises the place ids and currency, then checks the search (see
    /// `query_error`); the cabin is trimmed and upper-cased once the adults are checked.
    pub fn validate(&mut self) -> (r: Result<(), SearchQueryError>)
        ensures
            final(self).origin@ == place_id_spec(old(self).origin@),
            final(self).destination@ == place_id_spec(old(self).destination@),
            final(self).currency@ == "USD"@,
            final(self).date == old(self).date,
            final(self).return_date == old(self).return_date,
            final(self).adults == old(self).adults,
            final(self).include_nearby == old(self).include_nearby,
            final(self).allow_synthetic == old(self).allow_synthetic,
            final(self).refresh == old(self).refresh,
            ({
                let o = place_id_spec(old(self).origin@);
                let d = place_id_spec(old(self).destination@);
                let ret = match old(self).return_date { Some(x) => Some(x@), None => None };
                let cabin = if checks_before_cabin(o, d, old(self).date@, ret, old(self).adults) {
                    to_upper(trim_spec(old(self).cabin@))
                } else {
                    old(self).cabin@
                };
                &&& final(self).cabin@ == cabin
                &&& same_outcome(r, query_error(o, d, old(self).date@, ret, old(self).adults, cabin))
            }),
    {
        self.origin = normalize_place_id(self.origin.as_str());
        self.destination = normalize_place_id(self.destination.as_str());
        self.currency = "USD".to_owned();
        proof {
            reveal_strlit("USD");
        }
        let ol = byte_len(self.origin.as_str());
        if ol < 3 || ol > 8 {
            return Err(SearchQueryError::BadField("origin"));
        }
        let dl = byte_len(self.destination.as_str());
        if dl < 3 || dl > 8 {
            return Err(SearchQueryError::BadField("destination"));
        }
        if !is_iso_date(self.date.as_str()) {
            return Err(SearchQueryError::BadField("date"));
        }
        match &self.return_date {
            Some(r) => {
                if !is_iso_date(r.as_str()) {
                    return Err(SearchQueryError::BadField("return_date"));
                }
                if text_less(r.as_str(), self.date.as_str()) {
                    return Err(SearchQueryError::ReturnBeforeOutbound);
                }
            },
            None => {},
        }
        if !(1 <= self.adults && self.adults <= 9) {
            return Err(SearchQueryError::BadField("adults"));
        }
        let t = trim(self.cabin.as_str());
        self.cabin = upper(t.as_str());
        let c = self.cabin.as_str();
        if !(str_eq(c, "ECONOMY") || str_eq(c, "PREMIUM_ECONOMY") || str_eq(c, "BUSINESS") || str_eq(c, "FIRST")) {
            return Err(SearchQueryError::BadField("cabin"));
        }
        Ok(())
    }
}

/// The text of a flag, as `bool`'s `Display` writes it.
pub open spec fn flag_text(b: bool) -> Seq<char> {
    if b { "true"@ } else { "false"@ }
}

/// The cache key of a search: upper-cased origin and destination, date, return date
/// (empty without one), adults, cabin, the nearby and live flags, `USD`, `v9`,
/// joined by `|`. The currency asked for is not part of it.
pub open spec fn search_key_spec(origin: Seq<char>, dest: Seq<char>, date: Seq<char>, adults: i32, cabin: Seq<char>,
    nearby: bool, live: bool, return_date: Option<Seq<char>>) -> Seq<char> {
    to_upper(origin) + "|"@ + to_upper(dest) + "|"@ + date + "|"@
        + (match return_date { Some(r) => r, None => Seq::empty() }) + "|"@
        + decimal(adults as int) + "|"@ + cabin + "|"@ + flag_text(nearby) + "|"@ + flag_text(live) + "|USD|v9"@
}

fn flag(b: bool) -> (r: &'static str)
    ensures
        r@ == flag_text(b),
{
    if b { "true" } else { "false" }
}

pub fn search_key(
    origin: &str,
    dest: &str,
    date: &str,
    adults: i32,
    cabin: &str,
    nearby: bool,
    live: bool,
    _currency: &str,
    return_date: Option<&str>,
) -> (r: String)
    ensures
        r@ == search_key_spec(origin@, dest@, date@, adults, cabin@, nearby, live,
            match return_date { Some(x) => Some(x@), None => None }),
{
    let o = upper(origin);
    let d = upper(dest);
    let ret: &str = match return_date { Some(x) => x, None => "" };
    proof {
        reveal_strlit("");
    }
    let n = int_text(adults as i64);
    let mut k = cat(o.as_str(), "|");
    k = cat(k.as_str(), d.as_str());
    k = cat(k.as_str(), "|");
    k = cat(k.as_str(), date);
    k = cat(k.as_str(), "|");
    k = cat(k.as_str(), ret);
    k = cat(k.as_str(), "|");
    k = cat(k.as_str(), n.as_str());
    k = cat(k.as_str(), "|");
    k = cat(k.as_str(), cabin);
    k = cat(k.as_str(), "|");
    k = cat(k.as_str(), flag(nearby));
    k = cat(k.as_str(), "|");
    k = cat(k.as_str(), flag(live));
    k = cat(k.as_str(), "|USD|v9");
    k
}

/// A Postgres URL with the async-driver scheme names made plain.
pub open spec fn pg_url_spec(url: Seq<char>) -> Seq<char> {
    replace_spec(replace_spec(url, "postgresql+asyncpg://"@, "postgresql://"@), "postgres+asyncpg://"@, "postgres://"@)
}

pub fn normalize_pg_url(url: &str) -> (r: String)
    ensures
        r@ == pg_url_spec(url@),
{
    proof {
        reveal_strlit("postgresql+asyncpg://");
        reveal_strlit("postgres+asyncpg://");
    }
    let a = replace_all(url, "postgresql+asyncpg://", "postgresql://");
    replace_all(a.as_str(), "postgres+asyncpg://", "postgres://")
}

/// The message a refused search is answered with: one per field, the field's own
/// name for any other.
pub open spec fn error_detail_spec(e: SearchQueryError) -> Seq<char> {
    match e {
        SearchQueryError::ReturnBeforeOutbound => "Return date must be on or after the outbound date."@,
        SearchQueryError::BadField(f) => {
            if f@ == "origin"@ {
                "Invalid origin IATA or city code."@
            } else if f@ == "destination"@ {
                "Invalid destination IATA or city code."@
            } else if f@ == "date"@ {
                "Invalid outbound date. Use YYYY-MM-DD."@
            } else if f@ == "return_date"@ {
                "Invalid return date. Use YYYY-MM-DD."@
            } else if f@ == "adults"@ {
                "Adults must be between 1 and 9."@
            } else if f@ == "cabin"@ {
                "Cabin must be ECONOMY, PREMIUM_ECONOMY, BUSINESS, or FIRST."@
            } else {
                f@
            }
        },
    }
}

/// The message a refused search is answered with (see `error_detail_spec`).
pub fn error_detail(e: &SearchQueryError) -> (r: String)
    ensures
        r@ == error_detail_spec(*e),
{
    match e {
        SearchQueryError::ReturnBeforeOutbound => "Return date must be on or after the outbound date.".to_owned(),
        SearchQueryError::BadField(f) => {
            let f: &str = *f;
            if str_eq(f, "origin") {
                "Invalid origin IATA or city code.".to_owned()
            } else if str_eq(f, "destination") {
                "Invalid destination IATA or city code.".to_owned()
            } else if str_eq(f, "date") {
                "Invalid outbound date. Use YYYY-MM-DD.".to_owned()
            } else if str_eq(f, "return_date") {
                "Invalid return date. Use YYYY-MM-DD.".to_owned()
            } else if str_eq(f, "adults") {
                "Adults must be between 1 and 9.".to_owned()
            } else if str_eq(f, "cabin") {
                "Cabin must be ECONOMY, PREMIUM_ECONOMY, BUSINESS, or FIRST.".to_owned()
            } else {
                f.to_owned()
            }
        },
    }
}

} // verus!
