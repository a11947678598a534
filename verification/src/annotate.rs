//! What the planner attaches to its results once they are shopped: the airports the
//! hidden-city tickets are sold to, their risk, and the onward routes that history
//! knows from the destination.
use vstd::prelude::*;
use crate::models::{Airport, HiddenCityMatch, ConnectionHint, cents_ok};
use crate::text::{upper, to_upper, take_chars, cat, str_eq, int_text, decimal};
use crate::risk::{assess, risk_of, international};

verus! {

/// The first airport in `aps` whose IATA code is `code`.
pub open spec fn find_airport(aps: Seq<Airport>, code: Seq<char>) -> Option<Airport>
    decreases aps.len(),
{
    if aps.len() == 0 {
        None
    } else if aps[0].iata@ == code {
        Some(aps[0])
    } else {
        find_airport(aps.subrange(1, aps.len() as int), code)
    }
}

/// Where the first airport of `aps` with IATA code `code` stands.
pub fn airport_at(aps: &[Airport], code: &str) -> (r: Option<usize>)
    ensures
        match r {
            Some(i) => i < aps@.len() && find_airport(aps@, code@) == Some(aps@[i as int]),
            None => find_airport(aps@, code@) is None,
        },
{
    let mut i: usize = 0;
    assert(aps@.subrange(0, aps@.len() as int) =~= aps@);
    while i < aps.len()
        invariant
            i <= aps@.len(),
            find_airport(aps@, code@) == find_airport(aps@.subrange(i as int, aps@.len() as int), code@),
        decreases aps@.len() - i,
    {
        let ghost rest = aps@.subrange(i as int, aps@.len() as int);
        assert(rest.subrange(1, rest.len() as int) =~= aps@.subrange(i + 1, aps@.len() as int));
        assert(rest[0] == aps@[i as int]);
        if str_eq(aps[i].iata.as_str(), code) {
            return Some(i);
        }
        i = i + 1;
    }
    None
}

/// The airport a match's ticket is sold to: its ticketed destination, or the hidden
/// city when none is recorded.
pub open spec fn ticketed_code_spec(m: HiddenCityMatch) -> Seq<char> {
    if m.ticketed_destination@.len() == 0 { m.hidden_city@ } else { m.ticketed_destination@ }
}

/// See [`ticketed_code_spec`].
pub fn ticketed_code(m: &HiddenCityMatch) -> (r: String)
    ensures
        r@ == ticketed_code_spec(*m),
{
    if m.ticketed_destination.as_str().is_empty() {
        m.hidden_city.clone()
    } else {
        m.ticketed_destination.clone()
    }
}

/// A place's key: its place id, or its IATA code when it has none.
pub fn place_key(a: &Airport) -> (r: &str)
    ensures
        r@ == if a.place_id@.len() == 0 { a.iata@ } else { a.place_id@ },
{
    if a.place_id.as_str().is_empty() {
        a.iata.as_str()
    } else {
        a.place_id.as_str()
    }
}

/// A match once its ticketed airport is known: named after the airport's city when
/// it has one, with its risk assessed against that airport's country; everything
/// else kept.
pub open spec fn ticketed_applied(old_m: HiddenCityMatch, new_m: HiddenCityMatch, origin_country: Seq<char>, ap: Airport) -> bool {
    &&& new_m == (HiddenCityMatch { hidden_city_name: new_m.hidden_city_name, risk: new_m.risk, ..old_m })
    &&& new_m.hidden_city_name@ == if ap.city@.len() > 0 {
        ap.city@ + " ("@ + ticketed_code_spec(old_m) + ")"@
    } else {
        old_m.hidden_city_name@
    }
    &&& risk_of(old_m.local_offer, old_m.through_offer, international(origin_country, ap.country@), new_m.risk)
}

/// Names each match after the city of the airport its ticket is sold to and assesses
/// its risk against that airport's country; a match whose airport is not among
/// `ticketed_aps` is left as it was.
pub fn apply_ticketed_airports(matches: &mut Vec<HiddenCityMatch>, origin_country: &str, ticketed_aps: &[Airport])
    requires
        forall|i: int| 0 <= i < old(matches)@.len() ==> cents_ok(#[trigger] old(matches)@[i].local_offer.price)
            && cents_ok(old(matches)@[i].through_offer.price),
    ensures
        final(matches)@.len() == old(matches)@.len(),
        forall|i: int| 0 <= i < old(matches)@.len() ==> match find_airport(ticketed_aps@, ticketed_code_spec(#[trigger] old(matches)@[i])) {
            None => final(matches)@[i] == old(matches)@[i],
            Some(ap) => ticketed_applied(old(matches)@[i], final(matches)@[i], origin_country@, ap),
        },
{
    let ghost start = matches@;
    let mut i: usize = 0;
    while i < matches.len()
        invariant
            matches@.len() == start.len(),
            i <= start.len(),
            forall|j: int| i <= j < start.len() ==> matches@[j] == start[j],
            forall|j: int| 0 <= j < start.len() ==> cents_ok(#[trigger] start[j].local_offer.price)
                && cents_ok(start[j].through_offer.price),
            forall|j: int| 0 <= j < i ==> match find_airport(ticketed_aps@, ticketed_code_spec(#[trigger] start[j])) {
                None => matches@[j] == start[j],
                Some(ap) => ticketed_applied(start[j], matches@[j], origin_country@, ap),
            },
        decreases start.len() - i,
    {
        assert(matches@[i as int] == start[i as int]);
        assert(cents_ok(start[i as int].local_offer.price) && cents_ok(start[i as int].through_offer.price));
        let t = ticketed_code(&matches[i]);
        match airport_at(ticketed_aps, t.as_str()) {
            None => {},
            Some(k) => {
                let ap = &ticketed_aps[k];
                let name = if ap.city.as_str().is_empty() {
                    matches[i].hidden_city_name.clone()
                } else {
                    let a = cat(ap.city.as_str(), " (");
                    let b = cat(a.as_str(), t.as_str());
                    cat(b.as_str(), ")")
                };
                let risk = assess(
                    &matches[i].local_offer,
                    &matches[i].through_offer,
                    matches[i].hidden_city.as_str(),
                    matches[i].intended_destination.as_str(),
                    origin_country,
                    ap.country.as_str(),
                );
                matches[i].hidden_city_name = name;
                matches[i].risk = risk;
            },
        }
        i = i + 1;
    }
}

/// The spokes kept as hints, by position: each code once, never the origin.
pub open spec fn fresh_spokes(s: Seq<(String, String, i64)>, origin: Seq<char>) -> Seq<int>
    decreases s.len(),
{
    if s.len() == 0 {
        Seq::empty()
    } else {
        let prev = fresh_spokes(s.drop_last(), origin);
        let c = s.last().0@;
        if c == origin || exists|j: int| 0 <= j < s.len() - 1 && (#[trigger] s[j]).0@ == c {
            prev
        } else {
            prev.push(s.len() - 1)
        }
    }
}

/// How a hint names its destination: the airport's city and code, or the code alone.
pub open spec fn hint_name(aps: Seq<Airport>, code: Seq<char>) -> Seq<char> {
    match find_airport(aps, code) {
        Some(ap) => ap.city@ + " ("@ + code + ")"@,
        None => code,
    }
}

/// The hint for one spoke (destination code, airline, number of routes seen).
pub open spec fn hint_for(spoke: (String, String, i64), aps: Seq<Airport>, h: ConnectionHint) -> bool {
    &&& h.dest@ == spoke.0@
    &&& h.dest_name@ == hint_name(aps, spoke.0@)
    &&& h.evidence@ == spoke.1@ + " appears on "@ + decimal(spoke.2 as int) + " OpenFlights B→C record(s)"@
    &&& h.source@ == "openflights-routes"@
    &&& h.layer@ == "historical-route-map"@
    &&& h.note@ == "Historical route map (~2014–2017). Not a priced fare and not proof the flight operates tomorrow."@
}

/// The most hints a search shows.
pub const MAX_HINTS: usize = 24;

fn hint_of(spoke: &(String, String, i64), aps: &[Airport]) -> (h: ConnectionHint)
    ensures
        hint_for(*spoke, aps@, h),
{
    let code = spoke.0.as_str();
    let dest_name = match airport_at(aps, code) {
        Some(k) => {
            let a = cat(aps[k].city.as_str(), " (");
            let b = cat(a.as_str(), code);
            cat(b.as_str(), ")")
        },
        None => spoke.0.clone(),
    };
    let n = int_text(spoke.2);
    let e1 = cat(spoke.1.as_str(), " appears on ");
    let e2 = cat(e1.as_str(), n.as_str());
    let evidence = cat(e2.as_str(), " OpenFlights B→C record(s)");
    ConnectionHint {
        dest: spoke.0.clone(),
        dest_name,
        evidence,
        source: "openflights-routes".to_string(),
        layer: "historical-route-map".to_string(),
        note: "Historical route map (~2014–2017). Not a priced fare and not proof the flight operates tomorrow.".to_string(),
    }
}

fn seen_before(spokes: &[(String, String, i64)], i: usize) -> (r: bool)
    requires
        i < spokes@.len(),
    ensures
        r == exists|j: int| 0 <= j < i && (#[trigger] spokes@[j]).0@ == spokes@[i as int].0@,
{
    let mut j: usize = 0;
    while j < i
        invariant
            j <= i < spokes@.len(),
            forall|k: int| 0 <= k < j ==> (#[trigger] spokes@[k]).0@ != spokes@[i as int].0@,
        decreases i - j,
    {
        if str_eq(spokes[j].0.as_str(), spokes[i].0.as_str()) {
            return true;
        }
        j = j + 1;
    }
    false
}

/// Onward routes from the destination, as hints: the spokes in order, each code
/// once and never the origin (its first three characters, upper-cased), at most
/// [`MAX_HINTS`] of them.
pub fn hints_from_spokes(spokes: &[(String, String, i64)], airports: &[Airport], origin: &str) -> (r: Vec<ConnectionHint>)
    ensures
        ({
            let o = to_upper(origin@);
            let keep = fresh_spokes(spokes@, o.subrange(0, if o.len() < 3 { o.len() as int } else { 3 }));
            &&& r@.len() == if keep.len() < MAX_HINTS { keep.len() } else { MAX_HINTS as nat }
            &&& forall|k: int| 0 <= k < r@.len() ==> hint_for(spokes@[keep[k]], airports@, #[trigger] r@[k])
        }),
{
    let up = upper(origin);
    let origin_u = take_chars(up.as_str(), 3);
    let ghost o = origin_u@;
    assert(o == to_upper(origin@).subrange(0, if to_upper(origin@).len() < 3 { to_upper(origin@).len() as int } else { 3 }));
    let mut hints: Vec<ConnectionHint> = Vec::new();
    let mut i: usize = 0;
    while i < spokes.len() && hints.len() < MAX_HINTS
        invariant
            i <= spokes@.len(),
            o == origin_u@,
            hints@.len() == fresh_spokes(spokes@.subrange(0, i as int), o).len(),
            hints@.len() <= MAX_HINTS,
            forall|k: int| 0 <= k < hints@.len()
                ==> hint_for(spokes@[fresh_spokes(spokes@.subrange(0, i as int), o)[k]], airports@, #[trigger] hints@[k]),
        decreases spokes@.len() - i,
    {
        let ghost pre = spokes@.subrange(0, i as int);
        let ghost next = spokes@.subrange(0, i + 1);
        proof {
            assert(next.drop_last() =~= pre);
            assert forall|j: int| 0 <= j < next.len() - 1 implies (#[trigger] next[j]) == spokes@[j] by {}
        }
        let dup = seen_before(spokes, i);
        if str_eq(spokes[i].0.as_str(), origin_u.as_str()) || dup {
            proof {
                if !(spokes@[i as int].0@ == o) {
                    let j = choose|j: int| 0 <= j < i && (#[trigger] spokes@[j]).0@ == spokes@[i as int].0@;
                    assert(next[j] == spokes@[j]);
                }
                assert(fresh_spokes(next, o) == fresh_spokes(pre, o));
            }
        } else {
            proof {
                assert forall|j: int| 0 <= j < next.len() - 1 implies (#[trigger] next[j]).0@ != next.last().0@ by {
                    assert(next[j] == spokes@[j]);
                }
                assert(fresh_spokes(next, o) == fresh_spokes(pre, o).push(i as int));
            }
            let h = hint_of(&spokes[i], airports);
            hints.push(h);
        }
        i = i + 1;
    }
    proof {
        lemma_fresh_prefix(spokes@, o, i as int);
        if i == spokes@.len() {
            assert(spokes@.subrange(0, i as int) =~= spokes@);
        }
        assert forall|k: int| 0 <= k < hints@.len()
            implies hint_for(spokes@[fresh_spokes(spokes@, o)[k]], airports@, #[trigger] hints@[k]) by {
            assert(fresh_spokes(spokes@, o)[k] == fresh_spokes(spokes@.subrange(0, i as int), o)[k]);
        }
    }
    hints
}

/// The kept spokes of a prefix are the first kept spokes of the whole list.
proof fn lemma_fresh_prefix(s: Seq<(String, String, i64)>, o: Seq<char>, n: int)
    requires
        0 <= n <= s.len(),
    ensures
        fresh_spokes(s.subrange(0, n), o).len() <= fresh_spokes(s, o).len(),
        forall|k: int| 0 <= k < fresh_spokes(s.subrange(0, n), o).len()
            ==> #[trigger] fresh_spokes(s, o)[k] == fresh_spokes(s.subrange(0, n), o)[k],
    decreases s.len() - n,
{
    if n < s.len() {
        lemma_fresh_prefix(s, o, n + 1);
        let a = s.subrange(0, n);
        let b = s.subrange(0, n + 1);
        assert(b.drop_last() =~= a);
        assert forall|j: int| 0 <= j < b.len() - 1 implies (#[trigger] b[j]) == s[j] by {}
    } else {
        assert(s.subrange(0, n) =~= s);
    }
}

} // verus!
