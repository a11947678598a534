//! Hidden-city detection: a complete ticket to C that stops at the intended B.
use vstd::prelude::*;
use crate::models::{Offer, Segment, clone_segments};
use crate::text::{to_upper, upper, eq_ignore_case, eq_ignore_ascii_case, push_char, utf8_len, byte_len, prefix_bytes, byte_prefix};

verus! {

/// Where a hidden-city ticket is left: the airport, the index of the segment that
/// lands there, and the segments that go unflown.
pub struct HiddenCityHit {
    pub exit_airport: String,
    pub exit_segment_index: i32,
    pub unused_segments: Vec<Segment>,
}

/// The characters of each string in a list.
pub open spec fn views(v: Seq<String>) -> Seq<Seq<char>> {
    v.map_values(|s: String| s@)
}

/// The set of codes a list of strings holds.
pub open spec fn code_set(v: Seq<String>) -> Set<Seq<char>> {
    views(v).to_set()
}

/// The places a traveller means to reach: one code, or a set of codes.
pub trait Intended {
    /// Whether `code` names one of the intended places.
    spec fn holds(&self, code: Seq<char>) -> bool;

    /// The intended codes, upper-cased.
    spec fn upper_codes(&self) -> Set<Seq<char>>;

    fn codes(&self) -> (r: Vec<String>)
        ensures
            code_set(r@) == self.upper_codes(),
    ;

    fn contains_code(&self, code: &str) -> (r: bool)
        ensures
            r == self.holds(code@),
    ;
}

impl<'a> Intended for &'a str {
    open spec fn holds(&self, code: Seq<char>) -> bool {
        eq_ignore_case((*self)@, code)
    }

    open spec fn upper_codes(&self) -> Set<Seq<char>> {
        set![to_upper((*self)@)]
    }

    fn codes(&self) -> (r: Vec<String>) {
        let mut v: Vec<String> = Vec::new();
        v.push(upper(*self));
        assert(code_set(v@) =~= set![to_upper((*self)@)]) by {
            assert(views(v@) =~= seq![to_upper((*self)@)]);
            assert(views(v@)[0] == to_upper((*self)@));
        }
        v
    }

    fn contains_code(&self, code: &str) -> (r: bool) {
        eq_ignore_ascii_case(*self, code)
    }
}

impl Intended for String {
    open spec fn holds(&self, code: Seq<char>) -> bool {
        eq_ignore_case(self@, code)
    }

    open spec fn upper_codes(&self) -> Set<Seq<char>> {
        set![to_upper(self@)]
    }

    fn codes(&self) -> (r: Vec<String>) {
        let mut v: Vec<String> = Vec::new();
        v.push(upper(self.as_str()));
        assert(code_set(v@) =~= set![to_upper(self@)]) by {
            assert(views(v@) =~= seq![to_upper(self@)]);
            assert(views(v@)[0] == to_upper(self@));
        }
        v
    }

    fn contains_code(&self, code: &str) -> (r: bool) {
        eq_ignore_ascii_case(self.as_str(), code)
    }
}

/// A set of codes (the list stands for the set; order does not matter).
impl Intended for Vec<String> {
    open spec fn holds(&self, code: Seq<char>) -> bool {
        code_set(self@).contains(code) || code_set(self@).contains(to_upper(code))
    }

    open spec fn upper_codes(&self) -> Set<Seq<char>> {
        Set::new(|c: Seq<char>| exists|i: int| 0 <= i < self@.len() && c == to_upper(#[trigger] self@[i]@))
    }

    fn codes(&self) -> (r: Vec<String>) {
        let mut v: Vec<String> = Vec::new();
        let mut i: usize = 0;
        while i < self.len()
            invariant
                i <= self@.len(),
                v@.len() == i,
                forall|j: int| 0 <= j < i ==> (#[trigger] v@[j])@ == to_upper(self@[j]@),
            decreases self@.len() - i,
        {
            v.push(upper(self[i].as_str()));
            i = i + 1;
        }
        assert(code_set(v@) =~= self.upper_codes()) by {
            assert forall|c: Seq<char>| code_set(v@).contains(c) implies self.upper_codes().contains(c) by {
                let j = choose|j: int| 0 <= j < views(v@).len() && views(v@)[j] == c;
                assert(c == to_upper(self@[j]@));
            }
            assert forall|c: Seq<char>| self.upper_codes().contains(c) implies code_set(v@).contains(c) by {
                let j = choose|j: int| 0 <= j < self@.len() && c == to_upper(#[trigger] self@[j]@);
                assert(views(v@)[j] == c);
            }
        }
        v
    }

    fn contains_code(&self, code: &str) -> (r: bool) {
        let u = upper(code);
        let c = code.to_owned();
        contains_string(self, &c) || contains_string(self, &u)
    }
}

/// Whether a list of strings holds `s`.
pub fn contains_string(v: &Vec<String>, s: &String) -> (r: bool)
    ensures
        r == code_set(v@).contains(s@),
{
    let mut i: usize = 0;
    while i < v.len()
        invariant
            i <= v@.len(),
            forall|j: int| 0 <= j < i ==> (#[trigger] v@[j])@ != s@,
        decreases v@.len() - i,
    {
        if v[i] == *s {
            assert(views(v@)[i as int] == s@);
            return true;
        }
        i = i + 1;
    }
    assert(!views(v@).contains(s@)) by {
        if views(v@).contains(s@) {
            let j = choose|j: int| 0 <= j < views(v@).len() && views(v@)[j] == s@;
            assert(v@[j]@ == s@);
        }
    }
    false
}

/// The destination of the outbound part of a return ticket that flies back to
/// `origin`: the last airport reached before the first segment landing at `origin`.
pub open spec fn outbound_turn(segs: Seq<Segment>, origin: Seq<char>, i: int, last: Seq<char>) -> Seq<char>
    decreases segs.len() - i,
{
    if i >= segs.len() || i < 0 {
        last
    } else if to_upper(segs[i].dest@) == origin {
        last
    } else {
        outbound_turn(segs, origin, i + 1, to_upper(segs[i].dest@))
    }
}

/// `v` limited to `lo..=hi`.
pub open spec fn clamp(v: int, lo: int, hi: int) -> int {
    if v < lo { lo } else if v > hi { hi } else { v }
}

/// The airport the ticket is sold to (upper-cased). On a return ticket it is the
/// end of the outbound part: the segment `outbound_end` names, or, without that
/// index, the last airport before the ticket turns back to its origin.
pub open spec fn ticketed(o: Offer) -> Seq<char> {
    let segs = o.segments@;
    let n = segs.len() as int;
    if n == 0 {
        Seq::empty()
    } else if o.return_date is Some && o.outbound_end is Some {
        to_upper(segs[clamp(o.outbound_end->0 as int, 0, n - 1)].dest@)
    } else if o.return_date is Some && to_upper(segs[n - 1].dest@) == to_upper(segs[0].origin@) {
        outbound_turn(segs, to_upper(segs[0].origin@), 0, to_upper(segs[0].dest@))
    } else {
        to_upper(segs[n - 1].dest@)
    }
}

/// See [`ticketed`].
pub fn ticketed_destination(offer: &Offer) -> (r: String)
    ensures
        r@ == ticketed(*offer),
{
    let n = offer.segments.len();
    if n == 0 {
        return String::new();
    }
    if offer.return_date.is_some() {
        if let Some(end) = offer.outbound_end {
            let idx: usize = if end < 0 { 0 } else if (end as usize) > n - 1 { n - 1 } else { end as usize };
            assert(idx as int == clamp(end as int, 0, n - 1));
            return upper(offer.segments[idx].dest.as_str());
        }
        let origin = upper(offer.segments[0].origin.as_str());
        let last_dest = upper(offer.segments[n - 1].dest.as_str());
        if last_dest == origin {
            let mut last = upper(offer.segments[0].dest.as_str());
            let mut i: usize = 0;
            while i < n
                invariant
                    n == offer.segments@.len(),
                    i <= n,
                    origin@ == to_upper(offer.segments@[0].origin@),
                    to_upper(offer.segments@[n - 1].dest@) == origin@,
                    offer.return_date is Some,
                    offer.outbound_end is None,
                    outbound_turn(offer.segments@, origin@, i as int, last@)
                        == outbound_turn(offer.segments@, origin@, 0, to_upper(offer.segments@[0].dest@)),
                decreases n - i,
            {
                let dest = upper(offer.segments[i].dest.as_str());
                if dest == origin {
                    assert(outbound_turn(offer.segments@, origin@, i as int, last@) == last@);
                    return last;
                }
                assert(outbound_turn(offer.segments@, origin@, i as int, last@)
                    == outbound_turn(offer.segments@, origin@, i + 1, dest@));
                last = dest;
                i = i + 1;
            }
            return last;
        }
    }
    upper(offer.segments[n - 1].dest.as_str())
}

/// Segment `i` lands somewhere the traveller means to go, before the last segment.
pub open spec fn is_exit<I: Intended>(o: Offer, intended: &I, i: int) -> bool {
    0 <= i < o.segments@.len() - 1 && intended.holds(o.segments@[i].dest@)
}

/// The first exit at or after `i`.
pub open spec fn first_exit_from<I: Intended>(o: Offer, intended: &I, i: int) -> Option<int>
    decreases o.segments@.len() - i,
{
    if i < 0 || i >= o.segments@.len() - 1 {
        None
    } else if intended.holds(o.segments@[i].dest@) {
        Some(i)
    } else {
        first_exit_from(o, intended, i + 1)
    }
}

/// Hidden city applies to a one-way ticket of two or more flights that is not sold
/// to an intended place.
pub open spec fn hidden_applies<I: Intended>(o: Offer, intended: &I) -> bool {
    &&& o.return_date is None
    &&& o.segments@.len() >= 2
    &&& !intended.holds(ticketed(o))
}

/// The segment index at which a traveller leaves the ticket, if it is a hidden-city ticket.
pub open spec fn hidden_exit<I: Intended>(o: Offer, intended: &I) -> Option<int> {
    if hidden_applies(o, intended) {
        first_exit_from(o, intended, 0)
    } else {
        None
    }
}

pub proof fn lemma_first_exit<I: Intended>(o: Offer, intended: &I, i: int)
    requires
        0 <= i,
    ensures
        first_exit_from(o, intended, i) matches Some(k) ==> (i <= k && is_exit(o, intended, k)
            && forall|j: int| i <= j < k ==> !is_exit(o, intended, j)),
        first_exit_from(o, intended, i) is None ==> forall|j: int| i <= j ==> !is_exit(o, intended, j),
    decreases o.segments@.len() - i,
{
    if i < o.segments@.len() - 1 && !intended.holds(o.segments@[i].dest@) {
        lemma_first_exit(o, intended, i + 1);
    }
}

/// Whether the ticket is a hidden-city ticket for `intended`, and where it is left.
pub fn detect_hidden_city<I: Intended>(offer: &Offer, intended: &I) -> (r: Option<HiddenCityHit>)
    ensures
        r is Some <==> hidden_exit(*offer, intended) is Some,
        r matches Some(h) ==> ({
            let i = hidden_exit(*offer, intended)->0;
            &&& h.exit_segment_index == i as i32
            &&& h.exit_airport@ == to_upper(offer.segments@[i].dest@)
            &&& h.unused_segments@ == offer.segments@.subrange(i + 1, offer.segments@.len() as int)
        }),
{
    if offer.return_date.is_some() {
        return None;
    }
    let n = offer.segments.len();
    if n < 2 {
        return None;
    }
    let t = ticketed_destination(offer);
    if intended.contains_code(t.as_str()) {
        return None;
    }
    let mut i: usize = 0;
    while i < n - 1
        invariant
            n == offer.segments@.len(),
            n >= 2,
            i <= n - 1,
            hidden_applies(*offer, intended),
            first_exit_from(*offer, intended, 0) == first_exit_from(*offer, intended, i as int),
        decreases n - 1 - i,
    {
        if intended.contains_code(offer.segments[i].dest.as_str()) {
            let rest = tail_segments(&offer.segments, i + 1);
            return Some(HiddenCityHit {
                exit_airport: upper(offer.segments[i].dest.as_str()),
                exit_segment_index: i as i32,
                unused_segments: rest,
            });
        }
        i = i + 1;
    }
    None
}

/// The segments from index `from` on.
pub fn tail_segments(v: &Vec<Segment>, from: usize) -> (r: Vec<Segment>)
    requires
        from <= v@.len(),
    ensures
        r@ == v@.subrange(from as int, v@.len() as int),
{
    let mut r: Vec<Segment> = Vec::new();
    let mut i: usize = from;
    while i < v.len()
        invariant
            from <= i <= v@.len(),
            r@ == v@.subrange(from as int, i as int),
        decreases v@.len() - i,
    {
        r.push(v[i].clone());
        i = i + 1;
        assert(r@ =~= v@.subrange(from as int, i as int));
    }
    r
}

/// Two offers fly the same route: the same segments, return date and outbound end.
pub open spec fn same_routing(a: Offer, b: Offer) -> bool {
    &&& a.segments@ == b.segments@
    &&& a.return_date == b.return_date
    &&& a.outbound_end == b.outbound_end
}

proof fn lemma_first_exit_routing<I: Intended>(a: Offer, b: Offer, intended: &I, i: int)
    requires
        same_routing(a, b),
    ensures
        first_exit_from(a, intended, i) == first_exit_from(b, intended, i),
    decreases a.segments@.len() - i,
{
    if 0 <= i < a.segments@.len() - 1 && !intended.holds(a.segments@[i].dest@) {
        lemma_first_exit_routing(a, b, intended, i + 1);
    }
}

/// Offers that fly the same route are sold to the same place and are hidden-city
/// tickets alike.
pub proof fn lemma_same_routing<I: Intended>(a: Offer, b: Offer, intended: &I)
    requires
        same_routing(a, b),
    ensures
        ticketed(a) == ticketed(b),
        hidden_exit(a, intended) == hidden_exit(b, intended),
        standard_to(a, intended) == standard_to(b, intended),
{
    lemma_first_exit_routing(a, b, intended, 0);
}

/// A ticket sold to an intended place.
pub open spec fn standard_to<I: Intended>(o: Offer, intended: &I) -> bool {
    o.segments@.len() > 0 && intended.holds(ticketed(o))
}

pub fn is_standard_to<I: Intended>(offer: &Offer, intended: &I) -> (r: bool)
    ensures
        r == standard_to(*offer, intended),
{
    if offer.segments.len() == 0 {
        return false;
    }
    let t = ticketed_destination(offer);
    intended.contains_code(t.as_str())
}

/// What a hidden-city ticket saves against the best honest fare (cents).
pub fn hidden_city_savings(best_standard: Option<i64>, through_price: Option<i64>) -> (r: Option<i64>)
    requires
        best_standard matches Some(b) ==> through_price matches Some(t) ==> i64::MIN <= b - t <= i64::MAX,
    ensures
        r == match (best_standard, through_price) {
            (Some(b), Some(t)) => Some((b - t) as i64),
            _ => None::<i64>,
        },
{
    match (best_standard, through_price) {
        (Some(b), Some(t)) => Some(b - t),
        _ => None,
    }
}

/// A saving counts when it reaches the floor (cents).
pub fn meaningful_saving(saving: Option<i64>, floor: i64) -> (r: bool)
    ensures
        r == (saving matches Some(s) && s >= floor),
{
    match saving {
        Some(s) => s >= floor,
        None => false,
    }
}


/// A departure time that `itinerary_fingerprint` can cut at 16 bytes: shorter than
/// that, or with a character ending at byte 16 (elsewhere the cut would panic).
pub open spec fn dep_fits(d: String) -> bool {
    utf8_len(d@) < 16 || prefix_bytes(d@, 16) is Some
}

/// The departure key of a segment: its first 16 bytes when that long.
pub open spec fn dep_key(d: Seq<char>) -> Seq<char> {
    if utf8_len(d) >= 16 {
        prefix_bytes(d, 16)->0
    } else {
        d
    }
}

/// `flight:ORIGIN:DEST:departure` for one segment.
pub open spec fn segment_key(s: Segment) -> Seq<char> {
    s.flight_number@ + seq![':'] + to_upper(s.origin@) + seq![':'] + to_upper(s.dest@) + seq![':'] + dep_key(s.dep@)
}

/// The keys of the segments joined with `|`.
pub open spec fn fingerprint_of(segs: Seq<Segment>) -> Seq<char>
    decreases segs.len(),
{
    if segs.len() == 0 {
        Seq::empty()
    } else if segs.len() == 1 {
        segment_key(segs[0])
    } else {
        fingerprint_of(segs.drop_last()) + seq!['|'] + segment_key(segs.last())
    }
}

pub open spec fn fingerprint_ok(o: Offer) -> bool {
    forall|i: int| 0 <= i < o.segments@.len() ==> dep_fits(#[trigger] o.segments@[i].dep)
}

fn segment_key_of(s: &Segment) -> (r: String)
    requires
        dep_fits(s.dep),
    ensures
        r@ == segment_key(*s),
{
    let mut out = s.flight_number.clone();
    push_char(&mut out, ':');
    let o = upper(s.origin.as_str());
    out.append(o.as_str());
    push_char(&mut out, ':');
    let d = upper(s.dest.as_str());
    out.append(d.as_str());
    push_char(&mut out, ':');
    let dep = s.dep.as_str();
    if byte_len(dep) >= 16 {
        match byte_prefix(dep, 16) {
            Some(part) => out.append(part.as_str()),
            None => {},
        }
    } else {
        out.append(dep);
    }
    assert(out@ =~= segment_key(*s));
    out
}

/// Groups offers that fly the same flights at the same times.
pub fn itinerary_fingerprint(offer: &Offer) -> (r: String)
    requires
        fingerprint_ok(*offer),
    ensures
        r@ == fingerprint_of(offer.segments@),
{
    let n = offer.segments.len();
    let mut out = String::new();
    let mut i: usize = 0;
    while i < n
        invariant
            n == offer.segments@.len(),
            i <= n,
            fingerprint_ok(*offer),
            out@ == fingerprint_of(offer.segments@.subrange(0, i as int)),
        decreases n - i,
    {
        let k = segment_key_of(&offer.segments[i]);
        let ghost before = offer.segments@.subrange(0, i as int);
        let ghost after = offer.segments@.subrange(0, i + 1);
        assert(after.drop_last() =~= before);
        if i > 0 {
            push_char(&mut out, '|');
        } else {
            assert(out@ =~= Seq::<char>::empty());
        }
        out.append(k.as_str());
        i = i + 1;
        assert(out@ =~= fingerprint_of(after));
    }
    assert(offer.segments@.subrange(0, n as int) =~= offer.segments@);
    out
}

/// A refreshed ticket keeps its hidden-city use when both versions leave the ticket
/// at the same airport.
pub open spec fn keeps_exit(original: Offer, refreshed: Offer, dests: Vec<String>) -> bool {
    match (hidden_exit(original, &dests), hidden_exit(refreshed, &dests)) {
        (Some(i), Some(j)) => to_upper(original.segments@[i].dest@) == to_upper(refreshed.segments@[j].dest@),
        _ => false,
    }
}

pub fn refresh_keeps_hidden_city<I: Intended>(original: &Offer, refreshed: &Offer, intended: &I) -> (r: bool)
    ensures
        exists|dests: Vec<String>| code_set(dests@) == intended.upper_codes() && r == keeps_exit(*original, *refreshed, dests),
{
    let dests = intended.codes();
    let a = detect_hidden_city(original, &dests);
    let b = detect_hidden_city(refreshed, &dests);
    let r = match (a, b) {
        (Some(old), Some(new)) => old.exit_airport == new.exit_airport,
        _ => false,
    };
    assert(code_set(dests@) == intended.upper_codes() && r == keeps_exit(*original, *refreshed, dests));
    r
}

} // verus!
