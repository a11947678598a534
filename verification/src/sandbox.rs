//! Telling live fares from sandbox and test inventory.
use vstd::prelude::*;
use crate::models::Offer;
use crate::text::{eq_ignore_case, eq_ignore_ascii_case, lower_ascii, to_ascii_lower, has_infix, contains_str, to_upper, upper};
use crate::hidden::{views, code_set, contains_string};

verus! {

/// Carrier codes that suppliers use for test inventory.
pub open spec fn test_carrier(code: Seq<char>) -> bool {
    eq_ignore_case(code, seq!['Z', 'Z']) || eq_ignore_case(code, seq!['X', 'X'])
        || eq_ignore_case(code, seq!['Y', 'Y'])
}

pub fn is_test_carrier(code: &str) -> (r: bool)
    ensures
        r == test_carrier(code@),
{
    let zz = "ZZ";
    let xx = "XX";
    let yy = "YY";
    proof {
        reveal_strlit("ZZ");
        reveal_strlit("XX");
        reveal_strlit("YY");
        assert(zz@ =~= seq!['Z', 'Z']);
        assert(xx@ =~= seq!['X', 'X']);
        assert(yy@ =~= seq!['Y', 'Y']);
    }
    eq_ignore_ascii_case(code, zz) || eq_ignore_ascii_case(code, xx) || eq_ignore_ascii_case(code, yy)
}

/// The text `live_mode=false`.
pub open spec fn live_mode_false() -> Seq<char> {
    seq!['l', 'i', 'v', 'e', '_', 'm', 'o', 'd', 'e', '=', 'f', 'a', 'l', 's', 'e']
}

/// A note that marks a sandbox offer: it says `live_mode=false` in any ASCII case.
pub open spec fn sandbox_note(note: Seq<char>) -> bool {
    has_infix(lower_ascii(note), live_mode_false())
}

fn is_sandbox_note(note: &str) -> (r: bool)
    ensures
        r == sandbox_note(note@),
{
    let low = to_ascii_lower(note);
    let pat = "live_mode=false";
    proof {
        reveal_strlit("live_mode=false");
        assert(pat@ =~= live_mode_false());
    }
    contains_str(low.as_str(), pat)
}

/// The characters of `duffel`.
pub open spec fn duffel_name() -> Seq<char> {
    seq!['d', 'u', 'f', 'f', 'e', 'l']
}

/// The characters of `mock`.
pub open spec fn mock_name() -> Seq<char> {
    seq!['m', 'o', 'c', 'k']
}

/// A sandbox offer: marked not live, or a Duffel offer whose note says `live_mode=false`.
pub open spec fn sandbox_offer(o: Offer) -> bool {
    o.live == Some(false) || (eq_ignore_case(o.source@, duffel_name()) && sandbox_note(
        match o.note {
            Some(n) => n@,
            None => Seq::empty(),
        },
    ))
}

pub fn is_sandbox_offer(offer: &Offer) -> (r: bool)
    ensures
        r == sandbox_offer(*offer),
{
    if offer.live == Some(false) {
        return true;
    }
    let duffel = "duffel";
    proof {
        reveal_strlit("duffel");
        assert(duffel@ =~= duffel_name());
    }
    if !eq_ignore_ascii_case(offer.source.as_str(), duffel) {
        return false;
    }
    match &offer.note {
        Some(n) => is_sandbox_note(n.as_str()),
        None => {
            let e = "";
            proof {
                reveal_strlit("");
                assert(e@ =~= Seq::<char>::empty());
            }
            is_sandbox_note(e)
        },
    }
}

/// The carrier codes an offer names (marketing, validating, operating), upper-cased;
/// empty codes are left out.
pub open spec fn carrier_code_set(o: Offer) -> Set<Seq<char>> {
    Set::new(|c: Seq<char>| {
        ||| (o.carrier@.len() > 0 && c == to_upper(o.carrier@))
        ||| (o.validating_airline matches Some(v) && v@.len() > 0 && c == to_upper(v@))
        ||| exists|i: int| 0 <= i < o.segments@.len() && {
            let s = #[trigger] o.segments@[i];
            ||| (s.carrier@.len() > 0 && c == to_upper(s.carrier@))
            ||| (s.operating_carrier matches Some(op) && op@.len() > 0 && c == to_upper(op@))
        }
    })
}

fn push_code(codes: &mut Vec<String>, code: &String)
    requires
        code@.len() > 0,
    ensures
        code_set(final(codes)@) == code_set(old(codes)@).insert(to_upper(code@)),
{
    let u = upper(code.as_str());
    let ghost before = codes@;
    codes.push(u);
    assert(views(codes@) =~= views(before).push(u@));
    assert(code_set(codes@) =~= code_set(before).insert(u@)) by {
        assert forall|c: Seq<char>| code_set(codes@).contains(c) implies code_set(before).insert(u@).contains(c) by {
            let j = choose|j: int| 0 <= j < views(codes@).len() && views(codes@)[j] == c;
            if j < before.len() {
                assert(views(before)[j] == c);
            }
        }
        assert forall|c: Seq<char>| code_set(before).insert(u@).contains(c) implies code_set(codes@).contains(c) by {
            if c == u@ {
                assert(views(codes@)[before.len() as int] == c);
            } else {
                let j = choose|j: int| 0 <= j < views(before).len() && views(before)[j] == c;
                assert(views(codes@)[j] == c);
            }
        }
    }
}

/// See [`carrier_code_set`].
pub fn carrier_codes(offer: &Offer) -> (r: Vec<String>)
    ensures
        code_set(r@) == carrier_code_set(*offer),
{
    let mut codes: Vec<String> = Vec::new();
    let ghost base: Set<Seq<char>> = Set::new(|c: Seq<char>| {
        ||| (offer.carrier@.len() > 0 && c == to_upper(offer.carrier@))
        ||| (offer.validating_airline matches Some(v) && v@.len() > 0 && c == to_upper(v@))
    });
    if !offer.carrier.as_str().is_empty() {
        push_code(&mut codes, &offer.carrier);
    }
    if let Some(v) = &offer.validating_airline {
        if !v.as_str().is_empty() {
            push_code(&mut codes, v);
        }
    }
    assert(code_set(codes@) =~= base) by {
        assert(views(Seq::<String>::empty()) =~= Seq::<Seq<char>>::empty());
    }
    let mut i: usize = 0;
    while i < offer.segments.len()
        invariant
            i <= offer.segments@.len(),
            code_set(codes@) == Set::new(|c: Seq<char>| {
                ||| base.contains(c)
                ||| exists|k: int| 0 <= k < i && {
                    let s = #[trigger] offer.segments@[k];
                    ||| (s.carrier@.len() > 0 && c == to_upper(s.carrier@))
                    ||| (s.operating_carrier matches Some(op) && op@.len() > 0 && c == to_upper(op@))
                }
            }),
        decreases offer.segments@.len() - i,
    {
        let seg = &offer.segments[i];
        let ghost before = code_set(codes@);
        if !seg.carrier.as_str().is_empty() {
            push_code(&mut codes, &seg.carrier);
        }
        if let Some(op) = &seg.operating_carrier {
            if !op.as_str().is_empty() {
                push_code(&mut codes, op);
            }
        }
        let ghost next = Set::new(|c: Seq<char>| {
            ||| base.contains(c)
            ||| exists|k: int| 0 <= k < i + 1 && {
                let s = #[trigger] offer.segments@[k];
                ||| (s.carrier@.len() > 0 && c == to_upper(s.carrier@))
                ||| (s.operating_carrier matches Some(op) && op@.len() > 0 && c == to_upper(op@))
            }
        });
        assert(code_set(codes@) =~= next) by {
            assert forall|c: Seq<char>| next.contains(c) implies code_set(codes@).contains(c) by {
                if !base.contains(c) {
                    let k = choose|k: int| 0 <= k < i + 1 && {
                        let s = #[trigger] offer.segments@[k];
                        ||| (s.carrier@.len() > 0 && c == to_upper(s.carrier@))
                        ||| (s.operating_carrier matches Some(op) && op@.len() > 0 && c == to_upper(op@))
                    };
                    if k < i {
                        assert(before.contains(c));
                    }
                }
            }
        }
        i = i + 1;
    }
    assert(code_set(codes@) =~= carrier_code_set(*offer));
    codes
}

/// A live fare: not sandbox, not a mock fixture, not all test carriers, and a
/// Duffel offer marked live.
pub open spec fn live_fare(o: Offer) -> bool {
    &&& !sandbox_offer(o)
    &&& !eq_ignore_case(o.source@, mock_name())
    &&& !(carrier_code_set(o).len() > 0 && forall|c: Seq<char>| carrier_code_set(o).contains(c) ==> test_carrier(c))
    &&& eq_ignore_case(o.source@, duffel_name())
    &&& o.live == Some(true)
}

pub fn is_live_fare(offer: &Offer) -> (r: bool)
    ensures
        r == live_fare(*offer),
{
    if is_sandbox_offer(offer) {
        return false;
    }
    let mock = "mock";
    let duffel = "duffel";
    proof {
        reveal_strlit("mock");
        reveal_strlit("duffel");
        assert(mock@ =~= mock_name());
        assert(duffel@ =~= duffel_name());
    }
    if eq_ignore_ascii_case(offer.source.as_str(), mock) {
        return false;
    }
    let codes = carrier_codes(offer);
    let mut all_test = true;
    let mut i: usize = 0;
    while i < codes.len()
        invariant
            i <= codes@.len(),
            all_test == forall|j: int| 0 <= j < i ==> test_carrier(#[trigger] codes@[j]@),
        decreases codes@.len() - i,
    {
        if !is_test_carrier(codes[i].as_str()) {
            all_test = false;
        }
        i = i + 1;
    }
    proof {
        lemma_views_set_len(codes@);
        if all_test {
            assert forall|c: Seq<char>| carrier_code_set(*offer).contains(c) implies test_carrier(c) by {
                let j = choose|j: int| 0 <= j < views(codes@).len() && views(codes@)[j] == c;
                assert(test_carrier(codes@[j]@));
            }
        } else {
            let j = choose|j: int| 0 <= j < codes@.len() && !test_carrier(#[trigger] codes@[j]@);
            assert(views(codes@)[j] == codes@[j]@);
            assert(code_set(codes@).contains(codes@[j]@));
        }
    }
    if codes.len() > 0 && all_test {
        return false;
    }
    if eq_ignore_ascii_case(offer.source.as_str(), duffel) {
        return offer.live == Some(true);
    }
    false
}

/// A list holds some code exactly when its set is non-empty.
pub proof fn lemma_views_set_len(v: Seq<String>)
    ensures
        (v.len() > 0) == (code_set(v).len() > 0),
        code_set(v).finite(),
{
    let s = views(v);
    s.lemma_cardinality_of_set();
    if v.len() > 0 {
        assert(code_set(v).contains(s[0]));
        vstd::set_lib::lemma_set_empty_equivalency_len(code_set(v));
    } else {
        assert(code_set(v) =~= Set::<Seq<char>>::empty());
    }
}

} // verus!
