//! What filling an address template does: a template is read as literal text and
//! `{key}` holes, and substituting keys in turn fills each hole with the value of
//! the first entry for its key, leaving the literal text as it is.
use vstd::prelude::*;
use crate::text::replace_spec;
use crate::bookers::{subst_spec, ctx_spec, booker_rows, meta_rows, site_url, no_dashes, after_bytes, sky_cabin_spec,
    dmon_spec, us_spec, booking_point_spec, tvldt_spec, mmt_spec};
use crate::text::{decimal, digits_of, digit_char, to_upper, to_lower, utf8_len};

verus! {

/// No opening brace in the text.
pub open spec fn no_open(s: Seq<char>) -> bool {
    forall|i: int| 0 <= i < s.len() ==> s[i] != '{'
}

/// No brace of either kind in the text.
pub open spec fn no_braces(s: Seq<char>) -> bool {
    forall|i: int| 0 <= i < s.len() ==> s[i] != '{' && s[i] != '}'
}

/// The hole `{k}`.
pub open spec fn hole(k: Seq<char>) -> Seq<char> {
    seq!['{'] + k + seq!['}']
}

/// A piece of a template: a hole `{k}` (`true`, `k`) or literal text (`false`, text).
pub type Piece = (bool, Seq<char>);

pub open spec fn piece_text(p: Piece) -> Seq<char> {
    if p.0 { hole(p.1) } else { p.1 }
}

/// The text of a list of pieces.
pub open spec fn join(ps: Seq<Piece>) -> Seq<char>
    decreases ps.len(),
{
    if ps.len() == 0 { Seq::empty() } else { piece_text(ps[0]) + join(ps.drop_first()) }
}

/// Holes are named without braces and literal text holds no opening brace.
pub open spec fn pieces_ok(ps: Seq<Piece>) -> bool {
    forall|i: int| 0 <= i < ps.len() ==> if (#[trigger] ps[i]).0 { no_braces(ps[i].1) } else { no_open(ps[i].1) }
}

/// One substitution on a piece: the hole for `kv.0` becomes the text `kv.1`.
pub open spec fn step(p: Piece, kv: (Seq<char>, Seq<char>)) -> Piece {
    if p.0 && p.1 == kv.0 { (false, kv.1) } else { p }
}

pub open spec fn steps(ps: Seq<Piece>, kv: (Seq<char>, Seq<char>)) -> Seq<Piece> {
    ps.map_values(|p: Piece| step(p, kv))
}

/// The pieces after substituting the entries of `ctx` in order.
pub open spec fn filled(ps: Seq<Piece>, ctx: Seq<(Seq<char>, Seq<char>)>) -> Seq<Piece>
    decreases ctx.len(),
{
    if ctx.len() == 0 { ps } else { steps(filled(ps, ctx.drop_last()), ctx.last()) }
}

/// Every entry of `ctx` whose key names a hole of `ps` has a value without an opening brace.
pub open spec fn values_clean(ps: Seq<Piece>, ctx: Seq<(Seq<char>, Seq<char>)>) -> bool {
    forall|i: int, j: int| 0 <= i < ctx.len() && 0 <= j < ps.len() && ps[j].0 && #[trigger] ps[j].1 == #[trigger] ctx[i].0
        ==> no_open(ctx[i].1)
}

/// Every key of `ctx` is named without braces.
pub open spec fn keys_clean(ctx: Seq<(Seq<char>, Seq<char>)>) -> bool {
    forall|i: int| 0 <= i < ctx.len() ==> no_braces(#[trigger] ctx[i].0)
}

proof fn lemma_replace_lit(lit: Seq<char>, y: Seq<char>, pat: Seq<char>, rep: Seq<char>)
    requires
        no_open(lit),
        pat.len() > 0,
        pat[0] == '{',
    ensures
        replace_spec(lit + y, pat, rep) == lit + replace_spec(y, pat, rep),
    decreases lit.len(),
{
    if lit.len() == 0 {
        assert(lit + y =~= y);
        assert(lit + replace_spec(y, pat, rep) =~= replace_spec(y, pat, rep));
    } else {
        let s = lit + y;
        if s.len() < pat.len() {
            assert(y.len() < pat.len());
        } else {
            assert(s.subrange(0, pat.len() as int)[0] == lit[0]);
            assert(s.subrange(0, pat.len() as int) != pat);
            assert(s.drop_first() =~= lit.drop_first() + y);
            assert(no_open(lit.drop_first())) by {
                assert forall|i: int| 0 <= i < lit.drop_first().len() implies lit.drop_first()[i] != '{' by {
                    assert(lit.drop_first()[i] == lit[i + 1]);
                }
            }
            lemma_replace_lit(lit.drop_first(), y, pat, rep);
            assert(seq![s[0]] + (lit.drop_first() + replace_spec(y, pat, rep)) =~= lit + replace_spec(y, pat, rep));
        }
    }
}

proof fn lemma_replace_hole(k: Seq<char>, y: Seq<char>, kp: Seq<char>, rep: Seq<char>)
    requires
        no_braces(k),
        no_braces(kp),
    ensures
        replace_spec(hole(k) + y, hole(kp), rep) == (if k == kp { rep } else { hole(k) }) + replace_spec(y, hole(kp), rep),
{
    let s = hole(k) + y;
    let pat = hole(kp);
    if k == kp {
        assert(s.subrange(0, pat.len() as int) =~= pat);
        assert(s.subrange(pat.len() as int, s.len() as int) =~= y);
    } else if s.len() < pat.len() {
        assert(y.len() < pat.len());
    } else {
        let m = if k.len() < kp.len() { k.len() } else { kp.len() };
        assert(s.subrange(0, pat.len() as int) != pat) by {
            let w = s.subrange(0, pat.len() as int);
            if exists|t: int| 0 <= t < m && k[t] != kp[t] {
                let t = choose|t: int| 0 <= t < m && k[t] != kp[t];
                assert(w[t + 1] == k[t]);
                assert(pat[t + 1] == kp[t]);
            } else if k.len() < kp.len() {
                assert(w[k.len() as int + 1] == '}');
                assert(pat[k.len() as int + 1] == kp[k.len() as int]);
            } else if kp.len() < k.len() {
                assert(pat[kp.len() as int + 1] == '}');
                assert(w[kp.len() as int + 1] == k[kp.len() as int]);
            } else {
                assert(k =~= kp);
            }
        }
        let rest = k + seq!['}'];
        assert(s.drop_first() =~= rest + y);
        assert(no_open(rest)) by {
            assert forall|i: int| 0 <= i < rest.len() implies rest[i] != '{' by {
                if i < k.len() {
                    assert(rest[i] == k[i]);
                }
            }
        }
        lemma_replace_lit(rest, y, pat, rep);
        assert(seq![s[0]] + (rest + replace_spec(y, pat, rep)) =~= hole(k) + replace_spec(y, pat, rep));
    }
}

proof fn lemma_replace_pieces(ps: Seq<Piece>, kp: Seq<char>, rep: Seq<char>)
    requires
        pieces_ok(ps),
        no_braces(kp),
    ensures
        replace_spec(join(ps), hole(kp), rep) == join(steps(ps, (kp, rep))),
    decreases ps.len(),
{
    let pat = hole(kp);
    if ps.len() == 0 {
        assert(join(steps(ps, (kp, rep))) == Seq::<char>::empty());
    } else {
        let rest = ps.drop_first();
        assert(pieces_ok(rest)) by {
            assert forall|i: int| 0 <= i < rest.len() implies if (#[trigger] rest[i]).0 { no_braces(rest[i].1) } else { no_open(rest[i].1) } by {
                assert(rest[i] == ps[i + 1]);
            }
        }
        lemma_replace_pieces(rest, kp, rep);
        assert(steps(ps, (kp, rep)).drop_first() =~= steps(rest, (kp, rep)));
        assert(pieces_ok(ps) ==> (if ps[0].0 { no_braces(ps[0].1) } else { no_open(ps[0].1) }));
        if ps[0].0 {
            lemma_replace_hole(ps[0].1, join(rest), kp, rep);
        } else {
            lemma_replace_lit(ps[0].1, join(rest), pat, rep);
        }
    }
}

proof fn lemma_filled_shape(ps: Seq<Piece>, ctx: Seq<(Seq<char>, Seq<char>)>)
    requires
        pieces_ok(ps),
        values_clean(ps, ctx),
    ensures
        filled(ps, ctx).len() == ps.len(),
        pieces_ok(filled(ps, ctx)),
        forall|j: int| 0 <= j < ps.len() && (#[trigger] filled(ps, ctx)[j]).0 ==> filled(ps, ctx)[j] == ps[j],
    decreases ctx.len(),
{
    if ctx.len() > 0 {
        let c2 = ctx.drop_last();
        assert(values_clean(ps, c2)) by {
            assert forall|i: int, j: int| 0 <= i < c2.len() && 0 <= j < ps.len() && ps[j].0 && #[trigger] ps[j].1 == #[trigger] c2[i].0
                implies no_open(c2[i].1) by {
                assert(c2[i] == ctx[i]);
            }
        }
        lemma_filled_shape(ps, c2);
        let prev = filled(ps, c2);
        let cur = filled(ps, ctx);
        assert forall|j: int| 0 <= j < cur.len() implies if (#[trigger] cur[j]).0 { no_braces(cur[j].1) } else { no_open(cur[j].1) } by {
            assert(cur[j] == step(prev[j], ctx.last()));
            if prev[j].0 && prev[j].1 == ctx.last().0 {
                assert(prev[j] == ps[j]);
                assert(ctx.last() == ctx[ctx.len() - 1]);
                assert(ps[j].1 == ctx[ctx.len() - 1].0);
            } else {
                assert(pieces_ok(prev) ==> (if prev[j].0 { no_braces(prev[j].1) } else { no_open(prev[j].1) }));
            }
        }
        assert forall|j: int| 0 <= j < ps.len() && (#[trigger] cur[j]).0 implies cur[j] == ps[j] by {
            assert(cur[j] == step(prev[j], ctx.last()));
        }
    }
}

/// Substituting the entries of `ctx` in a template of well-formed pieces fills the
/// pieces one by one.
pub proof fn lemma_subst_pieces(ps: Seq<Piece>, ctx: Seq<(Seq<char>, Seq<char>)>)
    requires
        pieces_ok(ps),
        values_clean(ps, ctx),
        keys_clean(ctx),
    ensures
        subst_spec(join(ps), ctx) == join(filled(ps, ctx)),
    decreases ctx.len(),
{
    reveal_strlit("{");
    reveal_strlit("}");
    if ctx.len() == 0 {
    } else {
        let c2 = ctx.drop_last();
        assert(values_clean(ps, c2)) by {
            assert forall|i: int, j: int| 0 <= i < c2.len() && 0 <= j < ps.len() && ps[j].0 && #[trigger] ps[j].1 == #[trigger] c2[i].0
                implies no_open(c2[i].1) by {
                assert(c2[i] == ctx[i]);
            }
        }
        assert(keys_clean(c2)) by {
            assert forall|i: int| 0 <= i < c2.len() implies no_braces(#[trigger] c2[i].0) by {
                assert(c2[i] == ctx[i]);
            }
        }
        lemma_subst_pieces(ps, c2);
        lemma_filled_shape(ps, c2);
        let kv = ctx.last();
        assert(kv == ctx[ctx.len() - 1]);
        assert(no_braces(kv.0));
        assert("{"@ + kv.0 + "}"@ =~= hole(kv.0));
        lemma_replace_pieces(filled(ps, c2), kv.0, kv.1);
    }
}

/// A hole is filled with the value of the first entry for its key; literal text and
/// holes with no entry stay as they are.
pub proof fn lemma_filled_piece(ps: Seq<Piece>, ctx: Seq<(Seq<char>, Seq<char>)>, j: int)
    requires
        0 <= j < ps.len(),
    ensures
        !ps[j].0 ==> filled(ps, ctx)[j] == ps[j],
        ps[j].0 && (forall|i: int| 0 <= i < ctx.len() ==> (#[trigger] ctx[i]).0 != ps[j].1) ==> filled(ps, ctx)[j] == ps[j],
        forall|m: int| 0 <= m < ctx.len() && ps[j].0 && (#[trigger] ctx[m]).0 == ps[j].1
            && (forall|i: int| 0 <= i < m ==> (#[trigger] ctx[i]).0 != ps[j].1)
            ==> filled(ps, ctx)[j] == (false, ctx[m].1),
        filled(ps, ctx).len() == ps.len(),
    decreases ctx.len(),
{
    if ctx.len() > 0 {
        let c2 = ctx.drop_last();
        lemma_filled_piece(ps, c2, j);
        assert(filled(ps, ctx)[j] == step(filled(ps, c2)[j], ctx.last()));
        assert(ctx.last() == ctx[ctx.len() - 1]);
        if ps[j].0 && (forall|i: int| 0 <= i < ctx.len() ==> (#[trigger] ctx[i]).0 != ps[j].1) {
            assert forall|i: int| 0 <= i < c2.len() implies (#[trigger] c2[i]).0 != ps[j].1 by {
                assert(c2[i] == ctx[i]);
            }
        }
        assert forall|m: int| 0 <= m < ctx.len() && ps[j].0 && (#[trigger] ctx[m]).0 == ps[j].1
            && (forall|i: int| 0 <= i < m ==> (#[trigger] ctx[i]).0 != ps[j].1)
            implies filled(ps, ctx)[j] == (false, ctx[m].1) by {
            if m < ctx.len() - 1 {
                assert(c2[m] == ctx[m]);
                assert forall|i: int| 0 <= i < m implies (#[trigger] c2[i]).0 != ps[j].1 by {
                    assert(c2[i] == ctx[i]);
                }
            } else {
                assert forall|i: int| 0 <= i < c2.len() implies (#[trigger] c2[i]).0 != ps[j].1 by {
                    assert(c2[i] == ctx[i]);
                }
            }
        }
    }
}


/// The keys of the address context, in the order they are substituted.
pub open spec fn ctx_keys() -> Seq<Seq<char>> {
    seq!["priceline_path"@, "despegar_kind"@, "kayak_adults"@, "edreams_path"@, "despegar_ret"@, "kayak_dates"@, "book_return"@, "cheapo_trip"@, "ret_yymmdd"@, "wego_dates"@, "trip_adate"@, "cheapo_ret"@, "tvldt_pair"@, "flighttype"@, "book_cabin"@, "book_type"@, "sky_cabin"@, "sky_path"@, "mmt_itin"@, "mmt_trip"@, "kiwi_ret"@, "ret_ymd"@, "sky_rtn"@, "yymmdd"@, "adults"@, "ret_us"@, "tvldt"@, "date"@, "dmon"@, "trip"@, "ret"@, "ymd"@, "mmt"@, "ol"@, "dl"@, "ob"@, "db"@, "us"@, "o"@, "d"@, "q"@]
}


proof fn lemma_key_facts()
    ensures
        ctx_keys().len() == 41,
        forall|i: int| 0 <= i < 41 ==> no_braces(#[trigger] ctx_keys()[i]),
        ctx_keys()[2] == "kayak_adults"@,
        ctx_keys()[5] == "kayak_dates"@,
        ctx_keys()[38] == "o"@,
        ctx_keys()[39] == "d"@,
        forall|i: int| 0 <= i < 41 && #[trigger] ctx_keys()[i] == "o"@ ==> i == 38,
        forall|i: int| 0 <= i < 41 && #[trigger] ctx_keys()[i] == "d"@ ==> i == 39,
        forall|i: int| 0 <= i < 41 && #[trigger] ctx_keys()[i] == "kayak_dates"@ ==> i == 5,
        forall|i: int| 0 <= i < 41 && #[trigger] ctx_keys()[i] == "kayak_adults"@ ==> i == 2,
        no_braces("o"@),
        no_braces("d"@),
        no_braces("kayak_dates"@),
        no_braces("kayak_adults"@),
        "o"@ != "d"@ && "o"@ != "kayak_dates"@ && "o"@ != "kayak_adults"@ && "d"@ != "kayak_dates"@
            && "d"@ != "kayak_adults"@ && "kayak_dates"@ != "kayak_adults"@,
{
    reveal_strlit("priceline_path");
    reveal_strlit("despegar_kind");
    reveal_strlit("kayak_adults");
    reveal_strlit("edreams_path");
    reveal_strlit("despegar_ret");
    reveal_strlit("kayak_dates");
    reveal_strlit("book_return");
    reveal_strlit("cheapo_trip");
    reveal_strlit("ret_yymmdd");
    reveal_strlit("wego_dates");
    reveal_strlit("trip_adate");
    reveal_strlit("cheapo_ret");
    reveal_strlit("tvldt_pair");
    reveal_strlit("flighttype");
    reveal_strlit("book_cabin");
    reveal_strlit("book_type");
    reveal_strlit("sky_cabin");
    reveal_strlit("sky_path");
    reveal_strlit("mmt_itin");
    reveal_strlit("mmt_trip");
    reveal_strlit("kiwi_ret");
    reveal_strlit("ret_ymd");
    reveal_strlit("sky_rtn");
    reveal_strlit("yymmdd");
    reveal_strlit("adults");
    reveal_strlit("ret_us");
    reveal_strlit("tvldt");
    reveal_strlit("date");
    reveal_strlit("dmon");
    reveal_strlit("trip");
    reveal_strlit("ret");
    reveal_strlit("ymd");
    reveal_strlit("mmt");
    reveal_strlit("ol");
    reveal_strlit("dl");
    reveal_strlit("ob");
    reveal_strlit("db");
    reveal_strlit("us");
    reveal_strlit("o");
    reveal_strlit("d");
    reveal_strlit("q");
    assert forall|i: int| 0 <= i < 41 implies no_braces(#[trigger] ctx_keys()[i])
        && (ctx_keys()[i] == "o"@ ==> i == 38) && (ctx_keys()[i] == "d"@ ==> i == 39)
        && (ctx_keys()[i] == "kayak_dates"@ ==> i == 5) && (ctx_keys()[i] == "kayak_adults"@ ==> i == 2) by {
        assert("o"@.len() == 1 && "o"@[0] == 'o');
        assert("d"@.len() == 1 && "d"@[0] == 'd');
        assert("kayak_dates"@.len() == 11 && "kayak_dates"@[0] == 'k');
        assert("kayak_adults"@.len() == 12 && "kayak_adults"@[0] == 'k');
        if i == 0 { assert(ctx_keys()[i] == "priceline_path"@); assert("priceline_path"@.len() == 14 && "priceline_path"@[0] == 'p'); assert(no_braces("priceline_path"@)); } else if i == 1 { assert(ctx_keys()[i] == "despegar_kind"@); assert("despegar_kind"@.len() == 13 && "despegar_kind"@[0] == 'd'); assert(no_braces("despegar_kind"@)); } else if i == 2 { assert(ctx_keys()[i] == "kayak_adults"@); assert("kayak_adults"@.len() == 12 && "kayak_adults"@[0] == 'k'); assert(no_braces("kayak_adults"@)); } else if i == 3 { assert(ctx_keys()[i] == "edreams_path"@); assert("edreams_path"@.len() == 12 && "edreams_path"@[0] == 'e'); assert(no_braces("edreams_path"@)); } else if i == 4 { assert(ctx_keys()[i] == "despegar_ret"@); assert("despegar_ret"@.len() == 12 && "despegar_ret"@[0] == 'd'); assert(no_braces("despegar_ret"@)); } else if i == 5 { assert(ctx_keys()[i] == "kayak_dates"@); assert("kayak_dates"@.len() == 11 && "kayak_dates"@[0] == 'k'); assert(no_braces("kayak_dates"@)); } else if i == 6 { assert(ctx_keys()[i] == "book_return"@); assert("book_return"@.len() == 11 && "book_return"@[0] == 'b'); assert(no_braces("book_return"@)); } else if i == 7 { assert(ctx_keys()[i] == "cheapo_trip"@); assert("cheapo_trip"@.len() == 11 && "cheapo_trip"@[0] == 'c'); assert(no_braces("cheapo_trip"@)); } else if i == 8 { assert(ctx_keys()[i] == "ret_yymmdd"@); assert("ret_yymmdd"@.len() == 10 && "ret_yymmdd"@[0] == 'r'); assert(no_braces("ret_yymmdd"@)); } else if i == 9 { assert(ctx_keys()[i] == "wego_dates"@); assert("wego_dates"@.len() == 10 && "wego_dates"@[0] == 'w'); assert(no_braces("wego_dates"@)); } else if i == 10 { assert(ctx_keys()[i] == "trip_adate"@); assert("trip_adate"@.len() == 10 && "trip_adate"@[0] == 't'); assert(no_braces("trip_adate"@)); } else if i == 11 { assert(ctx_keys()[i] == "cheapo_ret"@); assert("cheapo_ret"@.len() == 10 && "cheapo_ret"@[0] == 'c'); assert(no_braces("cheapo_ret"@)); } else if i == 12 { assert(ctx_keys()[i] == "tvldt_pair"@); assert("tvldt_pair"@.len() == 10 && "tvldt_pair"@[0] == 't'); assert(no_braces("tvldt_pair"@)); } else if i == 13 { assert(ctx_keys()[i] == "flighttype"@); assert("flighttype"@.len() == 10 && "flighttype"@[0] == 'f'); assert(no_braces("flighttype"@)); } else if i == 14 { assert(ctx_keys()[i] == "book_cabin"@); assert("book_cabin"@.len() == 10 && "book_cabin"@[0] == 'b'); assert(no_braces("book_cabin"@)); } else if i == 15 { assert(ctx_keys()[i] == "book_type"@); assert("book_type"@.len() == 9 && "book_type"@[0] == 'b'); assert(no_braces("book_type"@)); } else if i == 16 { assert(ctx_keys()[i] == "sky_cabin"@); assert("sky_cabin"@.len() == 9 && "sky_cabin"@[0] == 's'); assert(no_braces("sky_cabin"@)); } else if i == 17 { assert(ctx_keys()[i] == "sky_path"@); assert("sky_path"@.len() == 8 && "sky_path"@[0] == 's'); assert(no_braces("sky_path"@)); } else if i == 18 { assert(ctx_keys()[i] == "mmt_itin"@); assert("mmt_itin"@.len() == 8 && "mmt_itin"@[0] == 'm'); assert(no_braces("mmt_itin"@)); } else if i == 19 { assert(ctx_keys()[i] == "mmt_trip"@); assert("mmt_trip"@.len() == 8 && "mmt_trip"@[0] == 'm'); assert(no_braces("mmt_trip"@)); } else if i == 20 { assert(ctx_keys()[i] == "kiwi_ret"@); assert("kiwi_ret"@.len() == 8 && "kiwi_ret"@[0] == 'k'); assert(no_braces("kiwi_ret"@)); } else if i == 21 { assert(ctx_keys()[i] == "ret_ymd"@); assert("ret_ymd"@.len() == 7 && "ret_ymd"@[0] == 'r'); assert(no_braces("ret_ymd"@)); } else if i == 22 { assert(ctx_keys()[i] == "sky_rtn"@); assert("sky_rtn"@.len() == 7 && "sky_rtn"@[0] == 's'); assert(no_braces("sky_rtn"@)); } else if i == 23 { assert(ctx_keys()[i] == "yymmdd"@); assert("yymmdd"@.len() == 6 && "yymmdd"@[0] == 'y'); assert(no_braces("yymmdd"@)); } else if i == 24 { assert(ctx_keys()[i] == "adults"@); assert("adults"@.len() == 6 && "adults"@[0] == 'a'); assert(no_braces("adults"@)); } else if i == 25 { assert(ctx_keys()[i] == "ret_us"@); assert("ret_us"@.len() == 6 && "ret_us"@[0] == 'r'); assert(no_braces("ret_us"@)); } else if i == 26 { assert(ctx_keys()[i] == "tvldt"@); assert("tvldt"@.len() == 5 && "tvldt"@[0] == 't'); assert(no_braces("tvldt"@)); } else if i == 27 { assert(ctx_keys()[i] == "date"@); assert("date"@.len() == 4 && "date"@[0] == 'd'); assert(no_braces("date"@)); } else if i == 28 { assert(ctx_keys()[i] == "dmon"@); assert("dmon"@.len() == 4 && "dmon"@[0] == 'd'); assert(no_braces("dmon"@)); } else if i == 29 { assert(ctx_keys()[i] == "trip"@); assert("trip"@.len() == 4 && "trip"@[0] == 't'); assert(no_braces("trip"@)); } else if i == 30 { assert(ctx_keys()[i] == "ret"@); assert("ret"@.len() == 3 && "ret"@[0] == 'r'); assert(no_braces("ret"@)); } else if i == 31 { assert(ctx_keys()[i] == "ymd"@); assert("ymd"@.len() == 3 && "ymd"@[0] == 'y'); assert(no_braces("ymd"@)); } else if i == 32 { assert(ctx_keys()[i] == "mmt"@); assert("mmt"@.len() == 3 && "mmt"@[0] == 'm'); assert(no_braces("mmt"@)); } else if i == 33 { assert(ctx_keys()[i] == "ol"@); assert("ol"@.len() == 2 && "ol"@[0] == 'o'); assert(no_braces("ol"@)); } else if i == 34 { assert(ctx_keys()[i] == "dl"@); assert("dl"@.len() == 2 && "dl"@[0] == 'd'); assert(no_braces("dl"@)); } else if i == 35 { assert(ctx_keys()[i] == "ob"@); assert("ob"@.len() == 2 && "ob"@[0] == 'o'); assert(no_braces("ob"@)); } else if i == 36 { assert(ctx_keys()[i] == "db"@); assert("db"@.len() == 2 && "db"@[0] == 'd'); assert(no_braces("db"@)); } else if i == 37 { assert(ctx_keys()[i] == "us"@); assert("us"@.len() == 2 && "us"@[0] == 'u'); assert(no_braces("us"@)); } else if i == 38 { assert(ctx_keys()[i] == "o"@); assert("o"@.len() == 1 && "o"@[0] == 'o'); assert(no_braces("o"@)); } else if i == 39 { assert(ctx_keys()[i] == "d"@); assert("d"@.len() == 1 && "d"@[0] == 'd'); assert(no_braces("d"@)); } else if i == 40 { assert(ctx_keys()[i] == "q"@); assert("q"@.len() == 1 && "q"@[0] == 'q'); assert(no_braces("q"@)); }
    }
}

proof fn lemma_ctx_keys(o: Seq<char>, d: Seq<char>, date: Seq<char>, ret: Seq<char>, adults: int, cabin_u: Seq<char>)
    ensures
        ctx_spec(o, d, date, ret, adults, cabin_u).len() == 41,
        forall|i: int| 0 <= i < 41 ==> (#[trigger] ctx_spec(o, d, date, ret, adults, cabin_u)[i]).0 == ctx_keys()[i],
{
    reveal_strlit("priceline_path");
    reveal_strlit("despegar_kind");
    reveal_strlit("kayak_adults");
    reveal_strlit("edreams_path");
    reveal_strlit("despegar_ret");
    reveal_strlit("kayak_dates");
    reveal_strlit("book_return");
    reveal_strlit("cheapo_trip");
    reveal_strlit("ret_yymmdd");
    reveal_strlit("wego_dates");
    reveal_strlit("trip_adate");
    reveal_strlit("cheapo_ret");
    reveal_strlit("tvldt_pair");
    reveal_strlit("flighttype");
    reveal_strlit("book_cabin");
    reveal_strlit("book_type");
    reveal_strlit("sky_cabin");
    reveal_strlit("sky_path");
    reveal_strlit("mmt_itin");
    reveal_strlit("mmt_trip");
    reveal_strlit("kiwi_ret");
    reveal_strlit("ret_ymd");
    reveal_strlit("sky_rtn");
    reveal_strlit("yymmdd");
    reveal_strlit("adults");
    reveal_strlit("ret_us");
    reveal_strlit("tvldt");
    reveal_strlit("date");
    reveal_strlit("dmon");
    reveal_strlit("trip");
    reveal_strlit("ret");
    reveal_strlit("ymd");
    reveal_strlit("mmt");
    reveal_strlit("ol");
    reveal_strlit("dl");
    reveal_strlit("ob");
    reveal_strlit("db");
    reveal_strlit("us");
    reveal_strlit("o");
    reveal_strlit("d");
    reveal_strlit("q");
    let c = ctx_spec(o, d, date, ret, adults, cabin_u);
    assert(c.map_values(|e: (Seq<char>, Seq<char>)| e.0) =~= ctx_keys());
    assert forall|i: int| 0 <= i < 41 implies (#[trigger] c[i]).0 == ctx_keys()[i] by {
        assert(c.map_values(|e: (Seq<char>, Seq<char>)| e.0)[i] == c[i].0);
    }
}



/// The pieces of a Kayak-family address: the site's host and path, then
/// `{o}-{d}/{kayak_dates}{kayak_adults}?sort=bestflight_a`.
pub open spec fn kayak_pieces(host: Seq<char>) -> Seq<Piece> {
    seq![(false, host), (true, "o"@), (false, "-"@), (true, "d"@), (false, "/"@), (true, "kayak_dates"@),
        (true, "kayak_adults"@), (false, "?sort=bestflight_a"@)]
}

/// The adults part of a Kayak-family address: nothing for one adult.
pub open spec fn kayak_adults_text(adults: int) -> Seq<char> {
    if adults <= 1 { Seq::empty() } else { "/"@ + decimal(adults) + "adults"@ }
}

proof fn lemma_digits_clean(n: nat)
    ensures
        no_open(digits_of(n)),
    decreases n,
{
    if n >= 10 {
        lemma_digits_clean(n / 10);
        let d = digits_of(n);
        assert forall|i: int| 0 <= i < d.len() implies d[i] != '{' by {
            if i < d.len() - 1 {
                assert(d[i] == digits_of(n / 10)[i]);
            } else {
                assert(d[i] == digit_char((n % 10) as int));
                assert((('0' as int) + ((n % 10) as int)) < 123);
            }
        }
    } else {
        assert(digits_of(n)[0] == digit_char(n as int));
        assert((('0' as int) + (n as int)) < 123);
    }
}

proof fn lemma_adults_clean(adults: int)
    ensures
        no_open(kayak_adults_text(adults)),
{
    reveal_strlit("/");
    reveal_strlit("adults");
    if adults > 1 {
        lemma_digits_clean(adults as nat);
        let t = kayak_adults_text(adults);
        let dg = decimal(adults);
        assert(dg == digits_of(adults as nat));
        assert forall|i: int| 0 <= i < t.len() implies t[i] != '{' by {
            if i == 0 {
            } else if i < 1 + dg.len() {
                assert(t[i] == dg[i - 1]);
            } else {
                assert(t[i] == "adults"@[i - 1 - dg.len()]);
            }
        }
    }
}

proof fn lemma_kayak_url(host: Seq<char>, o: Seq<char>, d: Seq<char>, date: Seq<char>, adults: int, cabin_u: Seq<char>)
    requires
        no_open(host),
        no_open(o),
        no_open(d),
        no_open(date),
    ensures
        subst_spec(join(kayak_pieces(host)), ctx_spec(o, d, date, Seq::empty(), adults, cabin_u))
            == host + (o + ("-"@ + (d + ("/"@ + (date + (kayak_adults_text(adults) + "?sort=bestflight_a"@)))))),
{
    reveal_strlit("-");
    reveal_strlit("/");
    reveal_strlit("?sort=bestflight_a");
    let ps = kayak_pieces(host);
    let ctx = ctx_spec(o, d, date, Seq::empty(), adults, cabin_u);
    let ka = kayak_adults_text(adults);
    lemma_key_facts();
    lemma_ctx_keys(o, d, date, Seq::empty(), adults, cabin_u);
    lemma_adults_clean(adults);
    assert(ctx[38] == ("o"@, o));
    assert(ctx[39] == ("d"@, d));
    assert(ctx[5] == ("kayak_dates"@, date));
    assert(ctx[2] == ("kayak_adults"@, ka));
    assert(pieces_ok(ps)) by {
        assert forall|i: int| 0 <= i < ps.len() implies if (#[trigger] ps[i]).0 { no_braces(ps[i].1) } else { no_open(ps[i].1) } by {
            if i == 2 {
                assert("-"@[0] == '-');
            } else if i == 4 {
                assert("/"@[0] == '/');
            } else if i == 7 {
                assert(no_open("?sort=bestflight_a"@));
            }
        }
    }
    assert(keys_clean(ctx)) by {
        assert forall|i: int| 0 <= i < ctx.len() implies no_braces(#[trigger] ctx[i].0) by {
            assert(ctx[i].0 == ctx_keys()[i]);
        }
    }
    assert(values_clean(ps, ctx)) by {
        assert forall|i: int, j: int| 0 <= i < ctx.len() && 0 <= j < ps.len() && ps[j].0 && #[trigger] ps[j].1 == #[trigger] ctx[i].0
            implies no_open(ctx[i].1) by {
            assert(ctx[i].0 == ctx_keys()[i]);
            if j == 1 {
                assert(i == 38);
            } else if j == 3 {
                assert(i == 39);
            } else if j == 5 {
                assert(i == 5);
            } else {
                assert(j == 6);
                assert(i == 2);
            }
        }
    }
    lemma_subst_pieces(ps, ctx);
    let f = filled(ps, ctx);
    lemma_filled_piece(ps, ctx, 0);
    lemma_filled_piece(ps, ctx, 2);
    lemma_filled_piece(ps, ctx, 4);
    lemma_filled_piece(ps, ctx, 7);
    lemma_filled_piece(ps, ctx, 1);
    assert forall|i: int| 0 <= i < 38 implies (#[trigger] ctx[i]).0 != ps[1].1 by {
        assert(ctx[i].0 == ctx_keys()[i]);
    }
    assert(f[1] == (false, o));
    lemma_filled_piece(ps, ctx, 3);
    assert forall|i: int| 0 <= i < 39 implies (#[trigger] ctx[i]).0 != ps[3].1 by {
        assert(ctx[i].0 == ctx_keys()[i]);
    }
    assert(f[3] == (false, d));
    lemma_filled_piece(ps, ctx, 5);
    assert forall|i: int| 0 <= i < 5 implies (#[trigger] ctx[i]).0 != ps[5].1 by {
        assert(ctx[i].0 == ctx_keys()[i]);
    }
    assert(f[5] == (false, date));
    lemma_filled_piece(ps, ctx, 6);
    assert forall|i: int| 0 <= i < 2 implies (#[trigger] ctx[i]).0 != ps[6].1 by {
        assert(ctx[i].0 == ctx_keys()[i]);
    }
    assert(f[6] == (false, ka));
    let g = seq![(false, host), (false, o), (false, "-"@), (false, d), (false, "/"@), (false, date), (false, ka),
        (false, "?sort=bestflight_a"@)];
    assert(f =~= g);
    reveal_with_fuel(join, 9);
    assert(g.drop_first().drop_first().drop_first().drop_first().drop_first().drop_first().drop_first().drop_first()
        =~= Seq::<Piece>::empty());
    assert(join(g) =~= host + (o + ("-"@ + (d + ("/"@ + (date + (ka + "?sort=bestflight_a"@)))))));
}


#[verifier::rlimit(40)]
proof fn lemma_kayak_row(origin: Seq<char>, dest: Seq<char>, date: Seq<char>, adults: int,
    airlines: Seq<(Seq<char>, Seq<char>)>, currency: Seq<char>, cabin: Seq<char>, r: int, host: Seq<char>)
    requires
        utf8_len(date) >= 10,
        no_open(to_upper(origin)),
        no_open(to_upper(dest)),
        no_open(date),
        no_open(host),
        0 <= r < meta_rows().len(),
        meta_rows()[r].0 != "google-flights"@,
        meta_rows()[r].5 == join(kayak_pieces(host)),
    ensures
        booker_rows(origin, dest, date, adults, airlines, currency, cabin, None)[r].0 == meta_rows()[r].0,
        booker_rows(origin, dest, date, adults, airlines, currency, cabin, None)[r].4
            == host + to_upper(origin) + "-"@ + to_upper(dest) + "/"@ + date + kayak_adults_text(adults) + "?sort=bestflight_a"@,
{
    let o = to_upper(origin);
    let d = to_upper(dest);
    let ccy = to_upper(if currency.len() == 0 { "USD"@ } else { currency });
    let cabin_u = to_upper(if cabin.len() == 0 { "ECONOMY"@ } else { cabin });
    let rows = booker_rows(origin, dest, date, adults, airlines, currency, cabin, None);
    let row = meta_rows()[r];
    assert(rows[r].4 == site_url(row, o, d, date, ccy, adults, cabin_u, None));
    assert(site_url(row, o, d, date, ccy, adults, cabin_u, None) == subst_spec(row.5, ctx_spec(o, d, date, Seq::empty(), adults, cabin_u)));
    lemma_kayak_url(host, o, d, date, adults, cabin_u);
    assert(host + (o + ("-"@ + (d + ("/"@ + (date + (kayak_adults_text(adults) + "?sort=bestflight_a"@))))))
        =~= host + o + "-"@ + d + "/"@ + date + kayak_adults_text(adults) + "?sort=bestflight_a"@);
}

proof fn lemma_kayak_link(origin: Seq<char>, dest: Seq<char>, date: Seq<char>, adults: int,
    airlines: Seq<(Seq<char>, Seq<char>)>, currency: Seq<char>, cabin: Seq<char>)
    requires
        utf8_len(date) >= 10,
        no_open(to_upper(origin)),
        no_open(to_upper(dest)),
        no_open(date),
    ensures
        booker_rows(origin, dest, date, adults, airlines, currency, cabin, None)[1].0 == "kayak"@,
        booker_rows(origin, dest, date, adults, airlines, currency, cabin, None)[1].4
            == "https://www.kayak.com/flights/"@ + to_upper(origin) + "-"@ + to_upper(dest) + "/"@ + date + kayak_adults_text(adults) + "?sort=bestflight_a"@,
{
    reveal_strlit("google-flights");
    reveal_strlit("kayak");
    reveal_strlit("https://www.kayak.com/flights/");
    reveal_strlit("https://www.kayak.com/flights/{o}-{d}/{kayak_dates}{kayak_adults}?sort=bestflight_a");
    reveal_strlit("o");
    reveal_strlit("d");
    reveal_strlit("-");
    reveal_strlit("/");
    reveal_strlit("kayak_dates");
    reveal_strlit("kayak_adults");
    reveal_strlit("?sort=bestflight_a");
    let host = "https://www.kayak.com/flights/"@;
    assert(meta_rows()[1].0 == "kayak"@);
    assert("kayak"@.len() == 5 && "google-flights"@.len() == 14);
    assert(no_open(host));
    let ps = kayak_pieces(host);
    reveal_with_fuel(join, 9);
    let g = ps.drop_first().drop_first().drop_first().drop_first().drop_first().drop_first().drop_first().drop_first();
    assert(g =~= Seq::<Piece>::empty());
    assert(meta_rows()[1].5 =~= join(ps));
    lemma_kayak_row(origin, dest, date, adults, airlines, currency, cabin, 1, host);
}

proof fn lemma_momondo_link(origin: Seq<char>, dest: Seq<char>, date: Seq<char>, adults: int,
    airlines: Seq<(Seq<char>, Seq<char>)>, currency: Seq<char>, cabin: Seq<char>)
    requires
        utf8_len(date) >= 10,
        no_open(to_upper(origin)),
        no_open(to_upper(dest)),
        no_open(date),
    ensures
        booker_rows(origin, dest, date, adults, airlines, currency, cabin, None)[3].0 == "momondo"@,
        booker_rows(origin, dest, date, adults, airlines, currency, cabin, None)[3].4
            == "https://www.momondo.com/flight-search/"@ + to_upper(origin) + "-"@ + to_upper(dest) + "/"@ + date + kayak_adults_text(adults) + "?sort=bestflight_a"@,
{
    reveal_strlit("google-flights");
    reveal_strlit("momondo");
    reveal_strlit("https://www.momondo.com/flight-search/");
    reveal_strlit("https://www.momondo.com/flight-search/{o}-{d}/{kayak_dates}{kayak_adults}?sort=bestflight_a");
    reveal_strlit("o");
    reveal_strlit("d");
    reveal_strlit("-");
    reveal_strlit("/");
    reveal_strlit("kayak_dates");
    reveal_strlit("kayak_adults");
    reveal_strlit("?sort=bestflight_a");
    let host = "https://www.momondo.com/flight-search/"@;
    assert(meta_rows()[3].0 == "momondo"@);
    assert("momondo"@.len() == 7 && "google-flights"@.len() == 14);
    assert(no_open(host));
    let ps = kayak_pieces(host);
    reveal_with_fuel(join, 9);
    let g = ps.drop_first().drop_first().drop_first().drop_first().drop_first().drop_first().drop_first().drop_first();
    assert(g =~= Seq::<Piece>::empty());
    assert(meta_rows()[3].5 =~= join(ps));
    lemma_kayak_row(origin, dest, date, adults, airlines, currency, cabin, 3, host);
}

proof fn lemma_cheapflights_link(origin: Seq<char>, dest: Seq<char>, date: Seq<char>, adults: int,
    airlines: Seq<(Seq<char>, Seq<char>)>, currency: Seq<char>, cabin: Seq<char>)
    requires
        utf8_len(date) >= 10,
        no_open(to_upper(origin)),
        no_open(to_upper(dest)),
        no_open(date),
    ensures
        booker_rows(origin, dest, date, adults, airlines, currency, cabin, None)[4].0 == "cheapflights"@,
        booker_rows(origin, dest, date, adults, airlines, currency, cabin, None)[4].4
            == "https://www.cheapflights.com/flight-search/"@ + to_upper(origin) + "-"@ + to_upper(dest) + "/"@ + date + kayak_adults_text(adults) + "?sort=bestflight_a"@,
{
    reveal_strlit("google-flights");
    reveal_strlit("cheapflights");
    reveal_strlit("https://www.cheapflights.com/flight-search/");
    reveal_strlit("https://www.cheapflights.com/flight-search/{o}-{d}/{kayak_dates}{kayak_adults}?sort=bestflight_a");
    reveal_strlit("o");
    reveal_strlit("d");
    reveal_strlit("-");
    reveal_strlit("/");
    reveal_strlit("kayak_dates");
    reveal_strlit("kayak_adults");
    reveal_strlit("?sort=bestflight_a");
    let host = "https://www.cheapflights.com/flight-search/"@;
    assert(meta_rows()[4].0 == "cheapflights"@);
    assert("cheapflights"@.len() == 12 && "google-flights"@.len() == 14);
    assert(no_open(host));
    let ps = kayak_pieces(host);
    reveal_with_fuel(join, 9);
    let g = ps.drop_first().drop_first().drop_first().drop_first().drop_first().drop_first().drop_first().drop_first();
    assert(g =~= Seq::<Piece>::empty());
    assert(meta_rows()[4].5 =~= join(ps));
    lemma_kayak_row(origin, dest, date, adults, airlines, currency, cabin, 4, host);
}

/// The Kayak-family links of a one-way search from `origin` to `dest` search that
/// route in that order: after the site's host and path comes the origin, a dash, the
/// destination (both upper-cased), then the date, the adults part and the sort
/// option. This holds whenever the airports and the date hold no opening brace, the
/// one character that would let a value be read as another template hole.
pub proof fn law_kayak_family_routes(origin: Seq<char>, dest: Seq<char>, date: Seq<char>, adults: int,
    airlines: Seq<(Seq<char>, Seq<char>)>, currency: Seq<char>, cabin: Seq<char>)
    requires
        utf8_len(date) >= 10,
        no_open(to_upper(origin)),
        no_open(to_upper(dest)),
        no_open(date),
    ensures
        booker_rows(origin, dest, date, adults, airlines, currency, cabin, None)[1].0 == "kayak"@,
        booker_rows(origin, dest, date, adults, airlines, currency, cabin, None)[1].4
            == "https://www.kayak.com/flights/"@ + to_upper(origin) + "-"@ + to_upper(dest) + "/"@ + date
                + kayak_adults_text(adults) + "?sort=bestflight_a"@,
        booker_rows(origin, dest, date, adults, airlines, currency, cabin, None)[3].0 == "momondo"@,
        booker_rows(origin, dest, date, adults, airlines, currency, cabin, None)[3].4
            == "https://www.momondo.com/flight-search/"@ + to_upper(origin) + "-"@ + to_upper(dest) + "/"@ + date
                + kayak_adults_text(adults) + "?sort=bestflight_a"@,
        booker_rows(origin, dest, date, adults, airlines, currency, cabin, None)[4].0 == "cheapflights"@,
        booker_rows(origin, dest, date, adults, airlines, currency, cabin, None)[4].4
            == "https://www.cheapflights.com/flight-search/"@ + to_upper(origin) + "-"@ + to_upper(dest) + "/"@ + date
                + kayak_adults_text(adults) + "?sort=bestflight_a"@,
{
    lemma_kayak_link(origin, dest, date, adults, airlines, currency, cabin);
    lemma_momondo_link(origin, dest, date, adults, airlines, currency, cabin);
    lemma_cheapflights_link(origin, dest, date, adults, airlines, currency, cabin);
}


/// The text of pieces with one more at the end.
proof fn lemma_join_push(ps: Seq<Piece>, p: Piece)
    ensures
        join(ps.push(p)) == join(ps) + piece_text(p),
    decreases ps.len(),
{
    if ps.len() == 0 {
        assert(ps.push(p).drop_first() =~= Seq::<Piece>::empty());
        assert(ps.push(p)[0] == p);
        assert(join(Seq::<Piece>::empty()) == Seq::<char>::empty());
        assert(join(ps) == Seq::<char>::empty());
        assert(join(ps.push(p)) =~= piece_text(p));
    } else {
        assert(ps.push(p).drop_first() =~= ps.drop_first().push(p));
        lemma_join_push(ps.drop_first(), p);
        assert(join(ps.push(p)) =~= join(ps) + piece_text(p));
    }
}

/// The cabin as the links name it: upper-cased, economy when none is given.
pub open spec fn cabin_upper(cabin: Seq<char>) -> Seq<char> {
    to_upper(if cabin.len() == 0 { "ECONOMY"@ } else { cabin })
}

/// No value put into a one-way search's addresses holds an opening brace.
pub open spec fn values_free(o: Seq<char>, d: Seq<char>, date: Seq<char>, adults: int, cabin_u: Seq<char>) -> bool {
    forall|i: int| 0 <= i < ctx_spec(o, d, date, Seq::empty(), adults, cabin_u).len()
        ==> no_open(#[trigger] ctx_spec(o, d, date, Seq::empty(), adults, cabin_u)[i].1)
}

proof fn lemma_row_url(origin: Seq<char>, dest: Seq<char>, date: Seq<char>, adults: int,
    airlines: Seq<(Seq<char>, Seq<char>)>, currency: Seq<char>, cabin: Seq<char>, r: int)
    requires
        utf8_len(date) >= 10,
        0 <= r < meta_rows().len(),
        meta_rows()[r].0 != "google-flights"@,
    ensures
        booker_rows(origin, dest, date, adults, airlines, currency, cabin, None)[r].0 == meta_rows()[r].0,
        booker_rows(origin, dest, date, adults, airlines, currency, cabin, None)[r].4
            == subst_spec(meta_rows()[r].5, ctx_spec(to_upper(origin), to_upper(dest), date, Seq::empty(), adults, cabin_upper(cabin))),
{
    let o = to_upper(origin);
    let d = to_upper(dest);
    let ccy = to_upper(if currency.len() == 0 { "USD"@ } else { currency });
    let cabin_u = cabin_upper(cabin);
    let rows = booker_rows(origin, dest, date, adults, airlines, currency, cabin, None);
    let row = meta_rows()[r];
    assert(rows[r].4 == site_url(row, o, d, date, ccy, adults, cabin_u, None));
}

proof fn lemma_key_adults()
    ensures
        ctx_keys().len() == 41,
        ctx_keys()[24] == "adults"@,
        no_braces("adults"@),
        forall|i: int| 0 <= i < 41 && #[trigger] ctx_keys()[i] == "adults"@ ==> i == 24,
{
    reveal_strlit("priceline_path");
    reveal_strlit("despegar_kind");
    reveal_strlit("kayak_adults");
    reveal_strlit("edreams_path");
    reveal_strlit("despegar_ret");
    reveal_strlit("kayak_dates");
    reveal_strlit("book_return");
    reveal_strlit("cheapo_trip");
    reveal_strlit("ret_yymmdd");
    reveal_strlit("wego_dates");
    reveal_strlit("trip_adate");
    reveal_strlit("cheapo_ret");
    reveal_strlit("tvldt_pair");
    reveal_strlit("flighttype");
    reveal_strlit("book_cabin");
    reveal_strlit("book_type");
    reveal_strlit("sky_cabin");
    reveal_strlit("sky_path");
    reveal_strlit("mmt_itin");
    reveal_strlit("mmt_trip");
    reveal_strlit("kiwi_ret");
    reveal_strlit("ret_ymd");
    reveal_strlit("sky_rtn");
    reveal_strlit("yymmdd");
    reveal_strlit("adults");
    reveal_strlit("ret_us");
    reveal_strlit("tvldt");
    reveal_strlit("date");
    reveal_strlit("dmon");
    reveal_strlit("trip");
    reveal_strlit("ret");
    reveal_strlit("ymd");
    reveal_strlit("mmt");
    reveal_strlit("ol");
    reveal_strlit("dl");
    reveal_strlit("ob");
    reveal_strlit("db");
    reveal_strlit("us");
    reveal_strlit("o");
    reveal_strlit("d");
    reveal_strlit("q");
    assert("adults"@.len() == 6);
    assert(no_braces("adults"@));
    assert forall|i: int| 0 <= i < 41 && #[trigger] ctx_keys()[i] == "adults"@ implies i == 24 by {
        if i == 0 { assert(ctx_keys()[i] == "priceline_path"@ && "priceline_path"@.len() == 14); } else if i == 1 { assert(ctx_keys()[i] == "despegar_kind"@ && "despegar_kind"@.len() == 13); } else if i == 2 { assert(ctx_keys()[i] == "kayak_adults"@ && "kayak_adults"@.len() == 12); } else if i == 3 { assert(ctx_keys()[i] == "edreams_path"@ && "edreams_path"@.len() == 12); } else if i == 4 { assert(ctx_keys()[i] == "despegar_ret"@ && "despegar_ret"@.len() == 12); } else if i == 5 { assert(ctx_keys()[i] == "kayak_dates"@ && "kayak_dates"@.len() == 11); } else if i == 6 { assert(ctx_keys()[i] == "book_return"@ && "book_return"@.len() == 11); } else if i == 7 { assert(ctx_keys()[i] == "cheapo_trip"@ && "cheapo_trip"@.len() == 11); } else if i == 8 { assert(ctx_keys()[i] == "ret_yymmdd"@ && "ret_yymmdd"@.len() == 10); } else if i == 9 { assert(ctx_keys()[i] == "wego_dates"@ && "wego_dates"@.len() == 10); } else if i == 10 { assert(ctx_keys()[i] == "trip_adate"@ && "trip_adate"@.len() == 10); } else if i == 11 { assert(ctx_keys()[i] == "cheapo_ret"@ && "cheapo_ret"@.len() == 10); } else if i == 12 { assert(ctx_keys()[i] == "tvldt_pair"@ && "tvldt_pair"@.len() == 10); } else if i == 13 { assert(ctx_keys()[i] == "flighttype"@ && "flighttype"@.len() == 10); } else if i == 14 { assert(ctx_keys()[i] == "book_cabin"@ && "book_cabin"@.len() == 10); } else if i == 15 { assert(ctx_keys()[i] == "book_type"@ && "book_type"@.len() == 9); } else if i == 16 { assert(ctx_keys()[i] == "sky_cabin"@ && "sky_cabin"@.len() == 9); } else if i == 17 { assert(ctx_keys()[i] == "sky_path"@ && "sky_path"@.len() == 8); } else if i == 18 { assert(ctx_keys()[i] == "mmt_itin"@ && "mmt_itin"@.len() == 8); } else if i == 19 { assert(ctx_keys()[i] == "mmt_trip"@ && "mmt_trip"@.len() == 8); } else if i == 20 { assert(ctx_keys()[i] == "kiwi_ret"@ && "kiwi_ret"@.len() == 8); } else if i == 21 { assert(ctx_keys()[i] == "ret_ymd"@ && "ret_ymd"@.len() == 7); } else if i == 22 { assert(ctx_keys()[i] == "sky_rtn"@ && "sky_rtn"@.len() == 7); } else if i == 23 { assert(ctx_keys()[i] == "yymmdd"@ && "yymmdd"@.len() == 6 && "yymmdd"@[0] == 'y' && "adults"@[0] == 'a'); } else if i == 24 { assert(ctx_keys()[i] == "adults"@ && "adults"@.len() == 6); } else if i == 25 { assert(ctx_keys()[i] == "ret_us"@ && "ret_us"@.len() == 6 && "ret_us"@[0] == 'r' && "adults"@[0] == 'a'); } else if i == 26 { assert(ctx_keys()[i] == "tvldt"@ && "tvldt"@.len() == 5); } else if i == 27 { assert(ctx_keys()[i] == "date"@ && "date"@.len() == 4); } else if i == 28 { assert(ctx_keys()[i] == "dmon"@ && "dmon"@.len() == 4); } else if i == 29 { assert(ctx_keys()[i] == "trip"@ && "trip"@.len() == 4); } else if i == 30 { assert(ctx_keys()[i] == "ret"@ && "ret"@.len() == 3); } else if i == 31 { assert(ctx_keys()[i] == "ymd"@ && "ymd"@.len() == 3); } else if i == 32 { assert(ctx_keys()[i] == "mmt"@ && "mmt"@.len() == 3); } else if i == 33 { assert(ctx_keys()[i] == "ol"@ && "ol"@.len() == 2); } else if i == 34 { assert(ctx_keys()[i] == "dl"@ && "dl"@.len() == 2); } else if i == 35 { assert(ctx_keys()[i] == "ob"@ && "ob"@.len() == 2); } else if i == 36 { assert(ctx_keys()[i] == "db"@ && "db"@.len() == 2); } else if i == 37 { assert(ctx_keys()[i] == "us"@ && "us"@.len() == 2); } else if i == 38 { assert(ctx_keys()[i] == "o"@ && "o"@.len() == 1); } else if i == 39 { assert(ctx_keys()[i] == "d"@ && "d"@.len() == 1); } else if i == 40 { assert(ctx_keys()[i] == "q"@ && "q"@.len() == 1); }
    }
}

proof fn lemma_key_book_cabin()
    ensures
        ctx_keys().len() == 41,
        ctx_keys()[14] == "book_cabin"@,
        no_braces("book_cabin"@),
        forall|i: int| 0 <= i < 41 && #[trigger] ctx_keys()[i] == "book_cabin"@ ==> i == 14,
{
    reveal_strlit("priceline_path");
    reveal_strlit("despegar_kind");
    reveal_strlit("kayak_adults");
    reveal_strlit("edreams_path");
    reveal_strlit("despegar_ret");
    reveal_strlit("kayak_dates");
    reveal_strlit("book_return");
    reveal_strlit("cheapo_trip");
    reveal_strlit("ret_yymmdd");
    reveal_strlit("wego_dates");
    reveal_strlit("trip_adate");
    reveal_strlit("cheapo_ret");
    reveal_strlit("tvldt_pair");
    reveal_strlit("flighttype");
    reveal_strlit("book_cabin");
    reveal_strlit("book_type");
    reveal_strlit("sky_cabin");
    reveal_strlit("sky_path");
    reveal_strlit("mmt_itin");
    reveal_strlit("mmt_trip");
    reveal_strlit("kiwi_ret");
    reveal_strlit("ret_ymd");
    reveal_strlit("sky_rtn");
    reveal_strlit("yymmdd");
    reveal_strlit("adults");
    reveal_strlit("ret_us");
    reveal_strlit("tvldt");
    reveal_strlit("date");
    reveal_strlit("dmon");
    reveal_strlit("trip");
    reveal_strlit("ret");
    reveal_strlit("ymd");
    reveal_strlit("mmt");
    reveal_strlit("ol");
    reveal_strlit("dl");
    reveal_strlit("ob");
    reveal_strlit("db");
    reveal_strlit("us");
    reveal_strlit("o");
    reveal_strlit("d");
    reveal_strlit("q");
    assert("book_cabin"@.len() == 10);
    assert(no_braces("book_cabin"@));
    assert forall|i: int| 0 <= i < 41 && #[trigger] ctx_keys()[i] == "book_cabin"@ implies i == 14 by {
        if i == 0 { assert(ctx_keys()[i] == "priceline_path"@ && "priceline_path"@.len() == 14); } else if i == 1 { assert(ctx_keys()[i] == "despegar_kind"@ && "despegar_kind"@.len() == 13); } else if i == 2 { assert(ctx_keys()[i] == "kayak_adults"@ && "kayak_adults"@.len() == 12); } else if i == 3 { assert(ctx_keys()[i] == "edreams_path"@ && "edreams_path"@.len() == 12); } else if i == 4 { assert(ctx_keys()[i] == "despegar_ret"@ && "despegar_ret"@.len() == 12); } else if i == 5 { assert(ctx_keys()[i] == "kayak_dates"@ && "kayak_dates"@.len() == 11); } else if i == 6 { assert(ctx_keys()[i] == "book_return"@ && "book_return"@.len() == 11); } else if i == 7 { assert(ctx_keys()[i] == "cheapo_trip"@ && "cheapo_trip"@.len() == 11); } else if i == 8 { assert(ctx_keys()[i] == "ret_yymmdd"@ && "ret_yymmdd"@.len() == 10 && "ret_yymmdd"@[0] == 'r' && "book_cabin"@[0] == 'b'); } else if i == 9 { assert(ctx_keys()[i] == "wego_dates"@ && "wego_dates"@.len() == 10 && "wego_dates"@[0] == 'w' && "book_cabin"@[0] == 'b'); } else if i == 10 { assert(ctx_keys()[i] == "trip_adate"@ && "trip_adate"@.len() == 10 && "trip_adate"@[0] == 't' && "book_cabin"@[0] == 'b'); } else if i == 11 { assert(ctx_keys()[i] == "cheapo_ret"@ && "cheapo_ret"@.len() == 10 && "cheapo_ret"@[0] == 'c' && "book_cabin"@[0] == 'b'); } else if i == 12 { assert(ctx_keys()[i] == "tvldt_pair"@ && "tvldt_pair"@.len() == 10 && "tvldt_pair"@[0] == 't' && "book_cabin"@[0] == 'b'); } else if i == 13 { assert(ctx_keys()[i] == "flighttype"@ && "flighttype"@.len() == 10 && "flighttype"@[0] == 'f' && "book_cabin"@[0] == 'b'); } else if i == 14 { assert(ctx_keys()[i] == "book_cabin"@ && "book_cabin"@.len() == 10); } else if i == 15 { assert(ctx_keys()[i] == "book_type"@ && "book_type"@.len() == 9); } else if i == 16 { assert(ctx_keys()[i] == "sky_cabin"@ && "sky_cabin"@.len() == 9); } else if i == 17 { assert(ctx_keys()[i] == "sky_path"@ && "sky_path"@.len() == 8); } else if i == 18 { assert(ctx_keys()[i] == "mmt_itin"@ && "mmt_itin"@.len() == 8); } else if i == 19 { assert(ctx_keys()[i] == "mmt_trip"@ && "mmt_trip"@.len() == 8); } else if i == 20 { assert(ctx_keys()[i] == "kiwi_ret"@ && "kiwi_ret"@.len() == 8); } else if i == 21 { assert(ctx_keys()[i] == "ret_ymd"@ && "ret_ymd"@.len() == 7); } else if i == 22 { assert(ctx_keys()[i] == "sky_rtn"@ && "sky_rtn"@.len() == 7); } else if i == 23 { assert(ctx_keys()[i] == "yymmdd"@ && "yymmdd"@.len() == 6); } else if i == 24 { assert(ctx_keys()[i] == "adults"@ && "adults"@.len() == 6); } else if i == 25 { assert(ctx_keys()[i] == "ret_us"@ && "ret_us"@.len() == 6); } else if i == 26 { assert(ctx_keys()[i] == "tvldt"@ && "tvldt"@.len() == 5); } else if i == 27 { assert(ctx_keys()[i] == "date"@ && "date"@.len() == 4); } else if i == 28 { assert(ctx_keys()[i] == "dmon"@ && "dmon"@.len() == 4); } else if i == 29 { assert(ctx_keys()[i] == "trip"@ && "trip"@.len() == 4); } else if i == 30 { assert(ctx_keys()[i] == "ret"@ && "ret"@.len() == 3); } else if i == 31 { assert(ctx_keys()[i] == "ymd"@ && "ymd"@.len() == 3); } else if i == 32 { assert(ctx_keys()[i] == "mmt"@ && "mmt"@.len() == 3); } else if i == 33 { assert(ctx_keys()[i] == "ol"@ && "ol"@.len() == 2); } else if i == 34 { assert(ctx_keys()[i] == "dl"@ && "dl"@.len() == 2); } else if i == 35 { assert(ctx_keys()[i] == "ob"@ && "ob"@.len() == 2); } else if i == 36 { assert(ctx_keys()[i] == "db"@ && "db"@.len() == 2); } else if i == 37 { assert(ctx_keys()[i] == "us"@ && "us"@.len() == 2); } else if i == 38 { assert(ctx_keys()[i] == "o"@ && "o"@.len() == 1); } else if i == 39 { assert(ctx_keys()[i] == "d"@ && "d"@.len() == 1); } else if i == 40 { assert(ctx_keys()[i] == "q"@ && "q"@.len() == 1); }
    }
}

proof fn lemma_key_book_return()
    ensures
        ctx_keys().len() == 41,
        ctx_keys()[6] == "book_return"@,
        no_braces("book_return"@),
        forall|i: int| 0 <= i < 41 && #[trigger] ctx_keys()[i] == "book_return"@ ==> i == 6,
{
    reveal_strlit("priceline_path");
    reveal_strlit("despegar_kind");
    reveal_strlit("kayak_adults");
    reveal_strlit("edreams_path");
    reveal_strlit("despegar_ret");
    reveal_strlit("kayak_dates");
    reveal_strlit("book_return");
    reveal_strlit("cheapo_trip");
    reveal_strlit("ret_yymmdd");
    reveal_strlit("wego_dates");
    reveal_strlit("trip_adate");
    reveal_strlit("cheapo_ret");
    reveal_strlit("tvldt_pair");
    reveal_strlit("flighttype");
    reveal_strlit("book_cabin");
    reveal_strlit("book_type");
    reveal_strlit("sky_cabin");
    reveal_strlit("sky_path");
    reveal_strlit("mmt_itin");
    reveal_strlit("mmt_trip");
    reveal_strlit("kiwi_ret");
    reveal_strlit("ret_ymd");
    reveal_strlit("sky_rtn");
    reveal_strlit("yymmdd");
    reveal_strlit("adults");
    reveal_strlit("ret_us");
    reveal_strlit("tvldt");
    reveal_strlit("date");
    reveal_strlit("dmon");
    reveal_strlit("trip");
    reveal_strlit("ret");
    reveal_strlit("ymd");
    reveal_strlit("mmt");
    reveal_strlit("ol");
    reveal_strlit("dl");
    reveal_strlit("ob");
    reveal_strlit("db");
    reveal_strlit("us");
    reveal_strlit("o");
    reveal_strlit("d");
    reveal_strlit("q");
    assert("book_return"@.len() == 11);
    assert(no_braces("book_return"@));
    assert forall|i: int| 0 <= i < 41 && #[trigger] ctx_keys()[i] == "book_return"@ implies i == 6 by {
        if i == 0 { assert(ctx_keys()[i] == "priceline_path"@ && "priceline_path"@.len() == 14); } else if i == 1 { assert(ctx_keys()[i] == "despegar_kind"@ && "despegar_kind"@.len() == 13); } else if i == 2 { assert(ctx_keys()[i] == "kayak_adults"@ && "kayak_adults"@.len() == 12); } else if i == 3 { assert(ctx_keys()[i] == "edreams_path"@ && "edreams_path"@.len() == 12); } else if i == 4 { assert(ctx_keys()[i] == "despegar_ret"@ && "despegar_ret"@.len() == 12); } else if i == 5 { assert(ctx_keys()[i] == "kayak_dates"@ && "kayak_dates"@.len() == 11 && "kayak_dates"@[0] == 'k' && "book_return"@[0] == 'b'); } else if i == 6 { assert(ctx_keys()[i] == "book_return"@ && "book_return"@.len() == 11); } else if i == 7 { assert(ctx_keys()[i] == "cheapo_trip"@ && "cheapo_trip"@.len() == 11 && "cheapo_trip"@[0] == 'c' && "book_return"@[0] == 'b'); } else if i == 8 { assert(ctx_keys()[i] == "ret_yymmdd"@ && "ret_yymmdd"@.len() == 10); } else if i == 9 { assert(ctx_keys()[i] == "wego_dates"@ && "wego_dates"@.len() == 10); } else if i == 10 { assert(ctx_keys()[i] == "trip_adate"@ && "trip_adate"@.len() == 10); } else if i == 11 { assert(ctx_keys()[i] == "cheapo_ret"@ && "cheapo_ret"@.len() == 10); } else if i == 12 { assert(ctx_keys()[i] == "tvldt_pair"@ && "tvldt_pair"@.len() == 10); } else if i == 13 { assert(ctx_keys()[i] == "flighttype"@ && "flighttype"@.len() == 10); } else if i == 14 { assert(ctx_keys()[i] == "book_cabin"@ && "book_cabin"@.len() == 10); } else if i == 15 { assert(ctx_keys()[i] == "book_type"@ && "book_type"@.len() == 9); } else if i == 16 { assert(ctx_keys()[i] == "sky_cabin"@ && "sky_cabin"@.len() == 9); } else if i == 17 { assert(ctx_keys()[i] == "sky_path"@ && "sky_path"@.len() == 8); } else if i == 18 { assert(ctx_keys()[i] == "mmt_itin"@ && "mmt_itin"@.len() == 8); } else if i == 19 { assert(ctx_keys()[i] == "mmt_trip"@ && "mmt_trip"@.len() == 8); } else if i == 20 { assert(ctx_keys()[i] == "kiwi_ret"@ && "kiwi_ret"@.len() == 8); } else if i == 21 { assert(ctx_keys()[i] == "ret_ymd"@ && "ret_ymd"@.len() == 7); } else if i == 22 { assert(ctx_keys()[i] == "sky_rtn"@ && "sky_rtn"@.len() == 7); } else if i == 23 { assert(ctx_keys()[i] == "yymmdd"@ && "yymmdd"@.len() == 6); } else if i == 24 { assert(ctx_keys()[i] == "adults"@ && "adults"@.len() == 6); } else if i == 25 { assert(ctx_keys()[i] == "ret_us"@ && "ret_us"@.len() == 6); } else if i == 26 { assert(ctx_keys()[i] == "tvldt"@ && "tvldt"@.len() == 5); } else if i == 27 { assert(ctx_keys()[i] == "date"@ && "date"@.len() == 4); } else if i == 28 { assert(ctx_keys()[i] == "dmon"@ && "dmon"@.len() == 4); } else if i == 29 { assert(ctx_keys()[i] == "trip"@ && "trip"@.len() == 4); } else if i == 30 { assert(ctx_keys()[i] == "ret"@ && "ret"@.len() == 3); } else if i == 31 { assert(ctx_keys()[i] == "ymd"@ && "ymd"@.len() == 3); } else if i == 32 { assert(ctx_keys()[i] == "mmt"@ && "mmt"@.len() == 3); } else if i == 33 { assert(ctx_keys()[i] == "ol"@ && "ol"@.len() == 2); } else if i == 34 { assert(ctx_keys()[i] == "dl"@ && "dl"@.len() == 2); } else if i == 35 { assert(ctx_keys()[i] == "ob"@ && "ob"@.len() == 2); } else if i == 36 { assert(ctx_keys()[i] == "db"@ && "db"@.len() == 2); } else if i == 37 { assert(ctx_keys()[i] == "us"@ && "us"@.len() == 2); } else if i == 38 { assert(ctx_keys()[i] == "o"@ && "o"@.len() == 1); } else if i == 39 { assert(ctx_keys()[i] == "d"@ && "d"@.len() == 1); } else if i == 40 { assert(ctx_keys()[i] == "q"@ && "q"@.len() == 1); }
    }
}

proof fn lemma_key_book_type()
    ensures
        ctx_keys().len() == 41,
        ctx_keys()[15] == "book_type"@,
        no_braces("book_type"@),
        forall|i: int| 0 <= i < 41 && #[trigger] ctx_keys()[i] == "book_type"@ ==> i == 15,
{
    reveal_strlit("priceline_path");
    reveal_strlit("despegar_kind");
    reveal_strlit("kayak_adults");
    reveal_strlit("edreams_path");
    reveal_strlit("despegar_ret");
    reveal_strlit("kayak_dates");
    reveal_strlit("book_return");
    reveal_strlit("cheapo_trip");
    reveal_strlit("ret_yymmdd");
    reveal_strlit("wego_dates");
    reveal_strlit("trip_adate");
    reveal_strlit("cheapo_ret");
    reveal_strlit("tvldt_pair");
    reveal_strlit("flighttype");
    reveal_strlit("book_cabin");
    reveal_strlit("book_type");
    reveal_strlit("sky_cabin");
    reveal_strlit("sky_path");
    reveal_strlit("mmt_itin");
    reveal_strlit("mmt_trip");
    reveal_strlit("kiwi_ret");
    reveal_strlit("ret_ymd");
    reveal_strlit("sky_rtn");
    reveal_strlit("yymmdd");
    reveal_strlit("adults");
    reveal_strlit("ret_us");
    reveal_strlit("tvldt");
    reveal_strlit("date");
    reveal_strlit("dmon");
    reveal_strlit("trip");
    reveal_strlit("ret");
    reveal_strlit("ymd");
    reveal_strlit("mmt");
    reveal_strlit("ol");
    reveal_strlit("dl");
    reveal_strlit("ob");
    reveal_strlit("db");
    reveal_strlit("us");
    reveal_strlit("o");
    reveal_strlit("d");
    reveal_strlit("q");
    assert("book_type"@.len() == 9);
    assert(no_braces("book_type"@));
    assert forall|i: int| 0 <= i < 41 && #[trigger] ctx_keys()[i] == "book_type"@ implies i == 15 by {
        if i == 0 { assert(ctx_keys()[i] == "priceline_path"@ && "priceline_path"@.len() == 14); } else if i == 1 { assert(ctx_keys()[i] == "despegar_kind"@ && "despegar_kind"@.len() == 13); } else if i == 2 { assert(ctx_keys()[i] == "kayak_adults"@ && "kayak_adults"@.len() == 12); } else if i == 3 { assert(ctx_keys()[i] == "edreams_path"@ && "edreams_path"@.len() == 12); } else if i == 4 { assert(ctx_keys()[i] == "despegar_ret"@ && "despegar_ret"@.len() == 12); } else if i == 5 { assert(ctx_keys()[i] == "kayak_dates"@ && "kayak_dates"@.len() == 11); } else if i == 6 { assert(ctx_keys()[i] == "book_return"@ && "book_return"@.len() == 11); } else if i == 7 { assert(ctx_keys()[i] == "cheapo_trip"@ && "cheapo_trip"@.len() == 11); } else if i == 8 { assert(ctx_keys()[i] == "ret_yymmdd"@ && "ret_yymmdd"@.len() == 10); } else if i == 9 { assert(ctx_keys()[i] == "wego_dates"@ && "wego_dates"@.len() == 10); } else if i == 10 { assert(ctx_keys()[i] == "trip_adate"@ && "trip_adate"@.len() == 10); } else if i == 11 { assert(ctx_keys()[i] == "cheapo_ret"@ && "cheapo_ret"@.len() == 10); } else if i == 12 { assert(ctx_keys()[i] == "tvldt_pair"@ && "tvldt_pair"@.len() == 10); } else if i == 13 { assert(ctx_keys()[i] == "flighttype"@ && "flighttype"@.len() == 10); } else if i == 14 { assert(ctx_keys()[i] == "book_cabin"@ && "book_cabin"@.len() == 10); } else if i == 15 { assert(ctx_keys()[i] == "book_type"@ && "book_type"@.len() == 9); } else if i == 16 { assert(ctx_keys()[i] == "sky_cabin"@ && "sky_cabin"@.len() == 9 && "sky_cabin"@[0] == 's' && "book_type"@[0] == 'b'); } else if i == 17 { assert(ctx_keys()[i] == "sky_path"@ && "sky_path"@.len() == 8); } else if i == 18 { assert(ctx_keys()[i] == "mmt_itin"@ && "mmt_itin"@.len() == 8); } else if i == 19 { assert(ctx_keys()[i] == "mmt_trip"@ && "mmt_trip"@.len() == 8); } else if i == 20 { assert(ctx_keys()[i] == "kiwi_ret"@ && "kiwi_ret"@.len() == 8); } else if i == 21 { assert(ctx_keys()[i] == "ret_ymd"@ && "ret_ymd"@.len() == 7); } else if i == 22 { assert(ctx_keys()[i] == "sky_rtn"@ && "sky_rtn"@.len() == 7); } else if i == 23 { assert(ctx_keys()[i] == "yymmdd"@ && "yymmdd"@.len() == 6); } else if i == 24 { assert(ctx_keys()[i] == "adults"@ && "adults"@.len() == 6); } else if i == 25 { assert(ctx_keys()[i] == "ret_us"@ && "ret_us"@.len() == 6); } else if i == 26 { assert(ctx_keys()[i] == "tvldt"@ && "tvldt"@.len() == 5); } else if i == 27 { assert(ctx_keys()[i] == "date"@ && "date"@.len() == 4); } else if i == 28 { assert(ctx_keys()[i] == "dmon"@ && "dmon"@.len() == 4); } else if i == 29 { assert(ctx_keys()[i] == "trip"@ && "trip"@.len() == 4); } else if i == 30 { assert(ctx_keys()[i] == "ret"@ && "ret"@.len() == 3); } else if i == 31 { assert(ctx_keys()[i] == "ymd"@ && "ymd"@.len() == 3); } else if i == 32 { assert(ctx_keys()[i] == "mmt"@ && "mmt"@.len() == 3); } else if i == 33 { assert(ctx_keys()[i] == "ol"@ && "ol"@.len() == 2); } else if i == 34 { assert(ctx_keys()[i] == "dl"@ && "dl"@.len() == 2); } else if i == 35 { assert(ctx_keys()[i] == "ob"@ && "ob"@.len() == 2); } else if i == 36 { assert(ctx_keys()[i] == "db"@ && "db"@.len() == 2); } else if i == 37 { assert(ctx_keys()[i] == "us"@ && "us"@.len() == 2); } else if i == 38 { assert(ctx_keys()[i] == "o"@ && "o"@.len() == 1); } else if i == 39 { assert(ctx_keys()[i] == "d"@ && "d"@.len() == 1); } else if i == 40 { assert(ctx_keys()[i] == "q"@ && "q"@.len() == 1); }
    }
}

proof fn lemma_key_cheapo_ret()
    ensures
        ctx_keys().len() == 41,
        ctx_keys()[11] == "cheapo_ret"@,
        no_braces("cheapo_ret"@),
        forall|i: int| 0 <= i < 41 && #[trigger] ctx_keys()[i] == "cheapo_ret"@ ==> i == 11,
{
    reveal_strlit("priceline_path");
    reveal_strlit("despegar_kind");
    reveal_strlit("kayak_adults");
    reveal_strlit("edreams_path");
    reveal_strlit("despegar_ret");
    reveal_strlit("kayak_dates");
    reveal_strlit("book_return");
    reveal_strlit("cheapo_trip");
    reveal_strlit("ret_yymmdd");
    reveal_strlit("wego_dates");
    reveal_strlit("trip_adate");
    reveal_strlit("cheapo_ret");
    reveal_strlit("tvldt_pair");
    reveal_strlit("flighttype");
    reveal_strlit("book_cabin");
    reveal_strlit("book_type");
    reveal_strlit("sky_cabin");
    reveal_strlit("sky_path");
    reveal_strlit("mmt_itin");
    reveal_strlit("mmt_trip");
    reveal_strlit("kiwi_ret");
    reveal_strlit("ret_ymd");
    reveal_strlit("sky_rtn");
    reveal_strlit("yymmdd");
    reveal_strlit("adults");
    reveal_strlit("ret_us");
    reveal_strlit("tvldt");
    reveal_strlit("date");
    reveal_strlit("dmon");
    reveal_strlit("trip");
    reveal_strlit("ret");
    reveal_strlit("ymd");
    reveal_strlit("mmt");
    reveal_strlit("ol");
    reveal_strlit("dl");
    reveal_strlit("ob");
    reveal_strlit("db");
    reveal_strlit("us");
    reveal_strlit("o");
    reveal_strlit("d");
    reveal_strlit("q");
    assert("cheapo_ret"@.len() == 10);
    assert(no_braces("cheapo_ret"@));
    assert forall|i: int| 0 <= i < 41 && #[trigger] ctx_keys()[i] == "cheapo_ret"@ implies i == 11 by {
        if i == 0 { assert(ctx_keys()[i] == "priceline_path"@ && "priceline_path"@.len() == 14); } else if i == 1 { assert(ctx_keys()[i] == "despegar_kind"@ && "despegar_kind"@.len() == 13); } else if i == 2 { assert(ctx_keys()[i] == "kayak_adults"@ && "kayak_adults"@.len() == 12); } else if i == 3 { assert(ctx_keys()[i] == "edreams_path"@ && "edreams_path"@.len() == 12); } else if i == 4 { assert(ctx_keys()[i] == "despegar_ret"@ && "despegar_ret"@.len() == 12); } else if i == 5 { assert(ctx_keys()[i] == "kayak_dates"@ && "kayak_dates"@.len() == 11); } else if i == 6 { assert(ctx_keys()[i] == "book_return"@ && "book_return"@.len() == 11); } else if i == 7 { assert(ctx_keys()[i] == "cheapo_trip"@ && "cheapo_trip"@.len() == 11); } else if i == 8 { assert(ctx_keys()[i] == "ret_yymmdd"@ && "ret_yymmdd"@.len() == 10 && "ret_yymmdd"@[0] == 'r' && "cheapo_ret"@[0] == 'c'); } else if i == 9 { assert(ctx_keys()[i] == "wego_dates"@ && "wego_dates"@.len() == 10 && "wego_dates"@[0] == 'w' && "cheapo_ret"@[0] == 'c'); } else if i == 10 { assert(ctx_keys()[i] == "trip_adate"@ && "trip_adate"@.len() == 10 && "trip_adate"@[0] == 't' && "cheapo_ret"@[0] == 'c'); } else if i == 11 { assert(ctx_keys()[i] == "cheapo_ret"@ && "cheapo_ret"@.len() == 10); } else if i == 12 { assert(ctx_keys()[i] == "tvldt_pair"@ && "tvldt_pair"@.len() == 10 && "tvldt_pair"@[0] == 't' && "cheapo_ret"@[0] == 'c'); } else if i == 13 { assert(ctx_keys()[i] == "flighttype"@ && "flighttype"@.len() == 10 && "flighttype"@[0] == 'f' && "cheapo_ret"@[0] == 'c'); } else if i == 14 { assert(ctx_keys()[i] == "book_cabin"@ && "book_cabin"@.len() == 10 && "book_cabin"@[0] == 'b' && "cheapo_ret"@[0] == 'c'); } else if i == 15 { assert(ctx_keys()[i] == "book_type"@ && "book_type"@.len() == 9); } else if i == 16 { assert(ctx_keys()[i] == "sky_cabin"@ && "sky_cabin"@.len() == 9); } else if i == 17 { assert(ctx_keys()[i] == "sky_path"@ && "sky_path"@.len() == 8); } else if i == 18 { assert(ctx_keys()[i] == "mmt_itin"@ && "mmt_itin"@.len() == 8); } else if i == 19 { assert(ctx_keys()[i] == "mmt_trip"@ && "mmt_trip"@.len() == 8); } else if i == 20 { assert(ctx_keys()[i] == "kiwi_ret"@ && "kiwi_ret"@.len() == 8); } else if i == 21 { assert(ctx_keys()[i] == "ret_ymd"@ && "ret_ymd"@.len() == 7); } else if i == 22 { assert(ctx_keys()[i] == "sky_rtn"@ && "sky_rtn"@.len() == 7); } else if i == 23 { assert(ctx_keys()[i] == "yymmdd"@ && "yymmdd"@.len() == 6); } else if i == 24 { assert(ctx_keys()[i] == "adults"@ && "adults"@.len() == 6); } else if i == 25 { assert(ctx_keys()[i] == "ret_us"@ && "ret_us"@.len() == 6); } else if i == 26 { assert(ctx_keys()[i] == "tvldt"@ && "tvldt"@.len() == 5); } else if i == 27 { assert(ctx_keys()[i] == "date"@ && "date"@.len() == 4); } else if i == 28 { assert(ctx_keys()[i] == "dmon"@ && "dmon"@.len() == 4); } else if i == 29 { assert(ctx_keys()[i] == "trip"@ && "trip"@.len() == 4); } else if i == 30 { assert(ctx_keys()[i] == "ret"@ && "ret"@.len() == 3); } else if i == 31 { assert(ctx_keys()[i] == "ymd"@ && "ymd"@.len() == 3); } else if i == 32 { assert(ctx_keys()[i] == "mmt"@ && "mmt"@.len() == 3); } else if i == 33 { assert(ctx_keys()[i] == "ol"@ && "ol"@.len() == 2); } else if i == 34 { assert(ctx_keys()[i] == "dl"@ && "dl"@.len() == 2); } else if i == 35 { assert(ctx_keys()[i] == "ob"@ && "ob"@.len() == 2); } else if i == 36 { assert(ctx_keys()[i] == "db"@ && "db"@.len() == 2); } else if i == 37 { assert(ctx_keys()[i] == "us"@ && "us"@.len() == 2); } else if i == 38 { assert(ctx_keys()[i] == "o"@ && "o"@.len() == 1); } else if i == 39 { assert(ctx_keys()[i] == "d"@ && "d"@.len() == 1); } else if i == 40 { assert(ctx_keys()[i] == "q"@ && "q"@.len() == 1); }
    }
}

proof fn lemma_key_cheapo_trip()
    ensures
        ctx_keys().len() == 41,
        ctx_keys()[7] == "cheapo_trip"@,
        no_braces("cheapo_trip"@),
        forall|i: int| 0 <= i < 41 && #[trigger] ctx_keys()[i] == "cheapo_trip"@ ==> i == 7,
{
    reveal_strlit("priceline_path");
    reveal_strlit("despegar_kind");
    reveal_strlit("kayak_adults");
    reveal_strlit("edreams_path");
    reveal_strlit("despegar_ret");
    reveal_strlit("kayak_dates");
    reveal_strlit("book_return");
    reveal_strlit("cheapo_trip");
    reveal_strlit("ret_yymmdd");
    reveal_strlit("wego_dates");
    reveal_strlit("trip_adate");
    reveal_strlit("cheapo_ret");
    reveal_strlit("tvldt_pair");
    reveal_strlit("flighttype");
    reveal_strlit("book_cabin");
    reveal_strlit("book_type");
    reveal_strlit("sky_cabin");
    reveal_strlit("sky_path");
    reveal_strlit("mmt_itin");
    reveal_strlit("mmt_trip");
    reveal_strlit("kiwi_ret");
    reveal_strlit("ret_ymd");
    reveal_strlit("sky_rtn");
    reveal_strlit("yymmdd");
    reveal_strlit("adults");
    reveal_strlit("ret_us");
    reveal_strlit("tvldt");
    reveal_strlit("date");
    reveal_strlit("dmon");
    reveal_strlit("trip");
    reveal_strlit("ret");
    reveal_strlit("ymd");
    reveal_strlit("mmt");
    reveal_strlit("ol");
    reveal_strlit("dl");
    reveal_strlit("ob");
    reveal_strlit("db");
    reveal_strlit("us");
    reveal_strlit("o");
    reveal_strlit("d");
    reveal_strlit("q");
    assert("cheapo_trip"@.len() == 11);
    assert(no_braces("cheapo_trip"@));
    assert forall|i: int| 0 <= i < 41 && #[trigger] ctx_keys()[i] == "cheapo_trip"@ implies i == 7 by {
        if i == 0 { assert(ctx_keys()[i] == "priceline_path"@ && "priceline_path"@.len() == 14); } else if i == 1 { assert(ctx_keys()[i] == "despegar_kind"@ && "despegar_kind"@.len() == 13); } else if i == 2 { assert(ctx_keys()[i] == "kayak_adults"@ && "kayak_adults"@.len() == 12); } else if i == 3 { assert(ctx_keys()[i] == "edreams_path"@ && "edreams_path"@.len() == 12); } else if i == 4 { assert(ctx_keys()[i] == "despegar_ret"@ && "despegar_ret"@.len() == 12); } else if i == 5 { assert(ctx_keys()[i] == "kayak_dates"@ && "kayak_dates"@.len() == 11 && "kayak_dates"@[0] == 'k' && "cheapo_trip"@[0] == 'c'); } else if i == 6 { assert(ctx_keys()[i] == "book_return"@ && "book_return"@.len() == 11 && "book_return"@[0] == 'b' && "cheapo_trip"@[0] == 'c'); } else if i == 7 { assert(ctx_keys()[i] == "cheapo_trip"@ && "cheapo_trip"@.len() == 11); } else if i == 8 { assert(ctx_keys()[i] == "ret_yymmdd"@ && "ret_yymmdd"@.len() == 10); } else if i == 9 { assert(ctx_keys()[i] == "wego_dates"@ && "wego_dates"@.len() == 10); } else if i == 10 { assert(ctx_keys()[i] == "trip_adate"@ && "trip_adate"@.len() == 10); } else if i == 11 { assert(ctx_keys()[i] == "cheapo_ret"@ && "cheapo_ret"@.len() == 10); } else if i == 12 { assert(ctx_keys()[i] == "tvldt_pair"@ && "tvldt_pair"@.len() == 10); } else if i == 13 { assert(ctx_keys()[i] == "flighttype"@ && "flighttype"@.len() == 10); } else if i == 14 { assert(ctx_keys()[i] == "book_cabin"@ && "book_cabin"@.len() == 10); } else if i == 15 { assert(ctx_keys()[i] == "book_type"@ && "book_type"@.len() == 9); } else if i == 16 { assert(ctx_keys()[i] == "sky_cabin"@ && "sky_cabin"@.len() == 9); } else if i == 17 { assert(ctx_keys()[i] == "sky_path"@ && "sky_path"@.len() == 8); } else if i == 18 { assert(ctx_keys()[i] == "mmt_itin"@ && "mmt_itin"@.len() == 8); } else if i == 19 { assert(ctx_keys()[i] == "mmt_trip"@ && "mmt_trip"@.len() == 8); } else if i == 20 { assert(ctx_keys()[i] == "kiwi_ret"@ && "kiwi_ret"@.len() == 8); } else if i == 21 { assert(ctx_keys()[i] == "ret_ymd"@ && "ret_ymd"@.len() == 7); } else if i == 22 { assert(ctx_keys()[i] == "sky_rtn"@ && "sky_rtn"@.len() == 7); } else if i == 23 { assert(ctx_keys()[i] == "yymmdd"@ && "yymmdd"@.len() == 6); } else if i == 24 { assert(ctx_keys()[i] == "adults"@ && "adults"@.len() == 6); } else if i == 25 { assert(ctx_keys()[i] == "ret_us"@ && "ret_us"@.len() == 6); } else if i == 26 { assert(ctx_keys()[i] == "tvldt"@ && "tvldt"@.len() == 5); } else if i == 27 { assert(ctx_keys()[i] == "date"@ && "date"@.len() == 4); } else if i == 28 { assert(ctx_keys()[i] == "dmon"@ && "dmon"@.len() == 4); } else if i == 29 { assert(ctx_keys()[i] == "trip"@ && "trip"@.len() == 4); } else if i == 30 { assert(ctx_keys()[i] == "ret"@ && "ret"@.len() == 3); } else if i == 31 { assert(ctx_keys()[i] == "ymd"@ && "ymd"@.len() == 3); } else if i == 32 { assert(ctx_keys()[i] == "mmt"@ && "mmt"@.len() == 3); } else if i == 33 { assert(ctx_keys()[i] == "ol"@ && "ol"@.len() == 2); } else if i == 34 { assert(ctx_keys()[i] == "dl"@ && "dl"@.len() == 2); } else if i == 35 { assert(ctx_keys()[i] == "ob"@ && "ob"@.len() == 2); } else if i == 36 { assert(ctx_keys()[i] == "db"@ && "db"@.len() == 2); } else if i == 37 { assert(ctx_keys()[i] == "us"@ && "us"@.len() == 2); } else if i == 38 { assert(ctx_keys()[i] == "o"@ && "o"@.len() == 1); } else if i == 39 { assert(ctx_keys()[i] == "d"@ && "d"@.len() == 1); } else if i == 40 { assert(ctx_keys()[i] == "q"@ && "q"@.len() == 1); }
    }
}

proof fn lemma_key_d()
    ensures
        ctx_keys().len() == 41,
        ctx_keys()[39] == "d"@,
        no_braces("d"@),
        forall|i: int| 0 <= i < 41 && #[trigger] ctx_keys()[i] == "d"@ ==> i == 39,
{
    reveal_strlit("priceline_path");
    reveal_strlit("despegar_kind");
    reveal_strlit("kayak_adults");
    reveal_strlit("edreams_path");
    reveal_strlit("despegar_ret");
    reveal_strlit("kayak_dates");
    reveal_strlit("book_return");
    reveal_strlit("cheapo_trip");
    reveal_strlit("ret_yymmdd");
    reveal_strlit("wego_dates");
    reveal_strlit("trip_adate");
    reveal_strlit("cheapo_ret");
    reveal_strlit("tvldt_pair");
    reveal_strlit("flighttype");
    reveal_strlit("book_cabin");
    reveal_strlit("book_type");
    reveal_strlit("sky_cabin");
    reveal_strlit("sky_path");
    reveal_strlit("mmt_itin");
    reveal_strlit("mmt_trip");
    reveal_strlit("kiwi_ret");
    reveal_strlit("ret_ymd");
    reveal_strlit("sky_rtn");
    reveal_strlit("yymmdd");
    reveal_strlit("adults");
    reveal_strlit("ret_us");
    reveal_strlit("tvldt");
    reveal_strlit("date");
    reveal_strlit("dmon");
    reveal_strlit("trip");
    reveal_strlit("ret");
    reveal_strlit("ymd");
    reveal_strlit("mmt");
    reveal_strlit("ol");
    reveal_strlit("dl");
    reveal_strlit("ob");
    reveal_strlit("db");
    reveal_strlit("us");
    reveal_strlit("o");
    reveal_strlit("d");
    reveal_strlit("q");
    assert("d"@.len() == 1);
    assert(no_braces("d"@));
    assert forall|i: int| 0 <= i < 41 && #[trigger] ctx_keys()[i] == "d"@ implies i == 39 by {
        if i == 0 { assert(ctx_keys()[i] == "priceline_path"@ && "priceline_path"@.len() == 14); } else if i == 1 { assert(ctx_keys()[i] == "despegar_kind"@ && "despegar_kind"@.len() == 13); } else if i == 2 { assert(ctx_keys()[i] == "kayak_adults"@ && "kayak_adults"@.len() == 12); } else if i == 3 { assert(ctx_keys()[i] == "edreams_path"@ && "edreams_path"@.len() == 12); } else if i == 4 { assert(ctx_keys()[i] == "despegar_ret"@ && "despegar_ret"@.len() == 12); } else if i == 5 { assert(ctx_keys()[i] == "kayak_dates"@ && "kayak_dates"@.len() == 11); } else if i == 6 { assert(ctx_keys()[i] == "book_return"@ && "book_return"@.len() == 11); } else if i == 7 { assert(ctx_keys()[i] == "cheapo_trip"@ && "cheapo_trip"@.len() == 11); } else if i == 8 { assert(ctx_keys()[i] == "ret_yymmdd"@ && "ret_yymmdd"@.len() == 10); } else if i == 9 { assert(ctx_keys()[i] == "wego_dates"@ && "wego_dates"@.len() == 10); } else if i == 10 { assert(ctx_keys()[i] == "trip_adate"@ && "trip_adate"@.len() == 10); } else if i == 11 { assert(ctx_keys()[i] == "cheapo_ret"@ && "cheapo_ret"@.len() == 10); } else if i == 12 { assert(ctx_keys()[i] == "tvldt_pair"@ && "tvldt_pair"@.len() == 10); } else if i == 13 { assert(ctx_keys()[i] == "flighttype"@ && "flighttype"@.len() == 10); } else if i == 14 { assert(ctx_keys()[i] == "book_cabin"@ && "book_cabin"@.len() == 10); } else if i == 15 { assert(ctx_keys()[i] == "book_type"@ && "book_type"@.len() == 9); } else if i == 16 { assert(ctx_keys()[i] == "sky_cabin"@ && "sky_cabin"@.len() == 9); } else if i == 17 { assert(ctx_keys()[i] == "sky_path"@ && "sky_path"@.len() == 8); } else if i == 18 { assert(ctx_keys()[i] == "mmt_itin"@ && "mmt_itin"@.len() == 8); } else if i == 19 { assert(ctx_keys()[i] == "mmt_trip"@ && "mmt_trip"@.len() == 8); } else if i == 20 { assert(ctx_keys()[i] == "kiwi_ret"@ && "kiwi_ret"@.len() == 8); } else if i == 21 { assert(ctx_keys()[i] == "ret_ymd"@ && "ret_ymd"@.len() == 7); } else if i == 22 { assert(ctx_keys()[i] == "sky_rtn"@ && "sky_rtn"@.len() == 7); } else if i == 23 { assert(ctx_keys()[i] == "yymmdd"@ && "yymmdd"@.len() == 6); } else if i == 24 { assert(ctx_keys()[i] == "adults"@ && "adults"@.len() == 6); } else if i == 25 { assert(ctx_keys()[i] == "ret_us"@ && "ret_us"@.len() == 6); } else if i == 26 { assert(ctx_keys()[i] == "tvldt"@ && "tvldt"@.len() == 5); } else if i == 27 { assert(ctx_keys()[i] == "date"@ && "date"@.len() == 4); } else if i == 28 { assert(ctx_keys()[i] == "dmon"@ && "dmon"@.len() == 4); } else if i == 29 { assert(ctx_keys()[i] == "trip"@ && "trip"@.len() == 4); } else if i == 30 { assert(ctx_keys()[i] == "ret"@ && "ret"@.len() == 3); } else if i == 31 { assert(ctx_keys()[i] == "ymd"@ && "ymd"@.len() == 3); } else if i == 32 { assert(ctx_keys()[i] == "mmt"@ && "mmt"@.len() == 3); } else if i == 33 { assert(ctx_keys()[i] == "ol"@ && "ol"@.len() == 2); } else if i == 34 { assert(ctx_keys()[i] == "dl"@ && "dl"@.len() == 2); } else if i == 35 { assert(ctx_keys()[i] == "ob"@ && "ob"@.len() == 2); } else if i == 36 { assert(ctx_keys()[i] == "db"@ && "db"@.len() == 2); } else if i == 37 { assert(ctx_keys()[i] == "us"@ && "us"@.len() == 2); } else if i == 38 { assert(ctx_keys()[i] == "o"@ && "o"@.len() == 1 && "o"@[0] == 'o' && "d"@[0] == 'd'); } else if i == 39 { assert(ctx_keys()[i] == "d"@ && "d"@.len() == 1); } else if i == 40 { assert(ctx_keys()[i] == "q"@ && "q"@.len() == 1 && "q"@[0] == 'q' && "d"@[0] == 'd'); }
    }
}

proof fn lemma_key_date()
    ensures
        ctx_keys().len() == 41,
        ctx_keys()[27] == "date"@,
        no_braces("date"@),
        forall|i: int| 0 <= i < 41 && #[trigger] ctx_keys()[i] == "date"@ ==> i == 27,
{
    reveal_strlit("priceline_path");
    reveal_strlit("despegar_kind");
    reveal_strlit("kayak_adults");
    reveal_strlit("edreams_path");
    reveal_strlit("despegar_ret");
    reveal_strlit("kayak_dates");
    reveal_strlit("book_return");
    reveal_strlit("cheapo_trip");
    reveal_strlit("ret_yymmdd");
    reveal_strlit("wego_dates");
    reveal_strlit("trip_adate");
    reveal_strlit("cheapo_ret");
    reveal_strlit("tvldt_pair");
    reveal_strlit("flighttype");
    reveal_strlit("book_cabin");
    reveal_strlit("book_type");
    reveal_strlit("sky_cabin");
    reveal_strlit("sky_path");
    reveal_strlit("mmt_itin");
    reveal_strlit("mmt_trip");
    reveal_strlit("kiwi_ret");
    reveal_strlit("ret_ymd");
    reveal_strlit("sky_rtn");
    reveal_strlit("yymmdd");
    reveal_strlit("adults");
    reveal_strlit("ret_us");
    reveal_strlit("tvldt");
    reveal_strlit("date");
    reveal_strlit("dmon");
    reveal_strlit("trip");
    reveal_strlit("ret");
    reveal_strlit("ymd");
    reveal_strlit("mmt");
    reveal_strlit("ol");
    reveal_strlit("dl");
    reveal_strlit("ob");
    reveal_strlit("db");
    reveal_strlit("us");
    reveal_strlit("o");
    reveal_strlit("d");
    reveal_strlit("q");
    assert("date"@.len() == 4);
    assert(no_braces("date"@));
    assert forall|i: int| 0 <= i < 41 && #[trigger] ctx_keys()[i] == "date"@ implies i == 27 by {
        if i == 0 { assert(ctx_keys()[i] == "priceline_path"@ && "priceline_path"@.len() == 14); } else if i == 1 { assert(ctx_keys()[i] == "despegar_kind"@ && "despegar_kind"@.len() == 13); } else if i == 2 { assert(ctx_keys()[i] == "kayak_adults"@ && "kayak_adults"@.len() == 12); } else if i == 3 { assert(ctx_keys()[i] == "edreams_path"@ && "edreams_path"@.len() == 12); } else if i == 4 { assert(ctx_keys()[i] == "despegar_ret"@ && "despegar_ret"@.len() == 12); } else if i == 5 { assert(ctx_keys()[i] == "kayak_dates"@ && "kayak_dates"@.len() == 11); } else if i == 6 { assert(ctx_keys()[i] == "book_return"@ && "book_return"@.len() == 11); } else if i == 7 { assert(ctx_keys()[i] == "cheapo_trip"@ && "cheapo_trip"@.len() == 11); } else if i == 8 { assert(ctx_keys()[i] == "ret_yymmdd"@ && "ret_yymmdd"@.len() == 10); } else if i == 9 { assert(ctx_keys()[i] == "wego_dates"@ && "wego_dates"@.len() == 10); } else if i == 10 { assert(ctx_keys()[i] == "trip_adate"@ && "trip_adate"@.len() == 10); } else if i == 11 { assert(ctx_keys()[i] == "cheapo_ret"@ && "cheapo_ret"@.len() == 10); } else if i == 12 { assert(ctx_keys()[i] == "tvldt_pair"@ && "tvldt_pair"@.len() == 10); } else if i == 13 { assert(ctx_keys()[i] == "flighttype"@ && "flighttype"@.len() == 10); } else if i == 14 { assert(ctx_keys()[i] == "book_cabin"@ && "book_cabin"@.len() == 10); } else if i == 15 { assert(ctx_keys()[i] == "book_type"@ && "book_type"@.len() == 9); } else if i == 16 { assert(ctx_keys()[i] == "sky_cabin"@ && "sky_cabin"@.len() == 9); } else if i == 17 { assert(ctx_keys()[i] == "sky_path"@ && "sky_path"@.len() == 8); } else if i == 18 { assert(ctx_keys()[i] == "mmt_itin"@ && "mmt_itin"@.len() == 8); } else if i == 19 { assert(ctx_keys()[i] == "mmt_trip"@ && "mmt_trip"@.len() == 8); } else if i == 20 { assert(ctx_keys()[i] == "kiwi_ret"@ && "kiwi_ret"@.len() == 8); } else if i == 21 { assert(ctx_keys()[i] == "ret_ymd"@ && "ret_ymd"@.len() == 7); } else if i == 22 { assert(ctx_keys()[i] == "sky_rtn"@ && "sky_rtn"@.len() == 7); } else if i == 23 { assert(ctx_keys()[i] == "yymmdd"@ && "yymmdd"@.len() == 6); } else if i == 24 { assert(ctx_keys()[i] == "adults"@ && "adults"@.len() == 6); } else if i == 25 { assert(ctx_keys()[i] == "ret_us"@ && "ret_us"@.len() == 6); } else if i == 26 { assert(ctx_keys()[i] == "tvldt"@ && "tvldt"@.len() == 5); } else if i == 27 { assert(ctx_keys()[i] == "date"@ && "date"@.len() == 4); } else if i == 28 { assert(ctx_keys()[i] == "dmon"@ && "dmon"@.len() == 4 && "dmon"@[1] == 'm' && "date"@[1] == 'a'); } else if i == 29 { assert(ctx_keys()[i] == "trip"@ && "trip"@.len() == 4 && "trip"@[0] == 't' && "date"@[0] == 'd'); } else if i == 30 { assert(ctx_keys()[i] == "ret"@ && "ret"@.len() == 3); } else if i == 31 { assert(ctx_keys()[i] == "ymd"@ && "ymd"@.len() == 3); } else if i == 32 { assert(ctx_keys()[i] == "mmt"@ && "mmt"@.len() == 3); } else if i == 33 { assert(ctx_keys()[i] == "ol"@ && "ol"@.len() == 2); } else if i == 34 { assert(ctx_keys()[i] == "dl"@ && "dl"@.len() == 2); } else if i == 35 { assert(ctx_keys()[i] == "ob"@ && "ob"@.len() == 2); } else if i == 36 { assert(ctx_keys()[i] == "db"@ && "db"@.len() == 2); } else if i == 37 { assert(ctx_keys()[i] == "us"@ && "us"@.len() == 2); } else if i == 38 { assert(ctx_keys()[i] == "o"@ && "o"@.len() == 1); } else if i == 39 { assert(ctx_keys()[i] == "d"@ && "d"@.len() == 1); } else if i == 40 { assert(ctx_keys()[i] == "q"@ && "q"@.len() == 1); }
    }
}

proof fn lemma_key_db()
    ensures
        ctx_keys().len() == 41,
        ctx_keys()[36] == "db"@,
        no_braces("db"@),
        forall|i: int| 0 <= i < 41 && #[trigger] ctx_keys()[i] == "db"@ ==> i == 36,
{
    reveal_strlit("priceline_path");
    reveal_strlit("despegar_kind");
    reveal_strlit("kayak_adults");
    reveal_strlit("edreams_path");
    reveal_strlit("despegar_ret");
    reveal_strlit("kayak_dates");
    reveal_strlit("book_return");
    reveal_strlit("cheapo_trip");
    reveal_strlit("ret_yymmdd");
    reveal_strlit("wego_dates");
    reveal_strlit("trip_adate");
    reveal_strlit("cheapo_ret");
    reveal_strlit("tvldt_pair");
    reveal_strlit("flighttype");
    reveal_strlit("book_cabin");
    reveal_strlit("book_type");
    reveal_strlit("sky_cabin");
    reveal_strlit("sky_path");
    reveal_strlit("mmt_itin");
    reveal_strlit("mmt_trip");
    reveal_strlit("kiwi_ret");
    reveal_strlit("ret_ymd");
    reveal_strlit("sky_rtn");
    reveal_strlit("yymmdd");
    reveal_strlit("adults");
    reveal_strlit("ret_us");
    reveal_strlit("tvldt");
    reveal_strlit("date");
    reveal_strlit("dmon");
    reveal_strlit("trip");
    reveal_strlit("ret");
    reveal_strlit("ymd");
    reveal_strlit("mmt");
    reveal_strlit("ol");
    reveal_strlit("dl");
    reveal_strlit("ob");
    reveal_strlit("db");
    reveal_strlit("us");
    reveal_strlit("o");
    reveal_strlit("d");
    reveal_strlit("q");
    assert("db"@.len() == 2);
    assert(no_braces("db"@));
    assert forall|i: int| 0 <= i < 41 && #[trigger] ctx_keys()[i] == "db"@ implies i == 36 by {
        if i == 0 { assert(ctx_keys()[i] == "priceline_path"@ && "priceline_path"@.len() == 14); } else if i == 1 { assert(ctx_keys()[i] == "despegar_kind"@ && "despegar_kind"@.len() == 13); } else if i == 2 { assert(ctx_keys()[i] == "kayak_adults"@ && "kayak_adults"@.len() == 12); } else if i == 3 { assert(ctx_keys()[i] == "edreams_path"@ && "edreams_path"@.len() == 12); } else if i == 4 { assert(ctx_keys()[i] == "despegar_ret"@ && "despegar_ret"@.len() == 12); } else if i == 5 { assert(ctx_keys()[i] == "kayak_dates"@ && "kayak_dates"@.len() == 11); } else if i == 6 { assert(ctx_keys()[i] == "book_return"@ && "book_return"@.len() == 11); } else if i == 7 { assert(ctx_keys()[i] == "cheapo_trip"@ && "cheapo_trip"@.len() == 11); } else if i == 8 { assert(ctx_keys()[i] == "ret_yymmdd"@ && "ret_yymmdd"@.len() == 10); } else if i == 9 { assert(ctx_keys()[i] == "wego_dates"@ && "wego_dates"@.len() == 10); } else if i == 10 { assert(ctx_keys()[i] == "trip_adate"@ && "trip_adate"@.len() == 10); } else if i == 11 { assert(ctx_keys()[i] == "cheapo_ret"@ && "cheapo_ret"@.len() == 10); } else if i == 12 { assert(ctx_keys()[i] == "tvldt_pair"@ && "tvldt_pair"@.len() == 10); } else if i == 13 { assert(ctx_keys()[i] == "flighttype"@ && "flighttype"@.len() == 10); } else if i == 14 { assert(ctx_keys()[i] == "book_cabin"@ && "book_cabin"@.len() == 10); } else if i == 15 { assert(ctx_keys()[i] == "book_type"@ && "book_type"@.len() == 9); } else if i == 16 { assert(ctx_keys()[i] == "sky_cabin"@ && "sky_cabin"@.len() == 9); } else if i == 17 { assert(ctx_keys()[i] == "sky_path"@ && "sky_path"@.len() == 8); } else if i == 18 { assert(ctx_keys()[i] == "mmt_itin"@ && "mmt_itin"@.len() == 8); } else if i == 19 { assert(ctx_keys()[i] == "mmt_trip"@ && "mmt_trip"@.len() == 8); } else if i == 20 { assert(ctx_keys()[i] == "kiwi_ret"@ && "kiwi_ret"@.len() == 8); } else if i == 21 { assert(ctx_keys()[i] == "ret_ymd"@ && "ret_ymd"@.len() == 7); } else if i == 22 { assert(ctx_keys()[i] == "sky_rtn"@ && "sky_rtn"@.len() == 7); } else if i == 23 { assert(ctx_keys()[i] == "yymmdd"@ && "yymmdd"@.len() == 6); } else if i == 24 { assert(ctx_keys()[i] == "adults"@ && "adults"@.len() == 6); } else if i == 25 { assert(ctx_keys()[i] == "ret_us"@ && "ret_us"@.len() == 6); } else if i == 26 { assert(ctx_keys()[i] == "tvldt"@ && "tvldt"@.len() == 5); } else if i == 27 { assert(ctx_keys()[i] == "date"@ && "date"@.len() == 4); } else if i == 28 { assert(ctx_keys()[i] == "dmon"@ && "dmon"@.len() == 4); } else if i == 29 { assert(ctx_keys()[i] == "trip"@ && "trip"@.len() == 4); } else if i == 30 { assert(ctx_keys()[i] == "ret"@ && "ret"@.len() == 3); } else if i == 31 { assert(ctx_keys()[i] == "ymd"@ && "ymd"@.len() == 3); } else if i == 32 { assert(ctx_keys()[i] == "mmt"@ && "mmt"@.len() == 3); } else if i == 33 { assert(ctx_keys()[i] == "ol"@ && "ol"@.len() == 2 && "ol"@[0] == 'o' && "db"@[0] == 'd'); } else if i == 34 { assert(ctx_keys()[i] == "dl"@ && "dl"@.len() == 2 && "dl"@[1] == 'l' && "db"@[1] == 'b'); } else if i == 35 { assert(ctx_keys()[i] == "ob"@ && "ob"@.len() == 2 && "ob"@[0] == 'o' && "db"@[0] == 'd'); } else if i == 36 { assert(ctx_keys()[i] == "db"@ && "db"@.len() == 2); } else if i == 37 { assert(ctx_keys()[i] == "us"@ && "us"@.len() == 2 && "us"@[0] == 'u' && "db"@[0] == 'd'); } else if i == 38 { assert(ctx_keys()[i] == "o"@ && "o"@.len() == 1); } else if i == 39 { assert(ctx_keys()[i] == "d"@ && "d"@.len() == 1); } else if i == 40 { assert(ctx_keys()[i] == "q"@ && "q"@.len() == 1); }
    }
}

proof fn lemma_key_despegar_kind()
    ensures
        ctx_keys().len() == 41,
        ctx_keys()[1] == "despegar_kind"@,
        no_braces("despegar_kind"@),
        forall|i: int| 0 <= i < 41 && #[trigger] ctx_keys()[i] == "despegar_kind"@ ==> i == 1,
{
    reveal_strlit("priceline_path");
    reveal_strlit("despegar_kind");
    reveal_strlit("kayak_adults");
    reveal_strlit("edreams_path");
    reveal_strlit("despegar_ret");
    reveal_strlit("kayak_dates");
    reveal_strlit("book_return");
    reveal_strlit("cheapo_trip");
    reveal_strlit("ret_yymmdd");
    reveal_strlit("wego_dates");
    reveal_strlit("trip_adate");
    reveal_strlit("cheapo_ret");
    reveal_strlit("tvldt_pair");
    reveal_strlit("flighttype");
    reveal_strlit("book_cabin");
    reveal_strlit("book_type");
    reveal_strlit("sky_cabin");
    reveal_strlit("sky_path");
    reveal_strlit("mmt_itin");
    reveal_strlit("mmt_trip");
    reveal_strlit("kiwi_ret");
    reveal_strlit("ret_ymd");
    reveal_strlit("sky_rtn");
    reveal_strlit("yymmdd");
    reveal_strlit("adults");
    reveal_strlit("ret_us");
    reveal_strlit("tvldt");
    reveal_strlit("date");
    reveal_strlit("dmon");
    reveal_strlit("trip");
    reveal_strlit("ret");
    reveal_strlit("ymd");
    reveal_strlit("mmt");
    reveal_strlit("ol");
    reveal_strlit("dl");
    reveal_strlit("ob");
    reveal_strlit("db");
    reveal_strlit("us");
    reveal_strlit("o");
    reveal_strlit("d");
    reveal_strlit("q");
    assert("despegar_kind"@.len() == 13);
    assert(no_braces("despegar_kind"@));
    assert forall|i: int| 0 <= i < 41 && #[trigger] ctx_keys()[i] == "despegar_kind"@ implies i == 1 by {
        if i == 0 { assert(ctx_keys()[i] == "priceline_path"@ && "priceline_path"@.len() == 14); } else if i == 1 { assert(ctx_keys()[i] == "despegar_kind"@ && "despegar_kind"@.len() == 13); } else if i == 2 { assert(ctx_keys()[i] == "kayak_adults"@ && "kayak_adults"@.len() == 12); } else if i == 3 { assert(ctx_keys()[i] == "edreams_path"@ && "edreams_path"@.len() == 12); } else if i == 4 { assert(ctx_keys()[i] == "despegar_ret"@ && "despegar_ret"@.len() == 12); } else if i == 5 { assert(ctx_keys()[i] == "kayak_dates"@ && "kayak_dates"@.len() == 11); } else if i == 6 { assert(ctx_keys()[i] == "book_return"@ && "book_return"@.len() == 11); } else if i == 7 { assert(ctx_keys()[i] == "cheapo_trip"@ && "cheapo_trip"@.len() == 11); } else if i == 8 { assert(ctx_keys()[i] == "ret_yymmdd"@ && "ret_yymmdd"@.len() == 10); } else if i == 9 { assert(ctx_keys()[i] == "wego_dates"@ && "wego_dates"@.len() == 10); } else if i == 10 { assert(ctx_keys()[i] == "trip_adate"@ && "trip_adate"@.len() == 10); } else if i == 11 { assert(ctx_keys()[i] == "cheapo_ret"@ && "cheapo_ret"@.len() == 10); } else if i == 12 { assert(ctx_keys()[i] == "tvldt_pair"@ && "tvldt_pair"@.len() == 10); } else if i == 13 { assert(ctx_keys()[i] == "flighttype"@ && "flighttype"@.len() == 10); } else if i == 14 { assert(ctx_keys()[i] == "book_cabin"@ && "book_cabin"@.len() == 10); } else if i == 15 { assert(ctx_keys()[i] == "book_type"@ && "book_type"@.len() == 9); } else if i == 16 { assert(ctx_keys()[i] == "sky_cabin"@ && "sky_cabin"@.len() == 9); } else if i == 17 { assert(ctx_keys()[i] == "sky_path"@ && "sky_path"@.len() == 8); } else if i == 18 { assert(ctx_keys()[i] == "mmt_itin"@ && "mmt_itin"@.len() == 8); } else if i == 19 { assert(ctx_keys()[i] == "mmt_trip"@ && "mmt_trip"@.len() == 8); } else if i == 20 { assert(ctx_keys()[i] == "kiwi_ret"@ && "kiwi_ret"@.len() == 8); } else if i == 21 { assert(ctx_keys()[i] == "ret_ymd"@ && "ret_ymd"@.len() == 7); } else if i == 22 { assert(ctx_keys()[i] == "sky_rtn"@ && "sky_rtn"@.len() == 7); } else if i == 23 { assert(ctx_keys()[i] == "yymmdd"@ && "yymmdd"@.len() == 6); } else if i == 24 { assert(ctx_keys()[i] == "adults"@ && "adults"@.len() == 6); } else if i == 25 { assert(ctx_keys()[i] == "ret_us"@ && "ret_us"@.len() == 6); } else if i == 26 { assert(ctx_keys()[i] == "tvldt"@ && "tvldt"@.len() == 5); } else if i == 27 { assert(ctx_keys()[i] == "date"@ && "date"@.len() == 4); } else if i == 28 { assert(ctx_keys()[i] == "dmon"@ && "dmon"@.len() == 4); } else if i == 29 { assert(ctx_keys()[i] == "trip"@ && "trip"@.len() == 4); } else if i == 30 { assert(ctx_keys()[i] == "ret"@ && "ret"@.len() == 3); } else if i == 31 { assert(ctx_keys()[i] == "ymd"@ && "ymd"@.len() == 3); } else if i == 32 { assert(ctx_keys()[i] == "mmt"@ && "mmt"@.len() == 3); } else if i == 33 { assert(ctx_keys()[i] == "ol"@ && "ol"@.len() == 2); } else if i == 34 { assert(ctx_keys()[i] == "dl"@ && "dl"@.len() == 2); } else if i == 35 { assert(ctx_keys()[i] == "ob"@ && "ob"@.len() == 2); } else if i == 36 { assert(ctx_keys()[i] == "db"@ && "db"@.len() == 2); } else if i == 37 { assert(ctx_keys()[i] == "us"@ && "us"@.len() == 2); } else if i == 38 { assert(ctx_keys()[i] == "o"@ && "o"@.len() == 1); } else if i == 39 { assert(ctx_keys()[i] == "d"@ && "d"@.len() == 1); } else if i == 40 { assert(ctx_keys()[i] == "q"@ && "q"@.len() == 1); }
    }
}

proof fn lemma_key_despegar_ret()
    ensures
        ctx_keys().len() == 41,
        ctx_keys()[4] == "despegar_ret"@,
        no_braces("despegar_ret"@),
        forall|i: int| 0 <= i < 41 && #[trigger] ctx_keys()[i] == "despegar_ret"@ ==> i == 4,
{
    reveal_strlit("priceline_path");
    reveal_strlit("despegar_kind");
    reveal_strlit("kayak_adults");
    reveal_strlit("edreams_path");
    reveal_strlit("despegar_ret");
    reveal_strlit("kayak_dates");
    reveal_strlit("book_return");
    reveal_strlit("cheapo_trip");
    reveal_strlit("ret_yymmdd");
    reveal_strlit("wego_dates");
    reveal_strlit("trip_adate");
    reveal_strlit("cheapo_ret");
    reveal_strlit("tvldt_pair");
    reveal_strlit("flighttype");
    reveal_strlit("book_cabin");
    reveal_strlit("book_type");
    reveal_strlit("sky_cabin");
    reveal_strlit("sky_path");
    reveal_strlit("mmt_itin");
    reveal_strlit("mmt_trip");
    reveal_strlit("kiwi_ret");
    reveal_strlit("ret_ymd");
    reveal_strlit("sky_rtn");
    reveal_strlit("yymmdd");
    reveal_strlit("adults");
    reveal_strlit("ret_us");
    reveal_strlit("tvldt");
    reveal_strlit("date");
    reveal_strlit("dmon");
    reveal_strlit("trip");
    reveal_strlit("ret");
    reveal_strlit("ymd");
    reveal_strlit("mmt");
    reveal_strlit("ol");
    reveal_strlit("dl");
    reveal_strlit("ob");
    reveal_strlit("db");
    reveal_strlit("us");
    reveal_strlit("o");
    reveal_strlit("d");
    reveal_strlit("q");
    assert("despegar_ret"@.len() == 12);
    assert(no_braces("despegar_ret"@));
    assert forall|i: int| 0 <= i < 41 && #[trigger] ctx_keys()[i] == "despegar_ret"@ implies i == 4 by {
        if i == 0 { assert(ctx_keys()[i] == "priceline_path"@ && "priceline_path"@.len() == 14); } else if i == 1 { assert(ctx_keys()[i] == "despegar_kind"@ && "despegar_kind"@.len() == 13); } else if i == 2 { assert(ctx_keys()[i] == "kayak_adults"@ && "kayak_adults"@.len() == 12 && "kayak_adults"@[0] == 'k' && "despegar_ret"@[0] == 'd'); } else if i == 3 { assert(ctx_keys()[i] == "edreams_path"@ && "edreams_path"@.len() == 12 && "edreams_path"@[0] == 'e' && "despegar_ret"@[0] == 'd'); } else if i == 4 { assert(ctx_keys()[i] == "despegar_ret"@ && "despegar_ret"@.len() == 12); } else if i == 5 { assert(ctx_keys()[i] == "kayak_dates"@ && "kayak_dates"@.len() == 11); } else if i == 6 { assert(ctx_keys()[i] == "book_return"@ && "book_return"@.len() == 11); } else if i == 7 { assert(ctx_keys()[i] == "cheapo_trip"@ && "cheapo_trip"@.len() == 11); } else if i == 8 { assert(ctx_keys()[i] == "ret_yymmdd"@ && "ret_yymmdd"@.len() == 10); } else if i == 9 { assert(ctx_keys()[i] == "wego_dates"@ && "wego_dates"@.len() == 10); } else if i == 10 { assert(ctx_keys()[i] == "trip_adate"@ && "trip_adate"@.len() == 10); } else if i == 11 { assert(ctx_keys()[i] == "cheapo_ret"@ && "cheapo_ret"@.len() == 10); } else if i == 12 { assert(ctx_keys()[i] == "tvldt_pair"@ && "tvldt_pair"@.len() == 10); } else if i == 13 { assert(ctx_keys()[i] == "flighttype"@ && "flighttype"@.len() == 10); } else if i == 14 { assert(ctx_keys()[i] == "book_cabin"@ && "book_cabin"@.len() == 10); } else if i == 15 { assert(ctx_keys()[i] == "book_type"@ && "book_type"@.len() == 9); } else if i == 16 { assert(ctx_keys()[i] == "sky_cabin"@ && "sky_cabin"@.len() == 9); } else if i == 17 { assert(ctx_keys()[i] == "sky_path"@ && "sky_path"@.len() == 8); } else if i == 18 { assert(ctx_keys()[i] == "mmt_itin"@ && "mmt_itin"@.len() == 8); } else if i == 19 { assert(ctx_keys()[i] == "mmt_trip"@ && "mmt_trip"@.len() == 8); } else if i == 20 { assert(ctx_keys()[i] == "kiwi_ret"@ && "kiwi_ret"@.len() == 8); } else if i == 21 { assert(ctx_keys()[i] == "ret_ymd"@ && "ret_ymd"@.len() == 7); } else if i == 22 { assert(ctx_keys()[i] == "sky_rtn"@ && "sky_rtn"@.len() == 7); } else if i == 23 { assert(ctx_keys()[i] == "yymmdd"@ && "yymmdd"@.len() == 6); } else if i == 24 { assert(ctx_keys()[i] == "adults"@ && "adults"@.len() == 6); } else if i == 25 { assert(ctx_keys()[i] == "ret_us"@ && "ret_us"@.len() == 6); } else if i == 26 { assert(ctx_keys()[i] == "tvldt"@ && "tvldt"@.len() == 5); } else if i == 27 { assert(ctx_keys()[i] == "date"@ && "date"@.len() == 4); } else if i == 28 { assert(ctx_keys()[i] == "dmon"@ && "dmon"@.len() == 4); } else if i == 29 { assert(ctx_keys()[i] == "trip"@ && "trip"@.len() == 4); } else if i == 30 { assert(ctx_keys()[i] == "ret"@ && "ret"@.len() == 3); } else if i == 31 { assert(ctx_keys()[i] == "ymd"@ && "ymd"@.len() == 3); } else if i == 32 { assert(ctx_keys()[i] == "mmt"@ && "mmt"@.len() == 3); } else if i == 33 { assert(ctx_keys()[i] == "ol"@ && "ol"@.len() == 2); } else if i == 34 { assert(ctx_keys()[i] == "dl"@ && "dl"@.len() == 2); } else if i == 35 { assert(ctx_keys()[i] == "ob"@ && "ob"@.len() == 2); } else if i == 36 { assert(ctx_keys()[i] == "db"@ && "db"@.len() == 2); } else if i == 37 { assert(ctx_keys()[i] == "us"@ && "us"@.len() == 2); } else if i == 38 { assert(ctx_keys()[i] == "o"@ && "o"@.len() == 1); } else if i == 39 { assert(ctx_keys()[i] == "d"@ && "d"@.len() == 1); } else if i == 40 { assert(ctx_keys()[i] == "q"@ && "q"@.len() == 1); }
    }
}

proof fn lemma_key_dl()
    ensures
        ctx_keys().len() == 41,
        ctx_keys()[34] == "dl"@,
        no_braces("dl"@),
        forall|i: int| 0 <= i < 41 && #[trigger] ctx_keys()[i] == "dl"@ ==> i == 34,
{
    reveal_strlit("priceline_path");
    reveal_strlit("despegar_kind");
    reveal_strlit("kayak_adults");
    reveal_strlit("edreams_path");
    reveal_strlit("despegar_ret");
    reveal_strlit("kayak_dates");
    reveal_strlit("book_return");
    reveal_strlit("cheapo_trip");
    reveal_strlit("ret_yymmdd");
    reveal_strlit("wego_dates");
    reveal_strlit("trip_adate");
    reveal_strlit("cheapo_ret");
    reveal_strlit("tvldt_pair");
    reveal_strlit("flighttype");
    reveal_strlit("book_cabin");
    reveal_strlit("book_type");
    reveal_strlit("sky_cabin");
    reveal_strlit("sky_path");
    reveal_strlit("mmt_itin");
    reveal_strlit("mmt_trip");
    reveal_strlit("kiwi_ret");
    reveal_strlit("ret_ymd");
    reveal_strlit("sky_rtn");
    reveal_strlit("yymmdd");
    reveal_strlit("adults");
    reveal_strlit("ret_us");
    reveal_strlit("tvldt");
    reveal_strlit("date");
    reveal_strlit("dmon");
    reveal_strlit("trip");
    reveal_strlit("ret");
    reveal_strlit("ymd");
    reveal_strlit("mmt");
    reveal_strlit("ol");
    reveal_strlit("dl");
    reveal_strlit("ob");
    reveal_strlit("db");
    reveal_strlit("us");
    reveal_strlit("o");
    reveal_strlit("d");
    reveal_strlit("q");
    assert("dl"@.len() == 2);
    assert(no_braces("dl"@));
    assert forall|i: int| 0 <= i < 41 && #[trigger] ctx_keys()[i] == "dl"@ implies i == 34 by {
        if i == 0 { assert(ctx_keys()[i] == "priceline_path"@ && "priceline_path"@.len() == 14); } else if i == 1 { assert(ctx_keys()[i] == "despegar_kind"@ && "despegar_kind"@.len() == 13); } else if i == 2 { assert(ctx_keys()[i] == "kayak_adults"@ && "kayak_adults"@.len() == 12); } else if i == 3 { assert(ctx_keys()[i] == "edreams_path"@ && "edreams_path"@.len() == 12); } else if i == 4 { assert(ctx_keys()[i] == "despegar_ret"@ && "despegar_ret"@.len() == 12); } else if i == 5 { assert(ctx_keys()[i] == "kayak_dates"@ && "kayak_dates"@.len() == 11); } else if i == 6 { assert(ctx_keys()[i] == "book_return"@ && "book_return"@.len() == 11); } else if i == 7 { assert(ctx_keys()[i] == "cheapo_trip"@ && "cheapo_trip"@.len() == 11); } else if i == 8 { assert(ctx_keys()[i] == "ret_yymmdd"@ && "ret_yymmdd"@.len() == 10); } else if i == 9 { assert(ctx_keys()[i] == "wego_dates"@ && "wego_dates"@.len() == 10); } else if i == 10 { assert(ctx_keys()[i] == "trip_adate"@ && "trip_adate"@.len() == 10); } else if i == 11 { assert(ctx_keys()[i] == "cheapo_ret"@ && "cheapo_ret"@.len() == 10); } else if i == 12 { assert(ctx_keys()[i] == "tvldt_pair"@ && "tvldt_pair"@.len() == 10); } else if i == 13 { assert(ctx_keys()[i] == "flighttype"@ && "flighttype"@.len() == 10); } else if i == 14 { assert(ctx_keys()[i] == "book_cabin"@ && "book_cabin"@.len() == 10); } else if i == 15 { assert(ctx_keys()[i] == "book_type"@ && "book_type"@.len() == 9); } else if i == 16 { assert(ctx_keys()[i] == "sky_cabin"@ && "sky_cabin"@.len() == 9); } else if i == 17 { assert(ctx_keys()[i] == "sky_path"@ && "sky_path"@.len() == 8); } else if i == 18 { assert(ctx_keys()[i] == "mmt_itin"@ && "mmt_itin"@.len() == 8); } else if i == 19 { assert(ctx_keys()[i] == "mmt_trip"@ && "mmt_trip"@.len() == 8); } else if i == 20 { assert(ctx_keys()[i] == "kiwi_ret"@ && "kiwi_ret"@.len() == 8); } else if i == 21 { assert(ctx_keys()[i] == "ret_ymd"@ && "ret_ymd"@.len() == 7); } else if i == 22 { assert(ctx_keys()[i] == "sky_rtn"@ && "sky_rtn"@.len() == 7); } else if i == 23 { assert(ctx_keys()[i] == "yymmdd"@ && "yymmdd"@.len() == 6); } else if i == 24 { assert(ctx_keys()[i] == "adults"@ && "adults"@.len() == 6); } else if i == 25 { assert(ctx_keys()[i] == "ret_us"@ && "ret_us"@.len() == 6); } else if i == 26 { assert(ctx_keys()[i] == "tvldt"@ && "tvldt"@.len() == 5); } else if i == 27 { assert(ctx_keys()[i] == "date"@ && "date"@.len() == 4); } else if i == 28 { assert(ctx_keys()[i] == "dmon"@ && "dmon"@.len() == 4); } else if i == 29 { assert(ctx_keys()[i] == "trip"@ && "trip"@.len() == 4); } else if i == 30 { assert(ctx_keys()[i] == "ret"@ && "ret"@.len() == 3); } else if i == 31 { assert(ctx_keys()[i] == "ymd"@ && "ymd"@.len() == 3); } else if i == 32 { assert(ctx_keys()[i] == "mmt"@ && "mmt"@.len() == 3); } else if i == 33 { assert(ctx_keys()[i] == "ol"@ && "ol"@.len() == 2 && "ol"@[0] == 'o' && "dl"@[0] == 'd'); } else if i == 34 { assert(ctx_keys()[i] == "dl"@ && "dl"@.len() == 2); } else if i == 35 { assert(ctx_keys()[i] == "ob"@ && "ob"@.len() == 2 && "ob"@[0] == 'o' && "dl"@[0] == 'd'); } else if i == 36 { assert(ctx_keys()[i] == "db"@ && "db"@.len() == 2 && "db"@[1] == 'b' && "dl"@[1] == 'l'); } else if i == 37 { assert(ctx_keys()[i] == "us"@ && "us"@.len() == 2 && "us"@[0] == 'u' && "dl"@[0] == 'd'); } else if i == 38 { assert(ctx_keys()[i] == "o"@ && "o"@.len() == 1); } else if i == 39 { assert(ctx_keys()[i] == "d"@ && "d"@.len() == 1); } else if i == 40 { assert(ctx_keys()[i] == "q"@ && "q"@.len() == 1); }
    }
}

proof fn lemma_key_edreams_path()
    ensures
        ctx_keys().len() == 41,
        ctx_keys()[3] == "edreams_path"@,
        no_braces("edreams_path"@),
        forall|i: int| 0 <= i < 41 && #[trigger] ctx_keys()[i] == "edreams_path"@ ==> i == 3,
{
    reveal_strlit("priceline_path");
    reveal_strlit("despegar_kind");
    reveal_strlit("kayak_adults");
    reveal_strlit("edreams_path");
    reveal_strlit("despegar_ret");
    reveal_strlit("kayak_dates");
    reveal_strlit("book_return");
    reveal_strlit("cheapo_trip");
    reveal_strlit("ret_yymmdd");
    reveal_strlit("wego_dates");
    reveal_strlit("trip_adate");
    reveal_strlit("cheapo_ret");
    reveal_strlit("tvldt_pair");
    reveal_strlit("flighttype");
    reveal_strlit("book_cabin");
    reveal_strlit("book_type");
    reveal_strlit("sky_cabin");
    reveal_strlit("sky_path");
    reveal_strlit("mmt_itin");
    reveal_strlit("mmt_trip");
    reveal_strlit("kiwi_ret");
    reveal_strlit("ret_ymd");
    reveal_strlit("sky_rtn");
    reveal_strlit("yymmdd");
    reveal_strlit("adults");
    reveal_strlit("ret_us");
    reveal_strlit("tvldt");
    reveal_strlit("date");
    reveal_strlit("dmon");
    reveal_strlit("trip");
    reveal_strlit("ret");
    reveal_strlit("ymd");
    reveal_strlit("mmt");
    reveal_strlit("ol");
    reveal_strlit("dl");
    reveal_strlit("ob");
    reveal_strlit("db");
    reveal_strlit("us");
    reveal_strlit("o");
    reveal_strlit("d");
    reveal_strlit("q");
    assert("edreams_path"@.len() == 12);
    assert(no_braces("edreams_path"@));
    assert forall|i: int| 0 <= i < 41 && #[trigger] ctx_keys()[i] == "edreams_path"@ implies i == 3 by {
        if i == 0 { assert(ctx_keys()[i] == "priceline_path"@ && "priceline_path"@.len() == 14); } else if i == 1 { assert(ctx_keys()[i] == "despegar_kind"@ && "despegar_kind"@.len() == 13); } else if i == 2 { assert(ctx_keys()[i] == "kayak_adults"@ && "kayak_adults"@.len() == 12 && "kayak_adults"@[0] == 'k' && "edreams_path"@[0] == 'e'); } else if i == 3 { assert(ctx_keys()[i] == "edreams_path"@ && "edreams_path"@.len() == 12); } else if i == 4 { assert(ctx_keys()[i] == "despegar_ret"@ && "despegar_ret"@.len() == 12 && "despegar_ret"@[0] == 'd' && "edreams_path"@[0] == 'e'); } else if i == 5 { assert(ctx_keys()[i] == "kayak_dates"@ && "kayak_dates"@.len() == 11); } else if i == 6 { assert(ctx_keys()[i] == "book_return"@ && "book_return"@.len() == 11); } else if i == 7 { assert(ctx_keys()[i] == "cheapo_trip"@ && "cheapo_trip"@.len() == 11); } else if i == 8 { assert(ctx_keys()[i] == "ret_yymmdd"@ && "ret_yymmdd"@.len() == 10); } else if i == 9 { assert(ctx_keys()[i] == "wego_dates"@ && "wego_dates"@.len() == 10); } else if i == 10 { assert(ctx_keys()[i] == "trip_adate"@ && "trip_adate"@.len() == 10); } else if i == 11 { assert(ctx_keys()[i] == "cheapo_ret"@ && "cheapo_ret"@.len() == 10); } else if i == 12 { assert(ctx_keys()[i] == "tvldt_pair"@ && "tvldt_pair"@.len() == 10); } else if i == 13 { assert(ctx_keys()[i] == "flighttype"@ && "flighttype"@.len() == 10); } else if i == 14 { assert(ctx_keys()[i] == "book_cabin"@ && "book_cabin"@.len() == 10); } else if i == 15 { assert(ctx_keys()[i] == "book_type"@ && "book_type"@.len() == 9); } else if i == 16 { assert(ctx_keys()[i] == "sky_cabin"@ && "sky_cabin"@.len() == 9); } else if i == 17 { assert(ctx_keys()[i] == "sky_path"@ && "sky_path"@.len() == 8); } else if i == 18 { assert(ctx_keys()[i] == "mmt_itin"@ && "mmt_itin"@.len() == 8); } else if i == 19 { assert(ctx_keys()[i] == "mmt_trip"@ && "mmt_trip"@.len() == 8); } else if i == 20 { assert(ctx_keys()[i] == "kiwi_ret"@ && "kiwi_ret"@.len() == 8); } else if i == 21 { assert(ctx_keys()[i] == "ret_ymd"@ && "ret_ymd"@.len() == 7); } else if i == 22 { assert(ctx_keys()[i] == "sky_rtn"@ && "sky_rtn"@.len() == 7); } else if i == 23 { assert(ctx_keys()[i] == "yymmdd"@ && "yymmdd"@.len() == 6); } else if i == 24 { assert(ctx_keys()[i] == "adults"@ && "adults"@.len() == 6); } else if i == 25 { assert(ctx_keys()[i] == "ret_us"@ && "ret_us"@.len() == 6); } else if i == 26 { assert(ctx_keys()[i] == "tvldt"@ && "tvldt"@.len() == 5); } else if i == 27 { assert(ctx_keys()[i] == "date"@ && "date"@.len() == 4); } else if i == 28 { assert(ctx_keys()[i] == "dmon"@ && "dmon"@.len() == 4); } else if i == 29 { assert(ctx_keys()[i] == "trip"@ && "trip"@.len() == 4); } else if i == 30 { assert(ctx_keys()[i] == "ret"@ && "ret"@.len() == 3); } else if i == 31 { assert(ctx_keys()[i] == "ymd"@ && "ymd"@.len() == 3); } else if i == 32 { assert(ctx_keys()[i] == "mmt"@ && "mmt"@.len() == 3); } else if i == 33 { assert(ctx_keys()[i] == "ol"@ && "ol"@.len() == 2); } else if i == 34 { assert(ctx_keys()[i] == "dl"@ && "dl"@.len() == 2); } else if i == 35 { assert(ctx_keys()[i] == "ob"@ && "ob"@.len() == 2); } else if i == 36 { assert(ctx_keys()[i] == "db"@ && "db"@.len() == 2); } else if i == 37 { assert(ctx_keys()[i] == "us"@ && "us"@.len() == 2); } else if i == 38 { assert(ctx_keys()[i] == "o"@ && "o"@.len() == 1); } else if i == 39 { assert(ctx_keys()[i] == "d"@ && "d"@.len() == 1); } else if i == 40 { assert(ctx_keys()[i] == "q"@ && "q"@.len() == 1); }
    }
}

proof fn lemma_key_flighttype()
    ensures
        ctx_keys().len() == 41,
        ctx_keys()[13] == "flighttype"@,
        no_braces("flighttype"@),
        forall|i: int| 0 <= i < 41 && #[trigger] ctx_keys()[i] == "flighttype"@ ==> i == 13,
{
    reveal_strlit("priceline_path");
    reveal_strlit("despegar_kind");
    reveal_strlit("kayak_adults");
    reveal_strlit("edreams_path");
    reveal_strlit("despegar_ret");
    reveal_strlit("kayak_dates");
    reveal_strlit("book_return");
    reveal_strlit("cheapo_trip");
    reveal_strlit("ret_yymmdd");
    reveal_strlit("wego_dates");
    reveal_strlit("trip_adate");
    reveal_strlit("cheapo_ret");
    reveal_strlit("tvldt_pair");
    reveal_strlit("flighttype");
    reveal_strlit("book_cabin");
    reveal_strlit("book_type");
    reveal_strlit("sky_cabin");
    reveal_strlit("sky_path");
    reveal_strlit("mmt_itin");
    reveal_strlit("mmt_trip");
    reveal_strlit("kiwi_ret");
    reveal_strlit("ret_ymd");
    reveal_strlit("sky_rtn");
    reveal_strlit("yymmdd");
    reveal_strlit("adults");
    reveal_strlit("ret_us");
    reveal_strlit("tvldt");
    reveal_strlit("date");
    reveal_strlit("dmon");
    reveal_strlit("trip");
    reveal_strlit("ret");
    reveal_strlit("ymd");
    reveal_strlit("mmt");
    reveal_strlit("ol");
    reveal_strlit("dl");
    reveal_strlit("ob");
    reveal_strlit("db");
    reveal_strlit("us");
    reveal_strlit("o");
    reveal_strlit("d");
    reveal_strlit("q");
    assert("flighttype"@.len() == 10);
    assert(no_braces("flighttype"@));
    assert forall|i: int| 0 <= i < 41 && #[trigger] ctx_keys()[i] == "flighttype"@ implies i == 13 by {
        if i == 0 { assert(ctx_keys()[i] == "priceline_path"@ && "priceline_path"@.len() == 14); } else if i == 1 { assert(ctx_keys()[i] == "despegar_kind"@ && "despegar_kind"@.len() == 13); } else if i == 2 { assert(ctx_keys()[i] == "kayak_adults"@ && "kayak_adults"@.len() == 12); } else if i == 3 { assert(ctx_keys()[i] == "edreams_path"@ && "edreams_path"@.len() == 12); } else if i == 4 { assert(ctx_keys()[i] == "despegar_ret"@ && "despegar_ret"@.len() == 12); } else if i == 5 { assert(ctx_keys()[i] == "kayak_dates"@ && "kayak_dates"@.len() == 11); } else if i == 6 { assert(ctx_keys()[i] == "book_return"@ && "book_return"@.len() == 11); } else if i == 7 { assert(ctx_keys()[i] == "cheapo_trip"@ && "cheapo_trip"@.len() == 11); } else if i == 8 { assert(ctx_keys()[i] == "ret_yymmdd"@ && "ret_yymmdd"@.len() == 10 && "ret_yymmdd"@[0] == 'r' && "flighttype"@[0] == 'f'); } else if i == 9 { assert(ctx_keys()[i] == "wego_dates"@ && "wego_dates"@.len() == 10 && "wego_dates"@[0] == 'w' && "flighttype"@[0] == 'f'); } else if i == 10 { assert(ctx_keys()[i] == "trip_adate"@ && "trip_adate"@.len() == 10 && "trip_adate"@[0] == 't' && "flighttype"@[0] == 'f'); } else if i == 11 { assert(ctx_keys()[i] == "cheapo_ret"@ && "cheapo_ret"@.len() == 10 && "cheapo_ret"@[0] == 'c' && "flighttype"@[0] == 'f'); } else if i == 12 { assert(ctx_keys()[i] == "tvldt_pair"@ && "tvldt_pair"@.len() == 10 && "tvldt_pair"@[0] == 't' && "flighttype"@[0] == 'f'); } else if i == 13 { assert(ctx_keys()[i] == "flighttype"@ && "flighttype"@.len() == 10); } else if i == 14 { assert(ctx_keys()[i] == "book_cabin"@ && "book_cabin"@.len() == 10 && "book_cabin"@[0] == 'b' && "flighttype"@[0] == 'f'); } else if i == 15 { assert(ctx_keys()[i] == "book_type"@ && "book_type"@.len() == 9); } else if i == 16 { assert(ctx_keys()[i] == "sky_cabin"@ && "sky_cabin"@.len() == 9); } else if i == 17 { assert(ctx_keys()[i] == "sky_path"@ && "sky_path"@.len() == 8); } else if i == 18 { assert(ctx_keys()[i] == "mmt_itin"@ && "mmt_itin"@.len() == 8); } else if i == 19 { assert(ctx_keys()[i] == "mmt_trip"@ && "mmt_trip"@.len() == 8); } else if i == 20 { assert(ctx_keys()[i] == "kiwi_ret"@ && "kiwi_ret"@.len() == 8); } else if i == 21 { assert(ctx_keys()[i] == "ret_ymd"@ && "ret_ymd"@.len() == 7); } else if i == 22 { assert(ctx_keys()[i] == "sky_rtn"@ && "sky_rtn"@.len() == 7); } else if i == 23 { assert(ctx_keys()[i] == "yymmdd"@ && "yymmdd"@.len() == 6); } else if i == 24 { assert(ctx_keys()[i] == "adults"@ && "adults"@.len() == 6); } else if i == 25 { assert(ctx_keys()[i] == "ret_us"@ && "ret_us"@.len() == 6); } else if i == 26 { assert(ctx_keys()[i] == "tvldt"@ && "tvldt"@.len() == 5); } else if i == 27 { assert(ctx_keys()[i] == "date"@ && "date"@.len() == 4); } else if i == 28 { assert(ctx_keys()[i] == "dmon"@ && "dmon"@.len() == 4); } else if i == 29 { assert(ctx_keys()[i] == "trip"@ && "trip"@.len() == 4); } else if i == 30 { assert(ctx_keys()[i] == "ret"@ && "ret"@.len() == 3); } else if i == 31 { assert(ctx_keys()[i] == "ymd"@ && "ymd"@.len() == 3); } else if i == 32 { assert(ctx_keys()[i] == "mmt"@ && "mmt"@.len() == 3); } else if i == 33 { assert(ctx_keys()[i] == "ol"@ && "ol"@.len() == 2); } else if i == 34 { assert(ctx_keys()[i] == "dl"@ && "dl"@.len() == 2); } else if i == 35 { assert(ctx_keys()[i] == "ob"@ && "ob"@.len() == 2); } else if i == 36 { assert(ctx_keys()[i] == "db"@ && "db"@.len() == 2); } else if i == 37 { assert(ctx_keys()[i] == "us"@ && "us"@.len() == 2); } else if i == 38 { assert(ctx_keys()[i] == "o"@ && "o"@.len() == 1); } else if i == 39 { assert(ctx_keys()[i] == "d"@ && "d"@.len() == 1); } else if i == 40 { assert(ctx_keys()[i] == "q"@ && "q"@.len() == 1); }
    }
}

proof fn lemma_key_kiwi_ret()
    ensures
        ctx_keys().len() == 41,
        ctx_keys()[20] == "kiwi_ret"@,
        no_braces("kiwi_ret"@),
        forall|i: int| 0 <= i < 41 && #[trigger] ctx_keys()[i] == "kiwi_ret"@ ==> i == 20,
{
    reveal_strlit("priceline_path");
    reveal_strlit("despegar_kind");
    reveal_strlit("kayak_adults");
    reveal_strlit("edreams_path");
    reveal_strlit("despegar_ret");
    reveal_strlit("kayak_dates");
    reveal_strlit("book_return");
    reveal_strlit("cheapo_trip");
    reveal_strlit("ret_yymmdd");
    reveal_strlit("wego_dates");
    reveal_strlit("trip_adate");
    reveal_strlit("cheapo_ret");
    reveal_strlit("tvldt_pair");
    reveal_strlit("flighttype");
    reveal_strlit("book_cabin");
    reveal_strlit("book_type");
    reveal_strlit("sky_cabin");
    reveal_strlit("sky_path");
    reveal_strlit("mmt_itin");
    reveal_strlit("mmt_trip");
    reveal_strlit("kiwi_ret");
    reveal_strlit("ret_ymd");
    reveal_strlit("sky_rtn");
    reveal_strlit("yymmdd");
    reveal_strlit("adults");
    reveal_strlit("ret_us");
    reveal_strlit("tvldt");
    reveal_strlit("date");
    reveal_strlit("dmon");
    reveal_strlit("trip");
    reveal_strlit("ret");
    reveal_strlit("ymd");
    reveal_strlit("mmt");
    reveal_strlit("ol");
    reveal_strlit("dl");
    reveal_strlit("ob");
    reveal_strlit("db");
    reveal_strlit("us");
    reveal_strlit("o");
    reveal_strlit("d");
    reveal_strlit("q");
    assert("kiwi_ret"@.len() == 8);
    assert(no_braces("kiwi_ret"@));
    assert forall|i: int| 0 <= i < 41 && #[trigger] ctx_keys()[i] == "kiwi_ret"@ implies i == 20 by {
        if i == 0 { assert(ctx_keys()[i] == "priceline_path"@ && "priceline_path"@.len() == 14); } else if i == 1 { assert(ctx_keys()[i] == "despegar_kind"@ && "despegar_kind"@.len() == 13); } else if i == 2 { assert(ctx_keys()[i] == "kayak_adults"@ && "kayak_adults"@.len() == 12); } else if i == 3 { assert(ctx_keys()[i] == "edreams_path"@ && "edreams_path"@.len() == 12); } else if i == 4 { assert(ctx_keys()[i] == "despegar_ret"@ && "despegar_ret"@.len() == 12); } else if i == 5 { assert(ctx_keys()[i] == "kayak_dates"@ && "kayak_dates"@.len() == 11); } else if i == 6 { assert(ctx_keys()[i] == "book_return"@ && "book_return"@.len() == 11); } else if i == 7 { assert(ctx_keys()[i] == "cheapo_trip"@ && "cheapo_trip"@.len() == 11); } else if i == 8 { assert(ctx_keys()[i] == "ret_yymmdd"@ && "ret_yymmdd"@.len() == 10); } else if i == 9 { assert(ctx_keys()[i] == "wego_dates"@ && "wego_dates"@.len() == 10); } else if i == 10 { assert(ctx_keys()[i] == "trip_adate"@ && "trip_adate"@.len() == 10); } else if i == 11 { assert(ctx_keys()[i] == "cheapo_ret"@ && "cheapo_ret"@.len() == 10); } else if i == 12 { assert(ctx_keys()[i] == "tvldt_pair"@ && "tvldt_pair"@.len() == 10); } else if i == 13 { assert(ctx_keys()[i] == "flighttype"@ && "flighttype"@.len() == 10); } else if i == 14 { assert(ctx_keys()[i] == "book_cabin"@ && "book_cabin"@.len() == 10); } else if i == 15 { assert(ctx_keys()[i] == "book_type"@ && "book_type"@.len() == 9); } else if i == 16 { assert(ctx_keys()[i] == "sky_cabin"@ && "sky_cabin"@.len() == 9); } else if i == 17 { assert(ctx_keys()[i] == "sky_path"@ && "sky_path"@.len() == 8 && "sky_path"@[0] == 's' && "kiwi_ret"@[0] == 'k'); } else if i == 18 { assert(ctx_keys()[i] == "mmt_itin"@ && "mmt_itin"@.len() == 8 && "mmt_itin"@[0] == 'm' && "kiwi_ret"@[0] == 'k'); } else if i == 19 { assert(ctx_keys()[i] == "mmt_trip"@ && "mmt_trip"@.len() == 8 && "mmt_trip"@[0] == 'm' && "kiwi_ret"@[0] == 'k'); } else if i == 20 { assert(ctx_keys()[i] == "kiwi_ret"@ && "kiwi_ret"@.len() == 8); } else if i == 21 { assert(ctx_keys()[i] == "ret_ymd"@ && "ret_ymd"@.len() == 7); } else if i == 22 { assert(ctx_keys()[i] == "sky_rtn"@ && "sky_rtn"@.len() == 7); } else if i == 23 { assert(ctx_keys()[i] == "yymmdd"@ && "yymmdd"@.len() == 6); } else if i == 24 { assert(ctx_keys()[i] == "adults"@ && "adults"@.len() == 6); } else if i == 25 { assert(ctx_keys()[i] == "ret_us"@ && "ret_us"@.len() == 6); } else if i == 26 { assert(ctx_keys()[i] == "tvldt"@ && "tvldt"@.len() == 5); } else if i == 27 { assert(ctx_keys()[i] == "date"@ && "date"@.len() == 4); } else if i == 28 { assert(ctx_keys()[i] == "dmon"@ && "dmon"@.len() == 4); } else if i == 29 { assert(ctx_keys()[i] == "trip"@ && "trip"@.len() == 4); } else if i == 30 { assert(ctx_keys()[i] == "ret"@ && "ret"@.len() == 3); } else if i == 31 { assert(ctx_keys()[i] == "ymd"@ && "ymd"@.len() == 3); } else if i == 32 { assert(ctx_keys()[i] == "mmt"@ && "mmt"@.len() == 3); } else if i == 33 { assert(ctx_keys()[i] == "ol"@ && "ol"@.len() == 2); } else if i == 34 { assert(ctx_keys()[i] == "dl"@ && "dl"@.len() == 2); } else if i == 35 { assert(ctx_keys()[i] == "ob"@ && "ob"@.len() == 2); } else if i == 36 { assert(ctx_keys()[i] == "db"@ && "db"@.len() == 2); } else if i == 37 { assert(ctx_keys()[i] == "us"@ && "us"@.len() == 2); } else if i == 38 { assert(ctx_keys()[i] == "o"@ && "o"@.len() == 1); } else if i == 39 { assert(ctx_keys()[i] == "d"@ && "d"@.len() == 1); } else if i == 40 { assert(ctx_keys()[i] == "q"@ && "q"@.len() == 1); }
    }
}

proof fn lemma_key_mmt_itin()
    ensures
        ctx_keys().len() == 41,
        ctx_keys()[18] == "mmt_itin"@,
        no_braces("mmt_itin"@),
        forall|i: int| 0 <= i < 41 && #[trigger] ctx_keys()[i] == "mmt_itin"@ ==> i == 18,
{
    reveal_strlit("priceline_path");
    reveal_strlit("despegar_kind");
    reveal_strlit("kayak_adults");
    reveal_strlit("edreams_path");
    reveal_strlit("despegar_ret");
    reveal_strlit("kayak_dates");
    reveal_strlit("book_return");
    reveal_strlit("cheapo_trip");
    reveal_strlit("ret_yymmdd");
    reveal_strlit("wego_dates");
    reveal_strlit("trip_adate");
    reveal_strlit("cheapo_ret");
    reveal_strlit("tvldt_pair");
    reveal_strlit("flighttype");
    reveal_strlit("book_cabin");
    reveal_strlit("book_type");
    reveal_strlit("sky_cabin");
    reveal_strlit("sky_path");
    reveal_strlit("mmt_itin");
    reveal_strlit("mmt_trip");
    reveal_strlit("kiwi_ret");
    reveal_strlit("ret_ymd");
    reveal_strlit("sky_rtn");
    reveal_strlit("yymmdd");
    reveal_strlit("adults");
    reveal_strlit("ret_us");
    reveal_strlit("tvldt");
    reveal_strlit("date");
    reveal_strlit("dmon");
    reveal_strlit("trip");
    reveal_strlit("ret");
    reveal_strlit("ymd");
    reveal_strlit("mmt");
    reveal_strlit("ol");
    reveal_strlit("dl");
    reveal_strlit("ob");
    reveal_strlit("db");
    reveal_strlit("us");
    reveal_strlit("o");
    reveal_strlit("d");
    reveal_strlit("q");
    assert("mmt_itin"@.len() == 8);
    assert(no_braces("mmt_itin"@));
    assert forall|i: int| 0 <= i < 41 && #[trigger] ctx_keys()[i] == "mmt_itin"@ implies i == 18 by {
        if i == 0 { assert(ctx_keys()[i] == "priceline_path"@ && "priceline_path"@.len() == 14); } else if i == 1 { assert(ctx_keys()[i] == "despegar_kind"@ && "despegar_kind"@.len() == 13); } else if i == 2 { assert(ctx_keys()[i] == "kayak_adults"@ && "kayak_adults"@.len() == 12); } else if i == 3 { assert(ctx_keys()[i] == "edreams_path"@ && "edreams_path"@.len() == 12); } else if i == 4 { assert(ctx_keys()[i] == "despegar_ret"@ && "despegar_ret"@.len() == 12); } else if i == 5 { assert(ctx_keys()[i] == "kayak_dates"@ && "kayak_dates"@.len() == 11); } else if i == 6 { assert(ctx_keys()[i] == "book_return"@ && "book_return"@.len() == 11); } else if i == 7 { assert(ctx_keys()[i] == "cheapo_trip"@ && "cheapo_trip"@.len() == 11); } else if i == 8 { assert(ctx_keys()[i] == "ret_yymmdd"@ && "ret_yymmdd"@.len() == 10); } else if i == 9 { assert(ctx_keys()[i] == "wego_dates"@ && "wego_dates"@.len() == 10); } else if i == 10 { assert(ctx_keys()[i] == "trip_adate"@ && "trip_adate"@.len() == 10); } else if i == 11 { assert(ctx_keys()[i] == "cheapo_ret"@ && "cheapo_ret"@.len() == 10); } else if i == 12 { assert(ctx_keys()[i] == "tvldt_pair"@ && "tvldt_pair"@.len() == 10); } else if i == 13 { assert(ctx_keys()[i] == "flighttype"@ && "flighttype"@.len() == 10); } else if i == 14 { assert(ctx_keys()[i] == "book_cabin"@ && "book_cabin"@.len() == 10); } else if i == 15 { assert(ctx_keys()[i] == "book_type"@ && "book_type"@.len() == 9); } else if i == 16 { assert(ctx_keys()[i] == "sky_cabin"@ && "sky_cabin"@.len() == 9); } else if i == 17 { assert(ctx_keys()[i] == "sky_path"@ && "sky_path"@.len() == 8 && "sky_path"@[0] == 's' && "mmt_itin"@[0] == 'm'); } else if i == 18 { assert(ctx_keys()[i] == "mmt_itin"@ && "mmt_itin"@.len() == 8); } else if i == 19 { assert(ctx_keys()[i] == "mmt_trip"@ && "mmt_trip"@.len() == 8 && "mmt_trip"@[4] == 't' && "mmt_itin"@[4] == 'i'); } else if i == 20 { assert(ctx_keys()[i] == "kiwi_ret"@ && "kiwi_ret"@.len() == 8 && "kiwi_ret"@[0] == 'k' && "mmt_itin"@[0] == 'm'); } else if i == 21 { assert(ctx_keys()[i] == "ret_ymd"@ && "ret_ymd"@.len() == 7); } else if i == 22 { assert(ctx_keys()[i] == "sky_rtn"@ && "sky_rtn"@.len() == 7); } else if i == 23 { assert(ctx_keys()[i] == "yymmdd"@ && "yymmdd"@.len() == 6); } else if i == 24 { assert(ctx_keys()[i] == "adults"@ && "adults"@.len() == 6); } else if i == 25 { assert(ctx_keys()[i] == "ret_us"@ && "ret_us"@.len() == 6); } else if i == 26 { assert(ctx_keys()[i] == "tvldt"@ && "tvldt"@.len() == 5); } else if i == 27 { assert(ctx_keys()[i] == "date"@ && "date"@.len() == 4); } else if i == 28 { assert(ctx_keys()[i] == "dmon"@ && "dmon"@.len() == 4); } else if i == 29 { assert(ctx_keys()[i] == "trip"@ && "trip"@.len() == 4); } else if i == 30 { assert(ctx_keys()[i] == "ret"@ && "ret"@.len() == 3); } else if i == 31 { assert(ctx_keys()[i] == "ymd"@ && "ymd"@.len() == 3); } else if i == 32 { assert(ctx_keys()[i] == "mmt"@ && "mmt"@.len() == 3); } else if i == 33 { assert(ctx_keys()[i] == "ol"@ && "ol"@.len() == 2); } else if i == 34 { assert(ctx_keys()[i] == "dl"@ && "dl"@.len() == 2); } else if i == 35 { assert(ctx_keys()[i] == "ob"@ && "ob"@.len() == 2); } else if i == 36 { assert(ctx_keys()[i] == "db"@ && "db"@.len() == 2); } else if i == 37 { assert(ctx_keys()[i] == "us"@ && "us"@.len() == 2); } else if i == 38 { assert(ctx_keys()[i] == "o"@ && "o"@.len() == 1); } else if i == 39 { assert(ctx_keys()[i] == "d"@ && "d"@.len() == 1); } else if i == 40 { assert(ctx_keys()[i] == "q"@ && "q"@.len() == 1); }
    }
}

proof fn lemma_key_mmt_trip()
    ensures
        ctx_keys().len() == 41,
        ctx_keys()[19] == "mmt_trip"@,
        no_braces("mmt_trip"@),
        forall|i: int| 0 <= i < 41 && #[trigger] ctx_keys()[i] == "mmt_trip"@ ==> i == 19,
{
    reveal_strlit("priceline_path");
    reveal_strlit("despegar_kind");
    reveal_strlit("kayak_adults");
    reveal_strlit("edreams_path");
    reveal_strlit("despegar_ret");
    reveal_strlit("kayak_dates");
    reveal_strlit("book_return");
    reveal_strlit("cheapo_trip");
    reveal_strlit("ret_yymmdd");
    reveal_strlit("wego_dates");
    reveal_strlit("trip_adate");
    reveal_strlit("cheapo_ret");
    reveal_strlit("tvldt_pair");
    reveal_strlit("flighttype");
    reveal_strlit("book_cabin");
    reveal_strlit("book_type");
    reveal_strlit("sky_cabin");
    reveal_strlit("sky_path");
    reveal_strlit("mmt_itin");
    reveal_strlit("mmt_trip");
    reveal_strlit("kiwi_ret");
    reveal_strlit("ret_ymd");
    reveal_strlit("sky_rtn");
    reveal_strlit("yymmdd");
    reveal_strlit("adults");
    reveal_strlit("ret_us");
    reveal_strlit("tvldt");
    reveal_strlit("date");
    reveal_strlit("dmon");
    reveal_strlit("trip");
    reveal_strlit("ret");
    reveal_strlit("ymd");
    reveal_strlit("mmt");
    reveal_strlit("ol");
    reveal_strlit("dl");
    reveal_strlit("ob");
    reveal_strlit("db");
    reveal_strlit("us");
    reveal_strlit("o");
    reveal_strlit("d");
    reveal_strlit("q");
    assert("mmt_trip"@.len() == 8);
    assert(no_braces("mmt_trip"@));
    assert forall|i: int| 0 <= i < 41 && #[trigger] ctx_keys()[i] == "mmt_trip"@ implies i == 19 by {
        if i == 0 { assert(ctx_keys()[i] == "priceline_path"@ && "priceline_path"@.len() == 14); } else if i == 1 { assert(ctx_keys()[i] == "despegar_kind"@ && "despegar_kind"@.len() == 13); } else if i == 2 { assert(ctx_keys()[i] == "kayak_adults"@ && "kayak_adults"@.len() == 12); } else if i == 3 { assert(ctx_keys()[i] == "edreams_path"@ && "edreams_path"@.len() == 12); } else if i == 4 { assert(ctx_keys()[i] == "despegar_ret"@ && "despegar_ret"@.len() == 12); } else if i == 5 { assert(ctx_keys()[i] == "kayak_dates"@ && "kayak_dates"@.len() == 11); } else if i == 6 { assert(ctx_keys()[i] == "book_return"@ && "book_return"@.len() == 11); } else if i == 7 { assert(ctx_keys()[i] == "cheapo_trip"@ && "cheapo_trip"@.len() == 11); } else if i == 8 { assert(ctx_keys()[i] == "ret_yymmdd"@ && "ret_yymmdd"@.len() == 10); } else if i == 9 { assert(ctx_keys()[i] == "wego_dates"@ && "wego_dates"@.len() == 10); } else if i == 10 { assert(ctx_keys()[i] == "trip_adate"@ && "trip_adate"@.len() == 10); } else if i == 11 { assert(ctx_keys()[i] == "cheapo_ret"@ && "cheapo_ret"@.len() == 10); } else if i == 12 { assert(ctx_keys()[i] == "tvldt_pair"@ && "tvldt_pair"@.len() == 10); } else if i == 13 { assert(ctx_keys()[i] == "flighttype"@ && "flighttype"@.len() == 10); } else if i == 14 { assert(ctx_keys()[i] == "book_cabin"@ && "book_cabin"@.len() == 10); } else if i == 15 { assert(ctx_keys()[i] == "book_type"@ && "book_type"@.len() == 9); } else if i == 16 { assert(ctx_keys()[i] == "sky_cabin"@ && "sky_cabin"@.len() == 9); } else if i == 17 { assert(ctx_keys()[i] == "sky_path"@ && "sky_path"@.len() == 8 && "sky_path"@[0] == 's' && "mmt_trip"@[0] == 'm'); } else if i == 18 { assert(ctx_keys()[i] == "mmt_itin"@ && "mmt_itin"@.len() == 8 && "mmt_itin"@[4] == 'i' && "mmt_trip"@[4] == 't'); } else if i == 19 { assert(ctx_keys()[i] == "mmt_trip"@ && "mmt_trip"@.len() == 8); } else if i == 20 { assert(ctx_keys()[i] == "kiwi_ret"@ && "kiwi_ret"@.len() == 8 && "kiwi_ret"@[0] == 'k' && "mmt_trip"@[0] == 'm'); } else if i == 21 { assert(ctx_keys()[i] == "ret_ymd"@ && "ret_ymd"@.len() == 7); } else if i == 22 { assert(ctx_keys()[i] == "sky_rtn"@ && "sky_rtn"@.len() == 7); } else if i == 23 { assert(ctx_keys()[i] == "yymmdd"@ && "yymmdd"@.len() == 6); } else if i == 24 { assert(ctx_keys()[i] == "adults"@ && "adults"@.len() == 6); } else if i == 25 { assert(ctx_keys()[i] == "ret_us"@ && "ret_us"@.len() == 6); } else if i == 26 { assert(ctx_keys()[i] == "tvldt"@ && "tvldt"@.len() == 5); } else if i == 27 { assert(ctx_keys()[i] == "date"@ && "date"@.len() == 4); } else if i == 28 { assert(ctx_keys()[i] == "dmon"@ && "dmon"@.len() == 4); } else if i == 29 { assert(ctx_keys()[i] == "trip"@ && "trip"@.len() == 4); } else if i == 30 { assert(ctx_keys()[i] == "ret"@ && "ret"@.len() == 3); } else if i == 31 { assert(ctx_keys()[i] == "ymd"@ && "ymd"@.len() == 3); } else if i == 32 { assert(ctx_keys()[i] == "mmt"@ && "mmt"@.len() == 3); } else if i == 33 { assert(ctx_keys()[i] == "ol"@ && "ol"@.len() == 2); } else if i == 34 { assert(ctx_keys()[i] == "dl"@ && "dl"@.len() == 2); } else if i == 35 { assert(ctx_keys()[i] == "ob"@ && "ob"@.len() == 2); } else if i == 36 { assert(ctx_keys()[i] == "db"@ && "db"@.len() == 2); } else if i == 37 { assert(ctx_keys()[i] == "us"@ && "us"@.len() == 2); } else if i == 38 { assert(ctx_keys()[i] == "o"@ && "o"@.len() == 1); } else if i == 39 { assert(ctx_keys()[i] == "d"@ && "d"@.len() == 1); } else if i == 40 { assert(ctx_keys()[i] == "q"@ && "q"@.len() == 1); }
    }
}

proof fn lemma_key_o()
    ensures
        ctx_keys().len() == 41,
        ctx_keys()[38] == "o"@,
        no_braces("o"@),
        forall|i: int| 0 <= i < 41 && #[trigger] ctx_keys()[i] == "o"@ ==> i == 38,
{
    reveal_strlit("priceline_path");
    reveal_strlit("despegar_kind");
    reveal_strlit("kayak_adults");
    reveal_strlit("edreams_path");
    reveal_strlit("despegar_ret");
    reveal_strlit("kayak_dates");
    reveal_strlit("book_return");
    reveal_strlit("cheapo_trip");
    reveal_strlit("ret_yymmdd");
    reveal_strlit("wego_dates");
    reveal_strlit("trip_adate");
    reveal_strlit("cheapo_ret");
    reveal_strlit("tvldt_pair");
    reveal_strlit("flighttype");
    reveal_strlit("book_cabin");
    reveal_strlit("book_type");
    reveal_strlit("sky_cabin");
    reveal_strlit("sky_path");
    reveal_strlit("mmt_itin");
    reveal_strlit("mmt_trip");
    reveal_strlit("kiwi_ret");
    reveal_strlit("ret_ymd");
    reveal_strlit("sky_rtn");
    reveal_strlit("yymmdd");
    reveal_strlit("adults");
    reveal_strlit("ret_us");
    reveal_strlit("tvldt");
    reveal_strlit("date");
    reveal_strlit("dmon");
    reveal_strlit("trip");
    reveal_strlit("ret");
    reveal_strlit("ymd");
    reveal_strlit("mmt");
    reveal_strlit("ol");
    reveal_strlit("dl");
    reveal_strlit("ob");
    reveal_strlit("db");
    reveal_strlit("us");
    reveal_strlit("o");
    reveal_strlit("d");
    reveal_strlit("q");
    assert("o"@.len() == 1);
    assert(no_braces("o"@));
    assert forall|i: int| 0 <= i < 41 && #[trigger] ctx_keys()[i] == "o"@ implies i == 38 by {
        if i == 0 { assert(ctx_keys()[i] == "priceline_path"@ && "priceline_path"@.len() == 14); } else if i == 1 { assert(ctx_keys()[i] == "despegar_kind"@ && "despegar_kind"@.len() == 13); } else if i == 2 { assert(ctx_keys()[i] == "kayak_adults"@ && "kayak_adults"@.len() == 12); } else if i == 3 { assert(ctx_keys()[i] == "edreams_path"@ && "edreams_path"@.len() == 12); } else if i == 4 { assert(ctx_keys()[i] == "despegar_ret"@ && "despegar_ret"@.len() == 12); } else if i == 5 { assert(ctx_keys()[i] == "kayak_dates"@ && "kayak_dates"@.len() == 11); } else if i == 6 { assert(ctx_keys()[i] == "book_return"@ && "book_return"@.len() == 11); } else if i == 7 { assert(ctx_keys()[i] == "cheapo_trip"@ && "cheapo_trip"@.len() == 11); } else if i == 8 { assert(ctx_keys()[i] == "ret_yymmdd"@ && "ret_yymmdd"@.len() == 10); } else if i == 9 { assert(ctx_keys()[i] == "wego_dates"@ && "wego_dates"@.len() == 10); } else if i == 10 { assert(ctx_keys()[i] == "trip_adate"@ && "trip_adate"@.len() == 10); } else if i == 11 { assert(ctx_keys()[i] == "cheapo_ret"@ && "cheapo_ret"@.len() == 10); } else if i == 12 { assert(ctx_keys()[i] == "tvldt_pair"@ && "tvldt_pair"@.len() == 10); } else if i == 13 { assert(ctx_keys()[i] == "flighttype"@ && "flighttype"@.len() == 10); } else if i == 14 { assert(ctx_keys()[i] == "book_cabin"@ && "book_cabin"@.len() == 10); } else if i == 15 { assert(ctx_keys()[i] == "book_type"@ && "book_type"@.len() == 9); } else if i == 16 { assert(ctx_keys()[i] == "sky_cabin"@ && "sky_cabin"@.len() == 9); } else if i == 17 { assert(ctx_keys()[i] == "sky_path"@ && "sky_path"@.len() == 8); } else if i == 18 { assert(ctx_keys()[i] == "mmt_itin"@ && "mmt_itin"@.len() == 8); } else if i == 19 { assert(ctx_keys()[i] == "mmt_trip"@ && "mmt_trip"@.len() == 8); } else if i == 20 { assert(ctx_keys()[i] == "kiwi_ret"@ && "kiwi_ret"@.len() == 8); } else if i == 21 { assert(ctx_keys()[i] == "ret_ymd"@ && "ret_ymd"@.len() == 7); } else if i == 22 { assert(ctx_keys()[i] == "sky_rtn"@ && "sky_rtn"@.len() == 7); } else if i == 23 { assert(ctx_keys()[i] == "yymmdd"@ && "yymmdd"@.len() == 6); } else if i == 24 { assert(ctx_keys()[i] == "adults"@ && "adults"@.len() == 6); } else if i == 25 { assert(ctx_keys()[i] == "ret_us"@ && "ret_us"@.len() == 6); } else if i == 26 { assert(ctx_keys()[i] == "tvldt"@ && "tvldt"@.len() == 5); } else if i == 27 { assert(ctx_keys()[i] == "date"@ && "date"@.len() == 4); } else if i == 28 { assert(ctx_keys()[i] == "dmon"@ && "dmon"@.len() == 4); } else if i == 29 { assert(ctx_keys()[i] == "trip"@ && "trip"@.len() == 4); } else if i == 30 { assert(ctx_keys()[i] == "ret"@ && "ret"@.len() == 3); } else if i == 31 { assert(ctx_keys()[i] == "ymd"@ && "ymd"@.len() == 3); } else if i == 32 { assert(ctx_keys()[i] == "mmt"@ && "mmt"@.len() == 3); } else if i == 33 { assert(ctx_keys()[i] == "ol"@ && "ol"@.len() == 2); } else if i == 34 { assert(ctx_keys()[i] == "dl"@ && "dl"@.len() == 2); } else if i == 35 { assert(ctx_keys()[i] == "ob"@ && "ob"@.len() == 2); } else if i == 36 { assert(ctx_keys()[i] == "db"@ && "db"@.len() == 2); } else if i == 37 { assert(ctx_keys()[i] == "us"@ && "us"@.len() == 2); } else if i == 38 { assert(ctx_keys()[i] == "o"@ && "o"@.len() == 1); } else if i == 39 { assert(ctx_keys()[i] == "d"@ && "d"@.len() == 1 && "d"@[0] == 'd' && "o"@[0] == 'o'); } else if i == 40 { assert(ctx_keys()[i] == "q"@ && "q"@.len() == 1 && "q"@[0] == 'q' && "o"@[0] == 'o'); }
    }
}

proof fn lemma_key_ob()
    ensures
        ctx_keys().len() == 41,
        ctx_keys()[35] == "ob"@,
        no_braces("ob"@),
        forall|i: int| 0 <= i < 41 && #[trigger] ctx_keys()[i] == "ob"@ ==> i == 35,
{
    reveal_strlit("priceline_path");
    reveal_strlit("despegar_kind");
    reveal_strlit("kayak_adults");
    reveal_strlit("edreams_path");
    reveal_strlit("despegar_ret");
    reveal_strlit("kayak_dates");
    reveal_strlit("book_return");
    reveal_strlit("cheapo_trip");
    reveal_strlit("ret_yymmdd");
    reveal_strlit("wego_dates");
    reveal_strlit("trip_adate");
    reveal_strlit("cheapo_ret");
    reveal_strlit("tvldt_pair");
    reveal_strlit("flighttype");
    reveal_strlit("book_cabin");
    reveal_strlit("book_type");
    reveal_strlit("sky_cabin");
    reveal_strlit("sky_path");
    reveal_strlit("mmt_itin");
    reveal_strlit("mmt_trip");
    reveal_strlit("kiwi_ret");
    reveal_strlit("ret_ymd");
    reveal_strlit("sky_rtn");
    reveal_strlit("yymmdd");
    reveal_strlit("adults");
    reveal_strlit("ret_us");
    reveal_strlit("tvldt");
    reveal_strlit("date");
    reveal_strlit("dmon");
    reveal_strlit("trip");
    reveal_strlit("ret");
    reveal_strlit("ymd");
    reveal_strlit("mmt");
    reveal_strlit("ol");
    reveal_strlit("dl");
    reveal_strlit("ob");
    reveal_strlit("db");
    reveal_strlit("us");
    reveal_strlit("o");
    reveal_strlit("d");
    reveal_strlit("q");
    assert("ob"@.len() == 2);
    assert(no_braces("ob"@));
    assert forall|i: int| 0 <= i < 41 && #[trigger] ctx_keys()[i] == "ob"@ implies i == 35 by {
        if i == 0 { assert(ctx_keys()[i] == "priceline_path"@ && "priceline_path"@.len() == 14); } else if i == 1 { assert(ctx_keys()[i] == "despegar_kind"@ && "despegar_kind"@.len() == 13); } else if i == 2 { assert(ctx_keys()[i] == "kayak_adults"@ && "kayak_adults"@.len() == 12); } else if i == 3 { assert(ctx_keys()[i] == "edreams_path"@ && "edreams_path"@.len() == 12); } else if i == 4 { assert(ctx_keys()[i] == "despegar_ret"@ && "despegar_ret"@.len() == 12); } else if i == 5 { assert(ctx_keys()[i] == "kayak_dates"@ && "kayak_dates"@.len() == 11); } else if i == 6 { assert(ctx_keys()[i] == "book_return"@ && "book_return"@.len() == 11); } else if i == 7 { assert(ctx_keys()[i] == "cheapo_trip"@ && "cheapo_trip"@.len() == 11); } else if i == 8 { assert(ctx_keys()[i] == "ret_yymmdd"@ && "ret_yymmdd"@.len() == 10); } else if i == 9 { assert(ctx_keys()[i] == "wego_dates"@ && "wego_dates"@.len() == 10); } else if i == 10 { assert(ctx_keys()[i] == "trip_adate"@ && "trip_adate"@.len() == 10); } else if i == 11 { assert(ctx_keys()[i] == "cheapo_ret"@ && "cheapo_ret"@.len() == 10); } else if i == 12 { assert(ctx_keys()[i] == "tvldt_pair"@ && "tvldt_pair"@.len() == 10); } else if i == 13 { assert(ctx_keys()[i] == "flighttype"@ && "flighttype"@.len() == 10); } else if i == 14 { assert(ctx_keys()[i] == "book_cabin"@ && "book_cabin"@.len() == 10); } else if i == 15 { assert(ctx_keys()[i] == "book_type"@ && "book_type"@.len() == 9); } else if i == 16 { assert(ctx_keys()[i] == "sky_cabin"@ && "sky_cabin"@.len() == 9); } else if i == 17 { assert(ctx_keys()[i] == "sky_path"@ && "sky_path"@.len() == 8); } else if i == 18 { assert(ctx_keys()[i] == "mmt_itin"@ && "mmt_itin"@.len() == 8); } else if i == 19 { assert(ctx_keys()[i] == "mmt_trip"@ && "mmt_trip"@.len() == 8); } else if i == 20 { assert(ctx_keys()[i] == "kiwi_ret"@ && "kiwi_ret"@.len() == 8); } else if i == 21 { assert(ctx_keys()[i] == "ret_ymd"@ && "ret_ymd"@.len() == 7); } else if i == 22 { assert(ctx_keys()[i] == "sky_rtn"@ && "sky_rtn"@.len() == 7); } else if i == 23 { assert(ctx_keys()[i] == "yymmdd"@ && "yymmdd"@.len() == 6); } else if i == 24 { assert(ctx_keys()[i] == "adults"@ && "adults"@.len() == 6); } else if i == 25 { assert(ctx_keys()[i] == "ret_us"@ && "ret_us"@.len() == 6); } else if i == 26 { assert(ctx_keys()[i] == "tvldt"@ && "tvldt"@.len() == 5); } else if i == 27 { assert(ctx_keys()[i] == "date"@ && "date"@.len() == 4); } else if i == 28 { assert(ctx_keys()[i] == "dmon"@ && "dmon"@.len() == 4); } else if i == 29 { assert(ctx_keys()[i] == "trip"@ && "trip"@.len() == 4); } else if i == 30 { assert(ctx_keys()[i] == "ret"@ && "ret"@.len() == 3); } else if i == 31 { assert(ctx_keys()[i] == "ymd"@ && "ymd"@.len() == 3); } else if i == 32 { assert(ctx_keys()[i] == "mmt"@ && "mmt"@.len() == 3); } else if i == 33 { assert(ctx_keys()[i] == "ol"@ && "ol"@.len() == 2 && "ol"@[1] == 'l' && "ob"@[1] == 'b'); } else if i == 34 { assert(ctx_keys()[i] == "dl"@ && "dl"@.len() == 2 && "dl"@[0] == 'd' && "ob"@[0] == 'o'); } else if i == 35 { assert(ctx_keys()[i] == "ob"@ && "ob"@.len() == 2); } else if i == 36 { assert(ctx_keys()[i] == "db"@ && "db"@.len() == 2 && "db"@[0] == 'd' && "ob"@[0] == 'o'); } else if i == 37 { assert(ctx_keys()[i] == "us"@ && "us"@.len() == 2 && "us"@[0] == 'u' && "ob"@[0] == 'o'); } else if i == 38 { assert(ctx_keys()[i] == "o"@ && "o"@.len() == 1); } else if i == 39 { assert(ctx_keys()[i] == "d"@ && "d"@.len() == 1); } else if i == 40 { assert(ctx_keys()[i] == "q"@ && "q"@.len() == 1); }
    }
}

proof fn lemma_key_ol()
    ensures
        ctx_keys().len() == 41,
        ctx_keys()[33] == "ol"@,
        no_braces("ol"@),
        forall|i: int| 0 <= i < 41 && #[trigger] ctx_keys()[i] == "ol"@ ==> i == 33,
{
    reveal_strlit("priceline_path");
    reveal_strlit("despegar_kind");
    reveal_strlit("kayak_adults");
    reveal_strlit("edreams_path");
    reveal_strlit("despegar_ret");
    reveal_strlit("kayak_dates");
    reveal_strlit("book_return");
    reveal_strlit("cheapo_trip");
    reveal_strlit("ret_yymmdd");
    reveal_strlit("wego_dates");
    reveal_strlit("trip_adate");
    reveal_strlit("cheapo_ret");
    reveal_strlit("tvldt_pair");
    reveal_strlit("flighttype");
    reveal_strlit("book_cabin");
    reveal_strlit("book_type");
    reveal_strlit("sky_cabin");
    reveal_strlit("sky_path");
    reveal_strlit("mmt_itin");
    reveal_strlit("mmt_trip");
    reveal_strlit("kiwi_ret");
    reveal_strlit("ret_ymd");
    reveal_strlit("sky_rtn");
    reveal_strlit("yymmdd");
    reveal_strlit("adults");
    reveal_strlit("ret_us");
    reveal_strlit("tvldt");
    reveal_strlit("date");
    reveal_strlit("dmon");
    reveal_strlit("trip");
    reveal_strlit("ret");
    reveal_strlit("ymd");
    reveal_strlit("mmt");
    reveal_strlit("ol");
    reveal_strlit("dl");
    reveal_strlit("ob");
    reveal_strlit("db");
    reveal_strlit("us");
    reveal_strlit("o");
    reveal_strlit("d");
    reveal_strlit("q");
    assert("ol"@.len() == 2);
    assert(no_braces("ol"@));
    assert forall|i: int| 0 <= i < 41 && #[trigger] ctx_keys()[i] == "ol"@ implies i == 33 by {
        if i == 0 { assert(ctx_keys()[i] == "priceline_path"@ && "priceline_path"@.len() == 14); } else if i == 1 { assert(ctx_keys()[i] == "despegar_kind"@ && "despegar_kind"@.len() == 13); } else if i == 2 { assert(ctx_keys()[i] == "kayak_adults"@ && "kayak_adults"@.len() == 12); } else if i == 3 { assert(ctx_keys()[i] == "edreams_path"@ && "edreams_path"@.len() == 12); } else if i == 4 { assert(ctx_keys()[i] == "despegar_ret"@ && "despegar_ret"@.len() == 12); } else if i == 5 { assert(ctx_keys()[i] == "kayak_dates"@ && "kayak_dates"@.len() == 11); } else if i == 6 { assert(ctx_keys()[i] == "book_return"@ && "book_return"@.len() == 11); } else if i == 7 { assert(ctx_keys()[i] == "cheapo_trip"@ && "cheapo_trip"@.len() == 11); } else if i == 8 { assert(ctx_keys()[i] == "ret_yymmdd"@ && "ret_yymmdd"@.len() == 10); } else if i == 9 { assert(ctx_keys()[i] == "wego_dates"@ && "wego_dates"@.len() == 10); } else if i == 10 { assert(ctx_keys()[i] == "trip_adate"@ && "trip_adate"@.len() == 10); } else if i == 11 { assert(ctx_keys()[i] == "cheapo_ret"@ && "cheapo_ret"@.len() == 10); } else if i == 12 { assert(ctx_keys()[i] == "tvldt_pair"@ && "tvldt_pair"@.len() == 10); } else if i == 13 { assert(ctx_keys()[i] == "flighttype"@ && "flighttype"@.len() == 10); } else if i == 14 { assert(ctx_keys()[i] == "book_cabin"@ && "book_cabin"@.len() == 10); } else if i == 15 { assert(ctx_keys()[i] == "book_type"@ && "book_type"@.len() == 9); } else if i == 16 { assert(ctx_keys()[i] == "sky_cabin"@ && "sky_cabin"@.len() == 9); } else if i == 17 { assert(ctx_keys()[i] == "sky_path"@ && "sky_path"@.len() == 8); } else if i == 18 { assert(ctx_keys()[i] == "mmt_itin"@ && "mmt_itin"@.len() == 8); } else if i == 19 { assert(ctx_keys()[i] == "mmt_trip"@ && "mmt_trip"@.len() == 8); } else if i == 20 { assert(ctx_keys()[i] == "kiwi_ret"@ && "kiwi_ret"@.len() == 8); } else if i == 21 { assert(ctx_keys()[i] == "ret_ymd"@ && "ret_ymd"@.len() == 7); } else if i == 22 { assert(ctx_keys()[i] == "sky_rtn"@ && "sky_rtn"@.len() == 7); } else if i == 23 { assert(ctx_keys()[i] == "yymmdd"@ && "yymmdd"@.len() == 6); } else if i == 24 { assert(ctx_keys()[i] == "adults"@ && "adults"@.len() == 6); } else if i == 25 { assert(ctx_keys()[i] == "ret_us"@ && "ret_us"@.len() == 6); } else if i == 26 { assert(ctx_keys()[i] == "tvldt"@ && "tvldt"@.len() == 5); } else if i == 27 { assert(ctx_keys()[i] == "date"@ && "date"@.len() == 4); } else if i == 28 { assert(ctx_keys()[i] == "dmon"@ && "dmon"@.len() == 4); } else if i == 29 { assert(ctx_keys()[i] == "trip"@ && "trip"@.len() == 4); } else if i == 30 { assert(ctx_keys()[i] == "ret"@ && "ret"@.len() == 3); } else if i == 31 { assert(ctx_keys()[i] == "ymd"@ && "ymd"@.len() == 3); } else if i == 32 { assert(ctx_keys()[i] == "mmt"@ && "mmt"@.len() == 3); } else if i == 33 { assert(ctx_keys()[i] == "ol"@ && "ol"@.len() == 2); } else if i == 34 { assert(ctx_keys()[i] == "dl"@ && "dl"@.len() == 2 && "dl"@[0] == 'd' && "ol"@[0] == 'o'); } else if i == 35 { assert(ctx_keys()[i] == "ob"@ && "ob"@.len() == 2 && "ob"@[1] == 'b' && "ol"@[1] == 'l'); } else if i == 36 { assert(ctx_keys()[i] == "db"@ && "db"@.len() == 2 && "db"@[0] == 'd' && "ol"@[0] == 'o'); } else if i == 37 { assert(ctx_keys()[i] == "us"@ && "us"@.len() == 2 && "us"@[0] == 'u' && "ol"@[0] == 'o'); } else if i == 38 { assert(ctx_keys()[i] == "o"@ && "o"@.len() == 1); } else if i == 39 { assert(ctx_keys()[i] == "d"@ && "d"@.len() == 1); } else if i == 40 { assert(ctx_keys()[i] == "q"@ && "q"@.len() == 1); }
    }
}

proof fn lemma_key_priceline_path()
    ensures
        ctx_keys().len() == 41,
        ctx_keys()[0] == "priceline_path"@,
        no_braces("priceline_path"@),
        forall|i: int| 0 <= i < 41 && #[trigger] ctx_keys()[i] == "priceline_path"@ ==> i == 0,
{
    reveal_strlit("priceline_path");
    reveal_strlit("despegar_kind");
    reveal_strlit("kayak_adults");
    reveal_strlit("edreams_path");
    reveal_strlit("despegar_ret");
    reveal_strlit("kayak_dates");
    reveal_strlit("book_return");
    reveal_strlit("cheapo_trip");
    reveal_strlit("ret_yymmdd");
    reveal_strlit("wego_dates");
    reveal_strlit("trip_adate");
    reveal_strlit("cheapo_ret");
    reveal_strlit("tvldt_pair");
    reveal_strlit("flighttype");
    reveal_strlit("book_cabin");
    reveal_strlit("book_type");
    reveal_strlit("sky_cabin");
    reveal_strlit("sky_path");
    reveal_strlit("mmt_itin");
    reveal_strlit("mmt_trip");
    reveal_strlit("kiwi_ret");
    reveal_strlit("ret_ymd");
    reveal_strlit("sky_rtn");
    reveal_strlit("yymmdd");
    reveal_strlit("adults");
    reveal_strlit("ret_us");
    reveal_strlit("tvldt");
    reveal_strlit("date");
    reveal_strlit("dmon");
    reveal_strlit("trip");
    reveal_strlit("ret");
    reveal_strlit("ymd");
    reveal_strlit("mmt");
    reveal_strlit("ol");
    reveal_strlit("dl");
    reveal_strlit("ob");
    reveal_strlit("db");
    reveal_strlit("us");
    reveal_strlit("o");
    reveal_strlit("d");
    reveal_strlit("q");
    assert("priceline_path"@.len() == 14);
    assert(no_braces("priceline_path"@));
    assert forall|i: int| 0 <= i < 41 && #[trigger] ctx_keys()[i] == "priceline_path"@ implies i == 0 by {
        if i == 0 { assert(ctx_keys()[i] == "priceline_path"@ && "priceline_path"@.len() == 14); } else if i == 1 { assert(ctx_keys()[i] == "despegar_kind"@ && "despegar_kind"@.len() == 13); } else if i == 2 { assert(ctx_keys()[i] == "kayak_adults"@ && "kayak_adults"@.len() == 12); } else if i == 3 { assert(ctx_keys()[i] == "edreams_path"@ && "edreams_path"@.len() == 12); } else if i == 4 { assert(ctx_keys()[i] == "despegar_ret"@ && "despegar_ret"@.len() == 12); } else if i == 5 { assert(ctx_keys()[i] == "kayak_dates"@ && "kayak_dates"@.len() == 11); } else if i == 6 { assert(ctx_keys()[i] == "book_return"@ && "book_return"@.len() == 11); } else if i == 7 { assert(ctx_keys()[i] == "cheapo_trip"@ && "cheapo_trip"@.len() == 11); } else if i == 8 { assert(ctx_keys()[i] == "ret_yymmdd"@ && "ret_yymmdd"@.len() == 10); } else if i == 9 { assert(ctx_keys()[i] == "wego_dates"@ && "wego_dates"@.len() == 10); } else if i == 10 { assert(ctx_keys()[i] == "trip_adate"@ && "trip_adate"@.len() == 10); } else if i == 11 { assert(ctx_keys()[i] == "cheapo_ret"@ && "cheapo_ret"@.len() == 10); } else if i == 12 { assert(ctx_keys()[i] == "tvldt_pair"@ && "tvldt_pair"@.len() == 10); } else if i == 13 { assert(ctx_keys()[i] == "flighttype"@ && "flighttype"@.len() == 10); } else if i == 14 { assert(ctx_keys()[i] == "book_cabin"@ && "book_cabin"@.len() == 10); } else if i == 15 { assert(ctx_keys()[i] == "book_type"@ && "book_type"@.len() == 9); } else if i == 16 { assert(ctx_keys()[i] == "sky_cabin"@ && "sky_cabin"@.len() == 9); } else if i == 17 { assert(ctx_keys()[i] == "sky_path"@ && "sky_path"@.len() == 8); } else if i == 18 { assert(ctx_keys()[i] == "mmt_itin"@ && "mmt_itin"@.len() == 8); } else if i == 19 { assert(ctx_keys()[i] == "mmt_trip"@ && "mmt_trip"@.len() == 8); } else if i == 20 { assert(ctx_keys()[i] == "kiwi_ret"@ && "kiwi_ret"@.len() == 8); } else if i == 21 { assert(ctx_keys()[i] == "ret_ymd"@ && "ret_ymd"@.len() == 7); } else if i == 22 { assert(ctx_keys()[i] == "sky_rtn"@ && "sky_rtn"@.len() == 7); } else if i == 23 { assert(ctx_keys()[i] == "yymmdd"@ && "yymmdd"@.len() == 6); } else if i == 24 { assert(ctx_keys()[i] == "adults"@ && "adults"@.len() == 6); } else if i == 25 { assert(ctx_keys()[i] == "ret_us"@ && "ret_us"@.len() == 6); } else if i == 26 { assert(ctx_keys()[i] == "tvldt"@ && "tvldt"@.len() == 5); } else if i == 27 { assert(ctx_keys()[i] == "date"@ && "date"@.len() == 4); } else if i == 28 { assert(ctx_keys()[i] == "dmon"@ && "dmon"@.len() == 4); } else if i == 29 { assert(ctx_keys()[i] == "trip"@ && "trip"@.len() == 4); } else if i == 30 { assert(ctx_keys()[i] == "ret"@ && "ret"@.len() == 3); } else if i == 31 { assert(ctx_keys()[i] == "ymd"@ && "ymd"@.len() == 3); } else if i == 32 { assert(ctx_keys()[i] == "mmt"@ && "mmt"@.len() == 3); } else if i == 33 { assert(ctx_keys()[i] == "ol"@ && "ol"@.len() == 2); } else if i == 34 { assert(ctx_keys()[i] == "dl"@ && "dl"@.len() == 2); } else if i == 35 { assert(ctx_keys()[i] == "ob"@ && "ob"@.len() == 2); } else if i == 36 { assert(ctx_keys()[i] == "db"@ && "db"@.len() == 2); } else if i == 37 { assert(ctx_keys()[i] == "us"@ && "us"@.len() == 2); } else if i == 38 { assert(ctx_keys()[i] == "o"@ && "o"@.len() == 1); } else if i == 39 { assert(ctx_keys()[i] == "d"@ && "d"@.len() == 1); } else if i == 40 { assert(ctx_keys()[i] == "q"@ && "q"@.len() == 1); }
    }
}

proof fn lemma_key_sky_cabin()
    ensures
        ctx_keys().len() == 41,
        ctx_keys()[16] == "sky_cabin"@,
        no_braces("sky_cabin"@),
        forall|i: int| 0 <= i < 41 && #[trigger] ctx_keys()[i] == "sky_cabin"@ ==> i == 16,
{
    reveal_strlit("priceline_path");
    reveal_strlit("despegar_kind");
    reveal_strlit("kayak_adults");
    reveal_strlit("edreams_path");
    reveal_strlit("despegar_ret");
    reveal_strlit("kayak_dates");
    reveal_strlit("book_return");
    reveal_strlit("cheapo_trip");
    reveal_strlit("ret_yymmdd");
    reveal_strlit("wego_dates");
    reveal_strlit("trip_adate");
    reveal_strlit("cheapo_ret");
    reveal_strlit("tvldt_pair");
    reveal_strlit("flighttype");
    reveal_strlit("book_cabin");
    reveal_strlit("book_type");
    reveal_strlit("sky_cabin");
    reveal_strlit("sky_path");
    reveal_strlit("mmt_itin");
    reveal_strlit("mmt_trip");
    reveal_strlit("kiwi_ret");
    reveal_strlit("ret_ymd");
    reveal_strlit("sky_rtn");
    reveal_strlit("yymmdd");
    reveal_strlit("adults");
    reveal_strlit("ret_us");
    reveal_strlit("tvldt");
    reveal_strlit("date");
    reveal_strlit("dmon");
    reveal_strlit("trip");
    reveal_strlit("ret");
    reveal_strlit("ymd");
    reveal_strlit("mmt");
    reveal_strlit("ol");
    reveal_strlit("dl");
    reveal_strlit("ob");
    reveal_strlit("db");
    reveal_strlit("us");
    reveal_strlit("o");
    reveal_strlit("d");
    reveal_strlit("q");
    assert("sky_cabin"@.len() == 9);
    assert(no_braces("sky_cabin"@));
    assert forall|i: int| 0 <= i < 41 && #[trigger] ctx_keys()[i] == "sky_cabin"@ implies i == 16 by {
        if i == 0 { assert(ctx_keys()[i] == "priceline_path"@ && "priceline_path"@.len() == 14); } else if i == 1 { assert(ctx_keys()[i] == "despegar_kind"@ && "despegar_kind"@.len() == 13); } else if i == 2 { assert(ctx_keys()[i] == "kayak_adults"@ && "kayak_adults"@.len() == 12); } else if i == 3 { assert(ctx_keys()[i] == "edreams_path"@ && "edreams_path"@.len() == 12); } else if i == 4 { assert(ctx_keys()[i] == "despegar_ret"@ && "despegar_ret"@.len() == 12); } else if i == 5 { assert(ctx_keys()[i] == "kayak_dates"@ && "kayak_dates"@.len() == 11); } else if i == 6 { assert(ctx_keys()[i] == "book_return"@ && "book_return"@.len() == 11); } else if i == 7 { assert(ctx_keys()[i] == "cheapo_trip"@ && "cheapo_trip"@.len() == 11); } else if i == 8 { assert(ctx_keys()[i] == "ret_yymmdd"@ && "ret_yymmdd"@.len() == 10); } else if i == 9 { assert(ctx_keys()[i] == "wego_dates"@ && "wego_dates"@.len() == 10); } else if i == 10 { assert(ctx_keys()[i] == "trip_adate"@ && "trip_adate"@.len() == 10); } else if i == 11 { assert(ctx_keys()[i] == "cheapo_ret"@ && "cheapo_ret"@.len() == 10); } else if i == 12 { assert(ctx_keys()[i] == "tvldt_pair"@ && "tvldt_pair"@.len() == 10); } else if i == 13 { assert(ctx_keys()[i] == "flighttype"@ && "flighttype"@.len() == 10); } else if i == 14 { assert(ctx_keys()[i] == "book_cabin"@ && "book_cabin"@.len() == 10); } else if i == 15 { assert(ctx_keys()[i] == "book_type"@ && "book_type"@.len() == 9 && "book_type"@[0] == 'b' && "sky_cabin"@[0] == 's'); } else if i == 16 { assert(ctx_keys()[i] == "sky_cabin"@ && "sky_cabin"@.len() == 9); } else if i == 17 { assert(ctx_keys()[i] == "sky_path"@ && "sky_path"@.len() == 8); } else if i == 18 { assert(ctx_keys()[i] == "mmt_itin"@ && "mmt_itin"@.len() == 8); } else if i == 19 { assert(ctx_keys()[i] == "mmt_trip"@ && "mmt_trip"@.len() == 8); } else if i == 20 { assert(ctx_keys()[i] == "kiwi_ret"@ && "kiwi_ret"@.len() == 8); } else if i == 21 { assert(ctx_keys()[i] == "ret_ymd"@ && "ret_ymd"@.len() == 7); } else if i == 22 { assert(ctx_keys()[i] == "sky_rtn"@ && "sky_rtn"@.len() == 7); } else if i == 23 { assert(ctx_keys()[i] == "yymmdd"@ && "yymmdd"@.len() == 6); } else if i == 24 { assert(ctx_keys()[i] == "adults"@ && "adults"@.len() == 6); } else if i == 25 { assert(ctx_keys()[i] == "ret_us"@ && "ret_us"@.len() == 6); } else if i == 26 { assert(ctx_keys()[i] == "tvldt"@ && "tvldt"@.len() == 5); } else if i == 27 { assert(ctx_keys()[i] == "date"@ && "date"@.len() == 4); } else if i == 28 { assert(ctx_keys()[i] == "dmon"@ && "dmon"@.len() == 4); } else if i == 29 { assert(ctx_keys()[i] == "trip"@ && "trip"@.len() == 4); } else if i == 30 { assert(ctx_keys()[i] == "ret"@ && "ret"@.len() == 3); } else if i == 31 { assert(ctx_keys()[i] == "ymd"@ && "ymd"@.len() == 3); } else if i == 32 { assert(ctx_keys()[i] == "mmt"@ && "mmt"@.len() == 3); } else if i == 33 { assert(ctx_keys()[i] == "ol"@ && "ol"@.len() == 2); } else if i == 34 { assert(ctx_keys()[i] == "dl"@ && "dl"@.len() == 2); } else if i == 35 { assert(ctx_keys()[i] == "ob"@ && "ob"@.len() == 2); } else if i == 36 { assert(ctx_keys()[i] == "db"@ && "db"@.len() == 2); } else if i == 37 { assert(ctx_keys()[i] == "us"@ && "us"@.len() == 2); } else if i == 38 { assert(ctx_keys()[i] == "o"@ && "o"@.len() == 1); } else if i == 39 { assert(ctx_keys()[i] == "d"@ && "d"@.len() == 1); } else if i == 40 { assert(ctx_keys()[i] == "q"@ && "q"@.len() == 1); }
    }
}

proof fn lemma_key_sky_path()
    ensures
        ctx_keys().len() == 41,
        ctx_keys()[17] == "sky_path"@,
        no_braces("sky_path"@),
        forall|i: int| 0 <= i < 41 && #[trigger] ctx_keys()[i] == "sky_path"@ ==> i == 17,
{
    reveal_strlit("priceline_path");
    reveal_strlit("despegar_kind");
    reveal_strlit("kayak_adults");
    reveal_strlit("edreams_path");
    reveal_strlit("despegar_ret");
    reveal_strlit("kayak_dates");
    reveal_strlit("book_return");
    reveal_strlit("cheapo_trip");
    reveal_strlit("ret_yymmdd");
    reveal_strlit("wego_dates");
    reveal_strlit("trip_adate");
    reveal_strlit("cheapo_ret");
    reveal_strlit("tvldt_pair");
    reveal_strlit("flighttype");
    reveal_strlit("book_cabin");
    reveal_strlit("book_type");
    reveal_strlit("sky_cabin");
    reveal_strlit("sky_path");
    reveal_strlit("mmt_itin");
    reveal_strlit("mmt_trip");
    reveal_strlit("kiwi_ret");
    reveal_strlit("ret_ymd");
    reveal_strlit("sky_rtn");
    reveal_strlit("yymmdd");
    reveal_strlit("adults");
    reveal_strlit("ret_us");
    reveal_strlit("tvldt");
    reveal_strlit("date");
    reveal_strlit("dmon");
    reveal_strlit("trip");
    reveal_strlit("ret");
    reveal_strlit("ymd");
    reveal_strlit("mmt");
    reveal_strlit("ol");
    reveal_strlit("dl");
    reveal_strlit("ob");
    reveal_strlit("db");
    reveal_strlit("us");
    reveal_strlit("o");
    reveal_strlit("d");
    reveal_strlit("q");
    assert("sky_path"@.len() == 8);
    assert(no_braces("sky_path"@));
    assert forall|i: int| 0 <= i < 41 && #[trigger] ctx_keys()[i] == "sky_path"@ implies i == 17 by {
        if i == 0 { assert(ctx_keys()[i] == "priceline_path"@ && "priceline_path"@.len() == 14); } else if i == 1 { assert(ctx_keys()[i] == "despegar_kind"@ && "despegar_kind"@.len() == 13); } else if i == 2 { assert(ctx_keys()[i] == "kayak_adults"@ && "kayak_adults"@.len() == 12); } else if i == 3 { assert(ctx_keys()[i] == "edreams_path"@ && "edreams_path"@.len() == 12); } else if i == 4 { assert(ctx_keys()[i] == "despegar_ret"@ && "despegar_ret"@.len() == 12); } else if i == 5 { assert(ctx_keys()[i] == "kayak_dates"@ && "kayak_dates"@.len() == 11); } else if i == 6 { assert(ctx_keys()[i] == "book_return"@ && "book_return"@.len() == 11); } else if i == 7 { assert(ctx_keys()[i] == "cheapo_trip"@ && "cheapo_trip"@.len() == 11); } else if i == 8 { assert(ctx_keys()[i] == "ret_yymmdd"@ && "ret_yymmdd"@.len() == 10); } else if i == 9 { assert(ctx_keys()[i] == "wego_dates"@ && "wego_dates"@.len() == 10); } else if i == 10 { assert(ctx_keys()[i] == "trip_adate"@ && "trip_adate"@.len() == 10); } else if i == 11 { assert(ctx_keys()[i] == "cheapo_ret"@ && "cheapo_ret"@.len() == 10); } else if i == 12 { assert(ctx_keys()[i] == "tvldt_pair"@ && "tvldt_pair"@.len() == 10); } else if i == 13 { assert(ctx_keys()[i] == "flighttype"@ && "flighttype"@.len() == 10); } else if i == 14 { assert(ctx_keys()[i] == "book_cabin"@ && "book_cabin"@.len() == 10); } else if i == 15 { assert(ctx_keys()[i] == "book_type"@ && "book_type"@.len() == 9); } else if i == 16 { assert(ctx_keys()[i] == "sky_cabin"@ && "sky_cabin"@.len() == 9); } else if i == 17 { assert(ctx_keys()[i] == "sky_path"@ && "sky_path"@.len() == 8); } else if i == 18 { assert(ctx_keys()[i] == "mmt_itin"@ && "mmt_itin"@.len() == 8 && "mmt_itin"@[0] == 'm' && "sky_path"@[0] == 's'); } else if i == 19 { assert(ctx_keys()[i] == "mmt_trip"@ && "mmt_trip"@.len() == 8 && "mmt_trip"@[0] == 'm' && "sky_path"@[0] == 's'); } else if i == 20 { assert(ctx_keys()[i] == "kiwi_ret"@ && "kiwi_ret"@.len() == 8 && "kiwi_ret"@[0] == 'k' && "sky_path"@[0] == 's'); } else if i == 21 { assert(ctx_keys()[i] == "ret_ymd"@ && "ret_ymd"@.len() == 7); } else if i == 22 { assert(ctx_keys()[i] == "sky_rtn"@ && "sky_rtn"@.len() == 7); } else if i == 23 { assert(ctx_keys()[i] == "yymmdd"@ && "yymmdd"@.len() == 6); } else if i == 24 { assert(ctx_keys()[i] == "adults"@ && "adults"@.len() == 6); } else if i == 25 { assert(ctx_keys()[i] == "ret_us"@ && "ret_us"@.len() == 6); } else if i == 26 { assert(ctx_keys()[i] == "tvldt"@ && "tvldt"@.len() == 5); } else if i == 27 { assert(ctx_keys()[i] == "date"@ && "date"@.len() == 4); } else if i == 28 { assert(ctx_keys()[i] == "dmon"@ && "dmon"@.len() == 4); } else if i == 29 { assert(ctx_keys()[i] == "trip"@ && "trip"@.len() == 4); } else if i == 30 { assert(ctx_keys()[i] == "ret"@ && "ret"@.len() == 3); } else if i == 31 { assert(ctx_keys()[i] == "ymd"@ && "ymd"@.len() == 3); } else if i == 32 { assert(ctx_keys()[i] == "mmt"@ && "mmt"@.len() == 3); } else if i == 33 { assert(ctx_keys()[i] == "ol"@ && "ol"@.len() == 2); } else if i == 34 { assert(ctx_keys()[i] == "dl"@ && "dl"@.len() == 2); } else if i == 35 { assert(ctx_keys()[i] == "ob"@ && "ob"@.len() == 2); } else if i == 36 { assert(ctx_keys()[i] == "db"@ && "db"@.len() == 2); } else if i == 37 { assert(ctx_keys()[i] == "us"@ && "us"@.len() == 2); } else if i == 38 { assert(ctx_keys()[i] == "o"@ && "o"@.len() == 1); } else if i == 39 { assert(ctx_keys()[i] == "d"@ && "d"@.len() == 1); } else if i == 40 { assert(ctx_keys()[i] == "q"@ && "q"@.len() == 1); }
    }
}

proof fn lemma_key_sky_rtn()
    ensures
        ctx_keys().len() == 41,
        ctx_keys()[22] == "sky_rtn"@,
        no_braces("sky_rtn"@),
        forall|i: int| 0 <= i < 41 && #[trigger] ctx_keys()[i] == "sky_rtn"@ ==> i == 22,
{
    reveal_strlit("priceline_path");
    reveal_strlit("despegar_kind");
    reveal_strlit("kayak_adults");
    reveal_strlit("edreams_path");
    reveal_strlit("despegar_ret");
    reveal_strlit("kayak_dates");
    reveal_strlit("book_return");
    reveal_strlit("cheapo_trip");
    reveal_strlit("ret_yymmdd");
    reveal_strlit("wego_dates");
    reveal_strlit("trip_adate");
    reveal_strlit("cheapo_ret");
    reveal_strlit("tvldt_pair");
    reveal_strlit("flighttype");
    reveal_strlit("book_cabin");
    reveal_strlit("book_type");
    reveal_strlit("sky_cabin");
    reveal_strlit("sky_path");
    reveal_strlit("mmt_itin");
    reveal_strlit("mmt_trip");
    reveal_strlit("kiwi_ret");
    reveal_strlit("ret_ymd");
    reveal_strlit("sky_rtn");
    reveal_strlit("yymmdd");
    reveal_strlit("adults");
    reveal_strlit("ret_us");
    reveal_strlit("tvldt");
    reveal_strlit("date");
    reveal_strlit("dmon");
    reveal_strlit("trip");
    reveal_strlit("ret");
    reveal_strlit("ymd");
    reveal_strlit("mmt");
    reveal_strlit("ol");
    reveal_strlit("dl");
    reveal_strlit("ob");
    reveal_strlit("db");
    reveal_strlit("us");
    reveal_strlit("o");
    reveal_strlit("d");
    reveal_strlit("q");
    assert("sky_rtn"@.len() == 7);
    assert(no_braces("sky_rtn"@));
    assert forall|i: int| 0 <= i < 41 && #[trigger] ctx_keys()[i] == "sky_rtn"@ implies i == 22 by {
        if i == 0 { assert(ctx_keys()[i] == "priceline_path"@ && "priceline_path"@.len() == 14); } else if i == 1 { assert(ctx_keys()[i] == "despegar_kind"@ && "despegar_kind"@.len() == 13); } else if i == 2 { assert(ctx_keys()[i] == "kayak_adults"@ && "kayak_adults"@.len() == 12); } else if i == 3 { assert(ctx_keys()[i] == "edreams_path"@ && "edreams_path"@.len() == 12); } else if i == 4 { assert(ctx_keys()[i] == "despegar_ret"@ && "despegar_ret"@.len() == 12); } else if i == 5 { assert(ctx_keys()[i] == "kayak_dates"@ && "kayak_dates"@.len() == 11); } else if i == 6 { assert(ctx_keys()[i] == "book_return"@ && "book_return"@.len() == 11); } else if i == 7 { assert(ctx_keys()[i] == "cheapo_trip"@ && "cheapo_trip"@.len() == 11); } else if i == 8 { assert(ctx_keys()[i] == "ret_yymmdd"@ && "ret_yymmdd"@.len() == 10); } else if i == 9 { assert(ctx_keys()[i] == "wego_dates"@ && "wego_dates"@.len() == 10); } else if i == 10 { assert(ctx_keys()[i] == "trip_adate"@ && "trip_adate"@.len() == 10); } else if i == 11 { assert(ctx_keys()[i] == "cheapo_ret"@ && "cheapo_ret"@.len() == 10); } else if i == 12 { assert(ctx_keys()[i] == "tvldt_pair"@ && "tvldt_pair"@.len() == 10); } else if i == 13 { assert(ctx_keys()[i] == "flighttype"@ && "flighttype"@.len() == 10); } else if i == 14 { assert(ctx_keys()[i] == "book_cabin"@ && "book_cabin"@.len() == 10); } else if i == 15 { assert(ctx_keys()[i] == "book_type"@ && "book_type"@.len() == 9); } else if i == 16 { assert(ctx_keys()[i] == "sky_cabin"@ && "sky_cabin"@.len() == 9); } else if i == 17 { assert(ctx_keys()[i] == "sky_path"@ && "sky_path"@.len() == 8); } else if i == 18 { assert(ctx_keys()[i] == "mmt_itin"@ && "mmt_itin"@.len() == 8); } else if i == 19 { assert(ctx_keys()[i] == "mmt_trip"@ && "mmt_trip"@.len() == 8); } else if i == 20 { assert(ctx_keys()[i] == "kiwi_ret"@ && "kiwi_ret"@.len() == 8); } else if i == 21 { assert(ctx_keys()[i] == "ret_ymd"@ && "ret_ymd"@.len() == 7 && "ret_ymd"@[0] == 'r' && "sky_rtn"@[0] == 's'); } else if i == 22 { assert(ctx_keys()[i] == "sky_rtn"@ && "sky_rtn"@.len() == 7); } else if i == 23 { assert(ctx_keys()[i] == "yymmdd"@ && "yymmdd"@.len() == 6); } else if i == 24 { assert(ctx_keys()[i] == "adults"@ && "adults"@.len() == 6); } else if i == 25 { assert(ctx_keys()[i] == "ret_us"@ && "ret_us"@.len() == 6); } else if i == 26 { assert(ctx_keys()[i] == "tvldt"@ && "tvldt"@.len() == 5); } else if i == 27 { assert(ctx_keys()[i] == "date"@ && "date"@.len() == 4); } else if i == 28 { assert(ctx_keys()[i] == "dmon"@ && "dmon"@.len() == 4); } else if i == 29 { assert(ctx_keys()[i] == "trip"@ && "trip"@.len() == 4); } else if i == 30 { assert(ctx_keys()[i] == "ret"@ && "ret"@.len() == 3); } else if i == 31 { assert(ctx_keys()[i] == "ymd"@ && "ymd"@.len() == 3); } else if i == 32 { assert(ctx_keys()[i] == "mmt"@ && "mmt"@.len() == 3); } else if i == 33 { assert(ctx_keys()[i] == "ol"@ && "ol"@.len() == 2); } else if i == 34 { assert(ctx_keys()[i] == "dl"@ && "dl"@.len() == 2); } else if i == 35 { assert(ctx_keys()[i] == "ob"@ && "ob"@.len() == 2); } else if i == 36 { assert(ctx_keys()[i] == "db"@ && "db"@.len() == 2); } else if i == 37 { assert(ctx_keys()[i] == "us"@ && "us"@.len() == 2); } else if i == 38 { assert(ctx_keys()[i] == "o"@ && "o"@.len() == 1); } else if i == 39 { assert(ctx_keys()[i] == "d"@ && "d"@.len() == 1); } else if i == 40 { assert(ctx_keys()[i] == "q"@ && "q"@.len() == 1); }
    }
}

proof fn lemma_key_trip_adate()
    ensures
        ctx_keys().len() == 41,
        ctx_keys()[10] == "trip_adate"@,
        no_braces("trip_adate"@),
        forall|i: int| 0 <= i < 41 && #[trigger] ctx_keys()[i] == "trip_adate"@ ==> i == 10,
{
    reveal_strlit("priceline_path");
    reveal_strlit("despegar_kind");
    reveal_strlit("kayak_adults");
    reveal_strlit("edreams_path");
    reveal_strlit("despegar_ret");
    reveal_strlit("kayak_dates");
    reveal_strlit("book_return");
    reveal_strlit("cheapo_trip");
    reveal_strlit("ret_yymmdd");
    reveal_strlit("wego_dates");
    reveal_strlit("trip_adate");
    reveal_strlit("cheapo_ret");
    reveal_strlit("tvldt_pair");
    reveal_strlit("flighttype");
    reveal_strlit("book_cabin");
    reveal_strlit("book_type");
    reveal_strlit("sky_cabin");
    reveal_strlit("sky_path");
    reveal_strlit("mmt_itin");
    reveal_strlit("mmt_trip");
    reveal_strlit("kiwi_ret");
    reveal_strlit("ret_ymd");
    reveal_strlit("sky_rtn");
    reveal_strlit("yymmdd");
    reveal_strlit("adults");
    reveal_strlit("ret_us");
    reveal_strlit("tvldt");
    reveal_strlit("date");
    reveal_strlit("dmon");
    reveal_strlit("trip");
    reveal_strlit("ret");
    reveal_strlit("ymd");
    reveal_strlit("mmt");
    reveal_strlit("ol");
    reveal_strlit("dl");
    reveal_strlit("ob");
    reveal_strlit("db");
    reveal_strlit("us");
    reveal_strlit("o");
    reveal_strlit("d");
    reveal_strlit("q");
    assert("trip_adate"@.len() == 10);
    assert(no_braces("trip_adate"@));
    assert forall|i: int| 0 <= i < 41 && #[trigger] ctx_keys()[i] == "trip_adate"@ implies i == 10 by {
        if i == 0 { assert(ctx_keys()[i] == "priceline_path"@ && "priceline_path"@.len() == 14); } else if i == 1 { assert(ctx_keys()[i] == "despegar_kind"@ && "despegar_kind"@.len() == 13); } else if i == 2 { assert(ctx_keys()[i] == "kayak_adults"@ && "kayak_adults"@.len() == 12); } else if i == 3 { assert(ctx_keys()[i] == "edreams_path"@ && "edreams_path"@.len() == 12); } else if i == 4 { assert(ctx_keys()[i] == "despegar_ret"@ && "despegar_ret"@.len() == 12); } else if i == 5 { assert(ctx_keys()[i] == "kayak_dates"@ && "kayak_dates"@.len() == 11); } else if i == 6 { assert(ctx_keys()[i] == "book_return"@ && "book_return"@.len() == 11); } else if i == 7 { assert(ctx_keys()[i] == "cheapo_trip"@ && "cheapo_trip"@.len() == 11); } else if i == 8 { assert(ctx_keys()[i] == "ret_yymmdd"@ && "ret_yymmdd"@.len() == 10 && "ret_yymmdd"@[0] == 'r' && "trip_adate"@[0] == 't'); } else if i == 9 { assert(ctx_keys()[i] == "wego_dates"@ && "wego_dates"@.len() == 10 && "wego_dates"@[0] == 'w' && "trip_adate"@[0] == 't'); } else if i == 10 { assert(ctx_keys()[i] == "trip_adate"@ && "trip_adate"@.len() == 10); } else if i == 11 { assert(ctx_keys()[i] == "cheapo_ret"@ && "cheapo_ret"@.len() == 10 && "cheapo_ret"@[0] == 'c' && "trip_adate"@[0] == 't'); } else if i == 12 { assert(ctx_keys()[i] == "tvldt_pair"@ && "tvldt_pair"@.len() == 10 && "tvldt_pair"@[1] == 'v' && "trip_adate"@[1] == 'r'); } else if i == 13 { assert(ctx_keys()[i] == "flighttype"@ && "flighttype"@.len() == 10 && "flighttype"@[0] == 'f' && "trip_adate"@[0] == 't'); } else if i == 14 { assert(ctx_keys()[i] == "book_cabin"@ && "book_cabin"@.len() == 10 && "book_cabin"@[0] == 'b' && "trip_adate"@[0] == 't'); } else if i == 15 { assert(ctx_keys()[i] == "book_type"@ && "book_type"@.len() == 9); } else if i == 16 { assert(ctx_keys()[i] == "sky_cabin"@ && "sky_cabin"@.len() == 9); } else if i == 17 { assert(ctx_keys()[i] == "sky_path"@ && "sky_path"@.len() == 8); } else if i == 18 { assert(ctx_keys()[i] == "mmt_itin"@ && "mmt_itin"@.len() == 8); } else if i == 19 { assert(ctx_keys()[i] == "mmt_trip"@ && "mmt_trip"@.len() == 8); } else if i == 20 { assert(ctx_keys()[i] == "kiwi_ret"@ && "kiwi_ret"@.len() == 8); } else if i == 21 { assert(ctx_keys()[i] == "ret_ymd"@ && "ret_ymd"@.len() == 7); } else if i == 22 { assert(ctx_keys()[i] == "sky_rtn"@ && "sky_rtn"@.len() == 7); } else if i == 23 { assert(ctx_keys()[i] == "yymmdd"@ && "yymmdd"@.len() == 6); } else if i == 24 { assert(ctx_keys()[i] == "adults"@ && "adults"@.len() == 6); } else if i == 25 { assert(ctx_keys()[i] == "ret_us"@ && "ret_us"@.len() == 6); } else if i == 26 { assert(ctx_keys()[i] == "tvldt"@ && "tvldt"@.len() == 5); } else if i == 27 { assert(ctx_keys()[i] == "date"@ && "date"@.len() == 4); } else if i == 28 { assert(ctx_keys()[i] == "dmon"@ && "dmon"@.len() == 4); } else if i == 29 { assert(ctx_keys()[i] == "trip"@ && "trip"@.len() == 4); } else if i == 30 { assert(ctx_keys()[i] == "ret"@ && "ret"@.len() == 3); } else if i == 31 { assert(ctx_keys()[i] == "ymd"@ && "ymd"@.len() == 3); } else if i == 32 { assert(ctx_keys()[i] == "mmt"@ && "mmt"@.len() == 3); } else if i == 33 { assert(ctx_keys()[i] == "ol"@ && "ol"@.len() == 2); } else if i == 34 { assert(ctx_keys()[i] == "dl"@ && "dl"@.len() == 2); } else if i == 35 { assert(ctx_keys()[i] == "ob"@ && "ob"@.len() == 2); } else if i == 36 { assert(ctx_keys()[i] == "db"@ && "db"@.len() == 2); } else if i == 37 { assert(ctx_keys()[i] == "us"@ && "us"@.len() == 2); } else if i == 38 { assert(ctx_keys()[i] == "o"@ && "o"@.len() == 1); } else if i == 39 { assert(ctx_keys()[i] == "d"@ && "d"@.len() == 1); } else if i == 40 { assert(ctx_keys()[i] == "q"@ && "q"@.len() == 1); }
    }
}

proof fn lemma_key_tvldt_pair()
    ensures
        ctx_keys().len() == 41,
        ctx_keys()[12] == "tvldt_pair"@,
        no_braces("tvldt_pair"@),
        forall|i: int| 0 <= i < 41 && #[trigger] ctx_keys()[i] == "tvldt_pair"@ ==> i == 12,
{
    reveal_strlit("priceline_path");
    reveal_strlit("despegar_kind");
    reveal_strlit("kayak_adults");
    reveal_strlit("edreams_path");
    reveal_strlit("despegar_ret");
    reveal_strlit("kayak_dates");
    reveal_strlit("book_return");
    reveal_strlit("cheapo_trip");
    reveal_strlit("ret_yymmdd");
    reveal_strlit("wego_dates");
    reveal_strlit("trip_adate");
    reveal_strlit("cheapo_ret");
    reveal_strlit("tvldt_pair");
    reveal_strlit("flighttype");
    reveal_strlit("book_cabin");
    reveal_strlit("book_type");
    reveal_strlit("sky_cabin");
    reveal_strlit("sky_path");
    reveal_strlit("mmt_itin");
    reveal_strlit("mmt_trip");
    reveal_strlit("kiwi_ret");
    reveal_strlit("ret_ymd");
    reveal_strlit("sky_rtn");
    reveal_strlit("yymmdd");
    reveal_strlit("adults");
    reveal_strlit("ret_us");
    reveal_strlit("tvldt");
    reveal_strlit("date");
    reveal_strlit("dmon");
    reveal_strlit("trip");
    reveal_strlit("ret");
    reveal_strlit("ymd");
    reveal_strlit("mmt");
    reveal_strlit("ol");
    reveal_strlit("dl");
    reveal_strlit("ob");
    reveal_strlit("db");
    reveal_strlit("us");
    reveal_strlit("o");
    reveal_strlit("d");
    reveal_strlit("q");
    assert("tvldt_pair"@.len() == 10);
    assert(no_braces("tvldt_pair"@));
    assert forall|i: int| 0 <= i < 41 && #[trigger] ctx_keys()[i] == "tvldt_pair"@ implies i == 12 by {
        if i == 0 { assert(ctx_keys()[i] == "priceline_path"@ && "priceline_path"@.len() == 14); } else if i == 1 { assert(ctx_keys()[i] == "despegar_kind"@ && "despegar_kind"@.len() == 13); } else if i == 2 { assert(ctx_keys()[i] == "kayak_adults"@ && "kayak_adults"@.len() == 12); } else if i == 3 { assert(ctx_keys()[i] == "edreams_path"@ && "edreams_path"@.len() == 12); } else if i == 4 { assert(ctx_keys()[i] == "despegar_ret"@ && "despegar_ret"@.len() == 12); } else if i == 5 { assert(ctx_keys()[i] == "kayak_dates"@ && "kayak_dates"@.len() == 11); } else if i == 6 { assert(ctx_keys()[i] == "book_return"@ && "book_return"@.len() == 11); } else if i == 7 { assert(ctx_keys()[i] == "cheapo_trip"@ && "cheapo_trip"@.len() == 11); } else if i == 8 { assert(ctx_keys()[i] == "ret_yymmdd"@ && "ret_yymmdd"@.len() == 10 && "ret_yymmdd"@[0] == 'r' && "tvldt_pair"@[0] == 't'); } else if i == 9 { assert(ctx_keys()[i] == "wego_dates"@ && "wego_dates"@.len() == 10 && "wego_dates"@[0] == 'w' && "tvldt_pair"@[0] == 't'); } else if i == 10 { assert(ctx_keys()[i] == "trip_adate"@ && "trip_adate"@.len() == 10 && "trip_adate"@[1] == 'r' && "tvldt_pair"@[1] == 'v'); } else if i == 11 { assert(ctx_keys()[i] == "cheapo_ret"@ && "cheapo_ret"@.len() == 10 && "cheapo_ret"@[0] == 'c' && "tvldt_pair"@[0] == 't'); } else if i == 12 { assert(ctx_keys()[i] == "tvldt_pair"@ && "tvldt_pair"@.len() == 10); } else if i == 13 { assert(ctx_keys()[i] == "flighttype"@ && "flighttype"@.len() == 10 && "flighttype"@[0] == 'f' && "tvldt_pair"@[0] == 't'); } else if i == 14 { assert(ctx_keys()[i] == "book_cabin"@ && "book_cabin"@.len() == 10 && "book_cabin"@[0] == 'b' && "tvldt_pair"@[0] == 't'); } else if i == 15 { assert(ctx_keys()[i] == "book_type"@ && "book_type"@.len() == 9); } else if i == 16 { assert(ctx_keys()[i] == "sky_cabin"@ && "sky_cabin"@.len() == 9); } else if i == 17 { assert(ctx_keys()[i] == "sky_path"@ && "sky_path"@.len() == 8); } else if i == 18 { assert(ctx_keys()[i] == "mmt_itin"@ && "mmt_itin"@.len() == 8); } else if i == 19 { assert(ctx_keys()[i] == "mmt_trip"@ && "mmt_trip"@.len() == 8); } else if i == 20 { assert(ctx_keys()[i] == "kiwi_ret"@ && "kiwi_ret"@.len() == 8); } else if i == 21 { assert(ctx_keys()[i] == "ret_ymd"@ && "ret_ymd"@.len() == 7); } else if i == 22 { assert(ctx_keys()[i] == "sky_rtn"@ && "sky_rtn"@.len() == 7); } else if i == 23 { assert(ctx_keys()[i] == "yymmdd"@ && "yymmdd"@.len() == 6); } else if i == 24 { assert(ctx_keys()[i] == "adults"@ && "adults"@.len() == 6); } else if i == 25 { assert(ctx_keys()[i] == "ret_us"@ && "ret_us"@.len() == 6); } else if i == 26 { assert(ctx_keys()[i] == "tvldt"@ && "tvldt"@.len() == 5); } else if i == 27 { assert(ctx_keys()[i] == "date"@ && "date"@.len() == 4); } else if i == 28 { assert(ctx_keys()[i] == "dmon"@ && "dmon"@.len() == 4); } else if i == 29 { assert(ctx_keys()[i] == "trip"@ && "trip"@.len() == 4); } else if i == 30 { assert(ctx_keys()[i] == "ret"@ && "ret"@.len() == 3); } else if i == 31 { assert(ctx_keys()[i] == "ymd"@ && "ymd"@.len() == 3); } else if i == 32 { assert(ctx_keys()[i] == "mmt"@ && "mmt"@.len() == 3); } else if i == 33 { assert(ctx_keys()[i] == "ol"@ && "ol"@.len() == 2); } else if i == 34 { assert(ctx_keys()[i] == "dl"@ && "dl"@.len() == 2); } else if i == 35 { assert(ctx_keys()[i] == "ob"@ && "ob"@.len() == 2); } else if i == 36 { assert(ctx_keys()[i] == "db"@ && "db"@.len() == 2); } else if i == 37 { assert(ctx_keys()[i] == "us"@ && "us"@.len() == 2); } else if i == 38 { assert(ctx_keys()[i] == "o"@ && "o"@.len() == 1); } else if i == 39 { assert(ctx_keys()[i] == "d"@ && "d"@.len() == 1); } else if i == 40 { assert(ctx_keys()[i] == "q"@ && "q"@.len() == 1); }
    }
}

proof fn lemma_key_us()
    ensures
        ctx_keys().len() == 41,
        ctx_keys()[37] == "us"@,
        no_braces("us"@),
        forall|i: int| 0 <= i < 41 && #[trigger] ctx_keys()[i] == "us"@ ==> i == 37,
{
    reveal_strlit("priceline_path");
    reveal_strlit("despegar_kind");
    reveal_strlit("kayak_adults");
    reveal_strlit("edreams_path");
    reveal_strlit("despegar_ret");
    reveal_strlit("kayak_dates");
    reveal_strlit("book_return");
    reveal_strlit("cheapo_trip");
    reveal_strlit("ret_yymmdd");
    reveal_strlit("wego_dates");
    reveal_strlit("trip_adate");
    reveal_strlit("cheapo_ret");
    reveal_strlit("tvldt_pair");
    reveal_strlit("flighttype");
    reveal_strlit("book_cabin");
    reveal_strlit("book_type");
    reveal_strlit("sky_cabin");
    reveal_strlit("sky_path");
    reveal_strlit("mmt_itin");
    reveal_strlit("mmt_trip");
    reveal_strlit("kiwi_ret");
    reveal_strlit("ret_ymd");
    reveal_strlit("sky_rtn");
    reveal_strlit("yymmdd");
    reveal_strlit("adults");
    reveal_strlit("ret_us");
    reveal_strlit("tvldt");
    reveal_strlit("date");
    reveal_strlit("dmon");
    reveal_strlit("trip");
    reveal_strlit("ret");
    reveal_strlit("ymd");
    reveal_strlit("mmt");
    reveal_strlit("ol");
    reveal_strlit("dl");
    reveal_strlit("ob");
    reveal_strlit("db");
    reveal_strlit("us");
    reveal_strlit("o");
    reveal_strlit("d");
    reveal_strlit("q");
    assert("us"@.len() == 2);
    assert(no_braces("us"@));
    assert forall|i: int| 0 <= i < 41 && #[trigger] ctx_keys()[i] == "us"@ implies i == 37 by {
        if i == 0 { assert(ctx_keys()[i] == "priceline_path"@ && "priceline_path"@.len() == 14); } else if i == 1 { assert(ctx_keys()[i] == "despegar_kind"@ && "despegar_kind"@.len() == 13); } else if i == 2 { assert(ctx_keys()[i] == "kayak_adults"@ && "kayak_adults"@.len() == 12); } else if i == 3 { assert(ctx_keys()[i] == "edreams_path"@ && "edreams_path"@.len() == 12); } else if i == 4 { assert(ctx_keys()[i] == "despegar_ret"@ && "despegar_ret"@.len() == 12); } else if i == 5 { assert(ctx_keys()[i] == "kayak_dates"@ && "kayak_dates"@.len() == 11); } else if i == 6 { assert(ctx_keys()[i] == "book_return"@ && "book_return"@.len() == 11); } else if i == 7 { assert(ctx_keys()[i] == "cheapo_trip"@ && "cheapo_trip"@.len() == 11); } else if i == 8 { assert(ctx_keys()[i] == "ret_yymmdd"@ && "ret_yymmdd"@.len() == 10); } else if i == 9 { assert(ctx_keys()[i] == "wego_dates"@ && "wego_dates"@.len() == 10); } else if i == 10 { assert(ctx_keys()[i] == "trip_adate"@ && "trip_adate"@.len() == 10); } else if i == 11 { assert(ctx_keys()[i] == "cheapo_ret"@ && "cheapo_ret"@.len() == 10); } else if i == 12 { assert(ctx_keys()[i] == "tvldt_pair"@ && "tvldt_pair"@.len() == 10); } else if i == 13 { assert(ctx_keys()[i] == "flighttype"@ && "flighttype"@.len() == 10); } else if i == 14 { assert(ctx_keys()[i] == "book_cabin"@ && "book_cabin"@.len() == 10); } else if i == 15 { assert(ctx_keys()[i] == "book_type"@ && "book_type"@.len() == 9); } else if i == 16 { assert(ctx_keys()[i] == "sky_cabin"@ && "sky_cabin"@.len() == 9); } else if i == 17 { assert(ctx_keys()[i] == "sky_path"@ && "sky_path"@.len() == 8); } else if i == 18 { assert(ctx_keys()[i] == "mmt_itin"@ && "mmt_itin"@.len() == 8); } else if i == 19 { assert(ctx_keys()[i] == "mmt_trip"@ && "mmt_trip"@.len() == 8); } else if i == 20 { assert(ctx_keys()[i] == "kiwi_ret"@ && "kiwi_ret"@.len() == 8); } else if i == 21 { assert(ctx_keys()[i] == "ret_ymd"@ && "ret_ymd"@.len() == 7); } else if i == 22 { assert(ctx_keys()[i] == "sky_rtn"@ && "sky_rtn"@.len() == 7); } else if i == 23 { assert(ctx_keys()[i] == "yymmdd"@ && "yymmdd"@.len() == 6); } else if i == 24 { assert(ctx_keys()[i] == "adults"@ && "adults"@.len() == 6); } else if i == 25 { assert(ctx_keys()[i] == "ret_us"@ && "ret_us"@.len() == 6); } else if i == 26 { assert(ctx_keys()[i] == "tvldt"@ && "tvldt"@.len() == 5); } else if i == 27 { assert(ctx_keys()[i] == "date"@ && "date"@.len() == 4); } else if i == 28 { assert(ctx_keys()[i] == "dmon"@ && "dmon"@.len() == 4); } else if i == 29 { assert(ctx_keys()[i] == "trip"@ && "trip"@.len() == 4); } else if i == 30 { assert(ctx_keys()[i] == "ret"@ && "ret"@.len() == 3); } else if i == 31 { assert(ctx_keys()[i] == "ymd"@ && "ymd"@.len() == 3); } else if i == 32 { assert(ctx_keys()[i] == "mmt"@ && "mmt"@.len() == 3); } else if i == 33 { assert(ctx_keys()[i] == "ol"@ && "ol"@.len() == 2 && "ol"@[0] == 'o' && "us"@[0] == 'u'); } else if i == 34 { assert(ctx_keys()[i] == "dl"@ && "dl"@.len() == 2 && "dl"@[0] == 'd' && "us"@[0] == 'u'); } else if i == 35 { assert(ctx_keys()[i] == "ob"@ && "ob"@.len() == 2 && "ob"@[0] == 'o' && "us"@[0] == 'u'); } else if i == 36 { assert(ctx_keys()[i] == "db"@ && "db"@.len() == 2 && "db"@[0] == 'd' && "us"@[0] == 'u'); } else if i == 37 { assert(ctx_keys()[i] == "us"@ && "us"@.len() == 2); } else if i == 38 { assert(ctx_keys()[i] == "o"@ && "o"@.len() == 1); } else if i == 39 { assert(ctx_keys()[i] == "d"@ && "d"@.len() == 1); } else if i == 40 { assert(ctx_keys()[i] == "q"@ && "q"@.len() == 1); }
    }
}

proof fn lemma_key_wego_dates()
    ensures
        ctx_keys().len() == 41,
        ctx_keys()[9] == "wego_dates"@,
        no_braces("wego_dates"@),
        forall|i: int| 0 <= i < 41 && #[trigger] ctx_keys()[i] == "wego_dates"@ ==> i == 9,
{
    reveal_strlit("priceline_path");
    reveal_strlit("despegar_kind");
    reveal_strlit("kayak_adults");
    reveal_strlit("edreams_path");
    reveal_strlit("despegar_ret");
    reveal_strlit("kayak_dates");
    reveal_strlit("book_return");
    reveal_strlit("cheapo_trip");
    reveal_strlit("ret_yymmdd");
    reveal_strlit("wego_dates");
    reveal_strlit("trip_adate");
    reveal_strlit("cheapo_ret");
    reveal_strlit("tvldt_pair");
    reveal_strlit("flighttype");
    reveal_strlit("book_cabin");
    reveal_strlit("book_type");
    reveal_strlit("sky_cabin");
    reveal_strlit("sky_path");
    reveal_strlit("mmt_itin");
    reveal_strlit("mmt_trip");
    reveal_strlit("kiwi_ret");
    reveal_strlit("ret_ymd");
    reveal_strlit("sky_rtn");
    reveal_strlit("yymmdd");
    reveal_strlit("adults");
    reveal_strlit("ret_us");
    reveal_strlit("tvldt");
    reveal_strlit("date");
    reveal_strlit("dmon");
    reveal_strlit("trip");
    reveal_strlit("ret");
    reveal_strlit("ymd");
    reveal_strlit("mmt");
    reveal_strlit("ol");
    reveal_strlit("dl");
    reveal_strlit("ob");
    reveal_strlit("db");
    reveal_strlit("us");
    reveal_strlit("o");
    reveal_strlit("d");
    reveal_strlit("q");
    assert("wego_dates"@.len() == 10);
    assert(no_braces("wego_dates"@));
    assert forall|i: int| 0 <= i < 41 && #[trigger] ctx_keys()[i] == "wego_dates"@ implies i == 9 by {
        if i == 0 { assert(ctx_keys()[i] == "priceline_path"@ && "priceline_path"@.len() == 14); } else if i == 1 { assert(ctx_keys()[i] == "despegar_kind"@ && "despegar_kind"@.len() == 13); } else if i == 2 { assert(ctx_keys()[i] == "kayak_adults"@ && "kayak_adults"@.len() == 12); } else if i == 3 { assert(ctx_keys()[i] == "edreams_path"@ && "edreams_path"@.len() == 12); } else if i == 4 { assert(ctx_keys()[i] == "despegar_ret"@ && "despegar_ret"@.len() == 12); } else if i == 5 { assert(ctx_keys()[i] == "kayak_dates"@ && "kayak_dates"@.len() == 11); } else if i == 6 { assert(ctx_keys()[i] == "book_return"@ && "book_return"@.len() == 11); } else if i == 7 { assert(ctx_keys()[i] == "cheapo_trip"@ && "cheapo_trip"@.len() == 11); } else if i == 8 { assert(ctx_keys()[i] == "ret_yymmdd"@ && "ret_yymmdd"@.len() == 10 && "ret_yymmdd"@[0] == 'r' && "wego_dates"@[0] == 'w'); } else if i == 9 { assert(ctx_keys()[i] == "wego_dates"@ && "wego_dates"@.len() == 10); } else if i == 10 { assert(ctx_keys()[i] == "trip_adate"@ && "trip_adate"@.len() == 10 && "trip_adate"@[0] == 't' && "wego_dates"@[0] == 'w'); } else if i == 11 { assert(ctx_keys()[i] == "cheapo_ret"@ && "cheapo_ret"@.len() == 10 && "cheapo_ret"@[0] == 'c' && "wego_dates"@[0] == 'w'); } else if i == 12 { assert(ctx_keys()[i] == "tvldt_pair"@ && "tvldt_pair"@.len() == 10 && "tvldt_pair"@[0] == 't' && "wego_dates"@[0] == 'w'); } else if i == 13 { assert(ctx_keys()[i] == "flighttype"@ && "flighttype"@.len() == 10 && "flighttype"@[0] == 'f' && "wego_dates"@[0] == 'w'); } else if i == 14 { assert(ctx_keys()[i] == "book_cabin"@ && "book_cabin"@.len() == 10 && "book_cabin"@[0] == 'b' && "wego_dates"@[0] == 'w'); } else if i == 15 { assert(ctx_keys()[i] == "book_type"@ && "book_type"@.len() == 9); } else if i == 16 { assert(ctx_keys()[i] == "sky_cabin"@ && "sky_cabin"@.len() == 9); } else if i == 17 { assert(ctx_keys()[i] == "sky_path"@ && "sky_path"@.len() == 8); } else if i == 18 { assert(ctx_keys()[i] == "mmt_itin"@ && "mmt_itin"@.len() == 8); } else if i == 19 { assert(ctx_keys()[i] == "mmt_trip"@ && "mmt_trip"@.len() == 8); } else if i == 20 { assert(ctx_keys()[i] == "kiwi_ret"@ && "kiwi_ret"@.len() == 8); } else if i == 21 { assert(ctx_keys()[i] == "ret_ymd"@ && "ret_ymd"@.len() == 7); } else if i == 22 { assert(ctx_keys()[i] == "sky_rtn"@ && "sky_rtn"@.len() == 7); } else if i == 23 { assert(ctx_keys()[i] == "yymmdd"@ && "yymmdd"@.len() == 6); } else if i == 24 { assert(ctx_keys()[i] == "adults"@ && "adults"@.len() == 6); } else if i == 25 { assert(ctx_keys()[i] == "ret_us"@ && "ret_us"@.len() == 6); } else if i == 26 { assert(ctx_keys()[i] == "tvldt"@ && "tvldt"@.len() == 5); } else if i == 27 { assert(ctx_keys()[i] == "date"@ && "date"@.len() == 4); } else if i == 28 { assert(ctx_keys()[i] == "dmon"@ && "dmon"@.len() == 4); } else if i == 29 { assert(ctx_keys()[i] == "trip"@ && "trip"@.len() == 4); } else if i == 30 { assert(ctx_keys()[i] == "ret"@ && "ret"@.len() == 3); } else if i == 31 { assert(ctx_keys()[i] == "ymd"@ && "ymd"@.len() == 3); } else if i == 32 { assert(ctx_keys()[i] == "mmt"@ && "mmt"@.len() == 3); } else if i == 33 { assert(ctx_keys()[i] == "ol"@ && "ol"@.len() == 2); } else if i == 34 { assert(ctx_keys()[i] == "dl"@ && "dl"@.len() == 2); } else if i == 35 { assert(ctx_keys()[i] == "ob"@ && "ob"@.len() == 2); } else if i == 36 { assert(ctx_keys()[i] == "db"@ && "db"@.len() == 2); } else if i == 37 { assert(ctx_keys()[i] == "us"@ && "us"@.len() == 2); } else if i == 38 { assert(ctx_keys()[i] == "o"@ && "o"@.len() == 1); } else if i == 39 { assert(ctx_keys()[i] == "d"@ && "d"@.len() == 1); } else if i == 40 { assert(ctx_keys()[i] == "q"@ && "q"@.len() == 1); }
    }
}

/// The pieces of the skyscanner address.
pub open spec fn pieces_skyscanner() -> Seq<Piece> {
    seq![(false, "https://www.skyscanner.com/transport/flights/"@), (true, "ol"@), (false, "/"@), (true, "dl"@), (false, "/"@), (true, "sky_path"@), (false, "?adultsv2="@), (true, "adults"@), (false, "&cabinclass="@), (true, "sky_cabin"@), (false, "&rtn="@), (true, "sky_rtn"@), (false, "&preferdirects=false"@)]
}

#[verifier::rlimit(40)]
proof fn lemma_template_skyscanner()
    ensures
        meta_rows()[2].0 == "skyscanner"@,
        meta_rows()[2].0 != "google-flights"@,
        meta_rows()[2].5 == join(pieces_skyscanner()),
        pieces_ok(pieces_skyscanner()),
{
    reveal_strlit("&cabinclass=");
    reveal_strlit("&preferdirects=false");
    reveal_strlit("&rtn=");
    reveal_strlit("/");
    reveal_strlit("?adultsv2=");
    reveal_strlit("https://www.skyscanner.com/transport/flights/");
    reveal_strlit("adults");
    reveal_strlit("dl");
    reveal_strlit("ol");
    reveal_strlit("sky_cabin");
    reveal_strlit("sky_path");
    reveal_strlit("sky_rtn");
    reveal_strlit("https://www.skyscanner.com/transport/flights/{ol}/{dl}/{sky_path}?adultsv2={adults}&cabinclass={sky_cabin}&rtn={sky_rtn}&preferdirects=false");
    reveal_strlit("skyscanner");
    reveal_strlit("google-flights");
    lemma_key_adults();
    lemma_key_dl();
    lemma_key_ol();
    lemma_key_sky_cabin();
    lemma_key_sky_path();
    lemma_key_sky_rtn();
    let ps = pieces_skyscanner();
    assert(meta_rows()[2].0 == "skyscanner"@);
    assert("skyscanner"@.len() == 10 && "google-flights"@.len() == 14 && "skyscanner"@[0] == 's' && "google-flights"@[0] == 'g');
    let t = "https://www.skyscanner.com/transport/flights/{ol}/{dl}/{sky_path}?adultsv2={adults}&cabinclass={sky_cabin}&rtn={sky_rtn}&preferdirects=false"@;
    assert(t.len() == 140);
    assert(ps.subrange(0, 0) =~= Seq::<Piece>::empty());
    assert(join(ps.subrange(0, 0)) == Seq::<char>::empty());
    assert(t.subrange(0, 0) =~= Seq::<char>::empty());
    lemma_join_push(ps.subrange(0, 0), ps[0]);
    assert(ps.subrange(0, 0).push(ps[0]) =~= ps.subrange(0, 1));
    assert(t.subrange(0, 45) =~= t.subrange(0, 0) + piece_text(ps[0]));
    lemma_join_push(ps.subrange(0, 1), ps[1]);
    assert(ps.subrange(0, 1).push(ps[1]) =~= ps.subrange(0, 2));
    assert(t.subrange(0, 49) =~= t.subrange(0, 45) + piece_text(ps[1]));
    lemma_join_push(ps.subrange(0, 2), ps[2]);
    assert(ps.subrange(0, 2).push(ps[2]) =~= ps.subrange(0, 3));
    assert(t.subrange(0, 50) =~= t.subrange(0, 49) + piece_text(ps[2]));
    lemma_join_push(ps.subrange(0, 3), ps[3]);
    assert(ps.subrange(0, 3).push(ps[3]) =~= ps.subrange(0, 4));
    assert(t.subrange(0, 54) =~= t.subrange(0, 50) + piece_text(ps[3]));
    lemma_join_push(ps.subrange(0, 4), ps[4]);
    assert(ps.subrange(0, 4).push(ps[4]) =~= ps.subrange(0, 5));
    assert(t.subrange(0, 55) =~= t.subrange(0, 54) + piece_text(ps[4]));
    lemma_join_push(ps.subrange(0, 5), ps[5]);
    assert(ps.subrange(0, 5).push(ps[5]) =~= ps.subrange(0, 6));
    assert(t.subrange(0, 65) =~= t.subrange(0, 55) + piece_text(ps[5]));
    lemma_join_push(ps.subrange(0, 6), ps[6]);
    assert(ps.subrange(0, 6).push(ps[6]) =~= ps.subrange(0, 7));
    assert(t.subrange(0, 75) =~= t.subrange(0, 65) + piece_text(ps[6]));
    lemma_join_push(ps.subrange(0, 7), ps[7]);
    assert(ps.subrange(0, 7).push(ps[7]) =~= ps.subrange(0, 8));
    assert(t.subrange(0, 83) =~= t.subrange(0, 75) + piece_text(ps[7]));
    lemma_join_push(ps.subrange(0, 8), ps[8]);
    assert(ps.subrange(0, 8).push(ps[8]) =~= ps.subrange(0, 9));
    assert(t.subrange(0, 95) =~= t.subrange(0, 83) + piece_text(ps[8]));
    lemma_join_push(ps.subrange(0, 9), ps[9]);
    assert(ps.subrange(0, 9).push(ps[9]) =~= ps.subrange(0, 10));
    assert(t.subrange(0, 106) =~= t.subrange(0, 95) + piece_text(ps[9]));
    lemma_join_push(ps.subrange(0, 10), ps[10]);
    assert(ps.subrange(0, 10).push(ps[10]) =~= ps.subrange(0, 11));
    assert(t.subrange(0, 111) =~= t.subrange(0, 106) + piece_text(ps[10]));
    lemma_join_push(ps.subrange(0, 11), ps[11]);
    assert(ps.subrange(0, 11).push(ps[11]) =~= ps.subrange(0, 12));
    assert(t.subrange(0, 120) =~= t.subrange(0, 111) + piece_text(ps[11]));
    lemma_join_push(ps.subrange(0, 12), ps[12]);
    assert(ps.subrange(0, 12).push(ps[12]) =~= ps.subrange(0, 13));
    assert(t.subrange(0, 140) =~= t.subrange(0, 120) + piece_text(ps[12]));
    assert(ps.subrange(0, 13) =~= ps);
    assert(t.subrange(0, 140) =~= t);
    assert(meta_rows()[2].5 == t);
    assert(pieces_ok(ps)) by {
        assert forall|i: int| 0 <= i < ps.len() implies if (#[trigger] ps[i]).0 { no_braces(ps[i].1) } else { no_open(ps[i].1) } by {
            if i == 0 { assert(no_open("https://www.skyscanner.com/transport/flights/"@)); } else if i == 2 { assert(no_open("/"@)); } else if i == 4 { assert(no_open("/"@)); } else if i == 6 { assert(no_open("?adultsv2="@)); } else if i == 8 { assert(no_open("&cabinclass="@)); } else if i == 10 { assert(no_open("&rtn="@)); } else if i == 12 { assert(no_open("&preferdirects=false"@)); } else if i == 1 { assert(no_braces("ol"@)); } else if i == 3 { assert(no_braces("dl"@)); } else if i == 5 { assert(no_braces("sky_path"@)); } else if i == 7 { assert(no_braces("adults"@)); } else if i == 9 { assert(no_braces("sky_cabin"@)); } else if i == 11 { assert(no_braces("sky_rtn"@)); }
        }
    }
}

#[verifier::rlimit(40)]
proof fn lemma_site_skyscanner(origin: Seq<char>, dest: Seq<char>, date: Seq<char>, adults: int,
    airlines: Seq<(Seq<char>, Seq<char>)>, currency: Seq<char>, cabin: Seq<char>)
    requires
        utf8_len(date) >= 10,
        values_free(to_upper(origin), to_upper(dest), date, adults, cabin_upper(cabin)),
    ensures
        booker_rows(origin, dest, date, adults, airlines, currency, cabin, None)[2].0 == "skyscanner"@,
        ({
            let o = to_upper(origin);
            let d = to_upper(dest);
            let cabin_u = cabin_upper(cabin);
            booker_rows(origin, dest, date, adults, airlines, currency, cabin, None)[2].4 == "https://www.skyscanner.com/transport/flights/"@ + to_lower(o) + "/"@ + to_lower(d) + "/"@ + (no_dashes(after_bytes(date, 2)) + "/"@) + "?adultsv2="@ + decimal(adults) + "&cabinclass="@ + sky_cabin_spec(cabin_u) + "&rtn="@ + "0"@ + "&preferdirects=false"@
        }),
{
    lemma_key_adults();
    lemma_key_dl();
    lemma_key_ol();
    lemma_key_sky_cabin();
    lemma_key_sky_path();
    lemma_key_sky_rtn();
    lemma_template_skyscanner();
    lemma_row_url(origin, dest, date, adults, airlines, currency, cabin, 2);
    let o = to_upper(origin);
    let d = to_upper(dest);
    let cabin_u = cabin_upper(cabin);
    let ctx = ctx_spec(o, d, date, Seq::empty(), adults, cabin_u);
    lemma_ctx_keys(o, d, date, Seq::empty(), adults, cabin_u);
    let ps = pieces_skyscanner();
    lemma_key_facts();
    assert(keys_clean(ctx)) by {
        assert forall|i: int| 0 <= i < ctx.len() implies no_braces(#[trigger] ctx[i].0) by {
            assert(ctx[i].0 == ctx_keys()[i]);
        }
    }
    assert(values_clean(ps, ctx));
    lemma_subst_pieces(ps, ctx);
    lemma_filled_piece(ps, ctx, 0);
    lemma_filled_piece(ps, ctx, 1);
    assert forall|i: int| 0 <= i < 33 implies (#[trigger] ctx[i]).0 != ps[1].1 by {
        assert(ctx[i].0 == ctx_keys()[i]);
    }
    assert(ctx[33].0 == ps[1].1);
    assert(ctx[33].1 == to_lower(o));
    lemma_filled_piece(ps, ctx, 2);
    lemma_filled_piece(ps, ctx, 3);
    assert forall|i: int| 0 <= i < 34 implies (#[trigger] ctx[i]).0 != ps[3].1 by {
        assert(ctx[i].0 == ctx_keys()[i]);
    }
    assert(ctx[34].0 == ps[3].1);
    assert(ctx[34].1 == to_lower(d));
    lemma_filled_piece(ps, ctx, 4);
    lemma_filled_piece(ps, ctx, 5);
    assert forall|i: int| 0 <= i < 17 implies (#[trigger] ctx[i]).0 != ps[5].1 by {
        assert(ctx[i].0 == ctx_keys()[i]);
    }
    assert(ctx[17].0 == ps[5].1);
    assert(ctx[17].1 == no_dashes(after_bytes(date, 2)) + "/"@);
    lemma_filled_piece(ps, ctx, 6);
    lemma_filled_piece(ps, ctx, 7);
    assert forall|i: int| 0 <= i < 24 implies (#[trigger] ctx[i]).0 != ps[7].1 by {
        assert(ctx[i].0 == ctx_keys()[i]);
    }
    assert(ctx[24].0 == ps[7].1);
    assert(ctx[24].1 == decimal(adults));
    lemma_filled_piece(ps, ctx, 8);
    lemma_filled_piece(ps, ctx, 9);
    assert forall|i: int| 0 <= i < 16 implies (#[trigger] ctx[i]).0 != ps[9].1 by {
        assert(ctx[i].0 == ctx_keys()[i]);
    }
    assert(ctx[16].0 == ps[9].1);
    assert(ctx[16].1 == sky_cabin_spec(cabin_u));
    lemma_filled_piece(ps, ctx, 10);
    lemma_filled_piece(ps, ctx, 11);
    assert forall|i: int| 0 <= i < 22 implies (#[trigger] ctx[i]).0 != ps[11].1 by {
        assert(ctx[i].0 == ctx_keys()[i]);
    }
    assert(ctx[22].0 == ps[11].1);
    assert(ctx[22].1 == "0"@);
    lemma_filled_piece(ps, ctx, 12);
    let g: Seq<Piece> = seq![(false, "https://www.skyscanner.com/transport/flights/"@), (false, to_lower(o)), (false, "/"@), (false, to_lower(d)), (false, "/"@), (false, no_dashes(after_bytes(date, 2)) + "/"@), (false, "?adultsv2="@), (false, decimal(adults)), (false, "&cabinclass="@), (false, sky_cabin_spec(cabin_u)), (false, "&rtn="@), (false, "0"@), (false, "&preferdirects=false"@)];
    let f = filled(ps, ctx);
    assert(f =~= g);
    reveal_strlit("&cabinclass=");
    reveal_strlit("&preferdirects=false");
    reveal_strlit("&rtn=");
    reveal_strlit("/");
    reveal_strlit("?adultsv2=");
    reveal_strlit("https://www.skyscanner.com/transport/flights/");
    assert(g.subrange(0, 0) =~= Seq::<Piece>::empty());
    assert(join(g.subrange(0, 0)) == Seq::<char>::empty());
    lemma_join_push(g.subrange(0, 0), g[0]);
    assert(g.subrange(0, 0).push(g[0]) =~= g.subrange(0, 1));
    assert(join(g.subrange(0, 1)) =~= "https://www.skyscanner.com/transport/flights/"@);
    lemma_join_push(g.subrange(0, 1), g[1]);
    assert(g.subrange(0, 1).push(g[1]) =~= g.subrange(0, 2));
    assert(join(g.subrange(0, 2)) == "https://www.skyscanner.com/transport/flights/"@ + to_lower(o));
    lemma_join_push(g.subrange(0, 2), g[2]);
    assert(g.subrange(0, 2).push(g[2]) =~= g.subrange(0, 3));
    assert(join(g.subrange(0, 3)) == "https://www.skyscanner.com/transport/flights/"@ + to_lower(o) + "/"@);
    lemma_join_push(g.subrange(0, 3), g[3]);
    assert(g.subrange(0, 3).push(g[3]) =~= g.subrange(0, 4));
    assert(join(g.subrange(0, 4)) == "https://www.skyscanner.com/transport/flights/"@ + to_lower(o) + "/"@ + to_lower(d));
    lemma_join_push(g.subrange(0, 4), g[4]);
    assert(g.subrange(0, 4).push(g[4]) =~= g.subrange(0, 5));
    assert(join(g.subrange(0, 5)) == "https://www.skyscanner.com/transport/flights/"@ + to_lower(o) + "/"@ + to_lower(d) + "/"@);
    lemma_join_push(g.subrange(0, 5), g[5]);
    assert(g.subrange(0, 5).push(g[5]) =~= g.subrange(0, 6));
    assert(join(g.subrange(0, 6)) == "https://www.skyscanner.com/transport/flights/"@ + to_lower(o) + "/"@ + to_lower(d) + "/"@ + (no_dashes(after_bytes(date, 2)) + "/"@));
    lemma_join_push(g.subrange(0, 6), g[6]);
    assert(g.subrange(0, 6).push(g[6]) =~= g.subrange(0, 7));
    assert(join(g.subrange(0, 7)) == "https://www.skyscanner.com/transport/flights/"@ + to_lower(o) + "/"@ + to_lower(d) + "/"@ + (no_dashes(after_bytes(date, 2)) + "/"@) + "?adultsv2="@);
    lemma_join_push(g.subrange(0, 7), g[7]);
    assert(g.subrange(0, 7).push(g[7]) =~= g.subrange(0, 8));
    assert(join(g.subrange(0, 8)) == "https://www.skyscanner.com/transport/flights/"@ + to_lower(o) + "/"@ + to_lower(d) + "/"@ + (no_dashes(after_bytes(date, 2)) + "/"@) + "?adultsv2="@ + decimal(adults));
    lemma_join_push(g.subrange(0, 8), g[8]);
    assert(g.subrange(0, 8).push(g[8]) =~= g.subrange(0, 9));
    assert(join(g.subrange(0, 9)) == "https://www.skyscanner.com/transport/flights/"@ + to_lower(o) + "/"@ + to_lower(d) + "/"@ + (no_dashes(after_bytes(date, 2)) + "/"@) + "?adultsv2="@ + decimal(adults) + "&cabinclass="@);
    lemma_join_push(g.subrange(0, 9), g[9]);
    assert(g.subrange(0, 9).push(g[9]) =~= g.subrange(0, 10));
    assert(join(g.subrange(0, 10)) == "https://www.skyscanner.com/transport/flights/"@ + to_lower(o) + "/"@ + to_lower(d) + "/"@ + (no_dashes(after_bytes(date, 2)) + "/"@) + "?adultsv2="@ + decimal(adults) + "&cabinclass="@ + sky_cabin_spec(cabin_u));
    lemma_join_push(g.subrange(0, 10), g[10]);
    assert(g.subrange(0, 10).push(g[10]) =~= g.subrange(0, 11));
    assert(join(g.subrange(0, 11)) == "https://www.skyscanner.com/transport/flights/"@ + to_lower(o) + "/"@ + to_lower(d) + "/"@ + (no_dashes(after_bytes(date, 2)) + "/"@) + "?adultsv2="@ + decimal(adults) + "&cabinclass="@ + sky_cabin_spec(cabin_u) + "&rtn="@);
    lemma_join_push(g.subrange(0, 11), g[11]);
    assert(g.subrange(0, 11).push(g[11]) =~= g.subrange(0, 12));
    assert(join(g.subrange(0, 12)) == "https://www.skyscanner.com/transport/flights/"@ + to_lower(o) + "/"@ + to_lower(d) + "/"@ + (no_dashes(after_bytes(date, 2)) + "/"@) + "?adultsv2="@ + decimal(adults) + "&cabinclass="@ + sky_cabin_spec(cabin_u) + "&rtn="@ + "0"@);
    lemma_join_push(g.subrange(0, 12), g[12]);
    assert(g.subrange(0, 12).push(g[12]) =~= g.subrange(0, 13));
    assert(join(g.subrange(0, 13)) == "https://www.skyscanner.com/transport/flights/"@ + to_lower(o) + "/"@ + to_lower(d) + "/"@ + (no_dashes(after_bytes(date, 2)) + "/"@) + "?adultsv2="@ + decimal(adults) + "&cabinclass="@ + sky_cabin_spec(cabin_u) + "&rtn="@ + "0"@ + "&preferdirects=false"@);
    assert(g.subrange(0, 13) =~= g);
}

/// The pieces of the wego address.
pub open spec fn pieces_wego() -> Seq<Piece> {
    seq![(false, "https://www.wego.com/flights/searches/"@), (true, "o"@), (false, "-"@), (true, "d"@), (false, "-"@), (true, "wego_dates"@), (false, "/economy/"@), (true, "adults"@), (false, "a"@)]
}

#[verifier::rlimit(40)]
proof fn lemma_template_wego()
    ensures
        meta_rows()[5].0 == "wego"@,
        meta_rows()[5].0 != "google-flights"@,
        meta_rows()[5].5 == join(pieces_wego()),
        pieces_ok(pieces_wego()),
{
    reveal_strlit("-");
    reveal_strlit("/economy/");
    reveal_strlit("a");
    reveal_strlit("https://www.wego.com/flights/searches/");
    reveal_strlit("adults");
    reveal_strlit("d");
    reveal_strlit("o");
    reveal_strlit("wego_dates");
    reveal_strlit("https://www.wego.com/flights/searches/{o}-{d}-{wego_dates}/economy/{adults}a");
    reveal_strlit("wego");
    reveal_strlit("google-flights");
    lemma_key_adults();
    lemma_key_d();
    lemma_key_o();
    lemma_key_wego_dates();
    let ps = pieces_wego();
    assert(meta_rows()[5].0 == "wego"@);
    assert("wego"@.len() == 4 && "google-flights"@.len() == 14 && "wego"@[0] == 'w' && "google-flights"@[0] == 'g');
    let t = "https://www.wego.com/flights/searches/{o}-{d}-{wego_dates}/economy/{adults}a"@;
    assert(t.len() == 76);
    assert(ps.subrange(0, 0) =~= Seq::<Piece>::empty());
    assert(join(ps.subrange(0, 0)) == Seq::<char>::empty());
    assert(t.subrange(0, 0) =~= Seq::<char>::empty());
    lemma_join_push(ps.subrange(0, 0), ps[0]);
    assert(ps.subrange(0, 0).push(ps[0]) =~= ps.subrange(0, 1));
    assert(t.subrange(0, 38) =~= t.subrange(0, 0) + piece_text(ps[0]));
    lemma_join_push(ps.subrange(0, 1), ps[1]);
    assert(ps.subrange(0, 1).push(ps[1]) =~= ps.subrange(0, 2));
    assert(t.subrange(0, 41) =~= t.subrange(0, 38) + piece_text(ps[1]));
    lemma_join_push(ps.subrange(0, 2), ps[2]);
    assert(ps.subrange(0, 2).push(ps[2]) =~= ps.subrange(0, 3));
    assert(t.subrange(0, 42) =~= t.subrange(0, 41) + piece_text(ps[2]));
    lemma_join_push(ps.subrange(0, 3), ps[3]);
    assert(ps.subrange(0, 3).push(ps[3]) =~= ps.subrange(0, 4));
    assert(t.subrange(0, 45) =~= t.subrange(0, 42) + piece_text(ps[3]));
    lemma_join_push(ps.subrange(0, 4), ps[4]);
    assert(ps.subrange(0, 4).push(ps[4]) =~= ps.subrange(0, 5));
    assert(t.subrange(0, 46) =~= t.subrange(0, 45) + piece_text(ps[4]));
    lemma_join_push(ps.subrange(0, 5), ps[5]);
    assert(ps.subrange(0, 5).push(ps[5]) =~= ps.subrange(0, 6));
    assert(t.subrange(0, 58) =~= t.subrange(0, 46) + piece_text(ps[5]));
    lemma_join_push(ps.subrange(0, 6), ps[6]);
    assert(ps.subrange(0, 6).push(ps[6]) =~= ps.subrange(0, 7));
    assert(t.subrange(0, 67) =~= t.subrange(0, 58) + piece_text(ps[6]));
    lemma_join_push(ps.subrange(0, 7), ps[7]);
    assert(ps.subrange(0, 7).push(ps[7]) =~= ps.subrange(0, 8));
    assert(t.subrange(0, 75) =~= t.subrange(0, 67) + piece_text(ps[7]));
    lemma_join_push(ps.subrange(0, 8), ps[8]);
    assert(ps.subrange(0, 8).push(ps[8]) =~= ps.subrange(0, 9));
    assert(t.subrange(0, 76) =~= t.subrange(0, 75) + piece_text(ps[8]));
    assert(ps.subrange(0, 9) =~= ps);
    assert(t.subrange(0, 76) =~= t);
    assert(meta_rows()[5].5 == t);
    assert(pieces_ok(ps)) by {
        assert forall|i: int| 0 <= i < ps.len() implies if (#[trigger] ps[i]).0 { no_braces(ps[i].1) } else { no_open(ps[i].1) } by {
            if i == 0 { assert(no_open("https://www.wego.com/flights/searches/"@)); } else if i == 2 { assert(no_open("-"@)); } else if i == 4 { assert(no_open("-"@)); } else if i == 6 { assert(no_open("/economy/"@)); } else if i == 8 { assert(no_open("a"@)); } else if i == 1 { assert(no_braces("o"@)); } else if i == 3 { assert(no_braces("d"@)); } else if i == 5 { assert(no_braces("wego_dates"@)); } else if i == 7 { assert(no_braces("adults"@)); }
        }
    }
}

#[verifier::rlimit(40)]
proof fn lemma_site_wego(origin: Seq<char>, dest: Seq<char>, date: Seq<char>, adults: int,
    airlines: Seq<(Seq<char>, Seq<char>)>, currency: Seq<char>, cabin: Seq<char>)
    requires
        utf8_len(date) >= 10,
        values_free(to_upper(origin), to_upper(dest), date, adults, cabin_upper(cabin)),
    ensures
        booker_rows(origin, dest, date, adults, airlines, currency, cabin, None)[5].0 == "wego"@,
        ({
            let o = to_upper(origin);
            let d = to_upper(dest);
            let cabin_u = cabin_upper(cabin);
            booker_rows(origin, dest, date, adults, airlines, currency, cabin, None)[5].4 == "https://www.wego.com/flights/searches/"@ + o + "-"@ + d + "-"@ + (dmon_spec(date) + ":ow"@) + "/economy/"@ + decimal(adults) + "a"@
        }),
{
    lemma_key_adults();
    lemma_key_d();
    lemma_key_o();
    lemma_key_wego_dates();
    lemma_template_wego();
    lemma_row_url(origin, dest, date, adults, airlines, currency, cabin, 5);
    let o = to_upper(origin);
    let d = to_upper(dest);
    let cabin_u = cabin_upper(cabin);
    let ctx = ctx_spec(o, d, date, Seq::empty(), adults, cabin_u);
    lemma_ctx_keys(o, d, date, Seq::empty(), adults, cabin_u);
    let ps = pieces_wego();
    lemma_key_facts();
    assert(keys_clean(ctx)) by {
        assert forall|i: int| 0 <= i < ctx.len() implies no_braces(#[trigger] ctx[i].0) by {
            assert(ctx[i].0 == ctx_keys()[i]);
        }
    }
    assert(values_clean(ps, ctx));
    lemma_subst_pieces(ps, ctx);
    lemma_filled_piece(ps, ctx, 0);
    lemma_filled_piece(ps, ctx, 1);
    assert forall|i: int| 0 <= i < 38 implies (#[trigger] ctx[i]).0 != ps[1].1 by {
        assert(ctx[i].0 == ctx_keys()[i]);
    }
    assert(ctx[38].0 == ps[1].1);
    assert(ctx[38].1 == o);
    lemma_filled_piece(ps, ctx, 2);
    lemma_filled_piece(ps, ctx, 3);
    assert forall|i: int| 0 <= i < 39 implies (#[trigger] ctx[i]).0 != ps[3].1 by {
        assert(ctx[i].0 == ctx_keys()[i]);
    }
    assert(ctx[39].0 == ps[3].1);
    assert(ctx[39].1 == d);
    lemma_filled_piece(ps, ctx, 4);
    lemma_filled_piece(ps, ctx, 5);
    assert forall|i: int| 0 <= i < 9 implies (#[trigger] ctx[i]).0 != ps[5].1 by {
        assert(ctx[i].0 == ctx_keys()[i]);
    }
    assert(ctx[9].0 == ps[5].1);
    assert(ctx[9].1 == dmon_spec(date) + ":ow"@);
    lemma_filled_piece(ps, ctx, 6);
    lemma_filled_piece(ps, ctx, 7);
    assert forall|i: int| 0 <= i < 24 implies (#[trigger] ctx[i]).0 != ps[7].1 by {
        assert(ctx[i].0 == ctx_keys()[i]);
    }
    assert(ctx[24].0 == ps[7].1);
    assert(ctx[24].1 == decimal(adults));
    lemma_filled_piece(ps, ctx, 8);
    let g: Seq<Piece> = seq![(false, "https://www.wego.com/flights/searches/"@), (false, o), (false, "-"@), (false, d), (false, "-"@), (false, dmon_spec(date) + ":ow"@), (false, "/economy/"@), (false, decimal(adults)), (false, "a"@)];
    let f = filled(ps, ctx);
    assert(f =~= g);
    reveal_strlit("-");
    reveal_strlit("/economy/");
    reveal_strlit("a");
    reveal_strlit("https://www.wego.com/flights/searches/");
    assert(g.subrange(0, 0) =~= Seq::<Piece>::empty());
    assert(join(g.subrange(0, 0)) == Seq::<char>::empty());
    lemma_join_push(g.subrange(0, 0), g[0]);
    assert(g.subrange(0, 0).push(g[0]) =~= g.subrange(0, 1));
    assert(join(g.subrange(0, 1)) =~= "https://www.wego.com/flights/searches/"@);
    lemma_join_push(g.subrange(0, 1), g[1]);
    assert(g.subrange(0, 1).push(g[1]) =~= g.subrange(0, 2));
    assert(join(g.subrange(0, 2)) == "https://www.wego.com/flights/searches/"@ + o);
    lemma_join_push(g.subrange(0, 2), g[2]);
    assert(g.subrange(0, 2).push(g[2]) =~= g.subrange(0, 3));
    assert(join(g.subrange(0, 3)) == "https://www.wego.com/flights/searches/"@ + o + "-"@);
    lemma_join_push(g.subrange(0, 3), g[3]);
    assert(g.subrange(0, 3).push(g[3]) =~= g.subrange(0, 4));
    assert(join(g.subrange(0, 4)) == "https://www.wego.com/flights/searches/"@ + o + "-"@ + d);
    lemma_join_push(g.subrange(0, 4), g[4]);
    assert(g.subrange(0, 4).push(g[4]) =~= g.subrange(0, 5));
    assert(join(g.subrange(0, 5)) == "https://www.wego.com/flights/searches/"@ + o + "-"@ + d + "-"@);
    lemma_join_push(g.subrange(0, 5), g[5]);
    assert(g.subrange(0, 5).push(g[5]) =~= g.subrange(0, 6));
    assert(join(g.subrange(0, 6)) == "https://www.wego.com/flights/searches/"@ + o + "-"@ + d + "-"@ + (dmon_spec(date) + ":ow"@));
    lemma_join_push(g.subrange(0, 6), g[6]);
    assert(g.subrange(0, 6).push(g[6]) =~= g.subrange(0, 7));
    assert(join(g.subrange(0, 7)) == "https://www.wego.com/flights/searches/"@ + o + "-"@ + d + "-"@ + (dmon_spec(date) + ":ow"@) + "/economy/"@);
    lemma_join_push(g.subrange(0, 7), g[7]);
    assert(g.subrange(0, 7).push(g[7]) =~= g.subrange(0, 8));
    assert(join(g.subrange(0, 8)) == "https://www.wego.com/flights/searches/"@ + o + "-"@ + d + "-"@ + (dmon_spec(date) + ":ow"@) + "/economy/"@ + decimal(adults));
    lemma_join_push(g.subrange(0, 8), g[8]);
    assert(g.subrange(0, 8).push(g[8]) =~= g.subrange(0, 9));
    assert(join(g.subrange(0, 9)) == "https://www.wego.com/flights/searches/"@ + o + "-"@ + d + "-"@ + (dmon_spec(date) + ":ow"@) + "/economy/"@ + decimal(adults) + "a"@);
    assert(g.subrange(0, 9) =~= g);
}

/// The pieces of the expedia address.
pub open spec fn pieces_expedia() -> Seq<Piece> {
    seq![(false, "https://www.expedia.com/Flights-Search?flight-type=on&mode=search&trip=oneway&leg1=from:"@), (true, "o"@), (false, ",to:"@), (true, "d"@), (false, ",departure:"@), (true, "us"@), (false, "TANYT&passengers=adults:"@), (true, "adults"@), (false, ",children:0,infantinlap:N"@)]
}

#[verifier::rlimit(40)]
proof fn lemma_template_expedia()
    ensures
        meta_rows()[6].0 == "expedia"@,
        meta_rows()[6].0 != "google-flights"@,
        meta_rows()[6].5 == join(pieces_expedia()),
        pieces_ok(pieces_expedia()),
{
    reveal_strlit(",children:0,infantinlap:N");
    reveal_strlit(",departure:");
    reveal_strlit(",to:");
    reveal_strlit("TANYT&passengers=adults:");
    reveal_strlit("https://www.expedia.com/Flights-Search?flight-type=on&mode=search&trip=oneway&leg1=from:");
    reveal_strlit("adults");
    reveal_strlit("d");
    reveal_strlit("o");
    reveal_strlit("us");
    reveal_strlit("https://www.expedia.com/Flights-Search?flight-type=on&mode=search&trip=oneway&leg1=from:{o},to:{d},departure:{us}TANYT&passengers=adults:{adults},children:0,infantinlap:N");
    reveal_strlit("expedia");
    reveal_strlit("google-flights");
    lemma_key_adults();
    lemma_key_d();
    lemma_key_o();
    lemma_key_us();
    let ps = pieces_expedia();
    assert(meta_rows()[6].0 == "expedia"@);
    assert("expedia"@.len() == 7 && "google-flights"@.len() == 14 && "expedia"@[0] == 'e' && "google-flights"@[0] == 'g');
    let t = "https://www.expedia.com/Flights-Search?flight-type=on&mode=search&trip=oneway&leg1=from:{o},to:{d},departure:{us}TANYT&passengers=adults:{adults},children:0,infantinlap:N"@;
    assert(t.len() == 170);
    assert(ps.subrange(0, 0) =~= Seq::<Piece>::empty());
    assert(join(ps.subrange(0, 0)) == Seq::<char>::empty());
    assert(t.subrange(0, 0) =~= Seq::<char>::empty());
    lemma_join_push(ps.subrange(0, 0), ps[0]);
    assert(ps.subrange(0, 0).push(ps[0]) =~= ps.subrange(0, 1));
    assert(t.subrange(0, 88) =~= t.subrange(0, 0) + piece_text(ps[0]));
    lemma_join_push(ps.subrange(0, 1), ps[1]);
    assert(ps.subrange(0, 1).push(ps[1]) =~= ps.subrange(0, 2));
    assert(t.subrange(0, 91) =~= t.subrange(0, 88) + piece_text(ps[1]));
    lemma_join_push(ps.subrange(0, 2), ps[2]);
    assert(ps.subrange(0, 2).push(ps[2]) =~= ps.subrange(0, 3));
    assert(t.subrange(0, 95) =~= t.subrange(0, 91) + piece_text(ps[2]));
    lemma_join_push(ps.subrange(0, 3), ps[3]);
    assert(ps.subrange(0, 3).push(ps[3]) =~= ps.subrange(0, 4));
    assert(t.subrange(0, 98) =~= t.subrange(0, 95) + piece_text(ps[3]));
    lemma_join_push(ps.subrange(0, 4), ps[4]);
    assert(ps.subrange(0, 4).push(ps[4]) =~= ps.subrange(0, 5));
    assert(t.subrange(0, 109) =~= t.subrange(0, 98) + piece_text(ps[4]));
    lemma_join_push(ps.subrange(0, 5), ps[5]);
    assert(ps.subrange(0, 5).push(ps[5]) =~= ps.subrange(0, 6));
    assert(t.subrange(0, 113) =~= t.subrange(0, 109) + piece_text(ps[5]));
    lemma_join_push(ps.subrange(0, 6), ps[6]);
    assert(ps.subrange(0, 6).push(ps[6]) =~= ps.subrange(0, 7));
    assert(t.subrange(0, 137) =~= t.subrange(0, 113) + piece_text(ps[6]));
    lemma_join_push(ps.subrange(0, 7), ps[7]);
    assert(ps.subrange(0, 7).push(ps[7]) =~= ps.subrange(0, 8));
    assert(t.subrange(0, 145) =~= t.subrange(0, 137) + piece_text(ps[7]));
    lemma_join_push(ps.subrange(0, 8), ps[8]);
    assert(ps.subrange(0, 8).push(ps[8]) =~= ps.subrange(0, 9));
    assert(t.subrange(0, 170) =~= t.subrange(0, 145) + piece_text(ps[8]));
    assert(ps.subrange(0, 9) =~= ps);
    assert(t.subrange(0, 170) =~= t);
    assert(meta_rows()[6].5 == t);
    assert(pieces_ok(ps)) by {
        assert forall|i: int| 0 <= i < ps.len() implies if (#[trigger] ps[i]).0 { no_braces(ps[i].1) } else { no_open(ps[i].1) } by {
            if i == 0 { assert(no_open("https://www.expedia.com/Flights-Search?flight-type=on&mode=search&trip=oneway&leg1=from:"@)); } else if i == 2 { assert(no_open(",to:"@)); } else if i == 4 { assert(no_open(",departure:"@)); } else if i == 6 { assert(no_open("TANYT&passengers=adults:"@)); } else if i == 8 { assert(no_open(",children:0,infantinlap:N"@)); } else if i == 1 { assert(no_braces("o"@)); } else if i == 3 { assert(no_braces("d"@)); } else if i == 5 { assert(no_braces("us"@)); } else if i == 7 { assert(no_braces("adults"@)); }
        }
    }
}

#[verifier::rlimit(40)]
proof fn lemma_site_expedia(origin: Seq<char>, dest: Seq<char>, date: Seq<char>, adults: int,
    airlines: Seq<(Seq<char>, Seq<char>)>, currency: Seq<char>, cabin: Seq<char>)
    requires
        utf8_len(date) >= 10,
        values_free(to_upper(origin), to_upper(dest), date, adults, cabin_upper(cabin)),
    ensures
        booker_rows(origin, dest, date, adults, airlines, currency, cabin, None)[6].0 == "expedia"@,
        ({
            let o = to_upper(origin);
            let d = to_upper(dest);
            let cabin_u = cabin_upper(cabin);
            booker_rows(origin, dest, date, adults, airlines, currency, cabin, None)[6].4 == "https://www.expedia.com/Flights-Search?flight-type=on&mode=search&trip=oneway&leg1=from:"@ + o + ",to:"@ + d + ",departure:"@ + us_spec(date) + "TANYT&passengers=adults:"@ + decimal(adults) + ",children:0,infantinlap:N"@
        }),
{
    lemma_key_adults();
    lemma_key_d();
    lemma_key_o();
    lemma_key_us();
    lemma_template_expedia();
    lemma_row_url(origin, dest, date, adults, airlines, currency, cabin, 6);
    let o = to_upper(origin);
    let d = to_upper(dest);
    let cabin_u = cabin_upper(cabin);
    let ctx = ctx_spec(o, d, date, Seq::empty(), adults, cabin_u);
    lemma_ctx_keys(o, d, date, Seq::empty(), adults, cabin_u);
    let ps = pieces_expedia();
    lemma_key_facts();
    assert(keys_clean(ctx)) by {
        assert forall|i: int| 0 <= i < ctx.len() implies no_braces(#[trigger] ctx[i].0) by {
            assert(ctx[i].0 == ctx_keys()[i]);
        }
    }
    assert(values_clean(ps, ctx));
    lemma_subst_pieces(ps, ctx);
    lemma_filled_piece(ps, ctx, 0);
    lemma_filled_piece(ps, ctx, 1);
    assert forall|i: int| 0 <= i < 38 implies (#[trigger] ctx[i]).0 != ps[1].1 by {
        assert(ctx[i].0 == ctx_keys()[i]);
    }
    assert(ctx[38].0 == ps[1].1);
    assert(ctx[38].1 == o);
    lemma_filled_piece(ps, ctx, 2);
    lemma_filled_piece(ps, ctx, 3);
    assert forall|i: int| 0 <= i < 39 implies (#[trigger] ctx[i]).0 != ps[3].1 by {
        assert(ctx[i].0 == ctx_keys()[i]);
    }
    assert(ctx[39].0 == ps[3].1);
    assert(ctx[39].1 == d);
    lemma_filled_piece(ps, ctx, 4);
    lemma_filled_piece(ps, ctx, 5);
    assert forall|i: int| 0 <= i < 37 implies (#[trigger] ctx[i]).0 != ps[5].1 by {
        assert(ctx[i].0 == ctx_keys()[i]);
    }
    assert(ctx[37].0 == ps[5].1);
    assert(ctx[37].1 == us_spec(date));
    lemma_filled_piece(ps, ctx, 6);
    lemma_filled_piece(ps, ctx, 7);
    assert forall|i: int| 0 <= i < 24 implies (#[trigger] ctx[i]).0 != ps[7].1 by {
        assert(ctx[i].0 == ctx_keys()[i]);
    }
    assert(ctx[24].0 == ps[7].1);
    assert(ctx[24].1 == decimal(adults));
    lemma_filled_piece(ps, ctx, 8);
    let g: Seq<Piece> = seq![(false, "https://www.expedia.com/Flights-Search?flight-type=on&mode=search&trip=oneway&leg1=from:"@), (false, o), (false, ",to:"@), (false, d), (false, ",departure:"@), (false, us_spec(date)), (false, "TANYT&passengers=adults:"@), (false, decimal(adults)), (false, ",children:0,infantinlap:N"@)];
    let f = filled(ps, ctx);
    assert(f =~= g);
    reveal_strlit(",children:0,infantinlap:N");
    reveal_strlit(",departure:");
    reveal_strlit(",to:");
    reveal_strlit("TANYT&passengers=adults:");
    reveal_strlit("https://www.expedia.com/Flights-Search?flight-type=on&mode=search&trip=oneway&leg1=from:");
    assert(g.subrange(0, 0) =~= Seq::<Piece>::empty());
    assert(join(g.subrange(0, 0)) == Seq::<char>::empty());
    lemma_join_push(g.subrange(0, 0), g[0]);
    assert(g.subrange(0, 0).push(g[0]) =~= g.subrange(0, 1));
    assert(join(g.subrange(0, 1)) =~= "https://www.expedia.com/Flights-Search?flight-type=on&mode=search&trip=oneway&leg1=from:"@);
    lemma_join_push(g.subrange(0, 1), g[1]);
    assert(g.subrange(0, 1).push(g[1]) =~= g.subrange(0, 2));
    assert(join(g.subrange(0, 2)) == "https://www.expedia.com/Flights-Search?flight-type=on&mode=search&trip=oneway&leg1=from:"@ + o);
    lemma_join_push(g.subrange(0, 2), g[2]);
    assert(g.subrange(0, 2).push(g[2]) =~= g.subrange(0, 3));
    assert(join(g.subrange(0, 3)) == "https://www.expedia.com/Flights-Search?flight-type=on&mode=search&trip=oneway&leg1=from:"@ + o + ",to:"@);
    lemma_join_push(g.subrange(0, 3), g[3]);
    assert(g.subrange(0, 3).push(g[3]) =~= g.subrange(0, 4));
    assert(join(g.subrange(0, 4)) == "https://www.expedia.com/Flights-Search?flight-type=on&mode=search&trip=oneway&leg1=from:"@ + o + ",to:"@ + d);
    lemma_join_push(g.subrange(0, 4), g[4]);
    assert(g.subrange(0, 4).push(g[4]) =~= g.subrange(0, 5));
    assert(join(g.subrange(0, 5)) == "https://www.expedia.com/Flights-Search?flight-type=on&mode=search&trip=oneway&leg1=from:"@ + o + ",to:"@ + d + ",departure:"@);
    lemma_join_push(g.subrange(0, 5), g[5]);
    assert(g.subrange(0, 5).push(g[5]) =~= g.subrange(0, 6));
    assert(join(g.subrange(0, 6)) == "https://www.expedia.com/Flights-Search?flight-type=on&mode=search&trip=oneway&leg1=from:"@ + o + ",to:"@ + d + ",departure:"@ + us_spec(date));
    lemma_join_push(g.subrange(0, 6), g[6]);
    assert(g.subrange(0, 6).push(g[6]) =~= g.subrange(0, 7));
    assert(join(g.subrange(0, 7)) == "https://www.expedia.com/Flights-Search?flight-type=on&mode=search&trip=oneway&leg1=from:"@ + o + ",to:"@ + d + ",departure:"@ + us_spec(date) + "TANYT&passengers=adults:"@);
    lemma_join_push(g.subrange(0, 7), g[7]);
    assert(g.subrange(0, 7).push(g[7]) =~= g.subrange(0, 8));
    assert(join(g.subrange(0, 8)) == "https://www.expedia.com/Flights-Search?flight-type=on&mode=search&trip=oneway&leg1=from:"@ + o + ",to:"@ + d + ",departure:"@ + us_spec(date) + "TANYT&passengers=adults:"@ + decimal(adults));
    lemma_join_push(g.subrange(0, 8), g[8]);
    assert(g.subrange(0, 8).push(g[8]) =~= g.subrange(0, 9));
    assert(join(g.subrange(0, 9)) == "https://www.expedia.com/Flights-Search?flight-type=on&mode=search&trip=oneway&leg1=from:"@ + o + ",to:"@ + d + ",departure:"@ + us_spec(date) + "TANYT&passengers=adults:"@ + decimal(adults) + ",children:0,infantinlap:N"@);
    assert(g.subrange(0, 9) =~= g);
}

/// The pieces of the booking-com address.
pub open spec fn pieces_booking_com() -> Seq<Piece> {
    seq![(false, "https://flights.booking.com/flights/"@), (true, "ob"@), (false, "-"@), (true, "db"@), (false, "/?type="@), (true, "book_type"@), (false, "&adults="@), (true, "adults"@), (false, "&cabinClass="@), (true, "book_cabin"@), (false, "&depart="@), (true, "date"@), (true, "book_return"@), (false, "&from="@), (true, "o"@), (false, "&to="@), (true, "d"@), (false, "&sort=BEST"@)]
}

#[verifier::rlimit(40)]
proof fn lemma_template_booking_com()
    ensures
        meta_rows()[7].0 == "booking-com"@,
        meta_rows()[7].0 != "google-flights"@,
        meta_rows()[7].5 == join(pieces_booking_com()),
        pieces_ok(pieces_booking_com()),
{
    reveal_strlit("&adults=");
    reveal_strlit("&cabinClass=");
    reveal_strlit("&depart=");
    reveal_strlit("&from=");
    reveal_strlit("&sort=BEST");
    reveal_strlit("&to=");
    reveal_strlit("-");
    reveal_strlit("/?type=");
    reveal_strlit("https://flights.booking.com/flights/");
    reveal_strlit("adults");
    reveal_strlit("book_cabin");
    reveal_strlit("book_return");
    reveal_strlit("book_type");
    reveal_strlit("d");
    reveal_strlit("date");
    reveal_strlit("db");
    reveal_strlit("o");
    reveal_strlit("ob");
    reveal_strlit("https://flights.booking.com/flights/{ob}-{db}/?type={book_type}&adults={adults}&cabinClass={book_cabin}&depart={date}{book_return}&from={o}&to={d}&sort=BEST");
    reveal_strlit("booking-com");
    reveal_strlit("google-flights");
    lemma_key_adults();
    lemma_key_book_cabin();
    lemma_key_book_return();
    lemma_key_book_type();
    lemma_key_d();
    lemma_key_date();
    lemma_key_db();
    lemma_key_o();
    lemma_key_ob();
    let ps = pieces_booking_com();
    assert(meta_rows()[7].0 == "booking-com"@);
    assert("booking-com"@.len() == 11 && "google-flights"@.len() == 14 && "booking-com"@[0] == 'b' && "google-flights"@[0] == 'g');
    let t = "https://flights.booking.com/flights/{ob}-{db}/?type={book_type}&adults={adults}&cabinClass={book_cabin}&depart={date}{book_return}&from={o}&to={d}&sort=BEST"@;
    assert(t.len() == 156);
    assert(ps.subrange(0, 0) =~= Seq::<Piece>::empty());
    assert(join(ps.subrange(0, 0)) == Seq::<char>::empty());
    assert(t.subrange(0, 0) =~= Seq::<char>::empty());
    lemma_join_push(ps.subrange(0, 0), ps[0]);
    assert(ps.subrange(0, 0).push(ps[0]) =~= ps.subrange(0, 1));
    assert(t.subrange(0, 36) =~= t.subrange(0, 0) + piece_text(ps[0]));
    lemma_join_push(ps.subrange(0, 1), ps[1]);
    assert(ps.subrange(0, 1).push(ps[1]) =~= ps.subrange(0, 2));
    assert(t.subrange(0, 40) =~= t.subrange(0, 36) + piece_text(ps[1]));
    lemma_join_push(ps.subrange(0, 2), ps[2]);
    assert(ps.subrange(0, 2).push(ps[2]) =~= ps.subrange(0, 3));
    assert(t.subrange(0, 41) =~= t.subrange(0, 40) + piece_text(ps[2]));
    lemma_join_push(ps.subrange(0, 3), ps[3]);
    assert(ps.subrange(0, 3).push(ps[3]) =~= ps.subrange(0, 4));
    assert(t.subrange(0, 45) =~= t.subrange(0, 41) + piece_text(ps[3]));
    lemma_join_push(ps.subrange(0, 4), ps[4]);
    assert(ps.subrange(0, 4).push(ps[4]) =~= ps.subrange(0, 5));
    assert(t.subrange(0, 52) =~= t.subrange(0, 45) + piece_text(ps[4]));
    lemma_join_push(ps.subrange(0, 5), ps[5]);
    assert(ps.subrange(0, 5).push(ps[5]) =~= ps.subrange(0, 6));
    assert(t.subrange(0, 63) =~= t.subrange(0, 52) + piece_text(ps[5]));
    lemma_join_push(ps.subrange(0, 6), ps[6]);
    assert(ps.subrange(0, 6).push(ps[6]) =~= ps.subrange(0, 7));
    assert(t.subrange(0, 71) =~= t.subrange(0, 63) + piece_text(ps[6]));
    lemma_join_push(ps.subrange(0, 7), ps[7]);
    assert(ps.subrange(0, 7).push(ps[7]) =~= ps.subrange(0, 8));
    assert(t.subrange(0, 79) =~= t.subrange(0, 71) + piece_text(ps[7]));
    lemma_join_push(ps.subrange(0, 8), ps[8]);
    assert(ps.subrange(0, 8).push(ps[8]) =~= ps.subrange(0, 9));
    assert(t.subrange(0, 91) =~= t.subrange(0, 79) + piece_text(ps[8]));
    lemma_join_push(ps.subrange(0, 9), ps[9]);
    assert(ps.subrange(0, 9).push(ps[9]) =~= ps.subrange(0, 10));
    assert(t.subrange(0, 103) =~= t.subrange(0, 91) + piece_text(ps[9]));
    lemma_join_push(ps.subrange(0, 10), ps[10]);
    assert(ps.subrange(0, 10).push(ps[10]) =~= ps.subrange(0, 11));
    assert(t.subrange(0, 111) =~= t.subrange(0, 103) + piece_text(ps[10]));
    lemma_join_push(ps.subrange(0, 11), ps[11]);
    assert(ps.subrange(0, 11).push(ps[11]) =~= ps.subrange(0, 12));
    assert(t.subrange(0, 117) =~= t.subrange(0, 111) + piece_text(ps[11]));
    lemma_join_push(ps.subrange(0, 12), ps[12]);
    assert(ps.subrange(0, 12).push(ps[12]) =~= ps.subrange(0, 13));
    assert(t.subrange(0, 130) =~= t.subrange(0, 117) + piece_text(ps[12]));
    lemma_join_push(ps.subrange(0, 13), ps[13]);
    assert(ps.subrange(0, 13).push(ps[13]) =~= ps.subrange(0, 14));
    assert(t.subrange(0, 136) =~= t.subrange(0, 130) + piece_text(ps[13]));
    lemma_join_push(ps.subrange(0, 14), ps[14]);
    assert(ps.subrange(0, 14).push(ps[14]) =~= ps.subrange(0, 15));
    assert(t.subrange(0, 139) =~= t.subrange(0, 136) + piece_text(ps[14]));
    lemma_join_push(ps.subrange(0, 15), ps[15]);
    assert(ps.subrange(0, 15).push(ps[15]) =~= ps.subrange(0, 16));
    assert(t.subrange(0, 143) =~= t.subrange(0, 139) + piece_text(ps[15]));
    lemma_join_push(ps.subrange(0, 16), ps[16]);
    assert(ps.subrange(0, 16).push(ps[16]) =~= ps.subrange(0, 17));
    assert(t.subrange(0, 146) =~= t.subrange(0, 143) + piece_text(ps[16]));
    lemma_join_push(ps.subrange(0, 17), ps[17]);
    assert(ps.subrange(0, 17).push(ps[17]) =~= ps.subrange(0, 18));
    assert(t.subrange(0, 156) =~= t.subrange(0, 146) + piece_text(ps[17]));
    assert(ps.subrange(0, 18) =~= ps);
    assert(t.subrange(0, 156) =~= t);
    assert(meta_rows()[7].5 == t);
    assert(pieces_ok(ps)) by {
        assert forall|i: int| 0 <= i < ps.len() implies if (#[trigger] ps[i]).0 { no_braces(ps[i].1) } else { no_open(ps[i].1) } by {
            if i == 0 { assert(no_open("https://flights.booking.com/flights/"@)); } else if i == 2 { assert(no_open("-"@)); } else if i == 4 { assert(no_open("/?type="@)); } else if i == 6 { assert(no_open("&adults="@)); } else if i == 8 { assert(no_open("&cabinClass="@)); } else if i == 10 { assert(no_open("&depart="@)); } else if i == 13 { assert(no_open("&from="@)); } else if i == 15 { assert(no_open("&to="@)); } else if i == 17 { assert(no_open("&sort=BEST"@)); } else if i == 1 { assert(no_braces("ob"@)); } else if i == 3 { assert(no_braces("db"@)); } else if i == 5 { assert(no_braces("book_type"@)); } else if i == 7 { assert(no_braces("adults"@)); } else if i == 9 { assert(no_braces("book_cabin"@)); } else if i == 11 { assert(no_braces("date"@)); } else if i == 12 { assert(no_braces("book_return"@)); } else if i == 14 { assert(no_braces("o"@)); } else if i == 16 { assert(no_braces("d"@)); }
        }
    }
}

#[verifier::rlimit(40)]
proof fn lemma_site_booking_com(origin: Seq<char>, dest: Seq<char>, date: Seq<char>, adults: int,
    airlines: Seq<(Seq<char>, Seq<char>)>, currency: Seq<char>, cabin: Seq<char>)
    requires
        utf8_len(date) >= 10,
        values_free(to_upper(origin), to_upper(dest), date, adults, cabin_upper(cabin)),
    ensures
        booker_rows(origin, dest, date, adults, airlines, currency, cabin, None)[7].0 == "booking-com"@,
        ({
            let o = to_upper(origin);
            let d = to_upper(dest);
            let cabin_u = cabin_upper(cabin);
            booker_rows(origin, dest, date, adults, airlines, currency, cabin, None)[7].4 == "https://flights.booking.com/flights/"@ + booking_point_spec(o) + "-"@ + booking_point_spec(d) + "/?type="@ + "ONEWAY"@ + "&adults="@ + decimal(adults) + "&cabinClass="@ + cabin_u + "&depart="@ + date + "&from="@ + o + "&to="@ + d + "&sort=BEST"@
        }),
{
    lemma_key_adults();
    lemma_key_book_cabin();
    lemma_key_book_return();
    lemma_key_book_type();
    lemma_key_d();
    lemma_key_date();
    lemma_key_db();
    lemma_key_o();
    lemma_key_ob();
    lemma_template_booking_com();
    lemma_row_url(origin, dest, date, adults, airlines, currency, cabin, 7);
    let o = to_upper(origin);
    let d = to_upper(dest);
    let cabin_u = cabin_upper(cabin);
    let ctx = ctx_spec(o, d, date, Seq::empty(), adults, cabin_u);
    lemma_ctx_keys(o, d, date, Seq::empty(), adults, cabin_u);
    let ps = pieces_booking_com();
    lemma_key_facts();
    assert(keys_clean(ctx)) by {
        assert forall|i: int| 0 <= i < ctx.len() implies no_braces(#[trigger] ctx[i].0) by {
            assert(ctx[i].0 == ctx_keys()[i]);
        }
    }
    assert(values_clean(ps, ctx));
    lemma_subst_pieces(ps, ctx);
    lemma_filled_piece(ps, ctx, 0);
    lemma_filled_piece(ps, ctx, 1);
    assert forall|i: int| 0 <= i < 35 implies (#[trigger] ctx[i]).0 != ps[1].1 by {
        assert(ctx[i].0 == ctx_keys()[i]);
    }
    assert(ctx[35].0 == ps[1].1);
    assert(ctx[35].1 == booking_point_spec(o));
    lemma_filled_piece(ps, ctx, 2);
    lemma_filled_piece(ps, ctx, 3);
    assert forall|i: int| 0 <= i < 36 implies (#[trigger] ctx[i]).0 != ps[3].1 by {
        assert(ctx[i].0 == ctx_keys()[i]);
    }
    assert(ctx[36].0 == ps[3].1);
    assert(ctx[36].1 == booking_point_spec(d));
    lemma_filled_piece(ps, ctx, 4);
    lemma_filled_piece(ps, ctx, 5);
    assert forall|i: int| 0 <= i < 15 implies (#[trigger] ctx[i]).0 != ps[5].1 by {
        assert(ctx[i].0 == ctx_keys()[i]);
    }
    assert(ctx[15].0 == ps[5].1);
    assert(ctx[15].1 == "ONEWAY"@);
    lemma_filled_piece(ps, ctx, 6);
    lemma_filled_piece(ps, ctx, 7);
    assert forall|i: int| 0 <= i < 24 implies (#[trigger] ctx[i]).0 != ps[7].1 by {
        assert(ctx[i].0 == ctx_keys()[i]);
    }
    assert(ctx[24].0 == ps[7].1);
    assert(ctx[24].1 == decimal(adults));
    lemma_filled_piece(ps, ctx, 8);
    lemma_filled_piece(ps, ctx, 9);
    assert forall|i: int| 0 <= i < 14 implies (#[trigger] ctx[i]).0 != ps[9].1 by {
        assert(ctx[i].0 == ctx_keys()[i]);
    }
    assert(ctx[14].0 == ps[9].1);
    assert(ctx[14].1 == cabin_u);
    lemma_filled_piece(ps, ctx, 10);
    lemma_filled_piece(ps, ctx, 11);
    assert forall|i: int| 0 <= i < 27 implies (#[trigger] ctx[i]).0 != ps[11].1 by {
        assert(ctx[i].0 == ctx_keys()[i]);
    }
    assert(ctx[27].0 == ps[11].1);
    assert(ctx[27].1 == date);
    lemma_filled_piece(ps, ctx, 12);
    assert forall|i: int| 0 <= i < 6 implies (#[trigger] ctx[i]).0 != ps[12].1 by {
        assert(ctx[i].0 == ctx_keys()[i]);
    }
    assert(ctx[6].0 == ps[12].1);
    assert(ctx[6].1 == Seq::<char>::empty());
    lemma_filled_piece(ps, ctx, 13);
    lemma_filled_piece(ps, ctx, 14);
    assert forall|i: int| 0 <= i < 38 implies (#[trigger] ctx[i]).0 != ps[14].1 by {
        assert(ctx[i].0 == ctx_keys()[i]);
    }
    assert(ctx[38].0 == ps[14].1);
    assert(ctx[38].1 == o);
    lemma_filled_piece(ps, ctx, 15);
    lemma_filled_piece(ps, ctx, 16);
    assert forall|i: int| 0 <= i < 39 implies (#[trigger] ctx[i]).0 != ps[16].1 by {
        assert(ctx[i].0 == ctx_keys()[i]);
    }
    assert(ctx[39].0 == ps[16].1);
    assert(ctx[39].1 == d);
    lemma_filled_piece(ps, ctx, 17);
    let g: Seq<Piece> = seq![(false, "https://flights.booking.com/flights/"@), (false, booking_point_spec(o)), (false, "-"@), (false, booking_point_spec(d)), (false, "/?type="@), (false, "ONEWAY"@), (false, "&adults="@), (false, decimal(adults)), (false, "&cabinClass="@), (false, cabin_u), (false, "&depart="@), (false, date), (false, Seq::<char>::empty()), (false, "&from="@), (false, o), (false, "&to="@), (false, d), (false, "&sort=BEST"@)];
    let f = filled(ps, ctx);
    assert(f =~= g);
    reveal_strlit("&adults=");
    reveal_strlit("&cabinClass=");
    reveal_strlit("&depart=");
    reveal_strlit("&from=");
    reveal_strlit("&sort=BEST");
    reveal_strlit("&to=");
    reveal_strlit("-");
    reveal_strlit("/?type=");
    reveal_strlit("https://flights.booking.com/flights/");
    assert(g.subrange(0, 0) =~= Seq::<Piece>::empty());
    assert(join(g.subrange(0, 0)) == Seq::<char>::empty());
    lemma_join_push(g.subrange(0, 0), g[0]);
    assert(g.subrange(0, 0).push(g[0]) =~= g.subrange(0, 1));
    assert(join(g.subrange(0, 1)) =~= "https://flights.booking.com/flights/"@);
    lemma_join_push(g.subrange(0, 1), g[1]);
    assert(g.subrange(0, 1).push(g[1]) =~= g.subrange(0, 2));
    assert(join(g.subrange(0, 2)) == "https://flights.booking.com/flights/"@ + booking_point_spec(o));
    lemma_join_push(g.subrange(0, 2), g[2]);
    assert(g.subrange(0, 2).push(g[2]) =~= g.subrange(0, 3));
    assert(join(g.subrange(0, 3)) == "https://flights.booking.com/flights/"@ + booking_point_spec(o) + "-"@);
    lemma_join_push(g.subrange(0, 3), g[3]);
    assert(g.subrange(0, 3).push(g[3]) =~= g.subrange(0, 4));
    assert(join(g.subrange(0, 4)) == "https://flights.booking.com/flights/"@ + booking_point_spec(o) + "-"@ + booking_point_spec(d));
    lemma_join_push(g.subrange(0, 4), g[4]);
    assert(g.subrange(0, 4).push(g[4]) =~= g.subrange(0, 5));
    assert(join(g.subrange(0, 5)) == "https://flights.booking.com/flights/"@ + booking_point_spec(o) + "-"@ + booking_point_spec(d) + "/?type="@);
    lemma_join_push(g.subrange(0, 5), g[5]);
    assert(g.subrange(0, 5).push(g[5]) =~= g.subrange(0, 6));
    assert(join(g.subrange(0, 6)) == "https://flights.booking.com/flights/"@ + booking_point_spec(o) + "-"@ + booking_point_spec(d) + "/?type="@ + "ONEWAY"@);
    lemma_join_push(g.subrange(0, 6), g[6]);
    assert(g.subrange(0, 6).push(g[6]) =~= g.subrange(0, 7));
    assert(join(g.subrange(0, 7)) == "https://flights.booking.com/flights/"@ + booking_point_spec(o) + "-"@ + booking_point_spec(d) + "/?type="@ + "ONEWAY"@ + "&adults="@);
    lemma_join_push(g.subrange(0, 7), g[7]);
    assert(g.subrange(0, 7).push(g[7]) =~= g.subrange(0, 8));
    assert(join(g.subrange(0, 8)) == "https://flights.booking.com/flights/"@ + booking_point_spec(o) + "-"@ + booking_point_spec(d) + "/?type="@ + "ONEWAY"@ + "&adults="@ + decimal(adults));
    lemma_join_push(g.subrange(0, 8), g[8]);
    assert(g.subrange(0, 8).push(g[8]) =~= g.subrange(0, 9));
    assert(join(g.subrange(0, 9)) == "https://flights.booking.com/flights/"@ + booking_point_spec(o) + "-"@ + booking_point_spec(d) + "/?type="@ + "ONEWAY"@ + "&adults="@ + decimal(adults) + "&cabinClass="@);
    lemma_join_push(g.subrange(0, 9), g[9]);
    assert(g.subrange(0, 9).push(g[9]) =~= g.subrange(0, 10));
    assert(join(g.subrange(0, 10)) == "https://flights.booking.com/flights/"@ + booking_point_spec(o) + "-"@ + booking_point_spec(d) + "/?type="@ + "ONEWAY"@ + "&adults="@ + decimal(adults) + "&cabinClass="@ + cabin_u);
    lemma_join_push(g.subrange(0, 10), g[10]);
    assert(g.subrange(0, 10).push(g[10]) =~= g.subrange(0, 11));
    assert(join(g.subrange(0, 11)) == "https://flights.booking.com/flights/"@ + booking_point_spec(o) + "-"@ + booking_point_spec(d) + "/?type="@ + "ONEWAY"@ + "&adults="@ + decimal(adults) + "&cabinClass="@ + cabin_u + "&depart="@);
    lemma_join_push(g.subrange(0, 11), g[11]);
    assert(g.subrange(0, 11).push(g[11]) =~= g.subrange(0, 12));
    assert(join(g.subrange(0, 12)) == "https://flights.booking.com/flights/"@ + booking_point_spec(o) + "-"@ + booking_point_spec(d) + "/?type="@ + "ONEWAY"@ + "&adults="@ + decimal(adults) + "&cabinClass="@ + cabin_u + "&depart="@ + date);
    lemma_join_push(g.subrange(0, 12), g[12]);
    assert(g.subrange(0, 12).push(g[12]) =~= g.subrange(0, 13));
    assert(join(g.subrange(0, 13)) =~= join(g.subrange(0, 12)));
    lemma_join_push(g.subrange(0, 13), g[13]);
    assert(g.subrange(0, 13).push(g[13]) =~= g.subrange(0, 14));
    assert(join(g.subrange(0, 14)) == "https://flights.booking.com/flights/"@ + booking_point_spec(o) + "-"@ + booking_point_spec(d) + "/?type="@ + "ONEWAY"@ + "&adults="@ + decimal(adults) + "&cabinClass="@ + cabin_u + "&depart="@ + date + "&from="@);
    lemma_join_push(g.subrange(0, 14), g[14]);
    assert(g.subrange(0, 14).push(g[14]) =~= g.subrange(0, 15));
    assert(join(g.subrange(0, 15)) == "https://flights.booking.com/flights/"@ + booking_point_spec(o) + "-"@ + booking_point_spec(d) + "/?type="@ + "ONEWAY"@ + "&adults="@ + decimal(adults) + "&cabinClass="@ + cabin_u + "&depart="@ + date + "&from="@ + o);
    lemma_join_push(g.subrange(0, 15), g[15]);
    assert(g.subrange(0, 15).push(g[15]) =~= g.subrange(0, 16));
    assert(join(g.subrange(0, 16)) == "https://flights.booking.com/flights/"@ + booking_point_spec(o) + "-"@ + booking_point_spec(d) + "/?type="@ + "ONEWAY"@ + "&adults="@ + decimal(adults) + "&cabinClass="@ + cabin_u + "&depart="@ + date + "&from="@ + o + "&to="@);
    lemma_join_push(g.subrange(0, 16), g[16]);
    assert(g.subrange(0, 16).push(g[16]) =~= g.subrange(0, 17));
    assert(join(g.subrange(0, 17)) == "https://flights.booking.com/flights/"@ + booking_point_spec(o) + "-"@ + booking_point_spec(d) + "/?type="@ + "ONEWAY"@ + "&adults="@ + decimal(adults) + "&cabinClass="@ + cabin_u + "&depart="@ + date + "&from="@ + o + "&to="@ + d);
    lemma_join_push(g.subrange(0, 17), g[17]);
    assert(g.subrange(0, 17).push(g[17]) =~= g.subrange(0, 18));
    assert(join(g.subrange(0, 18)) == "https://flights.booking.com/flights/"@ + booking_point_spec(o) + "-"@ + booking_point_spec(d) + "/?type="@ + "ONEWAY"@ + "&adults="@ + decimal(adults) + "&cabinClass="@ + cabin_u + "&depart="@ + date + "&from="@ + o + "&to="@ + d + "&sort=BEST"@);
    assert(g.subrange(0, 18) =~= g);
}

/// The pieces of the trip-com address.
pub open spec fn pieces_trip_com() -> Seq<Piece> {
    seq![(false, "https://www.trip.com/flights/"@), (true, "ol"@), (false, "-to-"@), (true, "dl"@), (false, "/?dcity="@), (true, "o"@), (false, "&acity="@), (true, "d"@), (false, "&ddate="@), (true, "date"@), (true, "trip_adate"@), (false, "&flighttype="@), (true, "flighttype"@), (false, "&class=ys&quantity="@), (true, "adults"@)]
}

#[verifier::rlimit(40)]
proof fn lemma_template_trip_com()
    ensures
        meta_rows()[8].0 == "trip-com"@,
        meta_rows()[8].0 != "google-flights"@,
        meta_rows()[8].5 == join(pieces_trip_com()),
        pieces_ok(pieces_trip_com()),
{
    reveal_strlit("&acity=");
    reveal_strlit("&class=ys&quantity=");
    reveal_strlit("&ddate=");
    reveal_strlit("&flighttype=");
    reveal_strlit("-to-");
    reveal_strlit("/?dcity=");
    reveal_strlit("https://www.trip.com/flights/");
    reveal_strlit("adults");
    reveal_strlit("d");
    reveal_strlit("date");
    reveal_strlit("dl");
    reveal_strlit("flighttype");
    reveal_strlit("o");
    reveal_strlit("ol");
    reveal_strlit("trip_adate");
    reveal_strlit("https://www.trip.com/flights/{ol}-to-{dl}/?dcity={o}&acity={d}&ddate={date}{trip_adate}&flighttype={flighttype}&class=ys&quantity={adults}");
    reveal_strlit("trip-com");
    reveal_strlit("google-flights");
    lemma_key_adults();
    lemma_key_d();
    lemma_key_date();
    lemma_key_dl();
    lemma_key_flighttype();
    lemma_key_o();
    lemma_key_ol();
    lemma_key_trip_adate();
    let ps = pieces_trip_com();
    assert(meta_rows()[8].0 == "trip-com"@);
    assert("trip-com"@.len() == 8 && "google-flights"@.len() == 14 && "trip-com"@[0] == 't' && "google-flights"@[0] == 'g');
    let t = "https://www.trip.com/flights/{ol}-to-{dl}/?dcity={o}&acity={d}&ddate={date}{trip_adate}&flighttype={flighttype}&class=ys&quantity={adults}"@;
    assert(t.len() == 138);
    assert(ps.subrange(0, 0) =~= Seq::<Piece>::empty());
    assert(join(ps.subrange(0, 0)) == Seq::<char>::empty());
    assert(t.subrange(0, 0) =~= Seq::<char>::empty());
    lemma_join_push(ps.subrange(0, 0), ps[0]);
    assert(ps.subrange(0, 0).push(ps[0]) =~= ps.subrange(0, 1));
    assert(t.subrange(0, 29) =~= t.subrange(0, 0) + piece_text(ps[0]));
    lemma_join_push(ps.subrange(0, 1), ps[1]);
    assert(ps.subrange(0, 1).push(ps[1]) =~= ps.subrange(0, 2));
    assert(t.subrange(0, 33) =~= t.subrange(0, 29) + piece_text(ps[1]));
    lemma_join_push(ps.subrange(0, 2), ps[2]);
    assert(ps.subrange(0, 2).push(ps[2]) =~= ps.subrange(0, 3));
    assert(t.subrange(0, 37) =~= t.subrange(0, 33) + piece_text(ps[2]));
    lemma_join_push(ps.subrange(0, 3), ps[3]);
    assert(ps.subrange(0, 3).push(ps[3]) =~= ps.subrange(0, 4));
    assert(t.subrange(0, 41) =~= t.subrange(0, 37) + piece_text(ps[3]));
    lemma_join_push(ps.subrange(0, 4), ps[4]);
    assert(ps.subrange(0, 4).push(ps[4]) =~= ps.subrange(0, 5));
    assert(t.subrange(0, 49) =~= t.subrange(0, 41) + piece_text(ps[4]));
    lemma_join_push(ps.subrange(0, 5), ps[5]);
    assert(ps.subrange(0, 5).push(ps[5]) =~= ps.subrange(0, 6));
    assert(t.subrange(0, 52) =~= t.subrange(0, 49) + piece_text(ps[5]));
    lemma_join_push(ps.subrange(0, 6), ps[6]);
    assert(ps.subrange(0, 6).push(ps[6]) =~= ps.subrange(0, 7));
    assert(t.subrange(0, 59) =~= t.subrange(0, 52) + piece_text(ps[6]));
    lemma_join_push(ps.subrange(0, 7), ps[7]);
    assert(ps.subrange(0, 7).push(ps[7]) =~= ps.subrange(0, 8));
    assert(t.subrange(0, 62) =~= t.subrange(0, 59) + piece_text(ps[7]));
    lemma_join_push(ps.subrange(0, 8), ps[8]);
    assert(ps.subrange(0, 8).push(ps[8]) =~= ps.subrange(0, 9));
    assert(t.subrange(0, 69) =~= t.subrange(0, 62) + piece_text(ps[8]));
    lemma_join_push(ps.subrange(0, 9), ps[9]);
    assert(ps.subrange(0, 9).push(ps[9]) =~= ps.subrange(0, 10));
    assert(t.subrange(0, 75) =~= t.subrange(0, 69) + piece_text(ps[9]));
    lemma_join_push(ps.subrange(0, 10), ps[10]);
    assert(ps.subrange(0, 10).push(ps[10]) =~= ps.subrange(0, 11));
    assert(t.subrange(0, 87) =~= t.subrange(0, 75) + piece_text(ps[10]));
    lemma_join_push(ps.subrange(0, 11), ps[11]);
    assert(ps.subrange(0, 11).push(ps[11]) =~= ps.subrange(0, 12));
    assert(t.subrange(0, 99) =~= t.subrange(0, 87) + piece_text(ps[11]));
    lemma_join_push(ps.subrange(0, 12), ps[12]);
    assert(ps.subrange(0, 12).push(ps[12]) =~= ps.subrange(0, 13));
    assert(t.subrange(0, 111) =~= t.subrange(0, 99) + piece_text(ps[12]));
    lemma_join_push(ps.subrange(0, 13), ps[13]);
    assert(ps.subrange(0, 13).push(ps[13]) =~= ps.subrange(0, 14));
    assert(t.subrange(0, 130) =~= t.subrange(0, 111) + piece_text(ps[13]));
    lemma_join_push(ps.subrange(0, 14), ps[14]);
    assert(ps.subrange(0, 14).push(ps[14]) =~= ps.subrange(0, 15));
    assert(t.subrange(0, 138) =~= t.subrange(0, 130) + piece_text(ps[14]));
    assert(ps.subrange(0, 15) =~= ps);
    assert(t.subrange(0, 138) =~= t);
    assert(meta_rows()[8].5 == t);
    assert(pieces_ok(ps)) by {
        assert forall|i: int| 0 <= i < ps.len() implies if (#[trigger] ps[i]).0 { no_braces(ps[i].1) } else { no_open(ps[i].1) } by {
            if i == 0 { assert(no_open("https://www.trip.com/flights/"@)); } else if i == 2 { assert(no_open("-to-"@)); } else if i == 4 { assert(no_open("/?dcity="@)); } else if i == 6 { assert(no_open("&acity="@)); } else if i == 8 { assert(no_open("&ddate="@)); } else if i == 11 { assert(no_open("&flighttype="@)); } else if i == 13 { assert(no_open("&class=ys&quantity="@)); } else if i == 1 { assert(no_braces("ol"@)); } else if i == 3 { assert(no_braces("dl"@)); } else if i == 5 { assert(no_braces("o"@)); } else if i == 7 { assert(no_braces("d"@)); } else if i == 9 { assert(no_braces("date"@)); } else if i == 10 { assert(no_braces("trip_adate"@)); } else if i == 12 { assert(no_braces("flighttype"@)); } else if i == 14 { assert(no_braces("adults"@)); }
        }
    }
}

#[verifier::rlimit(40)]
proof fn lemma_site_trip_com(origin: Seq<char>, dest: Seq<char>, date: Seq<char>, adults: int,
    airlines: Seq<(Seq<char>, Seq<char>)>, currency: Seq<char>, cabin: Seq<char>)
    requires
        utf8_len(date) >= 10,
        values_free(to_upper(origin), to_upper(dest), date, adults, cabin_upper(cabin)),
    ensures
        booker_rows(origin, dest, date, adults, airlines, currency, cabin, None)[8].0 == "trip-com"@,
        ({
            let o = to_upper(origin);
            let d = to_upper(dest);
            let cabin_u = cabin_upper(cabin);
            booker_rows(origin, dest, date, adults, airlines, currency, cabin, None)[8].4 == "https://www.trip.com/flights/"@ + to_lower(o) + "-to-"@ + to_lower(d) + "/?dcity="@ + o + "&acity="@ + d + "&ddate="@ + date + "&flighttype="@ + "ow"@ + "&class=ys&quantity="@ + decimal(adults)
        }),
{
    lemma_key_adults();
    lemma_key_d();
    lemma_key_date();
    lemma_key_dl();
    lemma_key_flighttype();
    lemma_key_o();
    lemma_key_ol();
    lemma_key_trip_adate();
    lemma_template_trip_com();
    lemma_row_url(origin, dest, date, adults, airlines, currency, cabin, 8);
    let o = to_upper(origin);
    let d = to_upper(dest);
    let cabin_u = cabin_upper(cabin);
    let ctx = ctx_spec(o, d, date, Seq::empty(), adults, cabin_u);
    lemma_ctx_keys(o, d, date, Seq::empty(), adults, cabin_u);
    let ps = pieces_trip_com();
    lemma_key_facts();
    assert(keys_clean(ctx)) by {
        assert forall|i: int| 0 <= i < ctx.len() implies no_braces(#[trigger] ctx[i].0) by {
            assert(ctx[i].0 == ctx_keys()[i]);
        }
    }
    assert(values_clean(ps, ctx));
    lemma_subst_pieces(ps, ctx);
    lemma_filled_piece(ps, ctx, 0);
    lemma_filled_piece(ps, ctx, 1);
    assert forall|i: int| 0 <= i < 33 implies (#[trigger] ctx[i]).0 != ps[1].1 by {
        assert(ctx[i].0 == ctx_keys()[i]);
    }
    assert(ctx[33].0 == ps[1].1);
    assert(ctx[33].1 == to_lower(o));
    lemma_filled_piece(ps, ctx, 2);
    lemma_filled_piece(ps, ctx, 3);
    assert forall|i: int| 0 <= i < 34 implies (#[trigger] ctx[i]).0 != ps[3].1 by {
        assert(ctx[i].0 == ctx_keys()[i]);
    }
    assert(ctx[34].0 == ps[3].1);
    assert(ctx[34].1 == to_lower(d));
    lemma_filled_piece(ps, ctx, 4);
    lemma_filled_piece(ps, ctx, 5);
    assert forall|i: int| 0 <= i < 38 implies (#[trigger] ctx[i]).0 != ps[5].1 by {
        assert(ctx[i].0 == ctx_keys()[i]);
    }
    assert(ctx[38].0 == ps[5].1);
    assert(ctx[38].1 == o);
    lemma_filled_piece(ps, ctx, 6);
    lemma_filled_piece(ps, ctx, 7);
    assert forall|i: int| 0 <= i < 39 implies (#[trigger] ctx[i]).0 != ps[7].1 by {
        assert(ctx[i].0 == ctx_keys()[i]);
    }
    assert(ctx[39].0 == ps[7].1);
    assert(ctx[39].1 == d);
    lemma_filled_piece(ps, ctx, 8);
    lemma_filled_piece(ps, ctx, 9);
    assert forall|i: int| 0 <= i < 27 implies (#[trigger] ctx[i]).0 != ps[9].1 by {
        assert(ctx[i].0 == ctx_keys()[i]);
    }
    assert(ctx[27].0 == ps[9].1);
    assert(ctx[27].1 == date);
    lemma_filled_piece(ps, ctx, 10);
    assert forall|i: int| 0 <= i < 10 implies (#[trigger] ctx[i]).0 != ps[10].1 by {
        assert(ctx[i].0 == ctx_keys()[i]);
    }
    assert(ctx[10].0 == ps[10].1);
    assert(ctx[10].1 == Seq::<char>::empty());
    lemma_filled_piece(ps, ctx, 11);
    lemma_filled_piece(ps, ctx, 12);
    assert forall|i: int| 0 <= i < 13 implies (#[trigger] ctx[i]).0 != ps[12].1 by {
        assert(ctx[i].0 == ctx_keys()[i]);
    }
    assert(ctx[13].0 == ps[12].1);
    assert(ctx[13].1 == "ow"@);
    lemma_filled_piece(ps, ctx, 13);
    lemma_filled_piece(ps, ctx, 14);
    assert forall|i: int| 0 <= i < 24 implies (#[trigger] ctx[i]).0 != ps[14].1 by {
        assert(ctx[i].0 == ctx_keys()[i]);
    }
    assert(ctx[24].0 == ps[14].1);
    assert(ctx[24].1 == decimal(adults));
    let g: Seq<Piece> = seq![(false, "https://www.trip.com/flights/"@), (false, to_lower(o)), (false, "-to-"@), (false, to_lower(d)), (false, "/?dcity="@), (false, o), (false, "&acity="@), (false, d), (false, "&ddate="@), (false, date), (false, Seq::<char>::empty()), (false, "&flighttype="@), (false, "ow"@), (false, "&class=ys&quantity="@), (false, decimal(adults))];
    let f = filled(ps, ctx);
    assert(f =~= g);
    reveal_strlit("&acity=");
    reveal_strlit("&class=ys&quantity=");
    reveal_strlit("&ddate=");
    reveal_strlit("&flighttype=");
    reveal_strlit("-to-");
    reveal_strlit("/?dcity=");
    reveal_strlit("https://www.trip.com/flights/");
    assert(g.subrange(0, 0) =~= Seq::<Piece>::empty());
    assert(join(g.subrange(0, 0)) == Seq::<char>::empty());
    lemma_join_push(g.subrange(0, 0), g[0]);
    assert(g.subrange(0, 0).push(g[0]) =~= g.subrange(0, 1));
    assert(join(g.subrange(0, 1)) =~= "https://www.trip.com/flights/"@);
    lemma_join_push(g.subrange(0, 1), g[1]);
    assert(g.subrange(0, 1).push(g[1]) =~= g.subrange(0, 2));
    assert(join(g.subrange(0, 2)) == "https://www.trip.com/flights/"@ + to_lower(o));
    lemma_join_push(g.subrange(0, 2), g[2]);
    assert(g.subrange(0, 2).push(g[2]) =~= g.subrange(0, 3));
    assert(join(g.subrange(0, 3)) == "https://www.trip.com/flights/"@ + to_lower(o) + "-to-"@);
    lemma_join_push(g.subrange(0, 3), g[3]);
    assert(g.subrange(0, 3).push(g[3]) =~= g.subrange(0, 4));
    assert(join(g.subrange(0, 4)) == "https://www.trip.com/flights/"@ + to_lower(o) + "-to-"@ + to_lower(d));
    lemma_join_push(g.subrange(0, 4), g[4]);
    assert(g.subrange(0, 4).push(g[4]) =~= g.subrange(0, 5));
    assert(join(g.subrange(0, 5)) == "https://www.trip.com/flights/"@ + to_lower(o) + "-to-"@ + to_lower(d) + "/?dcity="@);
    lemma_join_push(g.subrange(0, 5), g[5]);
    assert(g.subrange(0, 5).push(g[5]) =~= g.subrange(0, 6));
    assert(join(g.subrange(0, 6)) == "https://www.trip.com/flights/"@ + to_lower(o) + "-to-"@ + to_lower(d) + "/?dcity="@ + o);
    lemma_join_push(g.subrange(0, 6), g[6]);
    assert(g.subrange(0, 6).push(g[6]) =~= g.subrange(0, 7));
    assert(join(g.subrange(0, 7)) == "https://www.trip.com/flights/"@ + to_lower(o) + "-to-"@ + to_lower(d) + "/?dcity="@ + o + "&acity="@);
    lemma_join_push(g.subrange(0, 7), g[7]);
    assert(g.subrange(0, 7).push(g[7]) =~= g.subrange(0, 8));
    assert(join(g.subrange(0, 8)) == "https://www.trip.com/flights/"@ + to_lower(o) + "-to-"@ + to_lower(d) + "/?dcity="@ + o + "&acity="@ + d);
    lemma_join_push(g.subrange(0, 8), g[8]);
    assert(g.subrange(0, 8).push(g[8]) =~= g.subrange(0, 9));
    assert(join(g.subrange(0, 9)) == "https://www.trip.com/flights/"@ + to_lower(o) + "-to-"@ + to_lower(d) + "/?dcity="@ + o + "&acity="@ + d + "&ddate="@);
    lemma_join_push(g.subrange(0, 9), g[9]);
    assert(g.subrange(0, 9).push(g[9]) =~= g.subrange(0, 10));
    assert(join(g.subrange(0, 10)) == "https://www.trip.com/flights/"@ + to_lower(o) + "-to-"@ + to_lower(d) + "/?dcity="@ + o + "&acity="@ + d + "&ddate="@ + date);
    lemma_join_push(g.subrange(0, 10), g[10]);
    assert(g.subrange(0, 10).push(g[10]) =~= g.subrange(0, 11));
    assert(join(g.subrange(0, 11)) =~= join(g.subrange(0, 10)));
    lemma_join_push(g.subrange(0, 11), g[11]);
    assert(g.subrange(0, 11).push(g[11]) =~= g.subrange(0, 12));
    assert(join(g.subrange(0, 12)) == "https://www.trip.com/flights/"@ + to_lower(o) + "-to-"@ + to_lower(d) + "/?dcity="@ + o + "&acity="@ + d + "&ddate="@ + date + "&flighttype="@);
    lemma_join_push(g.subrange(0, 12), g[12]);
    assert(g.subrange(0, 12).push(g[12]) =~= g.subrange(0, 13));
    assert(join(g.subrange(0, 13)) == "https://www.trip.com/flights/"@ + to_lower(o) + "-to-"@ + to_lower(d) + "/?dcity="@ + o + "&acity="@ + d + "&ddate="@ + date + "&flighttype="@ + "ow"@);
    lemma_join_push(g.subrange(0, 13), g[13]);
    assert(g.subrange(0, 13).push(g[13]) =~= g.subrange(0, 14));
    assert(join(g.subrange(0, 14)) == "https://www.trip.com/flights/"@ + to_lower(o) + "-to-"@ + to_lower(d) + "/?dcity="@ + o + "&acity="@ + d + "&ddate="@ + date + "&flighttype="@ + "ow"@ + "&class=ys&quantity="@);
    lemma_join_push(g.subrange(0, 14), g[14]);
    assert(g.subrange(0, 14).push(g[14]) =~= g.subrange(0, 15));
    assert(join(g.subrange(0, 15)) == "https://www.trip.com/flights/"@ + to_lower(o) + "-to-"@ + to_lower(d) + "/?dcity="@ + o + "&acity="@ + d + "&ddate="@ + date + "&flighttype="@ + "ow"@ + "&class=ys&quantity="@ + decimal(adults));
    assert(g.subrange(0, 15) =~= g);
}

/// The pieces of the priceline address.
pub open spec fn pieces_priceline() -> Seq<Piece> {
    seq![(false, "https://www.priceline.com/m/fly/search/"@), (true, "priceline_path"@), (false, "/?cabin-class=ECO&no-of-adults="@), (true, "adults"@)]
}

#[verifier::rlimit(40)]
proof fn lemma_template_priceline()
    ensures
        meta_rows()[9].0 == "priceline"@,
        meta_rows()[9].0 != "google-flights"@,
        meta_rows()[9].5 == join(pieces_priceline()),
        pieces_ok(pieces_priceline()),
{
    reveal_strlit("/?cabin-class=ECO&no-of-adults=");
    reveal_strlit("https://www.priceline.com/m/fly/search/");
    reveal_strlit("adults");
    reveal_strlit("priceline_path");
    reveal_strlit("https://www.priceline.com/m/fly/search/{priceline_path}/?cabin-class=ECO&no-of-adults={adults}");
    reveal_strlit("priceline");
    reveal_strlit("google-flights");
    lemma_key_adults();
    lemma_key_priceline_path();
    let ps = pieces_priceline();
    assert(meta_rows()[9].0 == "priceline"@);
    assert("priceline"@.len() == 9 && "google-flights"@.len() == 14 && "priceline"@[0] == 'p' && "google-flights"@[0] == 'g');
    let t = "https://www.priceline.com/m/fly/search/{priceline_path}/?cabin-class=ECO&no-of-adults={adults}"@;
    assert(t.len() == 94);
    assert(ps.subrange(0, 0) =~= Seq::<Piece>::empty());
    assert(join(ps.subrange(0, 0)) == Seq::<char>::empty());
    assert(t.subrange(0, 0) =~= Seq::<char>::empty());
    lemma_join_push(ps.subrange(0, 0), ps[0]);
    assert(ps.subrange(0, 0).push(ps[0]) =~= ps.subrange(0, 1));
    assert(t.subrange(0, 39) =~= t.subrange(0, 0) + piece_text(ps[0]));
    lemma_join_push(ps.subrange(0, 1), ps[1]);
    assert(ps.subrange(0, 1).push(ps[1]) =~= ps.subrange(0, 2));
    assert(t.subrange(0, 55) =~= t.subrange(0, 39) + piece_text(ps[1]));
    lemma_join_push(ps.subrange(0, 2), ps[2]);
    assert(ps.subrange(0, 2).push(ps[2]) =~= ps.subrange(0, 3));
    assert(t.subrange(0, 86) =~= t.subrange(0, 55) + piece_text(ps[2]));
    lemma_join_push(ps.subrange(0, 3), ps[3]);
    assert(ps.subrange(0, 3).push(ps[3]) =~= ps.subrange(0, 4));
    assert(t.subrange(0, 94) =~= t.subrange(0, 86) + piece_text(ps[3]));
    assert(ps.subrange(0, 4) =~= ps);
    assert(t.subrange(0, 94) =~= t);
    assert(meta_rows()[9].5 == t);
    assert(pieces_ok(ps)) by {
        assert forall|i: int| 0 <= i < ps.len() implies if (#[trigger] ps[i]).0 { no_braces(ps[i].1) } else { no_open(ps[i].1) } by {
            if i == 0 { assert(no_open("https://www.priceline.com/m/fly/search/"@)); } else if i == 2 { assert(no_open("/?cabin-class=ECO&no-of-adults="@)); } else if i == 1 { assert(no_braces("priceline_path"@)); } else if i == 3 { assert(no_braces("adults"@)); }
        }
    }
}

#[verifier::rlimit(40)]
proof fn lemma_site_priceline(origin: Seq<char>, dest: Seq<char>, date: Seq<char>, adults: int,
    airlines: Seq<(Seq<char>, Seq<char>)>, currency: Seq<char>, cabin: Seq<char>)
    requires
        utf8_len(date) >= 10,
        values_free(to_upper(origin), to_upper(dest), date, adults, cabin_upper(cabin)),
    ensures
        booker_rows(origin, dest, date, adults, airlines, currency, cabin, None)[9].0 == "priceline"@,
        ({
            let o = to_upper(origin);
            let d = to_upper(dest);
            let cabin_u = cabin_upper(cabin);
            booker_rows(origin, dest, date, adults, airlines, currency, cabin, None)[9].4 == "https://www.priceline.com/m/fly/search/"@ + (o + "-"@ + d + "-"@ + no_dashes(date)) + "/?cabin-class=ECO&no-of-adults="@ + decimal(adults)
        }),
{
    lemma_key_adults();
    lemma_key_priceline_path();
    lemma_template_priceline();
    lemma_row_url(origin, dest, date, adults, airlines, currency, cabin, 9);
    let o = to_upper(origin);
    let d = to_upper(dest);
    let cabin_u = cabin_upper(cabin);
    let ctx = ctx_spec(o, d, date, Seq::empty(), adults, cabin_u);
    lemma_ctx_keys(o, d, date, Seq::empty(), adults, cabin_u);
    let ps = pieces_priceline();
    lemma_key_facts();
    assert(keys_clean(ctx)) by {
        assert forall|i: int| 0 <= i < ctx.len() implies no_braces(#[trigger] ctx[i].0) by {
            assert(ctx[i].0 == ctx_keys()[i]);
        }
    }
    assert(values_clean(ps, ctx));
    lemma_subst_pieces(ps, ctx);
    lemma_filled_piece(ps, ctx, 0);
    lemma_filled_piece(ps, ctx, 1);
    assert forall|i: int| 0 <= i < 0 implies (#[trigger] ctx[i]).0 != ps[1].1 by {
        assert(ctx[i].0 == ctx_keys()[i]);
    }
    assert(ctx[0].0 == ps[1].1);
    assert(ctx[0].1 == o + "-"@ + d + "-"@ + no_dashes(date));
    lemma_filled_piece(ps, ctx, 2);
    lemma_filled_piece(ps, ctx, 3);
    assert forall|i: int| 0 <= i < 24 implies (#[trigger] ctx[i]).0 != ps[3].1 by {
        assert(ctx[i].0 == ctx_keys()[i]);
    }
    assert(ctx[24].0 == ps[3].1);
    assert(ctx[24].1 == decimal(adults));
    let g: Seq<Piece> = seq![(false, "https://www.priceline.com/m/fly/search/"@), (false, o + "-"@ + d + "-"@ + no_dashes(date)), (false, "/?cabin-class=ECO&no-of-adults="@), (false, decimal(adults))];
    let f = filled(ps, ctx);
    assert(f =~= g);
    reveal_strlit("/?cabin-class=ECO&no-of-adults=");
    reveal_strlit("https://www.priceline.com/m/fly/search/");
    assert(g.subrange(0, 0) =~= Seq::<Piece>::empty());
    assert(join(g.subrange(0, 0)) == Seq::<char>::empty());
    lemma_join_push(g.subrange(0, 0), g[0]);
    assert(g.subrange(0, 0).push(g[0]) =~= g.subrange(0, 1));
    assert(join(g.subrange(0, 1)) =~= "https://www.priceline.com/m/fly/search/"@);
    lemma_join_push(g.subrange(0, 1), g[1]);
    assert(g.subrange(0, 1).push(g[1]) =~= g.subrange(0, 2));
    assert(join(g.subrange(0, 2)) == "https://www.priceline.com/m/fly/search/"@ + (o + "-"@ + d + "-"@ + no_dashes(date)));
    lemma_join_push(g.subrange(0, 2), g[2]);
    assert(g.subrange(0, 2).push(g[2]) =~= g.subrange(0, 3));
    assert(join(g.subrange(0, 3)) == "https://www.priceline.com/m/fly/search/"@ + (o + "-"@ + d + "-"@ + no_dashes(date)) + "/?cabin-class=ECO&no-of-adults="@);
    lemma_join_push(g.subrange(0, 3), g[3]);
    assert(g.subrange(0, 3).push(g[3]) =~= g.subrange(0, 4));
    assert(join(g.subrange(0, 4)) == "https://www.priceline.com/m/fly/search/"@ + (o + "-"@ + d + "-"@ + no_dashes(date)) + "/?cabin-class=ECO&no-of-adults="@ + decimal(adults));
    assert(g.subrange(0, 4) =~= g);
}

/// The pieces of the kiwi address.
pub open spec fn pieces_kiwi() -> Seq<Piece> {
    seq![(false, "https://www.kiwi.com/en/search/results/"@), (true, "ol"@), (false, "/"@), (true, "dl"@), (false, "/"@), (true, "date"@), (false, "/"@), (true, "kiwi_ret"@), (false, "?adults="@), (true, "adults"@)]
}

#[verifier::rlimit(40)]
proof fn lemma_template_kiwi()
    ensures
        meta_rows()[10].0 == "kiwi"@,
        meta_rows()[10].0 != "google-flights"@,
        meta_rows()[10].5 == join(pieces_kiwi()),
        pieces_ok(pieces_kiwi()),
{
    reveal_strlit("/");
    reveal_strlit("?adults=");
    reveal_strlit("https://www.kiwi.com/en/search/results/");
    reveal_strlit("adults");
    reveal_strlit("date");
    reveal_strlit("dl");
    reveal_strlit("kiwi_ret");
    reveal_strlit("ol");
    reveal_strlit("https://www.kiwi.com/en/search/results/{ol}/{dl}/{date}/{kiwi_ret}?adults={adults}");
    reveal_strlit("kiwi");
    reveal_strlit("google-flights");
    lemma_key_adults();
    lemma_key_date();
    lemma_key_dl();
    lemma_key_kiwi_ret();
    lemma_key_ol();
    let ps = pieces_kiwi();
    assert(meta_rows()[10].0 == "kiwi"@);
    assert("kiwi"@.len() == 4 && "google-flights"@.len() == 14 && "kiwi"@[0] == 'k' && "google-flights"@[0] == 'g');
    let t = "https://www.kiwi.com/en/search/results/{ol}/{dl}/{date}/{kiwi_ret}?adults={adults}"@;
    assert(t.len() == 82);
    assert(ps.subrange(0, 0) =~= Seq::<Piece>::empty());
    assert(join(ps.subrange(0, 0)) == Seq::<char>::empty());
    assert(t.subrange(0, 0) =~= Seq::<char>::empty());
    lemma_join_push(ps.subrange(0, 0), ps[0]);
    assert(ps.subrange(0, 0).push(ps[0]) =~= ps.subrange(0, 1));
    assert(t.subrange(0, 39) =~= t.subrange(0, 0) + piece_text(ps[0]));
    lemma_join_push(ps.subrange(0, 1), ps[1]);
    assert(ps.subrange(0, 1).push(ps[1]) =~= ps.subrange(0, 2));
    assert(t.subrange(0, 43) =~= t.subrange(0, 39) + piece_text(ps[1]));
    lemma_join_push(ps.subrange(0, 2), ps[2]);
    assert(ps.subrange(0, 2).push(ps[2]) =~= ps.subrange(0, 3));
    assert(t.subrange(0, 44) =~= t.subrange(0, 43) + piece_text(ps[2]));
    lemma_join_push(ps.subrange(0, 3), ps[3]);
    assert(ps.subrange(0, 3).push(ps[3]) =~= ps.subrange(0, 4));
    assert(t.subrange(0, 48) =~= t.subrange(0, 44) + piece_text(ps[3]));
    lemma_join_push(ps.subrange(0, 4), ps[4]);
    assert(ps.subrange(0, 4).push(ps[4]) =~= ps.subrange(0, 5));
    assert(t.subrange(0, 49) =~= t.subrange(0, 48) + piece_text(ps[4]));
    lemma_join_push(ps.subrange(0, 5), ps[5]);
    assert(ps.subrange(0, 5).push(ps[5]) =~= ps.subrange(0, 6));
    assert(t.subrange(0, 55) =~= t.subrange(0, 49) + piece_text(ps[5]));
    lemma_join_push(ps.subrange(0, 6), ps[6]);
    assert(ps.subrange(0, 6).push(ps[6]) =~= ps.subrange(0, 7));
    assert(t.subrange(0, 56) =~= t.subrange(0, 55) + piece_text(ps[6]));
    lemma_join_push(ps.subrange(0, 7), ps[7]);
    assert(ps.subrange(0, 7).push(ps[7]) =~= ps.subrange(0, 8));
    assert(t.subrange(0, 66) =~= t.subrange(0, 56) + piece_text(ps[7]));
    lemma_join_push(ps.subrange(0, 8), ps[8]);
    assert(ps.subrange(0, 8).push(ps[8]) =~= ps.subrange(0, 9));
    assert(t.subrange(0, 74) =~= t.subrange(0, 66) + piece_text(ps[8]));
    lemma_join_push(ps.subrange(0, 9), ps[9]);
    assert(ps.subrange(0, 9).push(ps[9]) =~= ps.subrange(0, 10));
    assert(t.subrange(0, 82) =~= t.subrange(0, 74) + piece_text(ps[9]));
    assert(ps.subrange(0, 10) =~= ps);
    assert(t.subrange(0, 82) =~= t);
    assert(meta_rows()[10].5 == t);
    assert(pieces_ok(ps)) by {
        assert forall|i: int| 0 <= i < ps.len() implies if (#[trigger] ps[i]).0 { no_braces(ps[i].1) } else { no_open(ps[i].1) } by {
            if i == 0 { assert(no_open("https://www.kiwi.com/en/search/results/"@)); } else if i == 2 { assert(no_open("/"@)); } else if i == 4 { assert(no_open("/"@)); } else if i == 6 { assert(no_open("/"@)); } else if i == 8 { assert(no_open("?adults="@)); } else if i == 1 { assert(no_braces("ol"@)); } else if i == 3 { assert(no_braces("dl"@)); } else if i == 5 { assert(no_braces("date"@)); } else if i == 7 { assert(no_braces("kiwi_ret"@)); } else if i == 9 { assert(no_braces("adults"@)); }
        }
    }
}

#[verifier::rlimit(40)]
proof fn lemma_site_kiwi(origin: Seq<char>, dest: Seq<char>, date: Seq<char>, adults: int,
    airlines: Seq<(Seq<char>, Seq<char>)>, currency: Seq<char>, cabin: Seq<char>)
    requires
        utf8_len(date) >= 10,
        values_free(to_upper(origin), to_upper(dest), date, adults, cabin_upper(cabin)),
    ensures
        booker_rows(origin, dest, date, adults, airlines, currency, cabin, None)[10].0 == "kiwi"@,
        ({
            let o = to_upper(origin);
            let d = to_upper(dest);
            let cabin_u = cabin_upper(cabin);
            booker_rows(origin, dest, date, adults, airlines, currency, cabin, None)[10].4 == "https://www.kiwi.com/en/search/results/"@ + to_lower(o) + "/"@ + to_lower(d) + "/"@ + date + "/"@ + "no-return"@ + "?adults="@ + decimal(adults)
        }),
{
    lemma_key_adults();
    lemma_key_date();
    lemma_key_dl();
    lemma_key_kiwi_ret();
    lemma_key_ol();
    lemma_template_kiwi();
    lemma_row_url(origin, dest, date, adults, airlines, currency, cabin, 10);
    let o = to_upper(origin);
    let d = to_upper(dest);
    let cabin_u = cabin_upper(cabin);
    let ctx = ctx_spec(o, d, date, Seq::empty(), adults, cabin_u);
    lemma_ctx_keys(o, d, date, Seq::empty(), adults, cabin_u);
    let ps = pieces_kiwi();
    lemma_key_facts();
    assert(keys_clean(ctx)) by {
        assert forall|i: int| 0 <= i < ctx.len() implies no_braces(#[trigger] ctx[i].0) by {
            assert(ctx[i].0 == ctx_keys()[i]);
        }
    }
    assert(values_clean(ps, ctx));
    lemma_subst_pieces(ps, ctx);
    lemma_filled_piece(ps, ctx, 0);
    lemma_filled_piece(ps, ctx, 1);
    assert forall|i: int| 0 <= i < 33 implies (#[trigger] ctx[i]).0 != ps[1].1 by {
        assert(ctx[i].0 == ctx_keys()[i]);
    }
    assert(ctx[33].0 == ps[1].1);
    assert(ctx[33].1 == to_lower(o));
    lemma_filled_piece(ps, ctx, 2);
    lemma_filled_piece(ps, ctx, 3);
    assert forall|i: int| 0 <= i < 34 implies (#[trigger] ctx[i]).0 != ps[3].1 by {
        assert(ctx[i].0 == ctx_keys()[i]);
    }
    assert(ctx[34].0 == ps[3].1);
    assert(ctx[34].1 == to_lower(d));
    lemma_filled_piece(ps, ctx, 4);
    lemma_filled_piece(ps, ctx, 5);
    assert forall|i: int| 0 <= i < 27 implies (#[trigger] ctx[i]).0 != ps[5].1 by {
        assert(ctx[i].0 == ctx_keys()[i]);
    }
    assert(ctx[27].0 == ps[5].1);
    assert(ctx[27].1 == date);
    lemma_filled_piece(ps, ctx, 6);
    lemma_filled_piece(ps, ctx, 7);
    assert forall|i: int| 0 <= i < 20 implies (#[trigger] ctx[i]).0 != ps[7].1 by {
        assert(ctx[i].0 == ctx_keys()[i]);
    }
    assert(ctx[20].0 == ps[7].1);
    assert(ctx[20].1 == "no-return"@);
    lemma_filled_piece(ps, ctx, 8);
    lemma_filled_piece(ps, ctx, 9);
    assert forall|i: int| 0 <= i < 24 implies (#[trigger] ctx[i]).0 != ps[9].1 by {
        assert(ctx[i].0 == ctx_keys()[i]);
    }
    assert(ctx[24].0 == ps[9].1);
    assert(ctx[24].1 == decimal(adults));
    let g: Seq<Piece> = seq![(false, "https://www.kiwi.com/en/search/results/"@), (false, to_lower(o)), (false, "/"@), (false, to_lower(d)), (false, "/"@), (false, date), (false, "/"@), (false, "no-return"@), (false, "?adults="@), (false, decimal(adults))];
    let f = filled(ps, ctx);
    assert(f =~= g);
    reveal_strlit("/");
    reveal_strlit("?adults=");
    reveal_strlit("https://www.kiwi.com/en/search/results/");
    assert(g.subrange(0, 0) =~= Seq::<Piece>::empty());
    assert(join(g.subrange(0, 0)) == Seq::<char>::empty());
    lemma_join_push(g.subrange(0, 0), g[0]);
    assert(g.subrange(0, 0).push(g[0]) =~= g.subrange(0, 1));
    assert(join(g.subrange(0, 1)) =~= "https://www.kiwi.com/en/search/results/"@);
    lemma_join_push(g.subrange(0, 1), g[1]);
    assert(g.subrange(0, 1).push(g[1]) =~= g.subrange(0, 2));
    assert(join(g.subrange(0, 2)) == "https://www.kiwi.com/en/search/results/"@ + to_lower(o));
    lemma_join_push(g.subrange(0, 2), g[2]);
    assert(g.subrange(0, 2).push(g[2]) =~= g.subrange(0, 3));
    assert(join(g.subrange(0, 3)) == "https://www.kiwi.com/en/search/results/"@ + to_lower(o) + "/"@);
    lemma_join_push(g.subrange(0, 3), g[3]);
    assert(g.subrange(0, 3).push(g[3]) =~= g.subrange(0, 4));
    assert(join(g.subrange(0, 4)) == "https://www.kiwi.com/en/search/results/"@ + to_lower(o) + "/"@ + to_lower(d));
    lemma_join_push(g.subrange(0, 4), g[4]);
    assert(g.subrange(0, 4).push(g[4]) =~= g.subrange(0, 5));
    assert(join(g.subrange(0, 5)) == "https://www.kiwi.com/en/search/results/"@ + to_lower(o) + "/"@ + to_lower(d) + "/"@);
    lemma_join_push(g.subrange(0, 5), g[5]);
    assert(g.subrange(0, 5).push(g[5]) =~= g.subrange(0, 6));
    assert(join(g.subrange(0, 6)) == "https://www.kiwi.com/en/search/results/"@ + to_lower(o) + "/"@ + to_lower(d) + "/"@ + date);
    lemma_join_push(g.subrange(0, 6), g[6]);
    assert(g.subrange(0, 6).push(g[6]) =~= g.subrange(0, 7));
    assert(join(g.subrange(0, 7)) == "https://www.kiwi.com/en/search/results/"@ + to_lower(o) + "/"@ + to_lower(d) + "/"@ + date + "/"@);
    lemma_join_push(g.subrange(0, 7), g[7]);
    assert(g.subrange(0, 7).push(g[7]) =~= g.subrange(0, 8));
    assert(join(g.subrange(0, 8)) == "https://www.kiwi.com/en/search/results/"@ + to_lower(o) + "/"@ + to_lower(d) + "/"@ + date + "/"@ + "no-return"@);
    lemma_join_push(g.subrange(0, 8), g[8]);
    assert(g.subrange(0, 8).push(g[8]) =~= g.subrange(0, 9));
    assert(join(g.subrange(0, 9)) == "https://www.kiwi.com/en/search/results/"@ + to_lower(o) + "/"@ + to_lower(d) + "/"@ + date + "/"@ + "no-return"@ + "?adults="@);
    lemma_join_push(g.subrange(0, 9), g[9]);
    assert(g.subrange(0, 9).push(g[9]) =~= g.subrange(0, 10));
    assert(join(g.subrange(0, 10)) == "https://www.kiwi.com/en/search/results/"@ + to_lower(o) + "/"@ + to_lower(d) + "/"@ + date + "/"@ + "no-return"@ + "?adults="@ + decimal(adults));
    assert(g.subrange(0, 10) =~= g);
}

/// The pieces of the cheapoair address.
pub open spec fn pieces_cheapoair() -> Seq<Piece> {
    seq![(false, "https://www.cheapoair.com/flights/results?from="@), (true, "o"@), (false, "&to="@), (true, "d"@), (false, "&fromDt="@), (true, "us"@), (true, "cheapo_ret"@), (false, "&tripType="@), (true, "cheapo_trip"@), (false, "&adults="@), (true, "adults"@)]
}

#[verifier::rlimit(40)]
proof fn lemma_template_cheapoair()
    ensures
        meta_rows()[11].0 == "cheapoair"@,
        meta_rows()[11].0 != "google-flights"@,
        meta_rows()[11].5 == join(pieces_cheapoair()),
        pieces_ok(pieces_cheapoair()),
{
    reveal_strlit("&adults=");
    reveal_strlit("&fromDt=");
    reveal_strlit("&to=");
    reveal_strlit("&tripType=");
    reveal_strlit("https://www.cheapoair.com/flights/results?from=");
    reveal_strlit("adults");
    reveal_strlit("cheapo_ret");
    reveal_strlit("cheapo_trip");
    reveal_strlit("d");
    reveal_strlit("o");
    reveal_strlit("us");
    reveal_strlit("https://www.cheapoair.com/flights/results?from={o}&to={d}&fromDt={us}{cheapo_ret}&tripType={cheapo_trip}&adults={adults}");
    reveal_strlit("cheapoair");
    reveal_strlit("google-flights");
    lemma_key_adults();
    lemma_key_cheapo_ret();
    lemma_key_cheapo_trip();
    lemma_key_d();
    lemma_key_o();
    lemma_key_us();
    let ps = pieces_cheapoair();
    assert(meta_rows()[11].0 == "cheapoair"@);
    assert("cheapoair"@.len() == 9 && "google-flights"@.len() == 14 && "cheapoair"@[0] == 'c' && "google-flights"@[0] == 'g');
    let t = "https://www.cheapoair.com/flights/results?from={o}&to={d}&fromDt={us}{cheapo_ret}&tripType={cheapo_trip}&adults={adults}"@;
    assert(t.len() == 120);
    assert(ps.subrange(0, 0) =~= Seq::<Piece>::empty());
    assert(join(ps.subrange(0, 0)) == Seq::<char>::empty());
    assert(t.subrange(0, 0) =~= Seq::<char>::empty());
    lemma_join_push(ps.subrange(0, 0), ps[0]);
    assert(ps.subrange(0, 0).push(ps[0]) =~= ps.subrange(0, 1));
    assert(t.subrange(0, 47) =~= t.subrange(0, 0) + piece_text(ps[0]));
    lemma_join_push(ps.subrange(0, 1), ps[1]);
    assert(ps.subrange(0, 1).push(ps[1]) =~= ps.subrange(0, 2));
    assert(t.subrange(0, 50) =~= t.subrange(0, 47) + piece_text(ps[1]));
    lemma_join_push(ps.subrange(0, 2), ps[2]);
    assert(ps.subrange(0, 2).push(ps[2]) =~= ps.subrange(0, 3));
    assert(t.subrange(0, 54) =~= t.subrange(0, 50) + piece_text(ps[2]));
    lemma_join_push(ps.subrange(0, 3), ps[3]);
    assert(ps.subrange(0, 3).push(ps[3]) =~= ps.subrange(0, 4));
    assert(t.subrange(0, 57) =~= t.subrange(0, 54) + piece_text(ps[3]));
    lemma_join_push(ps.subrange(0, 4), ps[4]);
    assert(ps.subrange(0, 4).push(ps[4]) =~= ps.subrange(0, 5));
    assert(t.subrange(0, 65) =~= t.subrange(0, 57) + piece_text(ps[4]));
    lemma_join_push(ps.subrange(0, 5), ps[5]);
    assert(ps.subrange(0, 5).push(ps[5]) =~= ps.subrange(0, 6));
    assert(t.subrange(0, 69) =~= t.subrange(0, 65) + piece_text(ps[5]));
    lemma_join_push(ps.subrange(0, 6), ps[6]);
    assert(ps.subrange(0, 6).push(ps[6]) =~= ps.subrange(0, 7));
    assert(t.subrange(0, 81) =~= t.subrange(0, 69) + piece_text(ps[6]));
    lemma_join_push(ps.subrange(0, 7), ps[7]);
    assert(ps.subrange(0, 7).push(ps[7]) =~= ps.subrange(0, 8));
    assert(t.subrange(0, 91) =~= t.subrange(0, 81) + piece_text(ps[7]));
    lemma_join_push(ps.subrange(0, 8), ps[8]);
    assert(ps.subrange(0, 8).push(ps[8]) =~= ps.subrange(0, 9));
    assert(t.subrange(0, 104) =~= t.subrange(0, 91) + piece_text(ps[8]));
    lemma_join_push(ps.subrange(0, 9), ps[9]);
    assert(ps.subrange(0, 9).push(ps[9]) =~= ps.subrange(0, 10));
    assert(t.subrange(0, 112) =~= t.subrange(0, 104) + piece_text(ps[9]));
    lemma_join_push(ps.subrange(0, 10), ps[10]);
    assert(ps.subrange(0, 10).push(ps[10]) =~= ps.subrange(0, 11));
    assert(t.subrange(0, 120) =~= t.subrange(0, 112) + piece_text(ps[10]));
    assert(ps.subrange(0, 11) =~= ps);
    assert(t.subrange(0, 120) =~= t);
    assert(meta_rows()[11].5 == t);
    assert(pieces_ok(ps)) by {
        assert forall|i: int| 0 <= i < ps.len() implies if (#[trigger] ps[i]).0 { no_braces(ps[i].1) } else { no_open(ps[i].1) } by {
            if i == 0 { assert(no_open("https://www.cheapoair.com/flights/results?from="@)); } else if i == 2 { assert(no_open("&to="@)); } else if i == 4 { assert(no_open("&fromDt="@)); } else if i == 7 { assert(no_open("&tripType="@)); } else if i == 9 { assert(no_open("&adults="@)); } else if i == 1 { assert(no_braces("o"@)); } else if i == 3 { assert(no_braces("d"@)); } else if i == 5 { assert(no_braces("us"@)); } else if i == 6 { assert(no_braces("cheapo_ret"@)); } else if i == 8 { assert(no_braces("cheapo_trip"@)); } else if i == 10 { assert(no_braces("adults"@)); }
        }
    }
}

#[verifier::rlimit(40)]
proof fn lemma_site_cheapoair(origin: Seq<char>, dest: Seq<char>, date: Seq<char>, adults: int,
    airlines: Seq<(Seq<char>, Seq<char>)>, currency: Seq<char>, cabin: Seq<char>)
    requires
        utf8_len(date) >= 10,
        values_free(to_upper(origin), to_upper(dest), date, adults, cabin_upper(cabin)),
    ensures
        booker_rows(origin, dest, date, adults, airlines, currency, cabin, None)[11].0 == "cheapoair"@,
        ({
            let o = to_upper(origin);
            let d = to_upper(dest);
            let cabin_u = cabin_upper(cabin);
            booker_rows(origin, dest, date, adults, airlines, currency, cabin, None)[11].4 == "https://www.cheapoair.com/flights/results?from="@ + o + "&to="@ + d + "&fromDt="@ + us_spec(date) + "&tripType="@ + "ONEWAY"@ + "&adults="@ + decimal(adults)
        }),
{
    lemma_key_adults();
    lemma_key_cheapo_ret();
    lemma_key_cheapo_trip();
    lemma_key_d();
    lemma_key_o();
    lemma_key_us();
    lemma_template_cheapoair();
    lemma_row_url(origin, dest, date, adults, airlines, currency, cabin, 11);
    let o = to_upper(origin);
    let d = to_upper(dest);
    let cabin_u = cabin_upper(cabin);
    let ctx = ctx_spec(o, d, date, Seq::empty(), adults, cabin_u);
    lemma_ctx_keys(o, d, date, Seq::empty(), adults, cabin_u);
    let ps = pieces_cheapoair();
    lemma_key_facts();
    assert(keys_clean(ctx)) by {
        assert forall|i: int| 0 <= i < ctx.len() implies no_braces(#[trigger] ctx[i].0) by {
            assert(ctx[i].0 == ctx_keys()[i]);
        }
    }
    assert(values_clean(ps, ctx));
    lemma_subst_pieces(ps, ctx);
    lemma_filled_piece(ps, ctx, 0);
    lemma_filled_piece(ps, ctx, 1);
    assert forall|i: int| 0 <= i < 38 implies (#[trigger] ctx[i]).0 != ps[1].1 by {
        assert(ctx[i].0 == ctx_keys()[i]);
    }
    assert(ctx[38].0 == ps[1].1);
    assert(ctx[38].1 == o);
    lemma_filled_piece(ps, ctx, 2);
    lemma_filled_piece(ps, ctx, 3);
    assert forall|i: int| 0 <= i < 39 implies (#[trigger] ctx[i]).0 != ps[3].1 by {
        assert(ctx[i].0 == ctx_keys()[i]);
    }
    assert(ctx[39].0 == ps[3].1);
    assert(ctx[39].1 == d);
    lemma_filled_piece(ps, ctx, 4);
    lemma_filled_piece(ps, ctx, 5);
    assert forall|i: int| 0 <= i < 37 implies (#[trigger] ctx[i]).0 != ps[5].1 by {
        assert(ctx[i].0 == ctx_keys()[i]);
    }
    assert(ctx[37].0 == ps[5].1);
    assert(ctx[37].1 == us_spec(date));
    lemma_filled_piece(ps, ctx, 6);
    assert forall|i: int| 0 <= i < 11 implies (#[trigger] ctx[i]).0 != ps[6].1 by {
        assert(ctx[i].0 == ctx_keys()[i]);
    }
    assert(ctx[11].0 == ps[6].1);
    assert(ctx[11].1 == Seq::<char>::empty());
    lemma_filled_piece(ps, ctx, 7);
    lemma_filled_piece(ps, ctx, 8);
    assert forall|i: int| 0 <= i < 7 implies (#[trigger] ctx[i]).0 != ps[8].1 by {
        assert(ctx[i].0 == ctx_keys()[i]);
    }
    assert(ctx[7].0 == ps[8].1);
    assert(ctx[7].1 == "ONEWAY"@);
    lemma_filled_piece(ps, ctx, 9);
    lemma_filled_piece(ps, ctx, 10);
    assert forall|i: int| 0 <= i < 24 implies (#[trigger] ctx[i]).0 != ps[10].1 by {
        assert(ctx[i].0 == ctx_keys()[i]);
    }
    assert(ctx[24].0 == ps[10].1);
    assert(ctx[24].1 == decimal(adults));
    let g: Seq<Piece> = seq![(false, "https://www.cheapoair.com/flights/results?from="@), (false, o), (false, "&to="@), (false, d), (false, "&fromDt="@), (false, us_spec(date)), (false, Seq::<char>::empty()), (false, "&tripType="@), (false, "ONEWAY"@), (false, "&adults="@), (false, decimal(adults))];
    let f = filled(ps, ctx);
    assert(f =~= g);
    reveal_strlit("&adults=");
    reveal_strlit("&fromDt=");
    reveal_strlit("&to=");
    reveal_strlit("&tripType=");
    reveal_strlit("https://www.cheapoair.com/flights/results?from=");
    assert(g.subrange(0, 0) =~= Seq::<Piece>::empty());
    assert(join(g.subrange(0, 0)) == Seq::<char>::empty());
    lemma_join_push(g.subrange(0, 0), g[0]);
    assert(g.subrange(0, 0).push(g[0]) =~= g.subrange(0, 1));
    assert(join(g.subrange(0, 1)) =~= "https://www.cheapoair.com/flights/results?from="@);
    lemma_join_push(g.subrange(0, 1), g[1]);
    assert(g.subrange(0, 1).push(g[1]) =~= g.subrange(0, 2));
    assert(join(g.subrange(0, 2)) == "https://www.cheapoair.com/flights/results?from="@ + o);
    lemma_join_push(g.subrange(0, 2), g[2]);
    assert(g.subrange(0, 2).push(g[2]) =~= g.subrange(0, 3));
    assert(join(g.subrange(0, 3)) == "https://www.cheapoair.com/flights/results?from="@ + o + "&to="@);
    lemma_join_push(g.subrange(0, 3), g[3]);
    assert(g.subrange(0, 3).push(g[3]) =~= g.subrange(0, 4));
    assert(join(g.subrange(0, 4)) == "https://www.cheapoair.com/flights/results?from="@ + o + "&to="@ + d);
    lemma_join_push(g.subrange(0, 4), g[4]);
    assert(g.subrange(0, 4).push(g[4]) =~= g.subrange(0, 5));
    assert(join(g.subrange(0, 5)) == "https://www.cheapoair.com/flights/results?from="@ + o + "&to="@ + d + "&fromDt="@);
    lemma_join_push(g.subrange(0, 5), g[5]);
    assert(g.subrange(0, 5).push(g[5]) =~= g.subrange(0, 6));
    assert(join(g.subrange(0, 6)) == "https://www.cheapoair.com/flights/results?from="@ + o + "&to="@ + d + "&fromDt="@ + us_spec(date));
    lemma_join_push(g.subrange(0, 6), g[6]);
    assert(g.subrange(0, 6).push(g[6]) =~= g.subrange(0, 7));
    assert(join(g.subrange(0, 7)) =~= join(g.subrange(0, 6)));
    lemma_join_push(g.subrange(0, 7), g[7]);
    assert(g.subrange(0, 7).push(g[7]) =~= g.subrange(0, 8));
    assert(join(g.subrange(0, 8)) == "https://www.cheapoair.com/flights/results?from="@ + o + "&to="@ + d + "&fromDt="@ + us_spec(date) + "&tripType="@);
    lemma_join_push(g.subrange(0, 8), g[8]);
    assert(g.subrange(0, 8).push(g[8]) =~= g.subrange(0, 9));
    assert(join(g.subrange(0, 9)) == "https://www.cheapoair.com/flights/results?from="@ + o + "&to="@ + d + "&fromDt="@ + us_spec(date) + "&tripType="@ + "ONEWAY"@);
    lemma_join_push(g.subrange(0, 9), g[9]);
    assert(g.subrange(0, 9).push(g[9]) =~= g.subrange(0, 10));
    assert(join(g.subrange(0, 10)) == "https://www.cheapoair.com/flights/results?from="@ + o + "&to="@ + d + "&fromDt="@ + us_spec(date) + "&tripType="@ + "ONEWAY"@ + "&adults="@);
    lemma_join_push(g.subrange(0, 10), g[10]);
    assert(g.subrange(0, 10).push(g[10]) =~= g.subrange(0, 11));
    assert(join(g.subrange(0, 11)) == "https://www.cheapoair.com/flights/results?from="@ + o + "&to="@ + d + "&fromDt="@ + us_spec(date) + "&tripType="@ + "ONEWAY"@ + "&adults="@ + decimal(adults));
    assert(g.subrange(0, 11) =~= g);
}

/// The pieces of the edreams address.
pub open spec fn pieces_edreams() -> Seq<Piece> {
    seq![(false, "https://www.edreams.com/flights/"@), (true, "edreams_path"@)]
}

#[verifier::rlimit(40)]
proof fn lemma_template_edreams()
    ensures
        meta_rows()[12].0 == "edreams"@,
        meta_rows()[12].0 != "google-flights"@,
        meta_rows()[12].5 == join(pieces_edreams()),
        pieces_ok(pieces_edreams()),
{
    reveal_strlit("https://www.edreams.com/flights/");
    reveal_strlit("edreams_path");
    reveal_strlit("https://www.edreams.com/flights/{edreams_path}");
    reveal_strlit("edreams");
    reveal_strlit("google-flights");
    lemma_key_edreams_path();
    let ps = pieces_edreams();
    assert(meta_rows()[12].0 == "edreams"@);
    assert("edreams"@.len() == 7 && "google-flights"@.len() == 14 && "edreams"@[0] == 'e' && "google-flights"@[0] == 'g');
    let t = "https://www.edreams.com/flights/{edreams_path}"@;
    assert(t.len() == 46);
    assert(ps.subrange(0, 0) =~= Seq::<Piece>::empty());
    assert(join(ps.subrange(0, 0)) == Seq::<char>::empty());
    assert(t.subrange(0, 0) =~= Seq::<char>::empty());
    lemma_join_push(ps.subrange(0, 0), ps[0]);
    assert(ps.subrange(0, 0).push(ps[0]) =~= ps.subrange(0, 1));
    assert(t.subrange(0, 32) =~= t.subrange(0, 0) + piece_text(ps[0]));
    lemma_join_push(ps.subrange(0, 1), ps[1]);
    assert(ps.subrange(0, 1).push(ps[1]) =~= ps.subrange(0, 2));
    assert(t.subrange(0, 46) =~= t.subrange(0, 32) + piece_text(ps[1]));
    assert(ps.subrange(0, 2) =~= ps);
    assert(t.subrange(0, 46) =~= t);
    assert(meta_rows()[12].5 == t);
    assert(pieces_ok(ps)) by {
        assert forall|i: int| 0 <= i < ps.len() implies if (#[trigger] ps[i]).0 { no_braces(ps[i].1) } else { no_open(ps[i].1) } by {
            if i == 0 { assert(no_open("https://www.edreams.com/flights/"@)); } else if i == 1 { assert(no_braces("edreams_path"@)); }
        }
    }
}

#[verifier::rlimit(40)]
proof fn lemma_site_edreams(origin: Seq<char>, dest: Seq<char>, date: Seq<char>, adults: int,
    airlines: Seq<(Seq<char>, Seq<char>)>, currency: Seq<char>, cabin: Seq<char>)
    requires
        utf8_len(date) >= 10,
        values_free(to_upper(origin), to_upper(dest), date, adults, cabin_upper(cabin)),
    ensures
        booker_rows(origin, dest, date, adults, airlines, currency, cabin, None)[12].0 == "edreams"@,
        ({
            let o = to_upper(origin);
            let d = to_upper(dest);
            let cabin_u = cabin_upper(cabin);
            booker_rows(origin, dest, date, adults, airlines, currency, cabin, None)[12].4 == "https://www.edreams.com/flights/"@ + (to_lower(o) + "-"@ + to_lower(d) + "/"@ + date + "/"@ + decimal(adults) + "-0-0/"@)
        }),
{
    lemma_key_edreams_path();
    lemma_template_edreams();
    lemma_row_url(origin, dest, date, adults, airlines, currency, cabin, 12);
    let o = to_upper(origin);
    let d = to_upper(dest);
    let cabin_u = cabin_upper(cabin);
    let ctx = ctx_spec(o, d, date, Seq::empty(), adults, cabin_u);
    lemma_ctx_keys(o, d, date, Seq::empty(), adults, cabin_u);
    let ps = pieces_edreams();
    lemma_key_facts();
    assert(keys_clean(ctx)) by {
        assert forall|i: int| 0 <= i < ctx.len() implies no_braces(#[trigger] ctx[i].0) by {
            assert(ctx[i].0 == ctx_keys()[i]);
        }
    }
    assert(values_clean(ps, ctx));
    lemma_subst_pieces(ps, ctx);
    lemma_filled_piece(ps, ctx, 0);
    lemma_filled_piece(ps, ctx, 1);
    assert forall|i: int| 0 <= i < 3 implies (#[trigger] ctx[i]).0 != ps[1].1 by {
        assert(ctx[i].0 == ctx_keys()[i]);
    }
    assert(ctx[3].0 == ps[1].1);
    assert(ctx[3].1 == to_lower(o) + "-"@ + to_lower(d) + "/"@ + date + "/"@ + decimal(adults) + "-0-0/"@);
    let g: Seq<Piece> = seq![(false, "https://www.edreams.com/flights/"@), (false, to_lower(o) + "-"@ + to_lower(d) + "/"@ + date + "/"@ + decimal(adults) + "-0-0/"@)];
    let f = filled(ps, ctx);
    assert(f =~= g);
    reveal_strlit("https://www.edreams.com/flights/");
    assert(g.subrange(0, 0) =~= Seq::<Piece>::empty());
    assert(join(g.subrange(0, 0)) == Seq::<char>::empty());
    lemma_join_push(g.subrange(0, 0), g[0]);
    assert(g.subrange(0, 0).push(g[0]) =~= g.subrange(0, 1));
    assert(join(g.subrange(0, 1)) =~= "https://www.edreams.com/flights/"@);
    lemma_join_push(g.subrange(0, 1), g[1]);
    assert(g.subrange(0, 1).push(g[1]) =~= g.subrange(0, 2));
    assert(join(g.subrange(0, 2)) == "https://www.edreams.com/flights/"@ + (to_lower(o) + "-"@ + to_lower(d) + "/"@ + date + "/"@ + decimal(adults) + "-0-0/"@));
    assert(g.subrange(0, 2) =~= g);
}

/// The pieces of the traveloka address.
pub open spec fn pieces_traveloka() -> Seq<Piece> {
    seq![(false, "https://www.traveloka.com/en-en/flight/fullsearch?ap="@), (true, "o"@), (false, "."@), (true, "d"@), (false, "&dt="@), (true, "tvldt_pair"@), (false, "&ps="@), (true, "adults"@), (false, ".0.0"@)]
}

#[verifier::rlimit(40)]
proof fn lemma_template_traveloka()
    ensures
        meta_rows()[13].0 == "traveloka"@,
        meta_rows()[13].0 != "google-flights"@,
        meta_rows()[13].5 == join(pieces_traveloka()),
        pieces_ok(pieces_traveloka()),
{
    reveal_strlit("&dt=");
    reveal_strlit("&ps=");
    reveal_strlit(".");
    reveal_strlit(".0.0");
    reveal_strlit("https://www.traveloka.com/en-en/flight/fullsearch?ap=");
    reveal_strlit("adults");
    reveal_strlit("d");
    reveal_strlit("o");
    reveal_strlit("tvldt_pair");
    reveal_strlit("https://www.traveloka.com/en-en/flight/fullsearch?ap={o}.{d}&dt={tvldt_pair}&ps={adults}.0.0");
    reveal_strlit("traveloka");
    reveal_strlit("google-flights");
    lemma_key_adults();
    lemma_key_d();
    lemma_key_o();
    lemma_key_tvldt_pair();
    let ps = pieces_traveloka();
    assert(meta_rows()[13].0 == "traveloka"@);
    assert("traveloka"@.len() == 9 && "google-flights"@.len() == 14 && "traveloka"@[0] == 't' && "google-flights"@[0] == 'g');
    let t = "https://www.traveloka.com/en-en/flight/fullsearch?ap={o}.{d}&dt={tvldt_pair}&ps={adults}.0.0"@;
    assert(t.len() == 92);
    assert(ps.subrange(0, 0) =~= Seq::<Piece>::empty());
    assert(join(ps.subrange(0, 0)) == Seq::<char>::empty());
    assert(t.subrange(0, 0) =~= Seq::<char>::empty());
    lemma_join_push(ps.subrange(0, 0), ps[0]);
    assert(ps.subrange(0, 0).push(ps[0]) =~= ps.subrange(0, 1));
    assert(t.subrange(0, 53) =~= t.subrange(0, 0) + piece_text(ps[0]));
    lemma_join_push(ps.subrange(0, 1), ps[1]);
    assert(ps.subrange(0, 1).push(ps[1]) =~= ps.subrange(0, 2));
    assert(t.subrange(0, 56) =~= t.subrange(0, 53) + piece_text(ps[1]));
    lemma_join_push(ps.subrange(0, 2), ps[2]);
    assert(ps.subrange(0, 2).push(ps[2]) =~= ps.subrange(0, 3));
    assert(t.subrange(0, 57) =~= t.subrange(0, 56) + piece_text(ps[2]));
    lemma_join_push(ps.subrange(0, 3), ps[3]);
    assert(ps.subrange(0, 3).push(ps[3]) =~= ps.subrange(0, 4));
    assert(t.subrange(0, 60) =~= t.subrange(0, 57) + piece_text(ps[3]));
    lemma_join_push(ps.subrange(0, 4), ps[4]);
    assert(ps.subrange(0, 4).push(ps[4]) =~= ps.subrange(0, 5));
    assert(t.subrange(0, 64) =~= t.subrange(0, 60) + piece_text(ps[4]));
    lemma_join_push(ps.subrange(0, 5), ps[5]);
    assert(ps.subrange(0, 5).push(ps[5]) =~= ps.subrange(0, 6));
    assert(t.subrange(0, 76) =~= t.subrange(0, 64) + piece_text(ps[5]));
    lemma_join_push(ps.subrange(0, 6), ps[6]);
    assert(ps.subrange(0, 6).push(ps[6]) =~= ps.subrange(0, 7));
    assert(t.subrange(0, 80) =~= t.subrange(0, 76) + piece_text(ps[6]));
    lemma_join_push(ps.subrange(0, 7), ps[7]);
    assert(ps.subrange(0, 7).push(ps[7]) =~= ps.subrange(0, 8));
    assert(t.subrange(0, 88) =~= t.subrange(0, 80) + piece_text(ps[7]));
    lemma_join_push(ps.subrange(0, 8), ps[8]);
    assert(ps.subrange(0, 8).push(ps[8]) =~= ps.subrange(0, 9));
    assert(t.subrange(0, 92) =~= t.subrange(0, 88) + piece_text(ps[8]));
    assert(ps.subrange(0, 9) =~= ps);
    assert(t.subrange(0, 92) =~= t);
    assert(meta_rows()[13].5 == t);
    assert(pieces_ok(ps)) by {
        assert forall|i: int| 0 <= i < ps.len() implies if (#[trigger] ps[i]).0 { no_braces(ps[i].1) } else { no_open(ps[i].1) } by {
            if i == 0 { assert(no_open("https://www.traveloka.com/en-en/flight/fullsearch?ap="@)); } else if i == 2 { assert(no_open("."@)); } else if i == 4 { assert(no_open("&dt="@)); } else if i == 6 { assert(no_open("&ps="@)); } else if i == 8 { assert(no_open(".0.0"@)); } else if i == 1 { assert(no_braces("o"@)); } else if i == 3 { assert(no_braces("d"@)); } else if i == 5 { assert(no_braces("tvldt_pair"@)); } else if i == 7 { assert(no_braces("adults"@)); }
        }
    }
}

#[verifier::rlimit(40)]
proof fn lemma_site_traveloka(origin: Seq<char>, dest: Seq<char>, date: Seq<char>, adults: int,
    airlines: Seq<(Seq<char>, Seq<char>)>, currency: Seq<char>, cabin: Seq<char>)
    requires
        utf8_len(date) >= 10,
        values_free(to_upper(origin), to_upper(dest), date, adults, cabin_upper(cabin)),
    ensures
        booker_rows(origin, dest, date, adults, airlines, currency, cabin, None)[13].0 == "traveloka"@,
        ({
            let o = to_upper(origin);
            let d = to_upper(dest);
            let cabin_u = cabin_upper(cabin);
            booker_rows(origin, dest, date, adults, airlines, currency, cabin, None)[13].4 == "https://www.traveloka.com/en-en/flight/fullsearch?ap="@ + o + "."@ + d + "&dt="@ + (tvldt_spec(date) + ".NA"@) + "&ps="@ + decimal(adults) + ".0.0"@
        }),
{
    lemma_key_adults();
    lemma_key_d();
    lemma_key_o();
    lemma_key_tvldt_pair();
    lemma_template_traveloka();
    lemma_row_url(origin, dest, date, adults, airlines, currency, cabin, 13);
    let o = to_upper(origin);
    let d = to_upper(dest);
    let cabin_u = cabin_upper(cabin);
    let ctx = ctx_spec(o, d, date, Seq::empty(), adults, cabin_u);
    lemma_ctx_keys(o, d, date, Seq::empty(), adults, cabin_u);
    let ps = pieces_traveloka();
    lemma_key_facts();
    assert(keys_clean(ctx)) by {
        assert forall|i: int| 0 <= i < ctx.len() implies no_braces(#[trigger] ctx[i].0) by {
            assert(ctx[i].0 == ctx_keys()[i]);
        }
    }
    assert(values_clean(ps, ctx));
    lemma_subst_pieces(ps, ctx);
    lemma_filled_piece(ps, ctx, 0);
    lemma_filled_piece(ps, ctx, 1);
    assert forall|i: int| 0 <= i < 38 implies (#[trigger] ctx[i]).0 != ps[1].1 by {
        assert(ctx[i].0 == ctx_keys()[i]);
    }
    assert(ctx[38].0 == ps[1].1);
    assert(ctx[38].1 == o);
    lemma_filled_piece(ps, ctx, 2);
    lemma_filled_piece(ps, ctx, 3);
    assert forall|i: int| 0 <= i < 39 implies (#[trigger] ctx[i]).0 != ps[3].1 by {
        assert(ctx[i].0 == ctx_keys()[i]);
    }
    assert(ctx[39].0 == ps[3].1);
    assert(ctx[39].1 == d);
    lemma_filled_piece(ps, ctx, 4);
    lemma_filled_piece(ps, ctx, 5);
    assert forall|i: int| 0 <= i < 12 implies (#[trigger] ctx[i]).0 != ps[5].1 by {
        assert(ctx[i].0 == ctx_keys()[i]);
    }
    assert(ctx[12].0 == ps[5].1);
    assert(ctx[12].1 == tvldt_spec(date) + ".NA"@);
    lemma_filled_piece(ps, ctx, 6);
    lemma_filled_piece(ps, ctx, 7);
    assert forall|i: int| 0 <= i < 24 implies (#[trigger] ctx[i]).0 != ps[7].1 by {
        assert(ctx[i].0 == ctx_keys()[i]);
    }
    assert(ctx[24].0 == ps[7].1);
    assert(ctx[24].1 == decimal(adults));
    lemma_filled_piece(ps, ctx, 8);
    let g: Seq<Piece> = seq![(false, "https://www.traveloka.com/en-en/flight/fullsearch?ap="@), (false, o), (false, "."@), (false, d), (false, "&dt="@), (false, tvldt_spec(date) + ".NA"@), (false, "&ps="@), (false, decimal(adults)), (false, ".0.0"@)];
    let f = filled(ps, ctx);
    assert(f =~= g);
    reveal_strlit("&dt=");
    reveal_strlit("&ps=");
    reveal_strlit(".");
    reveal_strlit(".0.0");
    reveal_strlit("https://www.traveloka.com/en-en/flight/fullsearch?ap=");
    assert(g.subrange(0, 0) =~= Seq::<Piece>::empty());
    assert(join(g.subrange(0, 0)) == Seq::<char>::empty());
    lemma_join_push(g.subrange(0, 0), g[0]);
    assert(g.subrange(0, 0).push(g[0]) =~= g.subrange(0, 1));
    assert(join(g.subrange(0, 1)) =~= "https://www.traveloka.com/en-en/flight/fullsearch?ap="@);
    lemma_join_push(g.subrange(0, 1), g[1]);
    assert(g.subrange(0, 1).push(g[1]) =~= g.subrange(0, 2));
    assert(join(g.subrange(0, 2)) == "https://www.traveloka.com/en-en/flight/fullsearch?ap="@ + o);
    lemma_join_push(g.subrange(0, 2), g[2]);
    assert(g.subrange(0, 2).push(g[2]) =~= g.subrange(0, 3));
    assert(join(g.subrange(0, 3)) == "https://www.traveloka.com/en-en/flight/fullsearch?ap="@ + o + "."@);
    lemma_join_push(g.subrange(0, 3), g[3]);
    assert(g.subrange(0, 3).push(g[3]) =~= g.subrange(0, 4));
    assert(join(g.subrange(0, 4)) == "https://www.traveloka.com/en-en/flight/fullsearch?ap="@ + o + "."@ + d);
    lemma_join_push(g.subrange(0, 4), g[4]);
    assert(g.subrange(0, 4).push(g[4]) =~= g.subrange(0, 5));
    assert(join(g.subrange(0, 5)) == "https://www.traveloka.com/en-en/flight/fullsearch?ap="@ + o + "."@ + d + "&dt="@);
    lemma_join_push(g.subrange(0, 5), g[5]);
    assert(g.subrange(0, 5).push(g[5]) =~= g.subrange(0, 6));
    assert(join(g.subrange(0, 6)) == "https://www.traveloka.com/en-en/flight/fullsearch?ap="@ + o + "."@ + d + "&dt="@ + (tvldt_spec(date) + ".NA"@));
    lemma_join_push(g.subrange(0, 6), g[6]);
    assert(g.subrange(0, 6).push(g[6]) =~= g.subrange(0, 7));
    assert(join(g.subrange(0, 7)) == "https://www.traveloka.com/en-en/flight/fullsearch?ap="@ + o + "."@ + d + "&dt="@ + (tvldt_spec(date) + ".NA"@) + "&ps="@);
    lemma_join_push(g.subrange(0, 7), g[7]);
    assert(g.subrange(0, 7).push(g[7]) =~= g.subrange(0, 8));
    assert(join(g.subrange(0, 8)) == "https://www.traveloka.com/en-en/flight/fullsearch?ap="@ + o + "."@ + d + "&dt="@ + (tvldt_spec(date) + ".NA"@) + "&ps="@ + decimal(adults));
    lemma_join_push(g.subrange(0, 8), g[8]);
    assert(g.subrange(0, 8).push(g[8]) =~= g.subrange(0, 9));
    assert(join(g.subrange(0, 9)) == "https://www.traveloka.com/en-en/flight/fullsearch?ap="@ + o + "."@ + d + "&dt="@ + (tvldt_spec(date) + ".NA"@) + "&ps="@ + decimal(adults) + ".0.0"@);
    assert(g.subrange(0, 9) =~= g);
}

/// The pieces of the makemytrip address.
pub open spec fn pieces_makemytrip() -> Seq<Piece> {
    seq![(false, "https://www.makemytrip.com/flight/search?itinerary="@), (true, "mmt_itin"@), (false, "&tripType="@), (true, "mmt_trip"@), (false, "&paxType=A-"@), (true, "adults"@), (false, "_C-0_I-0&cabinClass=E"@)]
}

#[verifier::rlimit(40)]
proof fn lemma_template_makemytrip()
    ensures
        meta_rows()[14].0 == "makemytrip"@,
        meta_rows()[14].0 != "google-flights"@,
        meta_rows()[14].5 == join(pieces_makemytrip()),
        pieces_ok(pieces_makemytrip()),
{
    reveal_strlit("&paxType=A-");
    reveal_strlit("&tripType=");
    reveal_strlit("_C-0_I-0&cabinClass=E");
    reveal_strlit("https://www.makemytrip.com/flight/search?itinerary=");
    reveal_strlit("adults");
    reveal_strlit("mmt_itin");
    reveal_strlit("mmt_trip");
    reveal_strlit("https://www.makemytrip.com/flight/search?itinerary={mmt_itin}&tripType={mmt_trip}&paxType=A-{adults}_C-0_I-0&cabinClass=E");
    reveal_strlit("makemytrip");
    reveal_strlit("google-flights");
    lemma_key_adults();
    lemma_key_mmt_itin();
    lemma_key_mmt_trip();
    let ps = pieces_makemytrip();
    assert(meta_rows()[14].0 == "makemytrip"@);
    assert("makemytrip"@.len() == 10 && "google-flights"@.len() == 14 && "makemytrip"@[0] == 'm' && "google-flights"@[0] == 'g');
    let t = "https://www.makemytrip.com/flight/search?itinerary={mmt_itin}&tripType={mmt_trip}&paxType=A-{adults}_C-0_I-0&cabinClass=E"@;
    assert(t.len() == 121);
    assert(ps.subrange(0, 0) =~= Seq::<Piece>::empty());
    assert(join(ps.subrange(0, 0)) == Seq::<char>::empty());
    assert(t.subrange(0, 0) =~= Seq::<char>::empty());
    lemma_join_push(ps.subrange(0, 0), ps[0]);
    assert(ps.subrange(0, 0).push(ps[0]) =~= ps.subrange(0, 1));
    assert(t.subrange(0, 51) =~= t.subrange(0, 0) + piece_text(ps[0]));
    lemma_join_push(ps.subrange(0, 1), ps[1]);
    assert(ps.subrange(0, 1).push(ps[1]) =~= ps.subrange(0, 2));
    assert(t.subrange(0, 61) =~= t.subrange(0, 51) + piece_text(ps[1]));
    lemma_join_push(ps.subrange(0, 2), ps[2]);
    assert(ps.subrange(0, 2).push(ps[2]) =~= ps.subrange(0, 3));
    assert(t.subrange(0, 71) =~= t.subrange(0, 61) + piece_text(ps[2]));
    lemma_join_push(ps.subrange(0, 3), ps[3]);
    assert(ps.subrange(0, 3).push(ps[3]) =~= ps.subrange(0, 4));
    assert(t.subrange(0, 81) =~= t.subrange(0, 71) + piece_text(ps[3]));
    lemma_join_push(ps.subrange(0, 4), ps[4]);
    assert(ps.subrange(0, 4).push(ps[4]) =~= ps.subrange(0, 5));
    assert(t.subrange(0, 92) =~= t.subrange(0, 81) + piece_text(ps[4]));
    lemma_join_push(ps.subrange(0, 5), ps[5]);
    assert(ps.subrange(0, 5).push(ps[5]) =~= ps.subrange(0, 6));
    assert(t.subrange(0, 100) =~= t.subrange(0, 92) + piece_text(ps[5]));
    lemma_join_push(ps.subrange(0, 6), ps[6]);
    assert(ps.subrange(0, 6).push(ps[6]) =~= ps.subrange(0, 7));
    assert(t.subrange(0, 121) =~= t.subrange(0, 100) + piece_text(ps[6]));
    assert(ps.subrange(0, 7) =~= ps);
    assert(t.subrange(0, 121) =~= t);
    assert(meta_rows()[14].5 == t);
    assert(pieces_ok(ps)) by {
        assert forall|i: int| 0 <= i < ps.len() implies if (#[trigger] ps[i]).0 { no_braces(ps[i].1) } else { no_open(ps[i].1) } by {
            if i == 0 { assert(no_open("https://www.makemytrip.com/flight/search?itinerary="@)); } else if i == 2 { assert(no_open("&tripType="@)); } else if i == 4 { assert(no_open("&paxType=A-"@)); } else if i == 6 { assert(no_open("_C-0_I-0&cabinClass=E"@)); } else if i == 1 { assert(no_braces("mmt_itin"@)); } else if i == 3 { assert(no_braces("mmt_trip"@)); } else if i == 5 { assert(no_braces("adults"@)); }
        }
    }
}

#[verifier::rlimit(40)]
proof fn lemma_site_makemytrip(origin: Seq<char>, dest: Seq<char>, date: Seq<char>, adults: int,
    airlines: Seq<(Seq<char>, Seq<char>)>, currency: Seq<char>, cabin: Seq<char>)
    requires
        utf8_len(date) >= 10,
        values_free(to_upper(origin), to_upper(dest), date, adults, cabin_upper(cabin)),
    ensures
        booker_rows(origin, dest, date, adults, airlines, currency, cabin, None)[14].0 == "makemytrip"@,
        ({
            let o = to_upper(origin);
            let d = to_upper(dest);
            let cabin_u = cabin_upper(cabin);
            booker_rows(origin, dest, date, adults, airlines, currency, cabin, None)[14].4 == "https://www.makemytrip.com/flight/search?itinerary="@ + (o + "-"@ + d + "-"@ + mmt_spec(date)) + "&tripType="@ + "O"@ + "&paxType=A-"@ + decimal(adults) + "_C-0_I-0&cabinClass=E"@
        }),
{
    lemma_key_adults();
    lemma_key_mmt_itin();
    lemma_key_mmt_trip();
    lemma_template_makemytrip();
    lemma_row_url(origin, dest, date, adults, airlines, currency, cabin, 14);
    let o = to_upper(origin);
    let d = to_upper(dest);
    let cabin_u = cabin_upper(cabin);
    let ctx = ctx_spec(o, d, date, Seq::empty(), adults, cabin_u);
    lemma_ctx_keys(o, d, date, Seq::empty(), adults, cabin_u);
    let ps = pieces_makemytrip();
    lemma_key_facts();
    assert(keys_clean(ctx)) by {
        assert forall|i: int| 0 <= i < ctx.len() implies no_braces(#[trigger] ctx[i].0) by {
            assert(ctx[i].0 == ctx_keys()[i]);
        }
    }
    assert(values_clean(ps, ctx));
    lemma_subst_pieces(ps, ctx);
    lemma_filled_piece(ps, ctx, 0);
    lemma_filled_piece(ps, ctx, 1);
    assert forall|i: int| 0 <= i < 18 implies (#[trigger] ctx[i]).0 != ps[1].1 by {
        assert(ctx[i].0 == ctx_keys()[i]);
    }
    assert(ctx[18].0 == ps[1].1);
    assert(ctx[18].1 == o + "-"@ + d + "-"@ + mmt_spec(date));
    lemma_filled_piece(ps, ctx, 2);
    lemma_filled_piece(ps, ctx, 3);
    assert forall|i: int| 0 <= i < 19 implies (#[trigger] ctx[i]).0 != ps[3].1 by {
        assert(ctx[i].0 == ctx_keys()[i]);
    }
    assert(ctx[19].0 == ps[3].1);
    assert(ctx[19].1 == "O"@);
    lemma_filled_piece(ps, ctx, 4);
    lemma_filled_piece(ps, ctx, 5);
    assert forall|i: int| 0 <= i < 24 implies (#[trigger] ctx[i]).0 != ps[5].1 by {
        assert(ctx[i].0 == ctx_keys()[i]);
    }
    assert(ctx[24].0 == ps[5].1);
    assert(ctx[24].1 == decimal(adults));
    lemma_filled_piece(ps, ctx, 6);
    let g: Seq<Piece> = seq![(false, "https://www.makemytrip.com/flight/search?itinerary="@), (false, o + "-"@ + d + "-"@ + mmt_spec(date)), (false, "&tripType="@), (false, "O"@), (false, "&paxType=A-"@), (false, decimal(adults)), (false, "_C-0_I-0&cabinClass=E"@)];
    let f = filled(ps, ctx);
    assert(f =~= g);
    reveal_strlit("&paxType=A-");
    reveal_strlit("&tripType=");
    reveal_strlit("_C-0_I-0&cabinClass=E");
    reveal_strlit("https://www.makemytrip.com/flight/search?itinerary=");
    assert(g.subrange(0, 0) =~= Seq::<Piece>::empty());
    assert(join(g.subrange(0, 0)) == Seq::<char>::empty());
    lemma_join_push(g.subrange(0, 0), g[0]);
    assert(g.subrange(0, 0).push(g[0]) =~= g.subrange(0, 1));
    assert(join(g.subrange(0, 1)) =~= "https://www.makemytrip.com/flight/search?itinerary="@);
    lemma_join_push(g.subrange(0, 1), g[1]);
    assert(g.subrange(0, 1).push(g[1]) =~= g.subrange(0, 2));
    assert(join(g.subrange(0, 2)) == "https://www.makemytrip.com/flight/search?itinerary="@ + (o + "-"@ + d + "-"@ + mmt_spec(date)));
    lemma_join_push(g.subrange(0, 2), g[2]);
    assert(g.subrange(0, 2).push(g[2]) =~= g.subrange(0, 3));
    assert(join(g.subrange(0, 3)) == "https://www.makemytrip.com/flight/search?itinerary="@ + (o + "-"@ + d + "-"@ + mmt_spec(date)) + "&tripType="@);
    lemma_join_push(g.subrange(0, 3), g[3]);
    assert(g.subrange(0, 3).push(g[3]) =~= g.subrange(0, 4));
    assert(join(g.subrange(0, 4)) == "https://www.makemytrip.com/flight/search?itinerary="@ + (o + "-"@ + d + "-"@ + mmt_spec(date)) + "&tripType="@ + "O"@);
    lemma_join_push(g.subrange(0, 4), g[4]);
    assert(g.subrange(0, 4).push(g[4]) =~= g.subrange(0, 5));
    assert(join(g.subrange(0, 5)) == "https://www.makemytrip.com/flight/search?itinerary="@ + (o + "-"@ + d + "-"@ + mmt_spec(date)) + "&tripType="@ + "O"@ + "&paxType=A-"@);
    lemma_join_push(g.subrange(0, 5), g[5]);
    assert(g.subrange(0, 5).push(g[5]) =~= g.subrange(0, 6));
    assert(join(g.subrange(0, 6)) == "https://www.makemytrip.com/flight/search?itinerary="@ + (o + "-"@ + d + "-"@ + mmt_spec(date)) + "&tripType="@ + "O"@ + "&paxType=A-"@ + decimal(adults));
    lemma_join_push(g.subrange(0, 6), g[6]);
    assert(g.subrange(0, 6).push(g[6]) =~= g.subrange(0, 7));
    assert(join(g.subrange(0, 7)) == "https://www.makemytrip.com/flight/search?itinerary="@ + (o + "-"@ + d + "-"@ + mmt_spec(date)) + "&tripType="@ + "O"@ + "&paxType=A-"@ + decimal(adults) + "_C-0_I-0&cabinClass=E"@);
    assert(g.subrange(0, 7) =~= g);
}

/// The pieces of the despegar address.
pub open spec fn pieces_despegar() -> Seq<Piece> {
    seq![(false, "https://www.despegar.com/shop/flights/results/"@), (true, "despegar_kind"@), (false, "/"@), (true, "o"@), (false, "/"@), (true, "d"@), (false, "/"@), (true, "date"@), (true, "despegar_ret"@), (false, "/"@), (true, "adults"@), (false, "/0/0"@)]
}

#[verifier::rlimit(40)]
proof fn lemma_template_despegar()
    ensures
        meta_rows()[15].0 == "despegar"@,
        meta_rows()[15].0 != "google-flights"@,
        meta_rows()[15].5 == join(pieces_despegar()),
        pieces_ok(pieces_despegar()),
{
    reveal_strlit("/");
    reveal_strlit("/0/0");
    reveal_strlit("https://www.despegar.com/shop/flights/results/");
    reveal_strlit("adults");
    reveal_strlit("d");
    reveal_strlit("date");
    reveal_strlit("despegar_kind");
    reveal_strlit("despegar_ret");
    reveal_strlit("o");
    reveal_strlit("https://www.despegar.com/shop/flights/results/{despegar_kind}/{o}/{d}/{date}{despegar_ret}/{adults}/0/0");
    reveal_strlit("despegar");
    reveal_strlit("google-flights");
    lemma_key_adults();
    lemma_key_d();
    lemma_key_date();
    lemma_key_despegar_kind();
    lemma_key_despegar_ret();
    lemma_key_o();
    let ps = pieces_despegar();
    assert(meta_rows()[15].0 == "despegar"@);
    assert("despegar"@.len() == 8 && "google-flights"@.len() == 14 && "despegar"@[0] == 'd' && "google-flights"@[0] == 'g');
    let t = "https://www.despegar.com/shop/flights/results/{despegar_kind}/{o}/{d}/{date}{despegar_ret}/{adults}/0/0"@;
    assert(t.len() == 103);
    assert(ps.subrange(0, 0) =~= Seq::<Piece>::empty());
    assert(join(ps.subrange(0, 0)) == Seq::<char>::empty());
    assert(t.subrange(0, 0) =~= Seq::<char>::empty());
    lemma_join_push(ps.subrange(0, 0), ps[0]);
    assert(ps.subrange(0, 0).push(ps[0]) =~= ps.subrange(0, 1));
    assert(t.subrange(0, 46) =~= t.subrange(0, 0) + piece_text(ps[0]));
    lemma_join_push(ps.subrange(0, 1), ps[1]);
    assert(ps.subrange(0, 1).push(ps[1]) =~= ps.subrange(0, 2));
    assert(t.subrange(0, 61) =~= t.subrange(0, 46) + piece_text(ps[1]));
    lemma_join_push(ps.subrange(0, 2), ps[2]);
    assert(ps.subrange(0, 2).push(ps[2]) =~= ps.subrange(0, 3));
    assert(t.subrange(0, 62) =~= t.subrange(0, 61) + piece_text(ps[2]));
    lemma_join_push(ps.subrange(0, 3), ps[3]);
    assert(ps.subrange(0, 3).push(ps[3]) =~= ps.subrange(0, 4));
    assert(t.subrange(0, 65) =~= t.subrange(0, 62) + piece_text(ps[3]));
    lemma_join_push(ps.subrange(0, 4), ps[4]);
    assert(ps.subrange(0, 4).push(ps[4]) =~= ps.subrange(0, 5));
    assert(t.subrange(0, 66) =~= t.subrange(0, 65) + piece_text(ps[4]));
    lemma_join_push(ps.subrange(0, 5), ps[5]);
    assert(ps.subrange(0, 5).push(ps[5]) =~= ps.subrange(0, 6));
    assert(t.subrange(0, 69) =~= t.subrange(0, 66) + piece_text(ps[5]));
    lemma_join_push(ps.subrange(0, 6), ps[6]);
    assert(ps.subrange(0, 6).push(ps[6]) =~= ps.subrange(0, 7));
    assert(t.subrange(0, 70) =~= t.subrange(0, 69) + piece_text(ps[6]));
    lemma_join_push(ps.subrange(0, 7), ps[7]);
    assert(ps.subrange(0, 7).push(ps[7]) =~= ps.subrange(0, 8));
    assert(t.subrange(0, 76) =~= t.subrange(0, 70) + piece_text(ps[7]));
    lemma_join_push(ps.subrange(0, 8), ps[8]);
    assert(ps.subrange(0, 8).push(ps[8]) =~= ps.subrange(0, 9));
    assert(t.subrange(0, 90) =~= t.subrange(0, 76) + piece_text(ps[8]));
    lemma_join_push(ps.subrange(0, 9), ps[9]);
    assert(ps.subrange(0, 9).push(ps[9]) =~= ps.subrange(0, 10));
    assert(t.subrange(0, 91) =~= t.subrange(0, 90) + piece_text(ps[9]));
    lemma_join_push(ps.subrange(0, 10), ps[10]);
    assert(ps.subrange(0, 10).push(ps[10]) =~= ps.subrange(0, 11));
    assert(t.subrange(0, 99) =~= t.subrange(0, 91) + piece_text(ps[10]));
    lemma_join_push(ps.subrange(0, 11), ps[11]);
    assert(ps.subrange(0, 11).push(ps[11]) =~= ps.subrange(0, 12));
    assert(t.subrange(0, 103) =~= t.subrange(0, 99) + piece_text(ps[11]));
    assert(ps.subrange(0, 12) =~= ps);
    assert(t.subrange(0, 103) =~= t);
    assert(meta_rows()[15].5 == t);
    assert(pieces_ok(ps)) by {
        assert forall|i: int| 0 <= i < ps.len() implies if (#[trigger] ps[i]).0 { no_braces(ps[i].1) } else { no_open(ps[i].1) } by {
            if i == 0 { assert(no_open("https://www.despegar.com/shop/flights/results/"@)); } else if i == 2 { assert(no_open("/"@)); } else if i == 4 { assert(no_open("/"@)); } else if i == 6 { assert(no_open("/"@)); } else if i == 9 { assert(no_open("/"@)); } else if i == 11 { assert(no_open("/0/0"@)); } else if i == 1 { assert(no_braces("despegar_kind"@)); } else if i == 3 { assert(no_braces("o"@)); } else if i == 5 { assert(no_braces("d"@)); } else if i == 7 { assert(no_braces("date"@)); } else if i == 8 { assert(no_braces("despegar_ret"@)); } else if i == 10 { assert(no_braces("adults"@)); }
        }
    }
}

#[verifier::rlimit(40)]
proof fn lemma_site_despegar(origin: Seq<char>, dest: Seq<char>, date: Seq<char>, adults: int,
    airlines: Seq<(Seq<char>, Seq<char>)>, currency: Seq<char>, cabin: Seq<char>)
    requires
        utf8_len(date) >= 10,
        values_free(to_upper(origin), to_upper(dest), date, adults, cabin_upper(cabin)),
    ensures
        booker_rows(origin, dest, date, adults, airlines, currency, cabin, None)[15].0 == "despegar"@,
        ({
            let o = to_upper(origin);
            let d = to_upper(dest);
            let cabin_u = cabin_upper(cabin);
            booker_rows(origin, dest, date, adults, airlines, currency, cabin, None)[15].4 == "https://www.despegar.com/shop/flights/results/"@ + "oneway"@ + "/"@ + o + "/"@ + d + "/"@ + date + "/"@ + decimal(adults) + "/0/0"@
        }),
{
    lemma_key_adults();
    lemma_key_d();
    lemma_key_date();
    lemma_key_despegar_kind();
    lemma_key_despegar_ret();
    lemma_key_o();
    lemma_template_despegar();
    lemma_row_url(origin, dest, date, adults, airlines, currency, cabin, 15);
    let o = to_upper(origin);
    let d = to_upper(dest);
    let cabin_u = cabin_upper(cabin);
    let ctx = ctx_spec(o, d, date, Seq::empty(), adults, cabin_u);
    lemma_ctx_keys(o, d, date, Seq::empty(), adults, cabin_u);
    let ps = pieces_despegar();
    lemma_key_facts();
    assert(keys_clean(ctx)) by {
        assert forall|i: int| 0 <= i < ctx.len() implies no_braces(#[trigger] ctx[i].0) by {
            assert(ctx[i].0 == ctx_keys()[i]);
        }
    }
    assert(values_clean(ps, ctx));
    lemma_subst_pieces(ps, ctx);
    lemma_filled_piece(ps, ctx, 0);
    lemma_filled_piece(ps, ctx, 1);
    assert forall|i: int| 0 <= i < 1 implies (#[trigger] ctx[i]).0 != ps[1].1 by {
        assert(ctx[i].0 == ctx_keys()[i]);
    }
    assert(ctx[1].0 == ps[1].1);
    assert(ctx[1].1 == "oneway"@);
    lemma_filled_piece(ps, ctx, 2);
    lemma_filled_piece(ps, ctx, 3);
    assert forall|i: int| 0 <= i < 38 implies (#[trigger] ctx[i]).0 != ps[3].1 by {
        assert(ctx[i].0 == ctx_keys()[i]);
    }
    assert(ctx[38].0 == ps[3].1);
    assert(ctx[38].1 == o);
    lemma_filled_piece(ps, ctx, 4);
    lemma_filled_piece(ps, ctx, 5);
    assert forall|i: int| 0 <= i < 39 implies (#[trigger] ctx[i]).0 != ps[5].1 by {
        assert(ctx[i].0 == ctx_keys()[i]);
    }
    assert(ctx[39].0 == ps[5].1);
    assert(ctx[39].1 == d);
    lemma_filled_piece(ps, ctx, 6);
    lemma_filled_piece(ps, ctx, 7);
    assert forall|i: int| 0 <= i < 27 implies (#[trigger] ctx[i]).0 != ps[7].1 by {
        assert(ctx[i].0 == ctx_keys()[i]);
    }
    assert(ctx[27].0 == ps[7].1);
    assert(ctx[27].1 == date);
    lemma_filled_piece(ps, ctx, 8);
    assert forall|i: int| 0 <= i < 4 implies (#[trigger] ctx[i]).0 != ps[8].1 by {
        assert(ctx[i].0 == ctx_keys()[i]);
    }
    assert(ctx[4].0 == ps[8].1);
    assert(ctx[4].1 == Seq::<char>::empty());
    lemma_filled_piece(ps, ctx, 9);
    lemma_filled_piece(ps, ctx, 10);
    assert forall|i: int| 0 <= i < 24 implies (#[trigger] ctx[i]).0 != ps[10].1 by {
        assert(ctx[i].0 == ctx_keys()[i]);
    }
    assert(ctx[24].0 == ps[10].1);
    assert(ctx[24].1 == decimal(adults));
    lemma_filled_piece(ps, ctx, 11);
    let g: Seq<Piece> = seq![(false, "https://www.despegar.com/shop/flights/results/"@), (false, "oneway"@), (false, "/"@), (false, o), (false, "/"@), (false, d), (false, "/"@), (false, date), (false, Seq::<char>::empty()), (false, "/"@), (false, decimal(adults)), (false, "/0/0"@)];
    let f = filled(ps, ctx);
    assert(f =~= g);
    reveal_strlit("/");
    reveal_strlit("/0/0");
    reveal_strlit("https://www.despegar.com/shop/flights/results/");
    assert(g.subrange(0, 0) =~= Seq::<Piece>::empty());
    assert(join(g.subrange(0, 0)) == Seq::<char>::empty());
    lemma_join_push(g.subrange(0, 0), g[0]);
    assert(g.subrange(0, 0).push(g[0]) =~= g.subrange(0, 1));
    assert(join(g.subrange(0, 1)) =~= "https://www.despegar.com/shop/flights/results/"@);
    lemma_join_push(g.subrange(0, 1), g[1]);
    assert(g.subrange(0, 1).push(g[1]) =~= g.subrange(0, 2));
    assert(join(g.subrange(0, 2)) == "https://www.despegar.com/shop/flights/results/"@ + "oneway"@);
    lemma_join_push(g.subrange(0, 2), g[2]);
    assert(g.subrange(0, 2).push(g[2]) =~= g.subrange(0, 3));
    assert(join(g.subrange(0, 3)) == "https://www.despegar.com/shop/flights/results/"@ + "oneway"@ + "/"@);
    lemma_join_push(g.subrange(0, 3), g[3]);
    assert(g.subrange(0, 3).push(g[3]) =~= g.subrange(0, 4));
    assert(join(g.subrange(0, 4)) == "https://www.despegar.com/shop/flights/results/"@ + "oneway"@ + "/"@ + o);
    lemma_join_push(g.subrange(0, 4), g[4]);
    assert(g.subrange(0, 4).push(g[4]) =~= g.subrange(0, 5));
    assert(join(g.subrange(0, 5)) == "https://www.despegar.com/shop/flights/results/"@ + "oneway"@ + "/"@ + o + "/"@);
    lemma_join_push(g.subrange(0, 5), g[5]);
    assert(g.subrange(0, 5).push(g[5]) =~= g.subrange(0, 6));
    assert(join(g.subrange(0, 6)) == "https://www.despegar.com/shop/flights/results/"@ + "oneway"@ + "/"@ + o + "/"@ + d);
    lemma_join_push(g.subrange(0, 6), g[6]);
    assert(g.subrange(0, 6).push(g[6]) =~= g.subrange(0, 7));
    assert(join(g.subrange(0, 7)) == "https://www.despegar.com/shop/flights/results/"@ + "oneway"@ + "/"@ + o + "/"@ + d + "/"@);
    lemma_join_push(g.subrange(0, 7), g[7]);
    assert(g.subrange(0, 7).push(g[7]) =~= g.subrange(0, 8));
    assert(join(g.subrange(0, 8)) == "https://www.despegar.com/shop/flights/results/"@ + "oneway"@ + "/"@ + o + "/"@ + d + "/"@ + date);
    lemma_join_push(g.subrange(0, 8), g[8]);
    assert(g.subrange(0, 8).push(g[8]) =~= g.subrange(0, 9));
    assert(join(g.subrange(0, 9)) =~= join(g.subrange(0, 8)));
    lemma_join_push(g.subrange(0, 9), g[9]);
    assert(g.subrange(0, 9).push(g[9]) =~= g.subrange(0, 10));
    assert(join(g.subrange(0, 10)) == "https://www.despegar.com/shop/flights/results/"@ + "oneway"@ + "/"@ + o + "/"@ + d + "/"@ + date + "/"@);
    lemma_join_push(g.subrange(0, 10), g[10]);
    assert(g.subrange(0, 10).push(g[10]) =~= g.subrange(0, 11));
    assert(join(g.subrange(0, 11)) == "https://www.despegar.com/shop/flights/results/"@ + "oneway"@ + "/"@ + o + "/"@ + d + "/"@ + date + "/"@ + decimal(adults));
    lemma_join_push(g.subrange(0, 11), g[11]);
    assert(g.subrange(0, 11).push(g[11]) =~= g.subrange(0, 12));
    assert(join(g.subrange(0, 12)) == "https://www.despegar.com/shop/flights/results/"@ + "oneway"@ + "/"@ + o + "/"@ + d + "/"@ + date + "/"@ + decimal(adults) + "/0/0"@);
    assert(g.subrange(0, 12) =~= g);
}

/// The pieces of the skiplagged-com address.
pub open spec fn pieces_skiplagged_com() -> Seq<Piece> {
    seq![(false, "https://skiplagged.com/flights/"@), (true, "o"@), (false, "/"@), (true, "d"@), (false, "/"@), (true, "date"@)]
}

#[verifier::rlimit(40)]
proof fn lemma_template_skiplagged_com()
    ensures
        meta_rows()[16].0 == "skiplagged-com"@,
        meta_rows()[16].0 != "google-flights"@,
        meta_rows()[16].5 == join(pieces_skiplagged_com()),
        pieces_ok(pieces_skiplagged_com()),
{
    reveal_strlit("/");
    reveal_strlit("https://skiplagged.com/flights/");
    reveal_strlit("d");
    reveal_strlit("date");
    reveal_strlit("o");
    reveal_strlit("https://skiplagged.com/flights/{o}/{d}/{date}");
    reveal_strlit("skiplagged-com");
    reveal_strlit("google-flights");
    lemma_key_d();
    lemma_key_date();
    lemma_key_o();
    let ps = pieces_skiplagged_com();
    assert(meta_rows()[16].0 == "skiplagged-com"@);
    assert("skiplagged-com"@.len() == 14 && "google-flights"@.len() == 14 && "skiplagged-com"@[0] == 's' && "google-flights"@[0] == 'g');
    let t = "https://skiplagged.com/flights/{o}/{d}/{date}"@;
    assert(t.len() == 45);
    assert(ps.subrange(0, 0) =~= Seq::<Piece>::empty());
    assert(join(ps.subrange(0, 0)) == Seq::<char>::empty());
    assert(t.subrange(0, 0) =~= Seq::<char>::empty());
    lemma_join_push(ps.subrange(0, 0), ps[0]);
    assert(ps.subrange(0, 0).push(ps[0]) =~= ps.subrange(0, 1));
    assert(t.subrange(0, 31) =~= t.subrange(0, 0) + piece_text(ps[0]));
    lemma_join_push(ps.subrange(0, 1), ps[1]);
    assert(ps.subrange(0, 1).push(ps[1]) =~= ps.subrange(0, 2));
    assert(t.subrange(0, 34) =~= t.subrange(0, 31) + piece_text(ps[1]));
    lemma_join_push(ps.subrange(0, 2), ps[2]);
    assert(ps.subrange(0, 2).push(ps[2]) =~= ps.subrange(0, 3));
    assert(t.subrange(0, 35) =~= t.subrange(0, 34) + piece_text(ps[2]));
    lemma_join_push(ps.subrange(0, 3), ps[3]);
    assert(ps.subrange(0, 3).push(ps[3]) =~= ps.subrange(0, 4));
    assert(t.subrange(0, 38) =~= t.subrange(0, 35) + piece_text(ps[3]));
    lemma_join_push(ps.subrange(0, 4), ps[4]);
    assert(ps.subrange(0, 4).push(ps[4]) =~= ps.subrange(0, 5));
    assert(t.subrange(0, 39) =~= t.subrange(0, 38) + piece_text(ps[4]));
    lemma_join_push(ps.subrange(0, 5), ps[5]);
    assert(ps.subrange(0, 5).push(ps[5]) =~= ps.subrange(0, 6));
    assert(t.subrange(0, 45) =~= t.subrange(0, 39) + piece_text(ps[5]));
    assert(ps.subrange(0, 6) =~= ps);
    assert(t.subrange(0, 45) =~= t);
    assert(meta_rows()[16].5 == t);
    assert(pieces_ok(ps)) by {
        assert forall|i: int| 0 <= i < ps.len() implies if (#[trigger] ps[i]).0 { no_braces(ps[i].1) } else { no_open(ps[i].1) } by {
            if i == 0 { assert(no_open("https://skiplagged.com/flights/"@)); } else if i == 2 { assert(no_open("/"@)); } else if i == 4 { assert(no_open("/"@)); } else if i == 1 { assert(no_braces("o"@)); } else if i == 3 { assert(no_braces("d"@)); } else if i == 5 { assert(no_braces("date"@)); }
        }
    }
}

#[verifier::rlimit(40)]
proof fn lemma_site_skiplagged_com(origin: Seq<char>, dest: Seq<char>, date: Seq<char>, adults: int,
    airlines: Seq<(Seq<char>, Seq<char>)>, currency: Seq<char>, cabin: Seq<char>)
    requires
        utf8_len(date) >= 10,
        values_free(to_upper(origin), to_upper(dest), date, adults, cabin_upper(cabin)),
    ensures
        booker_rows(origin, dest, date, adults, airlines, currency, cabin, None)[16].0 == "skiplagged-com"@,
        ({
            let o = to_upper(origin);
            let d = to_upper(dest);
            let cabin_u = cabin_upper(cabin);
            booker_rows(origin, dest, date, adults, airlines, currency, cabin, None)[16].4 == "https://skiplagged.com/flights/"@ + o + "/"@ + d + "/"@ + date
        }),
{
    lemma_key_d();
    lemma_key_date();
    lemma_key_o();
    lemma_template_skiplagged_com();
    lemma_row_url(origin, dest, date, adults, airlines, currency, cabin, 16);
    let o = to_upper(origin);
    let d = to_upper(dest);
    let cabin_u = cabin_upper(cabin);
    let ctx = ctx_spec(o, d, date, Seq::empty(), adults, cabin_u);
    lemma_ctx_keys(o, d, date, Seq::empty(), adults, cabin_u);
    let ps = pieces_skiplagged_com();
    lemma_key_facts();
    assert(keys_clean(ctx)) by {
        assert forall|i: int| 0 <= i < ctx.len() implies no_braces(#[trigger] ctx[i].0) by {
            assert(ctx[i].0 == ctx_keys()[i]);
        }
    }
    assert(values_clean(ps, ctx));
    lemma_subst_pieces(ps, ctx);
    lemma_filled_piece(ps, ctx, 0);
    lemma_filled_piece(ps, ctx, 1);
    assert forall|i: int| 0 <= i < 38 implies (#[trigger] ctx[i]).0 != ps[1].1 by {
        assert(ctx[i].0 == ctx_keys()[i]);
    }
    assert(ctx[38].0 == ps[1].1);
    assert(ctx[38].1 == o);
    lemma_filled_piece(ps, ctx, 2);
    lemma_filled_piece(ps, ctx, 3);
    assert forall|i: int| 0 <= i < 39 implies (#[trigger] ctx[i]).0 != ps[3].1 by {
        assert(ctx[i].0 == ctx_keys()[i]);
    }
    assert(ctx[39].0 == ps[3].1);
    assert(ctx[39].1 == d);
    lemma_filled_piece(ps, ctx, 4);
    lemma_filled_piece(ps, ctx, 5);
    assert forall|i: int| 0 <= i < 27 implies (#[trigger] ctx[i]).0 != ps[5].1 by {
        assert(ctx[i].0 == ctx_keys()[i]);
    }
    assert(ctx[27].0 == ps[5].1);
    assert(ctx[27].1 == date);
    let g: Seq<Piece> = seq![(false, "https://skiplagged.com/flights/"@), (false, o), (false, "/"@), (false, d), (false, "/"@), (false, date)];
    let f = filled(ps, ctx);
    assert(f =~= g);
    reveal_strlit("/");
    reveal_strlit("https://skiplagged.com/flights/");
    assert(g.subrange(0, 0) =~= Seq::<Piece>::empty());
    assert(join(g.subrange(0, 0)) == Seq::<char>::empty());
    lemma_join_push(g.subrange(0, 0), g[0]);
    assert(g.subrange(0, 0).push(g[0]) =~= g.subrange(0, 1));
    assert(join(g.subrange(0, 1)) =~= "https://skiplagged.com/flights/"@);
    lemma_join_push(g.subrange(0, 1), g[1]);
    assert(g.subrange(0, 1).push(g[1]) =~= g.subrange(0, 2));
    assert(join(g.subrange(0, 2)) == "https://skiplagged.com/flights/"@ + o);
    lemma_join_push(g.subrange(0, 2), g[2]);
    assert(g.subrange(0, 2).push(g[2]) =~= g.subrange(0, 3));
    assert(join(g.subrange(0, 3)) == "https://skiplagged.com/flights/"@ + o + "/"@);
    lemma_join_push(g.subrange(0, 3), g[3]);
    assert(g.subrange(0, 3).push(g[3]) =~= g.subrange(0, 4));
    assert(join(g.subrange(0, 4)) == "https://skiplagged.com/flights/"@ + o + "/"@ + d);
    lemma_join_push(g.subrange(0, 4), g[4]);
    assert(g.subrange(0, 4).push(g[4]) =~= g.subrange(0, 5));
    assert(join(g.subrange(0, 5)) == "https://skiplagged.com/flights/"@ + o + "/"@ + d + "/"@);
    lemma_join_push(g.subrange(0, 5), g[5]);
    assert(g.subrange(0, 5).push(g[5]) =~= g.subrange(0, 6));
    assert(join(g.subrange(0, 6)) == "https://skiplagged.com/flights/"@ + o + "/"@ + d + "/"@ + date);
    assert(g.subrange(0, 6) =~= g);
}

/// Every other site's link for a one-way search from `origin` to `dest` (airports
/// upper-cased) is its address template filled in: where the template names the
/// origin and then the destination, the link names `origin` and then `dest`, and so
/// for each value, in the template's order. This holds whenever no value put into the
/// addresses holds an opening brace, the one character that would let a value be read
/// as another template hole.
pub proof fn law_site_links_fill_templates(origin: Seq<char>, dest: Seq<char>, date: Seq<char>, adults: int,
    airlines: Seq<(Seq<char>, Seq<char>)>, currency: Seq<char>, cabin: Seq<char>)
    requires
        utf8_len(date) >= 10,
        values_free(to_upper(origin), to_upper(dest), date, adults, cabin_upper(cabin)),
    ensures
        ({
            let o = to_upper(origin);
            let d = to_upper(dest);
            let cabin_u = cabin_upper(cabin);
            &&& booker_rows(origin, dest, date, adults, airlines, currency, cabin, None)[2].0 == "skyscanner"@
            &&& booker_rows(origin, dest, date, adults, airlines, currency, cabin, None)[2].4 == "https://www.skyscanner.com/transport/flights/"@ + to_lower(o) + "/"@ + to_lower(d) + "/"@ + (no_dashes(after_bytes(date, 2)) + "/"@) + "?adultsv2="@ + decimal(adults) + "&cabinclass="@ + sky_cabin_spec(cabin_u) + "&rtn="@ + "0"@ + "&preferdirects=false"@
            &&& booker_rows(origin, dest, date, adults, airlines, currency, cabin, None)[5].0 == "wego"@
            &&& booker_rows(origin, dest, date, adults, airlines, currency, cabin, None)[5].4 == "https://www.wego.com/flights/searches/"@ + o + "-"@ + d + "-"@ + (dmon_spec(date) + ":ow"@) + "/economy/"@ + decimal(adults) + "a"@
            &&& booker_rows(origin, dest, date, adults, airlines, currency, cabin, None)[6].0 == "expedia"@
            &&& booker_rows(origin, dest, date, adults, airlines, currency, cabin, None)[6].4 == "https://www.expedia.com/Flights-Search?flight-type=on&mode=search&trip=oneway&leg1=from:"@ + o + ",to:"@ + d + ",departure:"@ + us_spec(date) + "TANYT&passengers=adults:"@ + decimal(adults) + ",children:0,infantinlap:N"@
            &&& booker_rows(origin, dest, date, adults, airlines, currency, cabin, None)[7].0 == "booking-com"@
            &&& booker_rows(origin, dest, date, adults, airlines, currency, cabin, None)[7].4 == "https://flights.booking.com/flights/"@ + booking_point_spec(o) + "-"@ + booking_point_spec(d) + "/?type="@ + "ONEWAY"@ + "&adults="@ + decimal(adults) + "&cabinClass="@ + cabin_u + "&depart="@ + date + "&from="@ + o + "&to="@ + d + "&sort=BEST"@
            &&& booker_rows(origin, dest, date, adults, airlines, currency, cabin, None)[8].0 == "trip-com"@
            &&& booker_rows(origin, dest, date, adults, airlines, currency, cabin, None)[8].4 == "https://www.trip.com/flights/"@ + to_lower(o) + "-to-"@ + to_lower(d) + "/?dcity="@ + o + "&acity="@ + d + "&ddate="@ + date + "&flighttype="@ + "ow"@ + "&class=ys&quantity="@ + decimal(adults)
            &&& booker_rows(origin, dest, date, adults, airlines, currency, cabin, None)[9].0 == "priceline"@
            &&& booker_rows(origin, dest, date, adults, airlines, currency, cabin, None)[9].4 == "https://www.priceline.com/m/fly/search/"@ + (o + "-"@ + d + "-"@ + no_dashes(date)) + "/?cabin-class=ECO&no-of-adults="@ + decimal(adults)
            &&& booker_rows(origin, dest, date, adults, airlines, currency, cabin, None)[10].0 == "kiwi"@
            &&& booker_rows(origin, dest, date, adults, airlines, currency, cabin, None)[10].4 == "https://www.kiwi.com/en/search/results/"@ + to_lower(o) + "/"@ + to_lower(d) + "/"@ + date + "/"@ + "no-return"@ + "?adults="@ + decimal(adults)
            &&& booker_rows(origin, dest, date, adults, airlines, currency, cabin, None)[11].0 == "cheapoair"@
            &&& booker_rows(origin, dest, date, adults, airlines, currency, cabin, None)[11].4 == "https://www.cheapoair.com/flights/results?from="@ + o + "&to="@ + d + "&fromDt="@ + us_spec(date) + "&tripType="@ + "ONEWAY"@ + "&adults="@ + decimal(adults)
            &&& booker_rows(origin, dest, date, adults, airlines, currency, cabin, None)[12].0 == "edreams"@
            &&& booker_rows(origin, dest, date, adults, airlines, currency, cabin, None)[12].4 == "https://www.edreams.com/flights/"@ + (to_lower(o) + "-"@ + to_lower(d) + "/"@ + date + "/"@ + decimal(adults) + "-0-0/"@)
            &&& booker_rows(origin, dest, date, adults, airlines, currency, cabin, None)[13].0 == "traveloka"@
            &&& booker_rows(origin, dest, date, adults, airlines, currency, cabin, None)[13].4 == "https://www.traveloka.com/en-en/flight/fullsearch?ap="@ + o + "."@ + d + "&dt="@ + (tvldt_spec(date) + ".NA"@) + "&ps="@ + decimal(adults) + ".0.0"@
            &&& booker_rows(origin, dest, date, adults, airlines, currency, cabin, None)[14].0 == "makemytrip"@
            &&& booker_rows(origin, dest, date, adults, airlines, currency, cabin, None)[14].4 == "https://www.makemytrip.com/flight/search?itinerary="@ + (o + "-"@ + d + "-"@ + mmt_spec(date)) + "&tripType="@ + "O"@ + "&paxType=A-"@ + decimal(adults) + "_C-0_I-0&cabinClass=E"@
            &&& booker_rows(origin, dest, date, adults, airlines, currency, cabin, None)[15].0 == "despegar"@
            &&& booker_rows(origin, dest, date, adults, airlines, currency, cabin, None)[15].4 == "https://www.despegar.com/shop/flights/results/"@ + "oneway"@ + "/"@ + o + "/"@ + d + "/"@ + date + "/"@ + decimal(adults) + "/0/0"@
            &&& booker_rows(origin, dest, date, adults, airlines, currency, cabin, None)[16].0 == "skiplagged-com"@
            &&& booker_rows(origin, dest, date, adults, airlines, currency, cabin, None)[16].4 == "https://skiplagged.com/flights/"@ + o + "/"@ + d + "/"@ + date
        }),
{
    lemma_site_skyscanner(origin, dest, date, adults, airlines, currency, cabin);
    lemma_site_wego(origin, dest, date, adults, airlines, currency, cabin);
    lemma_site_expedia(origin, dest, date, adults, airlines, currency, cabin);
    lemma_site_booking_com(origin, dest, date, adults, airlines, currency, cabin);
    lemma_site_trip_com(origin, dest, date, adults, airlines, currency, cabin);
    lemma_site_priceline(origin, dest, date, adults, airlines, currency, cabin);
    lemma_site_kiwi(origin, dest, date, adults, airlines, currency, cabin);
    lemma_site_cheapoair(origin, dest, date, adults, airlines, currency, cabin);
    lemma_site_edreams(origin, dest, date, adults, airlines, currency, cabin);
    lemma_site_traveloka(origin, dest, date, adults, airlines, currency, cabin);
    lemma_site_makemytrip(origin, dest, date, adults, airlines, currency, cabin);
    lemma_site_despegar(origin, dest, date, adults, airlines, currency, cabin);
    lemma_site_skiplagged_com(origin, dest, date, adults, airlines, currency, cabin);
}

} // verus!
