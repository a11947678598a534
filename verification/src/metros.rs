//! The metropolitan areas searched as one place, and place ids.
use vstd::prelude::*;
use crate::text::{to_upper, upper, str_eq, trim, trim_spec, chars_of, string_from, starts_with, has_prefix, cat, push_char, utf8_len, byte_len};

verus! {

/// The metro code of the metro an airport belongs to, if any.
pub open spec fn metro_of_member(m: Seq<char>) -> Option<Seq<char>> {
    if m == "JFK"@ || m == "LGA"@ || m == "EWR"@ {
        Some("NYC"@)
    } else if m == "LHR"@ || m == "LGW"@ || m == "STN"@ || m == "LCY"@ || m == "LTN"@ || m == "SEN"@ {
        Some("LON"@)
    } else if m == "CDG"@ || m == "ORY"@ || m == "BVA"@ {
        Some("PAR"@)
    } else if m == "ORD"@ || m == "MDW"@ {
        Some("CHI"@)
    } else if m == "DCA"@ || m == "IAD"@ || m == "BWI"@ {
        Some("WAS"@)
    } else if m == "HND"@ || m == "NRT"@ {
        Some("TYO"@)
    } else if m == "KIX"@ || m == "ITM"@ || m == "UKB"@ {
        Some("OSA"@)
    } else if m == "ICN"@ || m == "GMP"@ {
        Some("SEL"@)
    } else if m == "MXP"@ || m == "LIN"@ || m == "BGY"@ {
        Some("MIL"@)
    } else if m == "FCO"@ || m == "CIA"@ {
        Some("ROM"@)
    } else if m == "YYZ"@ || m == "YTZ"@ || m == "YHM"@ {
        Some("YTO"@)
    } else if m == "YUL"@ || m == "YHU"@ {
        Some("YMQ"@)
    } else if m == "PEK"@ || m == "PKX"@ {
        Some("BJS"@)
    } else if m == "PVG"@ || m == "SHA"@ {
        Some("SHA"@)
    } else if m == "GRU"@ || m == "CGH"@ || m == "VCP"@ {
        Some("SAO"@)
    } else if m == "GIG"@ || m == "SDU"@ {
        Some("RIO"@)
    } else if m == "EZE"@ || m == "AEP"@ {
        Some("BUE"@)
    } else if m == "CNF"@ || m == "PLU"@ {
        Some("BHZ"@)
    } else if m == "CGK"@ || m == "HLP"@ {
        Some("JKT"@)
    } else if m == "BKK"@ || m == "DMK"@ {
        Some("BKK"@)
    } else if m == "SVO"@ || m == "DME"@ || m == "VKO"@ {
        Some("MOW"@)
    } else if m == "ARN"@ || m == "BMA"@ || m == "NYO"@ {
        Some("STO"@)
    } else if m == "KEF"@ || m == "RKV"@ {
        Some("REK"@)
    } else if m == "OTP"@ || m == "BBU"@ {
        Some("BUH"@)
    } else if m == "TFS"@ || m == "TFN"@ {
        Some("TCI"@)
    } else if m == "IAH"@ || m == "HOU"@ {
        Some("HOU"@)
    } else if m == "DFW"@ || m == "DAL"@ {
        Some("DFW"@)
    } else if m == "LAX"@ || m == "BUR"@ || m == "LGB"@ || m == "SNA"@ || m == "ONT"@ {
        Some("LAX"@)
    } else if m == "SFO"@ || m == "OAK"@ || m == "SJC"@ {
        Some("SFO"@)
    } else if m == "MIA"@ || m == "FLL"@ || m == "PBI"@ {
        Some("MIA"@)
    } else if m == "IST"@ || m == "SAW"@ {
        Some("IST"@)
    } else if m == "BRU"@ || m == "CRL"@ {
        Some("BRU"@)
    } else if m == "DUS"@ || m == "NRN"@ {
        Some("DUS"@)
    } else if m == "FRA"@ || m == "HHN"@ {
        Some("FRA"@)
    } else if m == "OSL"@ || m == "TRF"@ || m == "RYG"@ {
        Some("OSL"@)
    } else if m == "JNB"@ || m == "HLA"@ {
        Some("JNB"@)
    } else if m == "DXB"@ || m == "DWC"@ {
        Some("DXB"@)
    } else if m == "IKA"@ || m == "THR"@ {
        Some("THR"@)
    } else if m == "CTS"@ || m == "OKD"@ {
        Some("SPK"@)
    } else if m == "MEL"@ || m == "AVV"@ {
        Some("MEL"@)
    } else if m == "VCE"@ || m == "TSF"@ {
        Some("VCE"@)
    } else {
        None
    }
}

/// Whether `c` is the code of a known metro.
pub open spec fn is_metro_code(c: Seq<char>) -> bool {
    c == "NYC"@ || c == "LON"@ || c == "PAR"@ || c == "CHI"@ || c == "WAS"@ || c == "TYO"@ || c == "OSA"@ || c == "SEL"@ || c == "MIL"@ || c == "ROM"@ || c == "YTO"@ || c == "YMQ"@ || c == "BJS"@ || c == "SHA"@ || c == "SAO"@ || c == "RIO"@ || c == "BUE"@ || c == "BHZ"@ || c == "JKT"@ || c == "BKK"@ || c == "MOW"@ || c == "STO"@ || c == "REK"@ || c == "BUH"@ || c == "TCI"@ || c == "HOU"@ || c == "DFW"@ || c == "LAX"@ || c == "SFO"@ || c == "MIA"@ || c == "IST"@ || c == "BRU"@ || c == "DUS"@ || c == "FRA"@ || c == "OSL"@ || c == "JNB"@ || c == "DXB"@ || c == "THR"@ || c == "SPK"@ || c == "MEL"@ || c == "VCE"@
}

/// Whether `code` (as written) is the code of a known metro.
pub fn metro_code_known(code: &str) -> (r: bool)
    ensures
        r == is_metro_code(code@),
{
    str_eq(code, "NYC") || str_eq(code, "LON") || str_eq(code, "PAR") || str_eq(code, "CHI") || str_eq(code, "WAS") || str_eq(code, "TYO") || str_eq(code, "OSA") || str_eq(code, "SEL") || str_eq(code, "MIL") || str_eq(code, "ROM") || str_eq(code, "YTO") || str_eq(code, "YMQ") || str_eq(code, "BJS") || str_eq(code, "SHA") || str_eq(code, "SAO") || str_eq(code, "RIO") || str_eq(code, "BUE") || str_eq(code, "BHZ") || str_eq(code, "JKT") || str_eq(code, "BKK") || str_eq(code, "MOW") || str_eq(code, "STO") || str_eq(code, "REK") || str_eq(code, "BUH") || str_eq(code, "TCI") || str_eq(code, "HOU") || str_eq(code, "DFW") || str_eq(code, "LAX") || str_eq(code, "SFO") || str_eq(code, "MIA") || str_eq(code, "IST") || str_eq(code, "BRU") || str_eq(code, "DUS") || str_eq(code, "FRA") || str_eq(code, "OSL") || str_eq(code, "JNB") || str_eq(code, "DXB") || str_eq(code, "THR") || str_eq(code, "SPK") || str_eq(code, "MEL") || str_eq(code, "VCE")
}

/// The metro code for a member airport (any letter case), if it belongs to one.
pub fn catalog_code_for_member(iata: &str) -> (r: Option<&'static str>)
    ensures
        match (r, metro_of_member(to_upper(iata@))) {
            (Some(a), Some(b)) => a@ == b,
            (None, None) => true,
            _ => false,
        },
{
    let u = upper(iata);
    let s = u.as_str();
    if str_eq(s, "JFK") || str_eq(s, "LGA") || str_eq(s, "EWR") {
        return Some("NYC");
    }
    if str_eq(s, "LHR") || str_eq(s, "LGW") || str_eq(s, "STN") || str_eq(s, "LCY") || str_eq(s, "LTN") || str_eq(s, "SEN") {
        return Some("LON");
    }
    if str_eq(s, "CDG") || str_eq(s, "ORY") || str_eq(s, "BVA") {
        return Some("PAR");
    }
    if str_eq(s, "ORD") || str_eq(s, "MDW") {
        return Some("CHI");
    }
    if str_eq(s, "DCA") || str_eq(s, "IAD") || str_eq(s, "BWI") {
        return Some("WAS");
    }
    if str_eq(s, "HND") || str_eq(s, "NRT") {
        return Some("TYO");
    }
    if str_eq(s, "KIX") || str_eq(s, "ITM") || str_eq(s, "UKB") {
        return Some("OSA");
    }
    if str_eq(s, "ICN") || str_eq(s, "GMP") {
        return Some("SEL");
    }
    if str_eq(s, "MXP") || str_eq(s, "LIN") || str_eq(s, "BGY") {
        return Some("MIL");
    }
    if str_eq(s, "FCO") || str_eq(s, "CIA") {
        return Some("ROM");
    }
    if str_eq(s, "YYZ") || str_eq(s, "YTZ") || str_eq(s, "YHM") {
        return Some("YTO");
    }
    if str_eq(s, "YUL") || str_eq(s, "YHU") {
        return Some("YMQ");
    }
    if str_eq(s, "PEK") || str_eq(s, "PKX") {
        return Some("BJS");
    }
    if str_eq(s, "PVG") || str_eq(s, "SHA") {
        return Some("SHA");
    }
    if str_eq(s, "GRU") || str_eq(s, "CGH") || str_eq(s, "VCP") {
        return Some("SAO");
    }
    if str_eq(s, "GIG") || str_eq(s, "SDU") {
        return Some("RIO");
    }
    if str_eq(s, "EZE") || str_eq(s, "AEP") {
        return Some("BUE");
    }
    if str_eq(s, "CNF") || str_eq(s, "PLU") {
        return Some("BHZ");
    }
    if str_eq(s, "CGK") || str_eq(s, "HLP") {
        return Some("JKT");
    }
    if str_eq(s, "BKK") || str_eq(s, "DMK") {
        return Some("BKK");
    }
    if str_eq(s, "SVO") || str_eq(s, "DME") || str_eq(s, "VKO") {
        return Some("MOW");
    }
    if str_eq(s, "ARN") || str_eq(s, "BMA") || str_eq(s, "NYO") {
        return Some("STO");
    }
    if str_eq(s, "KEF") || str_eq(s, "RKV") {
        return Some("REK");
    }
    if str_eq(s, "OTP") || str_eq(s, "BBU") {
        return Some("BUH");
    }
    if str_eq(s, "TFS") || str_eq(s, "TFN") {
        return Some("TCI");
    }
    if str_eq(s, "IAH") || str_eq(s, "HOU") {
        return Some("HOU");
    }
    if str_eq(s, "DFW") || str_eq(s, "DAL") {
        return Some("DFW");
    }
    if str_eq(s, "LAX") || str_eq(s, "BUR") || str_eq(s, "LGB") || str_eq(s, "SNA") || str_eq(s, "ONT") {
        return Some("LAX");
    }
    if str_eq(s, "SFO") || str_eq(s, "OAK") || str_eq(s, "SJC") {
        return Some("SFO");
    }
    if str_eq(s, "MIA") || str_eq(s, "FLL") || str_eq(s, "PBI") {
        return Some("MIA");
    }
    if str_eq(s, "IST") || str_eq(s, "SAW") {
        return Some("IST");
    }
    if str_eq(s, "BRU") || str_eq(s, "CRL") {
        return Some("BRU");
    }
    if str_eq(s, "DUS") || str_eq(s, "NRN") {
        return Some("DUS");
    }
    if str_eq(s, "FRA") || str_eq(s, "HHN") {
        return Some("FRA");
    }
    if str_eq(s, "OSL") || str_eq(s, "TRF") || str_eq(s, "RYG") {
        return Some("OSL");
    }
    if str_eq(s, "JNB") || str_eq(s, "HLA") {
        return Some("JNB");
    }
    if str_eq(s, "DXB") || str_eq(s, "DWC") {
        return Some("DXB");
    }
    if str_eq(s, "IKA") || str_eq(s, "THR") {
        return Some("THR");
    }
    if str_eq(s, "CTS") || str_eq(s, "OKD") {
        return Some("SPK");
    }
    if str_eq(s, "MEL") || str_eq(s, "AVV") {
        return Some("MEL");
    }
    if str_eq(s, "VCE") || str_eq(s, "TSF") {
        return Some("VCE");
    }
    None
}

/// `s` with each `_` made a `-`.
pub open spec fn dashes(s: Seq<char>) -> Seq<char> {
    s.map_values(|c: char| if c == '_' { '-' } else { c })
}

/// The characters `CITY-`.
pub open spec fn city_prefix() -> Seq<char> {
    seq!['C', 'I', 'T', 'Y', '-']
}

/// A place id as stored: trimmed, upper-cased, `_` made `-`; a `CITY-` id of at
/// least 8 bytes is cut to `CITY-` and three characters.
pub open spec fn place_id_spec(code: Seq<char>) -> Seq<char> {
    let t = dashes(to_upper(trim_spec(code)));
    if has_prefix(t, city_prefix()) && utf8_len(t) >= 8 {
        let rest = t.subrange(5, t.len() as int);
        city_prefix() + rest.subrange(0, if rest.len() < 3 { rest.len() as int } else { 3 })
    } else {
        t
    }
}

/// See [`place_id_spec`].
pub fn normalize_place_id(code: &str) -> (r: String)
    ensures
        r@ == place_id_spec(code@),
{
    let trimmed = trim(code);
    let up = upper(trimmed.as_str());
    let x = chars_of(up.as_str());
    let mut y: Vec<char> = Vec::new();
    let mut i: usize = 0;
    while i < x.len()
        invariant
            x@ == up@,
            i <= x@.len(),
            y@ == dashes(up@).subrange(0, i as int),
        decreases x@.len() - i,
    {
        y.push(if x[i] == '_' { '-' } else { x[i] });
        i = i + 1;
        assert(y@ =~= dashes(up@).subrange(0, i as int));
    }
    assert(y@ =~= dashes(up@));
    let t = string_from(y.as_slice());
    proof {
        reveal_strlit("CITY-");
        assert("CITY-"@ =~= city_prefix());
    }
    if starts_with(t.as_str(), "CITY-") && byte_len(t.as_str()) >= 8 {
        let mut out = String::new();
        push_char(&mut out, 'C');
        push_char(&mut out, 'I');
        push_char(&mut out, 'T');
        push_char(&mut out, 'Y');
        push_char(&mut out, '-');
        let n = y.len();
        let stop: usize = if n - 5 < 3 { n } else { 8 };
        let mut k: usize = 5;
        while k < stop
            invariant
                y@ == t@,
                5 <= k <= stop,
                stop <= y@.len(),
                out@ == city_prefix() + t@.subrange(5, k as int),
            decreases stop - k,
        {
            push_char(&mut out, y[k]);
            k = k + 1;
            assert(out@ =~= city_prefix() + t@.subrange(5, k as int));
        }
        let ghost rest = t@.subrange(5, t@.len() as int);
        assert(rest.subrange(0, if rest.len() < 3 { rest.len() as int } else { 3 }) =~= t@.subrange(5, stop as int));
        out
    } else {
        t
    }
}

} // verus!
