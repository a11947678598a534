use vstd::prelude::*;
use vstd::utf8::is_ascii_chars;

verus! {

/// What `str::to_uppercase` returns for a string: the Unicode upper-case mapping.
pub uninterp spec fn to_upper(s: Seq<char>) -> Seq<char>;

/// Upper-cases a string with `str::to_uppercase`. The result is the Unicode mapping
/// named by `to_upper`; on ASCII text that mapping is the ASCII one (each of `a`..`z`
/// to `A`..`Z`, every other character kept). Nothing is stated of other text.
#[verifier::external_body]
pub fn upper(s: &str) -> (r: String)
    ensures
        r@ == to_upper(s@),
        is_ascii_chars(s@) ==> r@ == upper_ascii(s@),
{
    s.to_uppercase()
}

/// What `str::to_lowercase` returns for a string: the Unicode lower-case mapping.
pub uninterp spec fn to_lower(s: Seq<char>) -> Seq<char>;

/// Lower-cases a string with `str::to_lowercase`. The result is the Unicode mapping
/// named by `to_lower`; on ASCII text that mapping is the ASCII one. Nothing is
/// stated of other text.
#[verifier::external_body]
pub fn lower(s: &str) -> (r: String)
    ensures
        r@ == to_lower(s@),
        is_ascii_chars(s@) ==> r@ == lower_ascii(s@),
{
    s.to_lowercase()
}

/// Appends one character with `String::push`.
#[verifier::external_body]
pub fn push_char(s: &mut String, c: char)
    ensures
        final(s)@ == old(s)@.push(c),
{
    s.push(c)
}

/// The characters of a string, in order.
pub fn chars_of(s: &str) -> (v: Vec<char>)
    ensures
        v@ == s@,
{
    let n = s.unicode_len();
    let mut v: Vec<char> = Vec::new();
    let mut i: usize = 0;
    while i < n
        invariant
            n == s@.len(),
            i <= n,
            v@ == s@.subrange(0, i as int),
        decreases n - i,
    {
        let c = s.get_char(i);
        v.push(c);
        i = i + 1;
        assert(v@ =~= s@.subrange(0, i as int));
    }
    assert(v@ =~= s@);
    v
}

/// A string made of the given characters.
pub fn string_from(cs: &[char]) -> (s: String)
    ensures
        s@ == cs@,
{
    let mut s = String::new();
    let mut i: usize = 0;
    while i < cs.len()
        invariant
            i <= cs@.len(),
            s@ == cs@.subrange(0, i as int),
        decreases cs@.len() - i,
    {
        push_char(&mut s, cs[i]);
        i = i + 1;
        assert(s@ =~= cs@.subrange(0, i as int));
    }
    assert(s@ =~= cs@);
    s
}


/// ASCII lower-casing of one character, as `char::to_ascii_lowercase` does.
pub open spec fn ascii_lower(c: char) -> char {
    if 'A' <= c && c <= 'Z' {
        ((c as u32) + 32) as char
    } else {
        c
    }
}

/// ASCII upper-casing of one character, as `char::to_ascii_uppercase` does.
pub open spec fn ascii_upper(c: char) -> char {
    if 'a' <= c && c <= 'z' {
        ((c as u32) - 32) as char
    } else {
        c
    }
}

/// Equality up to ASCII case, as `str::eq_ignore_ascii_case` decides it.
pub open spec fn eq_ignore_case(a: Seq<char>, b: Seq<char>) -> bool {
    &&& a.len() == b.len()
    &&& forall|i: int| 0 <= i < a.len() ==> ascii_lower(#[trigger] a[i]) == ascii_lower(b[i])
}

/// The ASCII lower-case form of a whole string.
pub open spec fn lower_ascii(s: Seq<char>) -> Seq<char> {
    s.map_values(|c: char| ascii_lower(c))
}

/// The ASCII upper-case form of a whole string.
pub open spec fn upper_ascii(s: Seq<char>) -> Seq<char> {
    s.map_values(|c: char| ascii_upper(c))
}

pub fn char_lower(c: char) -> (r: char)
    ensures
        r == ascii_lower(c),
{
    if 'A' <= c && c <= 'Z' {
        let u: u32 = (c as u32) + 32;
        assert(u < 0xD800);
        char_from(u)
    } else {
        c
    }
}

pub fn char_upper(c: char) -> (r: char)
    ensures
        r == ascii_upper(c),
{
    if 'a' <= c && c <= 'z' {
        let u: u32 = (c as u32) - 32;
        char_from(u)
    } else {
        c
    }
}

/// Builds the character with a given code point, which must be a scalar value below the
/// surrogate range, with `char::from_u32`.
#[verifier::external_body]
pub fn char_from(u: u32) -> (c: char)
    requires
        u < 0xD800,
    ensures
        c == (u as char),
        c as u32 == u,
{
    char::from_u32(u).unwrap()
}

/// `str::eq_ignore_ascii_case`, written over the characters.
pub fn eq_ignore_ascii_case(a: &str, b: &str) -> (r: bool)
    ensures
        r == eq_ignore_case(a@, b@),
{
    let x = chars_of(a);
    let y = chars_of(b);
    if x.len() != y.len() {
        return false;
    }
    let mut i: usize = 0;
    while i < x.len()
        invariant
            x@ == a@,
            y@ == b@,
            x@.len() == y@.len(),
            i <= x@.len(),
            forall|j: int| 0 <= j < i ==> ascii_lower(#[trigger] x@[j]) == ascii_lower(y@[j]),
        decreases x@.len() - i,
    {
        if char_lower(x[i]) != char_lower(y[i]) {
            return false;
        }
        i = i + 1;
    }
    true
}

/// The ASCII lower-case form of a string, as `str::to_ascii_lowercase` gives it.
pub fn to_ascii_lower(s: &str) -> (r: String)
    ensures
        r@ == lower_ascii(s@),
{
    let x = chars_of(s);
    let mut out = String::new();
    let mut i: usize = 0;
    while i < x.len()
        invariant
            x@ == s@,
            i <= x@.len(),
            out@ == lower_ascii(s@).subrange(0, i as int),
        decreases x@.len() - i,
    {
        let c = char_lower(x[i]);
        push_char(&mut out, c);
        i = i + 1;
        assert(out@ =~= lower_ascii(s@).subrange(0, i as int));
    }
    assert(out@ =~= lower_ascii(s@));
    out
}

/// The ASCII upper-case form of a string, as `str::to_ascii_uppercase` gives it.
pub fn to_ascii_upper(s: &str) -> (r: String)
    ensures
        r@ == upper_ascii(s@),
{
    let x = chars_of(s);
    let mut out = String::new();
    let mut i: usize = 0;
    while i < x.len()
        invariant
            x@ == s@,
            i <= x@.len(),
            out@ == upper_ascii(s@).subrange(0, i as int),
        decreases x@.len() - i,
    {
        let c = char_upper(x[i]);
        push_char(&mut out, c);
        i = i + 1;
        assert(out@ =~= upper_ascii(s@).subrange(0, i as int));
    }
    assert(out@ =~= upper_ascii(s@));
    out
}

/// Equality of two string slices by their characters.
pub fn str_eq(a: &str, b: &str) -> (r: bool)
    ensures
        r == (a@ == b@),
{
    let x = chars_of(a);
    let y = chars_of(b);
    if x.len() != y.len() {
        return false;
    }
    let mut i: usize = 0;
    while i < x.len()
        invariant
            x@ == a@,
            y@ == b@,
            x@.len() == y@.len(),
            i <= x@.len(),
            forall|j: int| 0 <= j < i ==> x@[j] == y@[j],
        decreases x@.len() - i,
    {
        if x[i] != y[i] {
            return false;
        }
        i = i + 1;
    }
    assert(x@ =~= y@);
    true
}

/// Whether `p` is a prefix of `s`.
pub open spec fn has_prefix(s: Seq<char>, p: Seq<char>) -> bool {
    p.len() <= s.len() && s.subrange(0, p.len() as int) == p
}

/// Whether `p` occurs in `s` at some position.
pub open spec fn has_infix(s: Seq<char>, p: Seq<char>) -> bool {
    exists|k: int| 0 <= k && k + p.len() <= s.len() && #[trigger] s.subrange(k, k + p.len()) == p
}

/// `str::starts_with` for a string pattern, over the characters.
pub fn starts_with(s: &str, p: &str) -> (r: bool)
    ensures
        r == has_prefix(s@, p@),
{
    let x = chars_of(s);
    let y = chars_of(p);
    if y.len() > x.len() {
        return false;
    }
    let mut i: usize = 0;
    while i < y.len()
        invariant
            x@ == s@,
            y@ == p@,
            y@.len() <= x@.len(),
            i <= y@.len(),
            forall|j: int| 0 <= j < i ==> x@[j] == y@[j],
        decreases y@.len() - i,
    {
        if x[i] != y[i] {
            assert(s@.subrange(0, p@.len() as int)[i as int] != p@[i as int]);
            return false;
        }
        i = i + 1;
    }
    assert(s@.subrange(0, p@.len() as int) =~= p@);
    true
}

/// Whether `y` matches `x` at position `k`.
pub(crate) fn matches_at(x: &Vec<char>, y: &Vec<char>, k: usize) -> (r: bool)
    requires
        k + y@.len() <= x@.len(),
    ensures
        r == (x@.subrange(k as int, k + y@.len()) == y@),
{
    let lim = x.len();
    let mut i: usize = 0;
    while i < y.len()
        invariant
            lim == x@.len(),
            k + y@.len() <= x@.len(),
            i <= y@.len(),
            forall|j: int| 0 <= j < i ==> x@[k + j] == y@[j],
        decreases y@.len() - i,
    {
        assert(k + i < x@.len());
        if x[k + i] != y[i] {
            assert(x@.subrange(k as int, k + y@.len())[i as int] != y@[i as int]);
            return false;
        }
        i = i + 1;
    }
    assert(x@.subrange(k as int, k + y@.len()) =~= y@);
    true
}

/// `str::contains` for a string pattern, over the characters.
pub fn contains_str(s: &str, p: &str) -> (r: bool)
    ensures
        r == has_infix(s@, p@),
{
    let x = chars_of(s);
    let y = chars_of(p);
    if y.len() > x.len() {
        return false;
    }
    let last = x.len() - y.len();
    let mut k: usize = 0;
    loop
        invariant
            x@ == s@,
            y@ == p@,
            last == x@.len() - y@.len(),
            k <= last,
            forall|j: int| 0 <= j < k ==> #[trigger] s@.subrange(j, j + p@.len()) != p@,
        decreases last - k,
    {
        if matches_at(&x, &y, k) {
            assert(s@.subrange(k as int, k + p@.len()) == p@);
            return true;
        }
        if k == last {
            assert forall|j: int| 0 <= j && j + p@.len() <= s@.len() implies #[trigger] s@.subrange(j, j + p@.len()) != p@ by {
                assert(j <= k);
            }
            return false;
        }
        k = k + 1;
    }
}

/// The first `n` characters of a string (all of it when shorter), as `chars().take(n)`.
pub fn take_chars(s: &str, n: usize) -> (r: String)
    ensures
        r@ == s@.subrange(0, if n < s@.len() { n as int } else { s@.len() as int }),
{
    let x = chars_of(s);
    let m = if n < x.len() { n } else { x.len() };
    let mut out = String::new();
    let mut i: usize = 0;
    while i < m
        invariant
            x@ == s@,
            m <= x@.len(),
            i <= m,
            out@ == s@.subrange(0, i as int),
        decreases m - i,
    {
        push_char(&mut out, x[i]);
        i = i + 1;
        assert(out@ =~= s@.subrange(0, i as int));
    }
    out
}

/// `a` followed by `b`.
pub fn cat(a: &str, b: &str) -> (r: String)
    ensures
        r@ == a@ + b@,
{
    let mut s = a.to_owned();
    s.append(b);
    s
}


/// The digit character of `d` (below ten).
pub open spec fn digit_char(d: int) -> char {
    (('0' as int) + d) as char
}

/// The decimal digits of a natural number, most significant first, without
/// leading zeros (`0` for zero).
pub open spec fn digits_of(n: nat) -> Seq<char>
    decreases n,
{
    if n < 10 { seq![digit_char(n as int)] } else { digits_of(n / 10).push(digit_char((n % 10) as int)) }
}

/// The decimal text of an integer as `ToString` writes it: a minus sign for a
/// negative number, then its digits.
pub open spec fn decimal(n: int) -> Seq<char> {
    if n < 0 { seq!['-'] + digits_of((-n) as nat) } else { digits_of(n as nat) }
}

fn digit(d: u128) -> (c: char)
    requires
        d < 10,
    ensures
        c == digit_char(d as int),
{
    if d == 0 { '0' } else if d == 1 { '1' } else if d == 2 { '2' } else if d == 3 { '3' } else if d == 4 { '4' }
    else if d == 5 { '5' } else if d == 6 { '6' } else if d == 7 { '7' } else if d == 8 { '8' } else { '9' }
}

fn digits_text(n: u128) -> (r: Vec<char>)
    ensures
        r@ == digits_of(n as nat),
    decreases n,
{
    if n < 10 {
        let mut v: Vec<char> = Vec::new();
        v.push(digit(n));
        v
    } else {
        let mut v = digits_text(n / 10);
        v.push(digit(n % 10));
        v
    }
}

/// An integer in decimal, as `i64::to_string` writes it (see [`decimal`]).
pub fn int_text(n: i64) -> (r: String)
    ensures
        r@ == decimal(n as int),
{
    let m: u128 = if n < 0 { (-(n as i128)) as u128 } else { n as u128 };
    let ds = digits_text(m);
    if n < 0 {
        let mut v: Vec<char> = Vec::new();
        v.push('-');
        let mut i: usize = 0;
        while i < ds.len()
            invariant
                i <= ds@.len(),
                v@ == seq!['-'] + ds@.subrange(0, i as int),
            decreases ds@.len() - i,
        {
            v.push(ds[i]);
            i = i + 1;
            assert(v@ =~= seq!['-'] + ds@.subrange(0, i as int));
        }
        assert(ds@.subrange(0, i as int) =~= ds@);
        string_from(v.as_slice())
    } else {
        string_from(ds.as_slice())
    }
}

/// Whether a character has the Unicode White_Space property, as `char::is_whitespace`
/// decides.
pub open spec fn is_ws(c: char) -> bool {
    ||| ('\u{9}' <= c && c <= '\u{d}')
    ||| c == ' '
    ||| c == '\u{85}'
    ||| c == '\u{a0}'
    ||| c == '\u{1680}'
    ||| ('\u{2000}' <= c && c <= '\u{200a}')
    ||| c == '\u{2028}'
    ||| c == '\u{2029}'
    ||| c == '\u{202f}'
    ||| c == '\u{205f}'
    ||| c == '\u{3000}'
}

pub(crate) fn ws(c: char) -> (r: bool)
    ensures
        r == is_ws(c),
{
    ('\u{9}' <= c && c <= '\u{d}') || c == ' ' || c == '\u{85}' || c == '\u{a0}' || c == '\u{1680}'
        || ('\u{2000}' <= c && c <= '\u{200a}') || c == '\u{2028}' || c == '\u{2029}' || c == '\u{202f}'
        || c == '\u{205f}' || c == '\u{3000}'
}

/// `s` without leading white space.
pub open spec fn trim_start_spec(s: Seq<char>) -> Seq<char>
    decreases s.len(),
{
    if s.len() > 0 && is_ws(s[0]) { trim_start_spec(s.drop_first()) } else { s }
}

/// `s` without trailing white space.
pub open spec fn trim_end_spec(s: Seq<char>) -> Seq<char>
    decreases s.len(),
{
    if s.len() > 0 && is_ws(s.last()) { trim_end_spec(s.drop_last()) } else { s }
}

/// `s` without leading or trailing white space, as `str::trim` gives it.
pub open spec fn trim_spec(s: Seq<char>) -> Seq<char> {
    trim_end_spec(trim_start_spec(s))
}

/// See [`trim_spec`].
pub fn trim(s: &str) -> (r: String)
    ensures
        r@ == trim_spec(s@),
{
    let x = chars_of(s);
    let mut a: usize = 0;
    assert(s@.subrange(0, s@.len() as int) =~= s@);
    while a < x.len() && ws(x[a])
        invariant
            x@ == s@,
            a <= x@.len(),
            trim_start_spec(s@) == trim_start_spec(s@.subrange(a as int, s@.len() as int)),
        decreases x@.len() - a,
    {
        let ghost t = s@.subrange(a as int, s@.len() as int);
        assert(t.drop_first() =~= s@.subrange(a + 1, s@.len() as int));
        a = a + 1;
    }
    let ghost st = s@.subrange(a as int, s@.len() as int);
    assert(trim_start_spec(s@) == st);
    let mut b: usize = x.len();
    while b > a && ws(x[b - 1])
        invariant
            x@ == s@,
            a <= b <= x@.len(),
            trim_end_spec(st) == trim_end_spec(s@.subrange(a as int, b as int)),
        decreases b - a,
    {
        let ghost t = s@.subrange(a as int, b as int);
        assert(t.drop_last() =~= s@.subrange(a as int, b - 1));
        b = b - 1;
    }
    assert(trim_end_spec(s@.subrange(a as int, b as int)) == s@.subrange(a as int, b as int));
    let mut out = String::new();
    let mut i: usize = a;
    while i < b
        invariant
            x@ == s@,
            a <= i <= b,
            b <= x@.len(),
            out@ == s@.subrange(a as int, i as int),
        decreases b - i,
    {
        push_char(&mut out, x[i]);
        i = i + 1;
        assert(out@ =~= s@.subrange(a as int, i as int));
    }
    out
}

/// `s` with each occurrence of `pat` replaced by `rep`, scanning left to right
/// without overlaps, as `str::replace` does for a non-empty pattern.
pub open spec fn replace_spec(s: Seq<char>, pat: Seq<char>, rep: Seq<char>) -> Seq<char>
    decreases s.len(),
{
    if pat.len() == 0 || s.len() < pat.len() {
        s
    } else if s.subrange(0, pat.len() as int) == pat {
        rep + replace_spec(s.subrange(pat.len() as int, s.len() as int), pat, rep)
    } else {
        seq![s[0]] + replace_spec(s.drop_first(), pat, rep)
    }
}

/// See [`replace_spec`].
pub fn replace_all(s: &str, pat: &str, rep: &str) -> (r: String)
    requires
        pat@.len() > 0,
    ensures
        r@ == replace_spec(s@, pat@, rep@),
{
    let x = chars_of(s);
    let y = chars_of(pat);
    let z = chars_of(rep);
    let mut out: Vec<char> = Vec::new();
    let mut i: usize = 0;
    assert(s@.subrange(0, s@.len() as int) =~= s@);
    assert(out@ + s@ =~= s@);
    while i < x.len()
        invariant
            x@ == s@,
            y@ == pat@,
            z@ == rep@,
            y@.len() > 0,
            i <= x@.len(),
            replace_spec(s@, pat@, rep@) == out@ + replace_spec(s@.subrange(i as int, s@.len() as int), pat@, rep@),
        decreases x@.len() - i,
    {
        let ghost rest = s@.subrange(i as int, s@.len() as int);
        if y.len() <= x.len() - i && matches_at(&x, &y, i) {
            assert(rest.subrange(0, pat@.len() as int) =~= s@.subrange(i as int, i + pat@.len()));
            assert(rest.subrange(pat@.len() as int, rest.len() as int) =~= s@.subrange(i + y@.len(), s@.len() as int));
            let mut k: usize = 0;
            let ghost before = out@;
            while k < z.len()
                invariant
                    z@ == rep@,
                    k <= z@.len(),
                    out@ == before + rep@.subrange(0, k as int),
                decreases z@.len() - k,
            {
                out.push(z[k]);
                k = k + 1;
                assert(out@ =~= before + rep@.subrange(0, k as int));
            }
            assert(rep@.subrange(0, rep@.len() as int) =~= rep@);
            assert(out@ + replace_spec(s@.subrange(i + y@.len(), s@.len() as int), pat@, rep@)
                =~= before + (rep@ + replace_spec(s@.subrange(i + y@.len(), s@.len() as int), pat@, rep@)));
            i = i + y.len();
        } else {
            if y.len() <= x.len() - i {
                assert(rest.subrange(0, pat@.len() as int) =~= s@.subrange(i as int, i + pat@.len()));
            }
            assert(rest.drop_first() =~= s@.subrange(i + 1, s@.len() as int));
            let ghost before = out@;
            out.push(x[i]);
            assert(out@ + replace_spec(s@.subrange(i + 1, s@.len() as int), pat@, rep@)
                =~= before + (seq![rest[0]] + replace_spec(rest.drop_first(), pat@, rep@)));
            i = i + 1;
        }
    }
    assert(s@.subrange(x@.len() as int, s@.len() as int) =~= Seq::<char>::empty());
    assert(out@ + Seq::<char>::empty() =~= out@);
    string_from(out.as_slice())
}

/// The number of bytes a character takes in UTF-8.
pub open spec fn char_width(c: char) -> int {
    let u = c as u32;
    if u < 0x80 { 1 } else if u < 0x800 { 2 } else if u < 0x10000 { 3 } else { 4 }
}

pub fn width_of(c: char) -> (r: u128)
    ensures
        r == char_width(c),
{
    let u = c as u32;
    if u < 0x80 { 1 } else if u < 0x800 { 2 } else if u < 0x10000 { 3 } else { 4 }
}

/// The number of bytes of the UTF-8 encoding of `s`, as `str::len` gives it.
pub open spec fn utf8_len(s: Seq<char>) -> int
    decreases s.len(),
{
    if s.len() == 0 {
        0
    } else {
        utf8_len(s.drop_last()) + {
            char_width(s.last())
        }
    }
}

/// See [`utf8_len`].
pub fn byte_len(s: &str) -> (r: u128)
    ensures
        r == utf8_len(s@),
{
    let x = chars_of(s);
    let mut n: u128 = 0;
    let mut i: usize = 0;
    while i < x.len()
        invariant
            x@ == s@,
            i <= x@.len(),
            n == utf8_len(s@.subrange(0, i as int)),
            n <= 4 * i,
        decreases x@.len() - i,
    {
        assert(s@.subrange(0, i + 1).drop_last() =~= s@.subrange(0, i as int));
        let w: u128 = width_of(x[i]);
        n = n + w;
        i = i + 1;
    }
    assert(s@.subrange(0, x@.len() as int) =~= s@);
    n
}

/// The leading characters of `s` that take exactly `n` bytes, if the `n`-th byte
/// ends a character (what `str::get(..n)` gives).
pub open spec fn prefix_bytes(s: Seq<char>, n: int) -> Option<Seq<char>>
    decreases s.len(),
{
    if n == 0 {
        Some(Seq::empty())
    } else if n < 0 || s.len() == 0 || char_width(s[0]) > n {
        None
    } else {
        match prefix_bytes(s.drop_first(), n - char_width(s[0])) {
            Some(p) => Some(seq![s[0]] + p),
            None => None,
        }
    }
}

/// See [`prefix_bytes`].
pub fn byte_prefix(s: &str, n: u128) -> (r: Option<String>)
    ensures
        match (r, prefix_bytes(s@, n as int)) {
            (Some(a), Some(b)) => a@ == b,
            (None, None) => true,
            _ => false,
        },
{
    let x = chars_of(s);
    let mut i: usize = 0;
    let mut b: u128 = 0;
    assert(s@.subrange(0, s@.len() as int) =~= s@);
    assert(Seq::<char>::empty() + s@ =~= s@);
    while b < n
        invariant
            x@ == s@,
            i <= x@.len(),
            b <= n,
            prefix_bytes(s@, n as int) == match prefix_bytes(s@.subrange(i as int, s@.len() as int), n - b) {
                Some(p) => Some(s@.subrange(0, i as int) + p),
                None => None::<Seq<char>>,
            },
        decreases x@.len() - i,
    {
        let ghost rest = s@.subrange(i as int, s@.len() as int);
        if i == x.len() {
            return None;
        }
        let w = width_of(x[i]);
        if w > n - b {
            return None;
        }
        assert(rest.drop_first() =~= s@.subrange(i + 1, s@.len() as int));
        assert(rest[0] == x@[i as int]);
        assert forall|p: Seq<char>| #![auto] s@.subrange(0, i as int) + (seq![rest[0]] + p) == s@.subrange(0, i + 1) + p by {
            assert(s@.subrange(0, i as int) + (seq![rest[0]] + p) =~= s@.subrange(0, i + 1) + p);
        }
        b = b + w;
        i = i + 1;
    }
    let ghost rest = s@.subrange(i as int, s@.len() as int);
    assert(s@.subrange(0, i as int) + Seq::<char>::empty() =~= s@.subrange(0, i as int));
    let mut out: Vec<char> = Vec::new();
    let mut k: usize = 0;
    while k < i
        invariant
            x@ == s@,
            i <= x@.len(),
            k <= i,
            out@ == s@.subrange(0, k as int),
        decreases i - k,
    {
        out.push(x[k]);
        k = k + 1;
        assert(out@ =~= s@.subrange(0, k as int));
    }
    Some(string_from(out.as_slice()))
}

} // verus!
