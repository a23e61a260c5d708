//! Reading the symbol dump of the resident base image, whose global
//! symbols seed the registry.
use vstd::prelude::*;
use crate::demangle::{canonical_name_of, demangle_symbol, hash_of};
use crate::error::LoadError;
use crate::registry::{LoadedCrate, LoadedSection, LoadedSectionView, SectionClass, views};

verus! {

/// The characters that UTF-8 bytes encode, where they are valid UTF-8.
pub uninterp spec fn utf8_decode(b: Seq<u8>) -> Option<Seq<char>>;

/// Relies on `std::str::from_utf8`: it accepts exactly the valid UTF-8
/// byte sequences, and the text it gives depends on the bytes alone.
#[verifier::external_body]
fn decode_utf8(b: &[u8]) -> (r: Option<String>)
    ensures
        match utf8_decode(b@) {
            Some(t) => r is Some && r.unwrap()@ == t,
            None => r is None,
        },
{
    std::str::from_utf8(b).ok().map(|s| s.to_string())
}

/// Whitespace between columns.
pub open spec fn is_space(b: u8) -> bool {
    b == 32 || b == 9 || b == 10 || b == 11 || b == 12 || b == 13
}

/// Whether `pat` occurs in `hay` at `i`.
pub open spec fn bytes_at(hay: Seq<u8>, pat: Seq<u8>, i: int) -> bool {
    0 <= i && i + pat.len() <= hay.len() && hay.subrange(i, i + pat.len()) == pat
}

pub open spec fn contains(hay: Seq<u8>, pat: Seq<u8>) -> bool {
    exists|i: int| bytes_at(hay, pat, i)
}

/// Whether `pat` occurs in `hay`.
pub fn contains_bytes(hay: &[u8], pat: &[u8]) -> (r: bool)
    ensures
        r == contains(hay@, pat@),
{
    let n = hay.len();
    let m = pat.len();
    if m > n {
        return false;
    }
    let mut i: usize = 0;
    while i <= n - m
        invariant
            n == hay@.len(),
            m == pat@.len(),
            m <= n,
            i <= n - m + 1,
            forall|j: int| 0 <= j < i ==> !bytes_at(hay@, pat@, j),
        decreases n - m + 1 - i,
    {
        let mut k: usize = 0;
        let mut same = true;
        while k < m
            invariant
                n == hay@.len(),
                m == pat@.len(),
                i + m <= n,
                k <= m,
                same ==> forall|t: int| 0 <= t < k ==> hay@[i + t] == pat@[t],
                !same ==> !bytes_at(hay@, pat@, i as int),
            decreases m - k,
        {
            if same && hay[i + k] != pat[k] {
                assert(hay@.subrange(i as int, i + m)[k as int] != pat@[k as int]);
                same = false;
            }
            k = k + 1;
        }
        if same {
            assert(hay@.subrange(i as int, i + m) =~= pat@);
            assert(bytes_at(hay@, pat@, i as int));
            return true;
        }
        if i == n - m {
            assert forall|j: int| !bytes_at(hay@, pat@, j) by {
                if 0 <= j && j <= i {
                }
            };
            return false;
        }
        i = i + 1;
    }
    false
}

/// The value of a digit in base `radix`, if it is one.
pub open spec fn digit_value(b: u8, radix: u64) -> Option<u64> {
    if 48 <= b <= 57 && (b - 48) < radix {
        Some((b - 48) as u64)
    } else if radix == 16 && 97 <= b <= 102 {
        Some((b - 87) as u64)
    } else if radix == 16 && 65 <= b <= 70 {
        Some((b - 55) as u64)
    } else {
        None
    }
}

/// The number that the digits `s` spell in base `radix`, if all are digits.
pub open spec fn digits_value(s: Seq<u8>, radix: u64) -> Option<int>
    decreases s.len(),
{
    if s.len() == 0 {
        Some(0)
    } else {
        match (digits_value(s.drop_last(), radix), digit_value(s.last(), radix)) {
            (Some(v), Some(d)) => Some(v * radix + d),
            _ => None,
        }
    }
}

/// The number a column spells in base `radix`: an optional `+` and at
/// least one digit, of a value that fits in 64 bits.
pub open spec fn number_of(s: Seq<u8>, radix: u64) -> Option<u64> {
    let d = if s.len() > 0 && s[0] == 43 {
        s.skip(1)
    } else {
        s
    };
    if d.len() == 0 {
        None
    } else {
        match digits_value(d, radix) {
            Some(v) => if v <= u64::MAX {
                Some(v as u64)
            } else {
                None
            },
            None => None,
        }
    }
}

proof fn lemma_digits_nonneg(s: Seq<u8>, radix: u64)
    requires
        radix == 10 || radix == 16,
    ensures
        digits_value(s, radix) is Some ==> digits_value(s, radix).unwrap() >= 0,
    decreases s.len(),
{
    if s.len() > 0 {
        lemma_digits_nonneg(s.drop_last(), radix);
    }
}

fn digit(b: u8, radix: u64) -> (r: Option<u64>)
    requires
        radix == 10 || radix == 16,
    ensures
        r == digit_value(b, radix),
{
    if 48 <= b && b <= 57 && ((b - 48) as u64) < radix {
        Some((b - 48) as u64)
    } else if radix == 16 && 97 <= b && b <= 102 {
        Some((b - 87) as u64)
    } else if radix == 16 && 65 <= b && b <= 70 {
        Some((b - 55) as u64)
    } else {
        None
    }
}

/// Reads a column as a number in base `radix`; see `number_of`.
pub fn parse_number(s: &[u8], radix: u64) -> (r: Option<u64>)
    requires
        radix == 10 || radix == 16,
    ensures
        r == number_of(s@, radix),
{
    let start: usize = if s.len() > 0 && s[0] == 43 { 1 } else { 0 };
    let ghost d = if s@.len() > 0 && s@[0] == 43 { s@.skip(1) } else { s@ };
    if start == s.len() {
        return None;
    }
    let mut v: u64 = 0;
    let mut i: usize = start;
    assert(s@.subrange(start as int, start as int) =~= Seq::<u8>::empty());
    while i < s.len()
        invariant
            radix == 10 || radix == 16,
            start <= i <= s@.len(),
            d == s@.skip(start as int),
            d == (if s@.len() > 0 && s@[0] == 43 { s@.skip(1) } else { s@ }),
            d.len() > 0,
            digits_value(s@.subrange(start as int, i as int), radix) == Some(v as int),
        decreases s@.len() - i,
    {
        assert(s@.subrange(start as int, i + 1).drop_last() =~= s@.subrange(start as int, i as int));
        let dv = match digit(s[i], radix) {
            Some(x) => x,
            None => {
                proof {
                    assert(s@.skip(start as int).take(i - start + 1) =~= s@.subrange(start as int, i + 1));
                    lemma_digits_none_stays(s@.skip(start as int), radix, i - start + 1);
                    assert(digits_value(d, radix) is None);
                    assert(number_of(s@, radix) is None);
                }
                return None;
            },
        };
        let next = match v.checked_mul(radix) {
            Some(x) => x.checked_add(dv),
            None => None,
        };
        match next {
            Some(x) => {
                v = x;
            },
            None => {
                proof {
                    assert(s@.skip(start as int).take(i - start + 1) =~= s@.subrange(start as int, i + 1));
                    assert(v as int * radix + dv > u64::MAX);
                    lemma_digits_big_stays(s@.skip(start as int), radix, i - start + 1);
                    assert(digits_value(d, radix) is Some ==> digits_value(d, radix).unwrap() > u64::MAX);
                    assert(number_of(s@, radix) is None);
                }
                return None;
            },
        }
        i = i + 1;
    }
    assert(s@.subrange(start as int, i as int) =~= d);
    Some(v)
}

proof fn lemma_digits_none_stays(s: Seq<u8>, radix: u64, j: int)
    requires
        0 <= j <= s.len(),
        digits_value(s.take(j), radix) is None,
    ensures
        digits_value(s, radix) is None,
    decreases s.len() - j,
{
    if j < s.len() {
        assert(s.take(j + 1).drop_last() =~= s.take(j));
        lemma_digits_none_stays(s, radix, j + 1);
    } else {
        assert(s.take(j) =~= s);
    }
}

proof fn lemma_digits_big_stays(s: Seq<u8>, radix: u64, j: int)
    requires
        0 <= j <= s.len(),
        radix == 10 || radix == 16,
        digits_value(s.take(j), radix) is Some ==> digits_value(s.take(j), radix).unwrap()
            > u64::MAX,
    ensures
        digits_value(s, radix) is Some ==> digits_value(s, radix).unwrap() > u64::MAX,
    decreases s.len() - j,
{
    if j < s.len() {
        assert(s.take(j + 1).drop_last() =~= s.take(j));
        lemma_digits_nonneg(s.take(j + 1), radix);
        if digits_value(s.take(j), radix) is Some && digits_value(s.take(j + 1), radix) is Some {
            let v = digits_value(s.take(j), radix).unwrap();
            assert(v * radix >= v) by (nonlinear_arith)
                requires
                    v >= 0,
                    radix >= 1,
            ;
        }
        lemma_digits_big_stays(s, radix, j + 1);
    } else {
        assert(s.take(j) =~= s);
    }
}

/// `s` without the whitespace at either end.
pub open spec fn trimmed(s: Seq<u8>, lo: int, hi: int) -> bool {
    0 <= lo <= hi <= s.len() && (forall|k: int| 0 <= k < lo ==> is_space(s[k])) && (forall|k: int|
        hi <= k < s.len() ==> is_space(s[k])) && (lo < hi ==> !is_space(s[lo]) && !is_space(
        s[hi - 1],
    )) && (lo == hi ==> lo == 0)
}

/// The bounds of `s` without its surrounding whitespace.
fn trim_bounds(s: &[u8], from: usize, to: usize) -> (r: (usize, usize))
    requires
        from <= to <= s@.len(),
    ensures
        trimmed(s@.subrange(from as int, to as int), r.0 - from, r.1 - from),
        from <= r.0 <= r.1 <= to,
{
    let ghost t = s@.subrange(from as int, to as int);
    let mut lo = from;
    while lo < to && (s[lo] == 32 || s[lo] == 9 || s[lo] == 10 || s[lo] == 11 || s[lo] == 12 || s[lo] == 13)
        invariant
            from <= lo <= to,
            to <= s@.len(),
            t == s@.subrange(from as int, to as int),
            forall|k: int| 0 <= k < lo - from ==> is_space(t[k]),
        decreases to - lo,
    {
        lo = lo + 1;
    }
    if lo == to {
        return (from, from);
    }
    let mut hi = to;
    while hi > lo && (s[hi - 1] == 32 || s[hi - 1] == 9 || s[hi - 1] == 10 || s[hi - 1] == 11 || s[hi - 1] == 12 || s[hi - 1] == 13)
        invariant
            from <= lo < hi <= to,
            to <= s@.len(),
            !is_space(s@[lo as int]),
            t == s@.subrange(from as int, to as int),
            forall|k: int| hi - from <= k < t.len() ==> is_space(t[k]),
        decreases hi - lo,
    {
        hi = hi - 1;
    }
    (lo, hi)
}

/// The index between the first `[` and the first `]` of a line, as
/// `readelf` prints section headers.
pub open spec fn section_index_of(line: Seq<u8>) -> Option<u64> {
    if (exists|i: int| 0 <= i < line.len() && line[i] == 91) && (exists|i: int|
        0 <= i < line.len() && line[i] == 93) {
        let open = first_byte(line, 91);
        let close = first_byte(line, 93);
        if open + 1 <= close {
            let inner = line.subrange(open + 1, close);
            let (lo, hi) = choose|lo: int, hi: int| trimmed(inner, lo, hi);
            number_of(inner.subrange(lo, hi), 10)
        } else {
            None
        }
    } else {
        None
    }
}

/// The first position of byte `b` in `s`.
pub open spec fn first_byte(s: Seq<u8>, b: u8) -> int {
    choose|i: int| 0 <= i < s.len() && s[i] == b && forall|j: int| 0 <= j < i ==> s[j] != b
}

fn find_byte(s: &[u8], b: u8) -> (r: Option<usize>)
    ensures
        r is None <==> !(exists|i: int| 0 <= i < s@.len() && s@[i] == b),
        r is Some ==> r.unwrap() == first_byte(s@, b) && r.unwrap() < s@.len(),
{
    let mut i: usize = 0;
    while i < s.len()
        invariant
            i <= s@.len(),
            forall|j: int| 0 <= j < i ==> s@[j] != b,
        decreases s@.len() - i,
    {
        if s[i] == b {
            let ghost f = first_byte(s@, b);
            assert(0 <= i < s@.len() && s@[i as int] == b && forall|j: int| 0 <= j < i ==> s@[j] != b);
            assert(f == i) by {
                if f < i {
                } else if f > i {
                }
            };
            return Some(i);
        }
        i = i + 1;
    }
    None
}

proof fn lemma_trimmed_unique(s: Seq<u8>, lo: int, hi: int, lo2: int, hi2: int)
    requires
        trimmed(s, lo, hi),
        trimmed(s, lo2, hi2),
    ensures
        lo == lo2 && hi == hi2,
{
    if lo < hi && lo2 < hi2 {
        if lo < lo2 {
            assert(is_space(s[lo]));
        }
        if lo2 < lo {
            assert(is_space(s[lo2]));
        }
        if hi < hi2 {
            assert(is_space(s[hi2 - 1]));
        }
        if hi2 < hi {
            assert(is_space(s[hi - 1]));
        }
    } else if lo < hi {
        assert(is_space(s[lo]));
    } else if lo2 < hi2 {
        assert(is_space(s[lo2]));
    }
}

/// The section index that a section-header line of the dump gives; see
/// `section_index_of`.
#[verifier::rlimit(80)]
pub fn get_section_index(line: &[u8]) -> (r: Option<u64>)
    ensures
        r == section_index_of(line@),
{
    let open = match find_byte(line, 91) {
        Some(i) => i,
        None => return None,
    };
    let close = match find_byte(line, 93) {
        Some(i) => i,
        None => return None,
    };
    if open >= close {
        return None;
    }
    let (lo, hi) = trim_bounds(line, open + 1, close);
    let ghost inner = line@.subrange(open + 1, close as int);
    proof {
        assert(trimmed(inner, lo - open - 1, hi - open - 1));
        let (clo, chi) = choose|lo: int, hi: int| trimmed(inner, lo, hi);
        lemma_trimmed_unique(inner, lo - open - 1, hi - open - 1, clo, chi);
        assert(inner.subrange(clo, chi) =~= line@.subrange(lo as int, hi as int));
    }
    let t = slice_of(line, lo, hi);
    parse_number(t.as_slice(), 10)
}

/// A copy of `s[lo..hi]`.
fn slice_of(s: &[u8], lo: usize, hi: usize) -> (r: Vec<u8>)
    requires
        lo <= hi <= s@.len(),
    ensures
        r@ == s@.subrange(lo as int, hi as int),
{
    let mut r: Vec<u8> = Vec::new();
    let mut i = lo;
    while i < hi
        invariant
            lo <= i <= hi <= s@.len(),
            r@ == s@.subrange(lo as int, i as int),
        decreases hi - i,
    {
        r.push(s[i]);
        assert(s@.subrange(lo as int, i + 1) =~= s@.subrange(lo as int, i as int).push(s@[i as int]));
        i = i + 1;
    }
    r
}

/// The bounds of the whitespace-separated tokens among the first `k`
/// bytes of `s`; a token that runs on past `k` ends at `k`.
pub open spec fn token_bounds(s: Seq<u8>, k: int) -> Seq<(int, int)>
    decreases k,
{
    if k <= 0 {
        seq![]
    } else {
        let t = token_bounds(s, k - 1);
        if is_space(s[k - 1]) {
            t
        } else if k - 1 > 0 && !is_space(s[k - 2]) && t.len() > 0 {
            t.update(t.len() - 1, (t.last().0, k))
        } else {
            t.push((k - 1, k))
        }
    }
}

proof fn lemma_token_bounds_shape(s: Seq<u8>, k: int)
    requires
        0 <= k <= s.len(),
    ensures
        k > 0 && !is_space(s[k - 1]) ==> token_bounds(s, k).len() > 0 && token_bounds(s, k).last().1 == k,
        forall|j: int| 0 <= j < token_bounds(s, k).len() ==> 0 <= #[trigger] token_bounds(s, k)[j].0 <= token_bounds(s, k)[j].1 <= k,
    decreases k,
{
    if k > 0 {
        lemma_token_bounds_shape(s, k - 1);
        let t = token_bounds(s, k - 1);
        let r = token_bounds(s, k);
        assert forall|j: int| 0 <= j < r.len() implies 0 <= #[trigger] r[j].0 <= r[j].1 <= k by {
            if j < t.len() && r[j] != t[j] {
                assert(j == t.len() - 1);
            }
        };
    }
}

/// The bounds of the first `want` tokens of a line.
fn first_tokens(s: &[u8], want: usize) -> (r: Vec<(usize, usize)>)
    ensures
        r@.len() == if token_bounds(s@, s@.len() as int).len() < want {
            token_bounds(s@, s@.len() as int).len() as int
        } else {
            want as int
        },
        forall|j: int| 0 <= j < r@.len() ==> (r@[j].0 as int, r@[j].1 as int) == #[trigger] token_bounds(s@, s@.len() as int)[j],
        forall|j: int| 0 <= j < r@.len() ==> (#[trigger] r@[j]).0 <= r@[j].1 <= s@.len(),
{
    let mut toks: Vec<(usize, usize)> = Vec::new();
    let mut k: usize = 0;
    while k < s.len()
        invariant
            k <= s@.len(),
            toks@.len() == token_bounds(s@, k as int).len(),
            forall|j: int| 0 <= j < toks@.len() ==> (toks@[j].0 as int, toks@[j].1 as int) == #[trigger] token_bounds(s@, k as int)[j],
        decreases s@.len() - k,
    {
        proof {
            lemma_token_bounds_shape(s@, k as int);
        }
        let b = s[k];
        let space = b == 32 || b == 9 || b == 10 || b == 11 || b == 12 || b == 13;
        if !space {
            if k > 0 && !(s[k - 1] == 32 || s[k - 1] == 9 || s[k - 1] == 10 || s[k - 1] == 11 || s[k - 1] == 12 || s[k - 1] == 13) && toks.len() > 0 {
                let last = toks.len() - 1;
                let st = toks[last].0;
                toks.set(last, (st, k + 1));
            } else {
                toks.push((k, k + 1));
            }
        }
        k = k + 1;
    }
    proof {
        lemma_token_bounds_shape(s@, k as int);
    }
    let mut r: Vec<(usize, usize)> = Vec::new();
    let mut j: usize = 0;
    while j < toks.len() && j < want
        invariant
            j <= toks@.len(),
            j <= want,
            r@ == toks@.take(j as int),
            forall|i: int| 0 <= i < toks@.len() ==> (toks@[i].0 as int, toks@[i].1 as int) == #[trigger] token_bounds(s@, s@.len() as int)[i],
            toks@.len() == token_bounds(s@, s@.len() as int).len(),
            forall|i: int| 0 <= i < token_bounds(s@, s@.len() as int).len() ==> 0 <= #[trigger] token_bounds(s@, s@.len() as int)[i].0 <= token_bounds(s@, s@.len() as int)[i].1 <= s@.len(),
        decreases toks@.len() - j,
    {
        r.push(toks[j]);
        assert(toks@.take(j + 1) =~= toks@.take(j as int).push(toks@[j as int]));
        j = j + 1;
    }
    proof {
        assert forall|i: int| 0 <= i < r@.len() implies (#[trigger] r@[i]).0 <= r@[i].1 <= s@.len() by {
            assert(r@[i] == toks@[i]);
            assert((toks@[i].0 as int, toks@[i].1 as int) == token_bounds(s@, s@.len() as int)[i]);
        };
    }
    r
}

/// What scanning the dump has found: the indices of the text, data,
/// rodata and bss sections, and the sections of the symbols so far.
pub struct ScanView {
    pub text: Option<u64>,
    pub data: Option<u64>,
    pub rodata: Option<u64>,
    pub bss: Option<u64>,
    pub sections: Seq<LoadedSectionView>,
}

pub open spec fn dot_text() -> Seq<u8> {
    seq![46, 116, 101, 120, 116]
}

pub open spec fn dot_data() -> Seq<u8> {
    seq![46, 100, 97, 116, 97]
}

pub open spec fn dot_rodata() -> Seq<u8> {
    seq![46, 114, 111, 100, 97, 116, 97]
}

pub open spec fn dot_bss() -> Seq<u8> {
    seq![46, 98, 115, 115]
}

pub open spec fn progbits() -> Seq<u8> {
    seq![80, 82, 79, 71, 66, 73, 84, 83]
}

pub open spec fn nobits() -> Seq<u8> {
    seq![78, 79, 66, 73, 84, 83]
}

pub open spec fn global_word() -> Seq<u8> {
    seq![71, 76, 79, 66, 65, 76, 32]
}

/// The indices after reading a section-header line: a `PROGBITS` line
/// naming `.text`, `.rodata` or `.data` (tried in that order), or a
/// `NOBITS` line naming `.bss`, sets that section's index.
pub open spec fn note_section(st: ScanView, line: Seq<u8>) -> ScanView {
    if contains(line, dot_text()) && contains(line, progbits()) {
        ScanView { text: section_index_of(line), ..st }
    } else if contains(line, dot_rodata()) && contains(line, progbits()) {
        ScanView { rodata: section_index_of(line), ..st }
    } else if contains(line, dot_data()) && contains(line, progbits()) {
        ScanView { data: section_index_of(line), ..st }
    } else if contains(line, dot_bss()) && contains(line, nobits()) {
        ScanView { bss: section_index_of(line), ..st }
    } else {
        st
    }
}

/// The region of a symbol in section `ndx`, by the indices found so far.
pub open spec fn symbol_class(st: ScanView, ndx: u64) -> Option<SectionClass> {
    if st.text == Some(ndx) {
        Some(SectionClass::Text)
    } else if st.rodata == Some(ndx) {
        Some(SectionClass::Rodata)
    } else if st.data == Some(ndx) || st.bss == Some(ndx) {
        Some(SectionClass::Data)
    } else {
        None
    }
}

pub open spec fn token(line: Seq<u8>, j: int) -> Seq<u8> {
    let b = token_bounds(line, line.len() as int)[j];
    line.subrange(b.0, b.1)
}

/// The scan after a trimmed, non-empty line. A line with `GLOBAL ` is a
/// symbol: its columns 1, 2, 6 and 7 are its address (hexadecimal), its
/// size, its section index and its mangled name. A symbol whose index is
/// not a number is passed over; one in a text, rodata, data or bss
/// section becomes a global section.
#[verifier::opaque]
pub open spec fn scan_line(st: ScanView, line: Seq<u8>) -> Result<ScanView, LoadError> {
    let st1 = note_section(st, line);
    if !contains(line, global_word()) {
        Ok(st1)
    } else if token_bounds(line, line.len() as int).len() < 8 {
        Err(LoadError::MissingColumn)
    } else {
        match (number_of(token(line, 1), 16), number_of(token(line, 2), 10)) {
            (Some(va), Some(size)) => match number_of(token(line, 6), 10) {
                None => Ok(st1),
                Some(ndx) => match utf8_decode(token(line, 7)) {
                    None => Err(LoadError::InvalidUtf8),
                    Some(name) => match symbol_class(st1, ndx) {
                        None => Ok(st1),
                        Some(c) => Ok(
                            ScanView {
                                sections: st1.sections.push(
                                    LoadedSectionView {
                                        canonical_name: canonical_name_of(name),
                                        hash_suffix: hash_of(name),
                                        class: c,
                                        virtual_address: va,
                                        size_bytes: size,
                                        global: true,
                                        shndx: ndx as usize,
                                    },
                                ),
                                ..st1
                            },
                        ),
                    },
                },
            },
            _ => Err(LoadError::BadNumber),
        }
    }
}

/// The scan after a raw line: a line that is blank once trimmed changes
/// nothing.
#[verifier::opaque]
pub open spec fn scan_raw_line(st: ScanView, raw: Seq<u8>) -> Result<ScanView, LoadError> {
    if exists|lo: int, hi: int| trimmed(raw, lo, hi) {
        let (lo, hi) = choose|lo: int, hi: int| trimmed(raw, lo, hi);
        if lo == hi {
            Ok(st)
        } else {
            scan_line(st, raw.subrange(lo, hi))
        }
    } else {
        Ok(st)
    }
}

/// The scan after the first `k` bytes of `text`, with the start of the
/// line that is still open.
pub open spec fn scan_upto(text: Seq<u8>, k: int) -> Result<(ScanView, int), LoadError>
    decreases k,
{
    if k <= 0 {
        Ok((ScanView { text: None, data: None, rodata: None, bss: None, sections: seq![] }, 0))
    } else {
        match scan_upto(text, k - 1) {
            Err(e) => Err(e),
            Ok((st, start)) => if text[k - 1] == 10 {
                match scan_raw_line(st, text.subrange(start, k - 1)) {
                    Ok(st2) => Ok((st2, k)),
                    Err(e) => Err(e),
                }
            } else {
                Ok((st, start))
            },
        }
    }
}

/// The sections of the global symbols of a dump's text, or the first error.
pub open spec fn scan_text(text: Seq<u8>) -> Result<Seq<LoadedSectionView>, LoadError> {
    match scan_upto(text, text.len() as int) {
        Err(e) => Err(e),
        Ok((st, start)) => match scan_raw_line(st, text.subrange(start, text.len() as int)) {
            Ok(st2) => Ok(st2.sections),
            Err(e) => Err(e),
        },
    }
}

struct Scan {
    text: Option<u64>,
    data: Option<u64>,
    rodata: Option<u64>,
    bss: Option<u64>,
    sections: Vec<LoadedSection>,
}

spec fn scan_view(s: Scan) -> ScanView {
    ScanView { text: s.text, data: s.data, rodata: s.rodata, bss: s.bss, sections: views(s.sections@) }
}

fn word_text() -> (r: Vec<u8>) ensures r@ == dot_text() { vec![46, 116, 101, 120, 116] }

fn word_data() -> (r: Vec<u8>) ensures r@ == dot_data() { vec![46, 100, 97, 116, 97] }

fn word_rodata() -> (r: Vec<u8>) ensures r@ == dot_rodata() { vec![46, 114, 111, 100, 97, 116, 97] }

fn word_bss() -> (r: Vec<u8>) ensures r@ == dot_bss() { vec![46, 98, 115, 115] }

fn word_progbits() -> (r: Vec<u8>) ensures r@ == progbits() { vec![80, 82, 79, 71, 66, 73, 84, 83] }

fn word_nobits() -> (r: Vec<u8>) ensures r@ == nobits() { vec![78, 79, 66, 73, 84, 83] }

fn word_global() -> (r: Vec<u8>) ensures r@ == global_word() { vec![71, 76, 79, 66, 65, 76, 32] }

/// Reads a trimmed, non-empty line into the scan; see `scan_line`.
#[verifier::rlimit(80)]
fn read_line(st: &mut Scan, line: &[u8]) -> (r: Result<(), LoadError>)
    ensures
        match scan_line(scan_view(*old(st)), line@) {
            Ok(v) => r is Ok && scan_view(*final(st)) == v,
            Err(e) => r == Err::<(), LoadError>(e),
        },
{
    reveal(scan_line);
    let has_progbits = contains_bytes(line, word_progbits().as_slice());
    if contains_bytes(line, word_text().as_slice()) && has_progbits {
        st.text = get_section_index(line);
    } else if contains_bytes(line, word_rodata().as_slice()) && has_progbits {
        st.rodata = get_section_index(line);
    } else if contains_bytes(line, word_data().as_slice()) && has_progbits {
        st.data = get_section_index(line);
    } else if contains_bytes(line, word_bss().as_slice()) && contains_bytes(line, word_nobits().as_slice()) {
        st.bss = get_section_index(line);
    }
    assert(scan_view(*st) == note_section(scan_view(*old(st)), line@));
    if !contains_bytes(line, word_global().as_slice()) {
        return Ok(());
    }
    let toks = first_tokens(line, 8);
    if toks.len() < 8 {
        return Err(LoadError::MissingColumn);
    }
    assert forall|j: int| 0 <= j < 8 implies line@.subrange(toks@[j].0 as int, toks@[j].1 as int) == token(line@, j) by {
        assert((toks@[j].0 as int, toks@[j].1 as int) == token_bounds(line@, line@.len() as int)[j]);
    };
    let va_col = slice_of(line, toks[1].0, toks[1].1);
    let size_col = slice_of(line, toks[2].0, toks[2].1);
    let va = parse_number(va_col.as_slice(), 16);
    let size = parse_number(size_col.as_slice(), 10);
    if va.is_none() || size.is_none() {
        return Err(LoadError::BadNumber);
    }
    let ndx_col = slice_of(line, toks[6].0, toks[6].1);
    let ndx = match parse_number(ndx_col.as_slice(), 10) {
        Some(n) => n,
        None => return Ok(()),
    };
    let name_col = slice_of(line, toks[7].0, toks[7].1);
    let name = match decode_utf8(name_col.as_slice()) {
        Some(n) => n,
        None => return Err(LoadError::InvalidUtf8),
    };
    let class = if st.text == Some(ndx) {
        SectionClass::Text
    } else if st.rodata == Some(ndx) {
        SectionClass::Rodata
    } else if st.data == Some(ndx) || st.bss == Some(ndx) {
        SectionClass::Data
    } else {
        return Ok(());
    };
    let demangled = demangle_symbol(name.as_str());
    let ghost before = views(st.sections@);
    let sec = LoadedSection {
        canonical_name: demangled.full,
        hash_suffix: demangled.hash,
        class,
        virtual_address: va.unwrap(),
        size_bytes: size.unwrap(),
        global: true,
        shndx: ndx as usize,
    };
    st.sections.push(sec);
    assert(views(st.sections@) =~= before.push(sec@));
    Ok(())
}

/// Reads a raw line into the scan; see `scan_raw_line`.
fn read_raw_line(st: &mut Scan, text: &[u8], from: usize, to: usize) -> (r: Result<(), LoadError>)
    requires
        from <= to <= text@.len(),
    ensures
        match scan_raw_line(scan_view(*old(st)), text@.subrange(from as int, to as int)) {
            Ok(v) => r is Ok && scan_view(*final(st)) == v,
            Err(e) => r == Err::<(), LoadError>(e),
        },
{
    reveal(scan_raw_line);
    let ghost raw = text@.subrange(from as int, to as int);
    let (lo, hi) = trim_bounds(text, from, to);
    proof {
        assert(trimmed(raw, lo - from, hi - from));
        let (clo, chi) = choose|lo: int, hi: int| trimmed(raw, lo, hi);
        lemma_trimmed_unique(raw, lo - from, hi - from, clo, chi);
        assert(raw.subrange(clo, chi) =~= text@.subrange(lo as int, hi as int));
    }
    if lo == hi {
        return Ok(());
    }
    let line = slice_of(text, lo, hi);
    read_line(st, line.as_slice())
}

proof fn lemma_scan_err_stays(text: Seq<u8>, i: int, n: int)
    requires
        0 <= i <= n,
        scan_upto(text, i) is Err,
    ensures
        scan_upto(text, n) == scan_upto(text, i),
    decreases n - i,
{
    if i < n {
        lemma_scan_err_stays(text, i, n - 1);
    }
}

/// The global sections that a symbol dump lists; see `scan_text`.
pub fn scan_symbols(text: &[u8]) -> (r: Result<Vec<LoadedSection>, LoadError>)
    ensures
        match scan_text(text@) {
            Ok(v) => r is Ok && views(r.unwrap()@) == v,
            Err(e) => r == Err::<Vec<LoadedSection>, LoadError>(e),
        },
{
    let mut st = Scan { text: None, data: None, rodata: None, bss: None, sections: Vec::new() };
    let mut start: usize = 0;
    let mut k: usize = 0;
    assert(views(st.sections@) =~= Seq::<LoadedSectionView>::empty());
    assert(scan_view(st) == ScanView { text: None, data: None, rodata: None, bss: None, sections: seq![] });
    while k < text.len()
        invariant
            k <= text@.len(),
            start <= k,
            scan_upto(text@, k as int) == Ok::<(ScanView, int), LoadError>((scan_view(st), start as int)),
        decreases text@.len() - k,
    {
        if text[k] == 10 {
            match read_raw_line(&mut st, text, start, k) {
                Ok(()) => {},
                Err(e) => {
                    proof {
                        lemma_scan_err_stays(text@, k + 1, text@.len() as int);
                    }
                    return Err(e);
                },
            }
            start = k + 1;
        }
        k = k + 1;
    }
    match read_raw_line(&mut st, text, start, k) {
        Ok(()) => Ok(st.sections),
        Err(e) => Err(e),
    }
}

/// Whether `b` holds a zero byte.
pub open spec fn has_zero(b: Seq<u8>) -> bool {
    exists|i: int| 0 <= i < b.len() && b[i] == 0
}

/// What reading the first `size` bytes of `region` as a symbol dump
/// gives: the dump's last byte is taken as its terminator, and the text
/// before it must hold no zero byte and be UTF-8.
pub open spec fn dump_outcome(region: Seq<u8>, size: int) -> Result<Seq<LoadedSectionView>, LoadError> {
    if size > region.len() {
        Err(LoadError::OversizedInput)
    } else if size == 0 || has_zero(region.take(size - 1)) {
        Err(LoadError::BadTextTerminator)
    } else if utf8_decode(region.take(size - 1)) is None {
        Err(LoadError::InvalidUtf8)
    } else {
        scan_text(region.take(size - 1))
    }
}

/// Reads the symbol dump of the resident base image, held in the first
/// `size` bytes of `region`, into a crate named `nano_core` whose
/// sections are the dump's global symbols in text, rodata, data and bss
/// sections. The dump's last byte is overwritten with its terminator.
pub fn parse_nano_core_symbols(region: &mut Vec<u8>, size: usize) -> (r: Result<LoadedCrate, LoadError>)
    ensures
        match dump_outcome(old(region)@, size as int) {
            Ok(v) => r is Ok && views(r.unwrap().sections@) == v && r.unwrap().crate_name@ == seq![
                'n',
                'a',
                'n',
                'o',
                '_',
                'c',
                'o',
                'r',
                'e',
            ] && r.unwrap().regions@.len() == 0,
            Err(e) => r == Err::<LoadedCrate, LoadError>(e),
        },
        size as int > old(region)@.len() ==> final(region)@ == old(region)@,
        0 < size <= old(region)@.len() ==> final(region)@ == old(region)@.update(size - 1, 0u8),
{
    if size > region.len() {
        return Err(LoadError::OversizedInput);
    }
    if size == 0 {
        return Err(LoadError::BadTextTerminator);
    }
    region.set(size - 1, 0);
    assert(region@ == old(region)@.update(size - 1, 0u8));
    let ghost text = region@.take(size - 1);
    assert(text =~= old(region)@.take(size - 1));
    let body = slice_of(region.as_slice(), 0, size - 1);
    assert(body@ =~= text);
    let mut i: usize = 0;
    while i < body.len()
        invariant
            i <= body@.len(),
            body@ == text,
            text == old(region)@.take(size - 1),
            0 < size <= old(region)@.len(),
            region@ == old(region)@.update(size - 1, 0u8),
            forall|j: int| 0 <= j < i ==> body@[j] != 0,
        decreases body@.len() - i,
    {
        if body[i] == 0 {
            assert(has_zero(text));
            return Err(LoadError::BadTextTerminator);
        }
        i = i + 1;
    }
    if decode_utf8(body.as_slice()).is_none() {
        return Err(LoadError::InvalidUtf8);
    }
    let sections = match scan_symbols(body.as_slice()) {
        Ok(s) => s,
        Err(e) => return Err(e),
    };
    proof {
        reveal_strlit("nano_core");
    }
    let crate_name = String::from_str("nano_core");
    Ok(LoadedCrate { crate_name, sections, regions: Vec::new() })
}

} // verus!
