//! Demangling of symbol names into a canonical name and a hash suffix.
use vstd::prelude::*;

verus! {

/// What `rustc_demangle` renders for a symbol in its alternate form,
/// which leaves out the trailing hash.
pub uninterp spec fn rendered_without_hash(s: Seq<char>) -> Seq<char>;

/// What `rustc_demangle` renders for a symbol in its plain form, which
/// keeps the trailing hash.
pub uninterp spec fn rendered_with_hash(s: Seq<char>) -> Seq<char>;

/// Relies on `rustc_demangle::demangle` and its `Display` impl with the
/// alternate flag: a rendering that depends on the symbol alone.
#[verifier::external_body]
fn render_without_hash(s: &str) -> (r: String)
    ensures
        r@ == rendered_without_hash(s@),
{
    format!("{:#}", rustc_demangle::demangle(s))
}

/// Relies on `rustc_demangle::demangle` and its plain `Display` impl: a
/// rendering that depends on the symbol alone.
#[verifier::external_body]
fn render_with_hash(s: &str) -> (r: String)
    ensures
        r@ == rendered_with_hash(s@),
{
    format!("{}", rustc_demangle::demangle(s))
}

/// A demangled symbol, e.g. `my_crate::module::func_name`. Where the
/// symbol was not mangled, `full` is the symbol itself.
#[derive(Debug)]
pub struct DemangledSymbol {
    /// The fully-qualified name without the hash.
    pub full: String,
    /// The hash, where the symbol carried one.
    pub hash: Option<String>,
}

/// Whether `pat` occurs in `hay` at position `i`.
pub open spec fn occurs_at(hay: Seq<char>, pat: Seq<char>, i: int) -> bool {
    0 <= i && i + pat.len() <= hay.len() && hay.subrange(i, i + pat.len()) == pat
}

/// The first position at which `pat` occurs in `hay`.
pub open spec fn first_occurrence(hay: Seq<char>, pat: Seq<char>) -> int {
    choose|i: int| occurs_at(hay, pat, i) && forall|j: int| 0 <= j < i ==> !occurs_at(hay, pat, j)
}

/// The position where the hash starts: after the first occurrence of
/// the canonical name and a two-character separator.
pub open spec fn hash_start(full: Seq<char>, canonical: Seq<char>) -> int {
    first_occurrence(full, canonical) + 2 + canonical.len()
}

/// The hash that the rendering `full` adds to `canonical`: what follows
/// the canonical name and a two-character separator.
pub open spec fn hash_suffix(full: Seq<char>, canonical: Seq<char>) -> Option<Seq<char>> {
    if (exists|i: int| occurs_at(full, canonical, i)) && hash_start(full, canonical) <= full.len() {
        Some(full.skip(hash_start(full, canonical)))
    } else {
        None
    }
}

/// Whether `pat` occurs in `hay` at position `i`.
fn matches_at(hay: &str, pat: &str, i: usize) -> (r: bool)
    requires
        i + pat@.len() <= hay@.len(),
    ensures
        r == occurs_at(hay@, pat@, i as int),
{
    let m = pat.unicode_len();
    let n = hay.unicode_len();
    let mut k: usize = 0;
    while k < m
        invariant
            m == pat@.len(),
            n == hay@.len(),
            i + m <= hay@.len(),
            k <= m,
            forall|t: int| 0 <= t < k ==> hay@[i + t] == pat@[t],
        decreases m - k,
    {
        if hay.get_char(i + k) != pat.get_char(k) {
            assert(hay@.subrange(i as int, i + m)[k as int] != pat@[k as int]);
            return false;
        }
        k = k + 1;
    }
    assert(hay@.subrange(i as int, i + m) =~= pat@);
    true
}

/// The hash of `full` beyond `canonical`; see `hash_suffix`.
pub fn split_hash(full: &str, canonical: &str) -> (r: Option<String>)
    ensures
        opt_view(r) == hash_suffix(full@, canonical@),
{
    let n = full.unicode_len();
    let m = canonical.unicode_len();
    if m > n {
        assert(forall|i: int| !occurs_at(full@, canonical@, i));
        return None;
    }
    if m == 0 {
        assert(full@.subrange(0, 0) =~= canonical@);
        assert(occurs_at(full@, canonical@, 0));
        assert(first_occurrence(full@, canonical@) == 0);
        if n >= 2 {
            let h = full.substring_char(2, n);
            assert(full@.subrange(2, n as int) =~= full@.skip(2));
            return Some(String::from_str(h));
        } else {
            return None;
        }
    }
    let mut i: usize = 0;
    while i < n - m + 1
        invariant
            n == full@.len(),
            m == canonical@.len(),
            1 <= m <= n,
            i <= n - m + 1,
            forall|j: int| 0 <= j < i ==> !occurs_at(full@, canonical@, j),
        decreases n - m + 1 - i,
    {
        let found = matches_at(full, canonical, i);
        if found {
            assert(occurs_at(full@, canonical@, i as int));
            let ghost f = first_occurrence(full@, canonical@);
            assert(f == i) by {
                if f < i {
                    assert(!occurs_at(full@, canonical@, f));
                } else if f > i {
                }
            };
            if n >= 2 && i + m <= n - 2 {
                let h = full.substring_char(i + 2 + m, n);
                assert(full@.subrange(i + 2 + m, n as int) =~= full@.skip(i + 2 + m));
                return Some(String::from_str(h));
            } else {
                return None;
            }
        }
        i = i + 1;
    }
    assert forall|j: int| !occurs_at(full@, canonical@, j) by {
        if 0 <= j && j < i {
        }
    };
    None
}

pub open spec fn opt_view(s: Option<String>) -> Option<Seq<char>> {
    match s {
        Some(t) => Some(t@),
        None => None,
    }
}

/// The canonical name of a symbol: its rendering without the hash.
pub open spec fn canonical_name_of(s: Seq<char>) -> Seq<char> {
    rendered_without_hash(s)
}

/// The hash suffix of a symbol, derived from its two renderings.
pub open spec fn hash_of(s: Seq<char>) -> Option<Seq<char>> {
    hash_suffix(rendered_with_hash(s), rendered_without_hash(s))
}

/// Demangles `s` into its canonical name and its hash.
pub fn demangle_symbol(s: &str) -> (r: DemangledSymbol)
    ensures
        r.full@ == canonical_name_of(s@),
        opt_view(r.hash) == hash_of(s@),
{
    let without_hash = render_without_hash(s);
    let with_hash = render_with_hash(s);
    let hash = split_hash(with_hash.as_str(), without_hash.as_str());
    DemangledSymbol { full: without_hash, hash }
}

proof fn lemma_first_occurrence(hay: Seq<char>, pat: Seq<char>, i: int)
    requires
        occurs_at(hay, pat, i),
    ensures
        occurs_at(hay, pat, first_occurrence(hay, pat)),
        forall|j: int| 0 <= j < first_occurrence(hay, pat) ==> !occurs_at(hay, pat, j),
        first_occurrence(hay, pat) <= i,
    decreases i,
{
    if exists|j: int| 0 <= j < i && occurs_at(hay, pat, j) {
        let j = choose|j: int| 0 <= j < i && occurs_at(hay, pat, j);
        lemma_first_occurrence(hay, pat, j);
    } else {
        let f = first_occurrence(hay, pat);
        if f > i {
            assert(!occurs_at(hay, pat, i));
        }
    }
}

/// A hash comes after the canonical name and a two-character separator:
/// the rendering with the hash is some text, the canonical name, the
/// separator and the hash. Where the rendering begins with the canonical
/// name and `::`, the canonical name, `::` and the hash rebuild it.
pub proof fn lemma_hash_rebuilds_rendering(full: Seq<char>, canonical: Seq<char>)
    requires
        hash_suffix(full, canonical) is Some,
    ensures
        ({
            let h = hash_suffix(full, canonical).unwrap();
            let f = first_occurrence(full, canonical);
            &&& 0 <= f
            &&& full == full.take(f) + canonical + full.subrange(f + canonical.len(), f
                + canonical.len() + 2) + h
            &&& (has_prefix_sep(full, canonical) ==> full == canonical + seq![':', ':'] + h)
        }),
{
    let h = hash_suffix(full, canonical).unwrap();
    let w = choose|i: int| occurs_at(full, canonical, i);
    lemma_first_occurrence(full, canonical, w);
    let f = first_occurrence(full, canonical);
    let l = canonical.len() as int;
    assert(full.subrange(f, f + l) == canonical);
    let a = full.take(f);
    let sep = full.subrange(f + l, f + l + 2);
    assert(h == full.skip(f + l + 2));
    assert(full =~= a + canonical + sep + h);
    if has_prefix_sep(full, canonical) {
        assert(occurs_at(full, canonical, 0)) by {
            assert(full.subrange(0, l) =~= full.take(l + 2).take(l));
            assert((canonical + seq![':', ':']).take(l) =~= canonical);
        };
        lemma_first_occurrence(full, canonical, 0);
        assert(a =~= Seq::<char>::empty());
        assert(sep =~= full.take(l + 2).skip(l));
        assert((canonical + seq![':', ':']).skip(l) =~= seq![':', ':']);
        assert(full =~= canonical + seq![':', ':'] + h);
    }
}

/// Whether `full` begins with `canonical` followed by `::`.
pub open spec fn has_prefix_sep(full: Seq<char>, canonical: Seq<char>) -> bool {
    let p = canonical + seq![':', ':'];
    p.len() <= full.len() && full.take(p.len() as int) == p
}

} // verus!
