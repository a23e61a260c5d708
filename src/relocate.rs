//! Applying a module's relocations to its region bytes.
use vstd::prelude::*;
use vstd::arithmetic::div_mod::{lemma_mod_breakdown, lemma_mod_mod};
use crate::demangle::{canonical_name_of, demangle_symbol};
use crate::error::LoadError;
use crate::layout::PerClass;
use crate::object::{
    ObjectFile, Relocation, Section, SectionData, SectionType, Symbol, R_X86_64_32, R_X86_64_64,
    R_X86_64_PC32, R_X86_64_PC64, SHN_ABS, SHN_COMMON, SHN_HIOS, SHN_HIPROC, SHN_HIRESERVE,
    SHN_LOOS, SHN_LOPROC, SHN_LORESERVE, SHN_UNDEF, SHN_XINDEX,
};
use crate::placement::{splice, RegionBytes};
use crate::registry::{LoadedSection, LoadedSectionView, SectionClass, SymbolRegistry, views};
use crate::text::{has_prefix, starts_with};

verus! {

/// `256` to the power `w`.
pub open spec fn pow256(w: nat) -> nat
    decreases w,
{
    if w == 0 {
        1
    } else {
        256 * pow256((w - 1) as nat)
    }
}

/// The `w` low bytes of `v`, least significant first.
pub open spec fn le_bytes(v: nat, w: nat) -> Seq<u8>
    decreases w,
{
    if w == 0 {
        seq![]
    } else {
        seq![(v % 256) as u8] + le_bytes(v / 256, (w - 1) as nat)
    }
}

/// The number that little-endian bytes hold.
pub open spec fn read_le(s: Seq<u8>) -> nat
    decreases s.len(),
{
    if s.len() == 0 {
        0
    } else {
        s[0] as nat + 256 * read_le(s.skip(1))
    }
}

/// Reading back `w` little-endian bytes of `v` gives `v` modulo `256^w`.
pub proof fn lemma_read_le_bytes(v: nat, w: nat)
    ensures
        le_bytes(v, w).len() == w,
        read_le(le_bytes(v, w)) == v % pow256(w),
    decreases w,
{
    if w == 0 {
    } else {
        lemma_read_le_bytes(v / 256, (w - 1) as nat);
        let s = le_bytes(v, w);
        assert(s.skip(1) =~= le_bytes(v / 256, (w - 1) as nat));
        lemma_pow256_positive((w - 1) as nat);
        lemma_mod_breakdown(v as int, 256, pow256((w - 1) as nat) as int);
    }
}

proof fn lemma_pow256_positive(w: nat)
    ensures
        pow256(w) > 0,
    decreases w,
{
    if w > 0 {
        lemma_pow256_positive((w - 1) as nat);
    }
}

/// How many bytes a relocation type patches; 0 for a type not applied.
pub open spec fn reloc_width(typ: u32) -> nat {
    if typ == R_X86_64_64 || typ == R_X86_64_PC64 {
        8
    } else if typ == R_X86_64_32 || typ == R_X86_64_PC32 {
        4
    } else {
        0
    }
}

/// What a relocation writes, for source address `s`, addend `a` and
/// patched address `p`: `s + a`, or `s + a - p` for the relative types,
/// taken modulo `2^64` and then truncated to the type's width.
pub open spec fn reloc_value(typ: u32, s: int, a: int, p: int) -> int {
    if typ == R_X86_64_32 {
        (s + a) % 0x1_0000_0000
    } else if typ == R_X86_64_64 {
        (s + a) % 0x1_0000_0000_0000_0000
    } else if typ == R_X86_64_PC32 {
        (s + a - p) % 0x1_0000_0000
    } else {
        (s + a - p) % 0x1_0000_0000_0000_0000
    }
}

/// The bytes of the three regions, as sequences.
pub struct RegionSeqs {
    pub text: Seq<u8>,
    pub rodata: Seq<u8>,
    pub data: Seq<u8>,
}

impl RegionSeqs {
    pub open spec fn of(self, c: SectionClass) -> Seq<u8> {
        match c {
            SectionClass::Text => self.text,
            SectionClass::Rodata => self.rodata,
            SectionClass::Data => self.data,
        }
    }

    pub open spec fn set(self, c: SectionClass, s: Seq<u8>) -> RegionSeqs {
        match c {
            SectionClass::Text => RegionSeqs { text: s, ..self },
            SectionClass::Rodata => RegionSeqs { rodata: s, ..self },
            SectionClass::Data => RegionSeqs { data: s, ..self },
        }
    }
}

pub open spec fn seqs_of(b: RegionBytes) -> RegionSeqs {
    RegionSeqs { text: b.text@, rodata: b.rodata@, data: b.data@ }
}

/// A reserved or absolute section index, which the loader does not resolve.
pub open spec fn is_unsupported_shndx(x: u16) -> bool {
    x == SHN_LORESERVE || x == SHN_LOPROC || x == SHN_HIPROC || x == SHN_LOOS || x == SHN_HIOS
        || x == SHN_COMMON || x == SHN_XINDEX || x == SHN_HIRESERVE || x == SHN_ABS
}

/// The record, among `rs`, of the section with index `k`.
pub open spec fn find_record(rs: Seq<LoadedSectionView>, k: int) -> Option<LoadedSectionView>
    decreases rs.len(),
{
    if rs.len() == 0 {
        None
    } else if rs.last().shndx == k {
        Some(rs.last())
    } else {
        find_record(rs.drop_last(), k)
    }
}

/// The section that symbol `idx` stands for: a section of this module
/// where the symbol's section was loaded, else the section that the
/// registry holds under the symbol's demangled name.
pub open spec fn resolve(
    syms: Seq<Symbol>,
    records: Seq<LoadedSectionView>,
    reg: Map<Seq<char>, LoadedSectionView>,
    idx: u32,
) -> Result<LoadedSectionView, LoadError> {
    if idx >= syms.len() {
        Err(LoadError::BadSymbolIndex)
    } else {
        let sym = syms[idx as int];
        if is_unsupported_shndx(sym.shndx) {
            Err(LoadError::UnsupportedSymbolSection)
        } else {
            let local = if sym.shndx == SHN_UNDEF {
                None
            } else {
                find_record(records, sym.shndx as int)
            };
            match local {
                Some(r) => Ok(r),
                None => match sym.name {
                    None => Err(LoadError::MissingSymbolName),
                    Some(n) => {
                        let key = canonical_name_of(n@);
                        if reg.contains_key(key) {
                            Ok(reg[key])
                        } else {
                            Err(LoadError::UnresolvedExternalSymbol)
                        }
                    },
                },
            }
        }
    }
}

/// The regions after applying relocation `r` to the section `t`.
pub open spec fn apply_one(
    imgs: RegionSeqs,
    t: LoadedSectionView,
    r: Relocation,
    syms: Seq<Symbol>,
    records: Seq<LoadedSectionView>,
    reg: Map<Seq<char>, LoadedSectionView>,
    bases: PerClass,
) -> Result<RegionSeqs, LoadError> {
    match resolve(syms, records, reg, r.symbol_index) {
        Err(e) => Err(e),
        Ok(src) => {
            let w = reloc_width(r.typ);
            let off = t.virtual_address - bases.of(t.class) + r.offset;
            if w == 0 {
                Err(LoadError::UnsupportedRelocation)
            } else if t.virtual_address < bases.of(t.class) || off + w > imgs.of(t.class).len() {
                Err(LoadError::RelocationOutOfBounds)
            } else {
                let p = t.virtual_address + r.offset;
                let v = reloc_value(r.typ, src.virtual_address as int, r.addend as int, p);
                Ok(imgs.set(t.class, splice(imgs.of(t.class), off, le_bytes(v as nat, w))))
            }
        },
    }
}

/// The regions after applying the relocations `rs` in order.
pub open spec fn apply_entries(
    imgs: RegionSeqs,
    t: LoadedSectionView,
    rs: Seq<Relocation>,
    syms: Seq<Symbol>,
    records: Seq<LoadedSectionView>,
    reg: Map<Seq<char>, LoadedSectionView>,
    bases: PerClass,
) -> Result<RegionSeqs, LoadError>
    decreases rs.len(),
{
    if rs.len() == 0 {
        Ok(imgs)
    } else {
        match apply_entries(imgs, t, rs.drop_last(), syms, records, reg, bases) {
            Ok(m) => apply_one(m, t, rs.last(), syms, records, reg, bases),
            Err(e) => Err(e),
        }
    }
}

pub open spec fn rela_eh_frame() -> Seq<char> {
    seq!['.', 'r', 'e', 'l', 'a', '.', 'e', 'h', '_', 'f', 'r', 'a', 'm', 'e']
}

pub open spec fn rela_note() -> Seq<char> {
    seq!['.', 'r', 'e', 'l', 'a', '.', 'n', 'o', 't', 'e']
}

pub open spec fn rela_gcc() -> Seq<char> {
    seq!['.', 'r', 'e', 'l', 'a', '.', 'g', 'c', 'c']
}

pub open spec fn rela_debug() -> Seq<char> {
    seq!['.', 'r', 'e', 'l', 'a', '.', 'd', 'e', 'b', 'u', 'g']
}

/// Relocations for unwinding, notes, compiler data and debugging, which
/// the loader leaves out.
pub open spec fn is_skipped_rela(name: Seq<char>) -> bool {
    has_prefix(name, rela_eh_frame()) || has_prefix(name, rela_note()) || has_prefix(name, rela_gcc())
        || has_prefix(name, rela_debug())
}

/// The loaded section that relocation section `i` patches, where the
/// loader applies it: a non-empty relocation section, not of a skipped
/// family, whose target was loaded.
pub open spec fn rela_target(
    secs: Seq<Section>,
    records: Seq<LoadedSectionView>,
    i: int,
) -> Option<LoadedSectionView> {
    let s = secs[i];
    if s.typ != SectionType::Rela || s.size == 0 {
        None
    } else if s.name is Some && is_skipped_rela(s.name.unwrap()@) {
        None
    } else {
        find_record(records, s.info as int)
    }
}

/// The regions after the relocations of section `i`.
pub open spec fn apply_section(
    imgs: RegionSeqs,
    secs: Seq<Section>,
    i: int,
    syms: Seq<Symbol>,
    records: Seq<LoadedSectionView>,
    reg: Map<Seq<char>, LoadedSectionView>,
    bases: PerClass,
) -> Result<RegionSeqs, LoadError> {
    match rela_target(secs, records, i) {
        None => Ok(imgs),
        Some(t) => match secs[i].data {
            SectionData::Relocations(v) => apply_entries(imgs, t, v@, syms, records, reg, bases),
            _ => Err(LoadError::BadRelocationData),
        },
    }
}

/// The regions after the relocations of the first `n` sections.
pub open spec fn apply_sections(
    imgs: RegionSeqs,
    secs: Seq<Section>,
    n: int,
    syms: Seq<Symbol>,
    records: Seq<LoadedSectionView>,
    reg: Map<Seq<char>, LoadedSectionView>,
    bases: PerClass,
) -> Result<RegionSeqs, LoadError>
    decreases n,
{
    if n <= 0 {
        Ok(imgs)
    } else {
        match apply_sections(imgs, secs, n - 1, syms, records, reg, bases) {
            Ok(m) => apply_section(m, secs, n - 1, syms, records, reg, bases),
            Err(e) => Err(e),
        }
    }
}

/// The `w` low bytes of `v`, least significant first.
pub fn to_le_bytes(v: u64, w: usize) -> (r: Vec<u8>)
    requires
        w <= 8,
    ensures
        r@ == le_bytes(v as nat, w as nat),
{
    let mut r: Vec<u8> = Vec::new();
    let mut x: u64 = v;
    let mut k: usize = 0;
    while k < w
        invariant
            k <= w,
            r@ + le_bytes(x as nat, (w - k) as nat) == le_bytes(v as nat, w as nat),
        decreases w - k,
    {
        let ghost m = (w - k) as nat;
        assert(le_bytes(x as nat, m) == seq![(x as nat % 256) as u8] + le_bytes(
            x as nat / 256,
            (m - 1) as nat,
        ));
        let ghost prev = r@;
        r.push((x % 256) as u8);
        assert(r@ + le_bytes((x / 256) as nat, (m - 1) as nat) =~= prev + le_bytes(x as nat, m));
        x = x / 256;
        k = k + 1;
    }
    assert(le_bytes(x as nat, 0) =~= Seq::<u8>::empty());
    assert(r@ =~= r@ + le_bytes(x as nat, 0));
    r
}

/// The value a relocation writes, as the formula `reloc_value` gives it.
pub fn relocation_value(typ: u32, s: u64, a: u64, p: u64) -> (r: u64)
    requires
        reloc_width(typ) != 0,
    ensures
        r == reloc_value(typ, s as int, a as int, p as int),
{
    let sum = s.wrapping_add(a);
    assert(sum == (s + a) % 0x1_0000_0000_0000_0000);
    let v = if typ == R_X86_64_PC32 || typ == R_X86_64_PC64 {
        let d = sum.wrapping_sub(p);
        assert(d == (s + a - p) % 0x1_0000_0000_0000_0000);
        d
    } else {
        sum
    };
    if typ == R_X86_64_32 || typ == R_X86_64_PC32 {
        proof {
            lemma_mod_mod(s + a - if typ == R_X86_64_PC32 { p as int } else { 0 }, 0x1_0000_0000, 0x1_0000_0000);
        }
        v % 0x1_0000_0000
    } else {
        v
    }
}

/// The record, among `records`, of the section with index `k`.
fn find_loaded(records: &Vec<LoadedSection>, k: usize) -> (r: Option<usize>)
    ensures
        r is None ==> find_record(views(records@), k as int) is None,
        r is Some ==> r.unwrap() < records@.len() && find_record(views(records@), k as int) == Some(
            records@[r.unwrap() as int]@,
        ),
{
    let ghost s = views(records@);
    let mut j: usize = records.len();
    assert(s.take(j as int) =~= s);
    while j > 0
        invariant
            j <= records@.len(),
            s == views(records@),
            find_record(s, k as int) == find_record(s.take(j as int), k as int),
        decreases j,
    {
        assert(s.take(j as int).drop_last() =~= s.take(j - 1));
        if records[j - 1].shndx == k {
            return Some(j - 1);
        }
        j = j - 1;
    }
    assert(s.take(0) =~= Seq::<LoadedSectionView>::empty());
    None
}

fn is_unsupported(x: u16) -> (r: bool)
    ensures
        r == is_unsupported_shndx(x),
{
    x == SHN_LORESERVE || x == SHN_LOPROC || x == SHN_HIPROC || x == SHN_LOOS || x == SHN_HIOS
        || x == SHN_COMMON || x == SHN_XINDEX || x == SHN_HIRESERVE || x == SHN_ABS
}

/// The address of the section that symbol `idx` stands for; see `resolve`.
fn resolve_symbol(
    syms: &Vec<Symbol>,
    records: &Vec<LoadedSection>,
    registry: &SymbolRegistry,
    idx: u32,
) -> (r: Result<u64, LoadError>)
    ensures
        match resolve(syms@, views(records@), registry@, idx) {
            Ok(s) => r == Ok::<u64, LoadError>(s.virtual_address),
            Err(e) => r == Err::<u64, LoadError>(e),
        },
{
    if idx as usize >= syms.len() {
        return Err(LoadError::BadSymbolIndex);
    }
    let sym = &syms[idx as usize];
    if is_unsupported(sym.shndx) {
        return Err(LoadError::UnsupportedSymbolSection);
    }
    if sym.shndx != SHN_UNDEF {
        match find_loaded(records, sym.shndx as usize) {
            Some(j) => return Ok(records[j].virtual_address),
            None => {},
        }
    }
    match &sym.name {
        None => Err(LoadError::MissingSymbolName),
        Some(n) => {
            let demangled = demangle_symbol(n.as_str());
            match registry.get_symbol(demangled.full.as_str()) {
                Some(s) => Ok(s.virtual_address),
                None => Err(LoadError::UnresolvedExternalSymbol),
            }
        },
    }
}

/// Writes `bytes` into region `c` from `off` on.
fn patch(imgs: &mut RegionBytes, c: SectionClass, off: usize, bytes: &Vec<u8>)
    requires
        off + bytes@.len() <= old(imgs).of(c).len(),
    ensures
        seqs_of(*final(imgs)) == seqs_of(*old(imgs)).set(c, splice(old(imgs).of(c), off as int, bytes@)),
{
    match c {
        SectionClass::Text => crate::placement::copy_into(&mut imgs.text, off, bytes),
        SectionClass::Rodata => crate::placement::copy_into(&mut imgs.rodata, off, bytes),
        SectionClass::Data => crate::placement::copy_into(&mut imgs.data, off, bytes),
    }
}

/// Applies relocation `r` to section `t`; see `apply_one`.
fn apply_relocation(
    imgs: &mut RegionBytes,
    t: &LoadedSection,
    r: &Relocation,
    syms: &Vec<Symbol>,
    records: &Vec<LoadedSection>,
    registry: &SymbolRegistry,
    bases: &PerClass,
) -> (res: Result<(), LoadError>)
    requires
        forall|c: SectionClass| #[trigger] bases.of(c) + old(imgs).of(c).len() <= u64::MAX,
    ensures
        match apply_one(seqs_of(*old(imgs)), t@, *r, syms@, views(records@), registry@, *bases) {
            Ok(m) => res is Ok && seqs_of(*final(imgs)) == m,
            Err(e) => res == Err::<(), LoadError>(e),
        },
        forall|c: SectionClass| #[trigger] final(imgs).of(c).len() == old(imgs).of(c).len(),
{
    let src = match resolve_symbol(syms, records, registry, r.symbol_index) {
        Ok(a) => a,
        Err(e) => return Err(e),
    };
    let w: usize = if r.typ == R_X86_64_64 || r.typ == R_X86_64_PC64 {
        8
    } else if r.typ == R_X86_64_32 || r.typ == R_X86_64_PC32 {
        4
    } else {
        return Err(LoadError::UnsupportedRelocation);
    };
    let c = t.class;
    let base = bases.get(c);
    let len: u64 = match c {
        SectionClass::Text => imgs.text.len() as u64,
        SectionClass::Rodata => imgs.rodata.len() as u64,
        SectionClass::Data => imgs.data.len() as u64,
    };
    assert(len == imgs.of(c).len());
    if t.virtual_address < base {
        return Err(LoadError::RelocationOutOfBounds);
    }
    let start = t.virtual_address - base;
    if r.offset > len || start > len - r.offset || w as u64 > len - r.offset - start {
        return Err(LoadError::RelocationOutOfBounds);
    }
    let off = start + r.offset;
    let p = base + off;
    let v = relocation_value(r.typ, src, r.addend, p);
    proof {
        if r.typ == R_X86_64_32 || r.typ == R_X86_64_PC32 {
            assert(v < 0x1_0000_0000);
        }
    }
    let bytes = to_le_bytes(v, w);
    proof {
        lemma_read_le_bytes(v as nat, w as nat);
    }
    patch(imgs, c, off as usize, &bytes);
    Ok(())
}

proof fn lemma_entries_err_stays(
    imgs: RegionSeqs,
    t: LoadedSectionView,
    rs: Seq<Relocation>,
    j: int,
    syms: Seq<Symbol>,
    records: Seq<LoadedSectionView>,
    reg: Map<Seq<char>, LoadedSectionView>,
    bases: PerClass,
)
    requires
        0 <= j <= rs.len(),
        apply_entries(imgs, t, rs.take(j), syms, records, reg, bases) is Err,
    ensures
        apply_entries(imgs, t, rs, syms, records, reg, bases) == apply_entries(
            imgs,
            t,
            rs.take(j),
            syms,
            records,
            reg,
            bases,
        ),
    decreases rs.len() - j,
{
    if j < rs.len() {
        assert(rs.take(j + 1).drop_last() =~= rs.take(j));
        lemma_entries_err_stays(imgs, t, rs, j + 1, syms, records, reg, bases);
    } else {
        assert(rs.take(j) =~= rs);
    }
}

proof fn lemma_sections_err_stays(
    imgs: RegionSeqs,
    secs: Seq<Section>,
    j: int,
    n: int,
    syms: Seq<Symbol>,
    records: Seq<LoadedSectionView>,
    reg: Map<Seq<char>, LoadedSectionView>,
    bases: PerClass,
)
    requires
        0 <= j <= n,
        apply_sections(imgs, secs, j, syms, records, reg, bases) is Err,
    ensures
        apply_sections(imgs, secs, n, syms, records, reg, bases) == apply_sections(
            imgs,
            secs,
            j,
            syms,
            records,
            reg,
            bases,
        ),
    decreases n - j,
{
    if j < n {
        lemma_sections_err_stays(imgs, secs, j, n - 1, syms, records, reg, bases);
    }
}

/// Applies the relocations `rs` to section `t` in order; see `apply_entries`.
fn apply_entries_to(
    imgs: &mut RegionBytes,
    t: &LoadedSection,
    rs: &Vec<Relocation>,
    syms: &Vec<Symbol>,
    records: &Vec<LoadedSection>,
    registry: &SymbolRegistry,
    bases: &PerClass,
) -> (res: Result<(), LoadError>)
    requires
        forall|c: SectionClass| #[trigger] bases.of(c) + old(imgs).of(c).len() <= u64::MAX,
    ensures
        match apply_entries(seqs_of(*old(imgs)), t@, rs@, syms@, views(records@), registry@, *bases) {
            Ok(m) => res is Ok && seqs_of(*final(imgs)) == m,
            Err(e) => res == Err::<(), LoadError>(e),
        },
        forall|c: SectionClass| #[trigger] final(imgs).of(c).len() == old(imgs).of(c).len(),
{
    let ghost init = seqs_of(*imgs);
    let mut k: usize = 0;
    assert(rs@.take(0) =~= Seq::<Relocation>::empty());
    while k < rs.len()
        invariant
            k <= rs@.len(),
            forall|c: SectionClass| #[trigger] bases.of(c) + old(imgs).of(c).len() <= u64::MAX,
            forall|c: SectionClass| #[trigger] imgs.of(c).len() == old(imgs).of(c).len(),
            init == seqs_of(*old(imgs)),
            apply_entries(init, t@, rs@.take(k as int), syms@, views(records@), registry@, *bases)
                == Ok::<RegionSeqs, LoadError>(seqs_of(*imgs)),
        decreases rs@.len() - k,
    {
        assert(rs@.take(k + 1).drop_last() =~= rs@.take(k as int));
        let res = apply_relocation(imgs, t, &rs[k], syms, records, registry, bases);
        match res {
            Err(e) => {
                proof {
                    lemma_entries_err_stays(init, t@, rs@, k + 1, syms@, views(records@), registry@, *bases);
                }
                return Err(e);
            },
            Ok(()) => {},
        }
        k = k + 1;
    }
    assert(rs@.take(k as int) =~= rs@);
    Ok(())
}

fn is_skipped_rela_name(name: &str) -> (r: bool)
    ensures
        r == is_skipped_rela(name@),
{
    proof {
        reveal_strlit(".rela.eh_frame");
        reveal_strlit(".rela.note");
        reveal_strlit(".rela.gcc");
        reveal_strlit(".rela.debug");
        assert(".rela.eh_frame"@ =~= rela_eh_frame());
        assert(".rela.note"@ =~= rela_note());
        assert(".rela.gcc"@ =~= rela_gcc());
        assert(".rela.debug"@ =~= rela_debug());
    }
    starts_with(name, ".rela.eh_frame") || starts_with(name, ".rela.note") || starts_with(
        name,
        ".rela.gcc",
    ) || starts_with(name, ".rela.debug")
}

/// Applies the relocations of every section of `obj`, in the object's
/// order, to the regions; see `apply_sections`.
pub fn apply_relocations(
    obj: &ObjectFile,
    syms: &Vec<Symbol>,
    records: &Vec<LoadedSection>,
    registry: &SymbolRegistry,
    bases: &PerClass,
    imgs: &mut RegionBytes,
) -> (res: Result<(), LoadError>)
    requires
        forall|c: SectionClass| #[trigger] bases.of(c) + old(imgs).of(c).len() <= u64::MAX,
    ensures
        match apply_sections(
            seqs_of(*old(imgs)),
            obj.sections@,
            obj.sections@.len() as int,
            syms@,
            views(records@),
            registry@,
            *bases,
        ) {
            Ok(m) => res is Ok && seqs_of(*final(imgs)) == m,
            Err(e) => res == Err::<(), LoadError>(e),
        },
        forall|c: SectionClass| #[trigger] final(imgs).of(c).len() == old(imgs).of(c).len(),
{
    let ghost init = seqs_of(*imgs);
    let ghost secs = obj.sections@;
    let mut i: usize = 0;
    while i < obj.sections.len()
        invariant
            i <= secs.len(),
            secs == obj.sections@,
            forall|c: SectionClass| #[trigger] bases.of(c) + old(imgs).of(c).len() <= u64::MAX,
            forall|c: SectionClass| #[trigger] imgs.of(c).len() == old(imgs).of(c).len(),
            init == seqs_of(*old(imgs)),
            apply_sections(init, secs, i as int, syms@, views(records@), registry@, *bases) == Ok::<
                RegionSeqs,
                LoadError,
            >(seqs_of(*imgs)),
        decreases secs.len() - i,
    {
        let s = &obj.sections[i];
        let applies = s.typ == SectionType::Rela && s.size != 0 && match &s.name {
            Some(n) => !is_skipped_rela_name(n.as_str()),
            None => true,
        };
        if applies {
            match find_loaded(records, s.info as usize) {
                None => {},
                Some(j) => {
                    let res = match &s.data {
                        SectionData::Relocations(v) => apply_entries_to(
                            imgs,
                            &records[j],
                            v,
                            syms,
                            records,
                            registry,
                            bases,
                        ),
                        _ => Err(LoadError::BadRelocationData),
                    };
                    match res {
                        Err(e) => {
                            proof {
                                lemma_sections_err_stays(
                                    init,
                                    secs,
                                    i + 1,
                                    secs.len() as int,
                                    syms@,
                                    views(records@),
                                    registry@,
                                    *bases,
                                );
                            }
                            return Err(e);
                        },
                        Ok(()) => {},
                    }
                },
            }
        }
        i = i + 1;
    }
    Ok(())
}

/// Reading back the bytes that a relocation writes gives the value of
/// its formula: `s + a` or `s + a - p`, modulo `2^64`, truncated to the
/// relocation's width.
pub proof fn lemma_patch_reads_back(typ: u32, s: u64, a: u64, p: u64)
    requires
        reloc_width(typ) != 0,
    ensures
        read_le(le_bytes(reloc_value(typ, s as int, a as int, p as int) as nat, reloc_width(typ)))
            == reloc_value(typ, s as int, a as int, p as int),
{
    let v = reloc_value(typ, s as int, a as int, p as int);
    let w = reloc_width(typ);
    lemma_read_le_bytes(v as nat, w);
    assert(pow256(0) == 1);
    assert(pow256(1) == 0x100);
    assert(pow256(2) == 0x1_0000);
    assert(pow256(3) == 0x100_0000);
    assert(pow256(4) == 0x1_0000_0000);
    assert(pow256(5) == 0x100_0000_0000);
    assert(pow256(6) == 0x1_0000_0000_0000);
    assert(pow256(7) == 0x100_0000_0000_0000);
    assert(pow256(8) == 0x1_0000_0000_0000_0000);
    let m: int = if w == 4 { 0x1_0000_0000 } else { 0x1_0000_0000_0000_0000 };
    let x: int = if typ == R_X86_64_32 || typ == R_X86_64_64 { s + a } else { s + a - p };
    vstd::arithmetic::div_mod::lemma_mod_bound(x, m);
    vstd::arithmetic::div_mod::lemma_small_mod(v as nat, m as nat);
}

} // verus!
