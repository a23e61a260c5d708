//! Planning a module's memory: which sections are global, how many bytes
//! each region needs, and the checks that come before.
use vstd::prelude::*;
use crate::error::LoadError;
use crate::object::{
    find_first_section_by_type, ObjectFile, ObjectKind, Section, SectionData, SectionType, Symbol,
    SymbolBinding, SymbolType, SymbolVisibility, SHF_ALLOC, SHF_EXECINSTR, SHF_WRITE,
};
use crate::registry::SectionClass;
use crate::text::{has_prefix, starts_with};

verus! {

/// A value for each of the three regions.
#[derive(Clone, Copy, Debug, PartialEq, Eq, Structural)]
pub struct PerClass {
    pub text: u64,
    pub rodata: u64,
    pub data: u64,
}

impl PerClass {
    pub open spec fn of(self, c: SectionClass) -> u64 {
        match c {
            SectionClass::Text => self.text,
            SectionClass::Rodata => self.rodata,
            SectionClass::Data => self.data,
        }
    }

    pub fn get(&self, c: SectionClass) -> (r: u64)
        ensures
            r == self.of(c),
    {
        match c {
            SectionClass::Text => self.text,
            SectionClass::Rodata => self.rodata,
            SectionClass::Data => self.data,
        }
    }
}

/// The prefix that every module's name carries.
pub open spec fn module_prefix() -> Seq<char> {
    seq!['_', '_', 'k', '_']
}

/// The smallest multiple of `align` that is at least `size`; an
/// alignment of 0 or 1 asks for none.
pub open spec fn round_up(size: int, align: int) -> int {
    if align <= 1 || size % align == 0 {
        size
    } else {
        size - size % align + align
    }
}

/// Rounds `size` up to a multiple of `align`; `None` where the result
/// does not fit in 64 bits.
pub fn round_up_to(size: u64, align: u64) -> (r: Option<u64>)
    ensures
        r is Some <==> round_up(size as int, align as int) <= u64::MAX,
        r is Some ==> r.unwrap() == round_up(size as int, align as int),
{
    if align <= 1 {
        return Some(size);
    }
    let rem = size % align;
    assert(rem <= size) by (nonlinear_arith)
        requires
            rem == size % align,
            align > 1,
    ;
    if rem == 0 {
        Some(size)
    } else {
        (size - rem).checked_add(align)
    }
}

pub proof fn lemma_round_up_bounds(size: int, align: int)
    requires
        0 <= size,
        0 <= align,
    ensures
        size <= round_up(size, align),
        align > 1 ==> round_up(size, align) < size + align,
{
}

/// Whether a section takes room in a region: allocated program bits or
/// zero-filled bits, of non-zero size.
pub open spec fn is_planned(s: Section) -> bool {
    (s.typ == SectionType::ProgBits || s.typ == SectionType::NoBits) && s.size != 0 && s.flags
        & SHF_ALLOC != 0
}

/// The region a section's flags call for: executable to text, writable
/// to data, the rest to rodata.
pub open spec fn class_by_flags(flags: u64) -> SectionClass {
    if flags & SHF_EXECINSTR == SHF_EXECINSTR {
        SectionClass::Text
    } else if flags & SHF_WRITE == SHF_WRITE {
        SectionClass::Data
    } else {
        SectionClass::Rodata
    }
}

/// The bytes that section `s` needs in region `c`.
pub open spec fn planned_bytes(s: Section, c: SectionClass) -> int {
    if is_planned(s) && class_by_flags(s.flags) == c {
        round_up(s.size as int, s.align as int)
    } else {
        0
    }
}

/// The bytes that the sections need in region `c`.
pub open spec fn class_total(secs: Seq<Section>, c: SectionClass) -> int
    decreases secs.len(),
{
    if secs.len() == 0 {
        0
    } else {
        class_total(secs.drop_last(), c) + planned_bytes(secs.last(), c)
    }
}

/// Whether every region's total fits in 64 bits.
pub open spec fn totals_fit(secs: Seq<Section>) -> bool {
    &&& class_total(secs, SectionClass::Text) <= u64::MAX
    &&& class_total(secs, SectionClass::Rodata) <= u64::MAX
    &&& class_total(secs, SectionClass::Data) <= u64::MAX
}

/// A region's total grows with the sections counted.
pub proof fn lemma_class_total_monotone(secs: Seq<Section>, i: int, j: int, c: SectionClass)
    requires
        0 <= i <= j <= secs.len(),
    ensures
        0 <= class_total(secs.take(i), c) <= class_total(secs.take(j), c),
    decreases j,
{
    if j > 0 {
        assert(secs.take(j).drop_last() =~= secs.take(j - 1));
        lemma_round_up_bounds(secs[j - 1].size as int, secs[j - 1].align as int);
        if i < j {
            lemma_class_total_monotone(secs, i, j - 1, c);
        } else {
            lemma_class_total_monotone(secs, j - 1, j - 1, c);
        }
    } else {
        assert(secs.take(0) =~= Seq::<Section>::empty());
    }
}

fn add_planned(total: u64, s: &Section, c: SectionClass, bytes: u64) -> (r: Option<u64>)
    requires
        is_planned(*s) ==> bytes == round_up(s.size as int, s.align as int),
        !is_planned(*s) ==> bytes == 0,
    ensures
        r is Some <==> total + planned_bytes(*s, c) <= u64::MAX,
        r is Some ==> r.unwrap() == total + planned_bytes(*s, c),
{
    let exec = s.flags & SHF_EXECINSTR == SHF_EXECINSTR;
    let write = s.flags & SHF_WRITE == SHF_WRITE;
    let mine = match c {
        SectionClass::Text => exec,
        SectionClass::Data => !exec && write,
        SectionClass::Rodata => !exec && !write,
    };
    if mine {
        total.checked_add(bytes)
    } else {
        Some(total)
    }
}

/// How many bytes each region needs: for each region, the padded sizes
/// of the sections that its flags send there, added up. `None` where a
/// total does not fit in 64 bits.
pub fn plan_sizes(secs: &Vec<Section>) -> (r: Option<PerClass>)
    ensures
        r is Some <==> totals_fit(secs@),
        r is Some ==> forall|c: SectionClass| #[trigger] r.unwrap().of(c) == class_total(secs@, c),
{
    let mut text: u64 = 0;
    let mut rodata: u64 = 0;
    let mut data: u64 = 0;
    let mut i: usize = 0;
    while i < secs.len()
        invariant
            i <= secs@.len(),
            text == class_total(secs@.take(i as int), SectionClass::Text),
            rodata == class_total(secs@.take(i as int), SectionClass::Rodata),
            data == class_total(secs@.take(i as int), SectionClass::Data),
        decreases secs@.len() - i,
    {
        let s = &secs[i];
        assert(secs@.take(i + 1).drop_last() =~= secs@.take(i as int));
        let planned = (s.typ == SectionType::ProgBits || s.typ == SectionType::NoBits) && s.size
            != 0 && s.flags & SHF_ALLOC != 0;
        let bytes: u64 = if planned {
            match round_up_to(s.size, s.align) {
                Some(b) => b,
                None => {
                    proof {
                        lemma_round_up_bounds(s.size as int, s.align as int);
                        lemma_class_total_monotone(secs@, i + 1, secs@.len() as int, class_by_flags(s.flags));
                        assert(secs@.take(secs@.len() as int) =~= secs@);
                    }
                    return None;
                },
            }
        } else {
            0
        };
        let t = add_planned(text, s, SectionClass::Text, bytes);
        let ro = add_planned(rodata, s, SectionClass::Rodata, bytes);
        let d = add_planned(data, s, SectionClass::Data, bytes);
        if t.is_none() || ro.is_none() || d.is_none() {
            proof {
                lemma_class_total_monotone(secs@, i + 1, secs@.len() as int, SectionClass::Text);
                lemma_class_total_monotone(secs@, i + 1, secs@.len() as int, SectionClass::Rodata);
                lemma_class_total_monotone(secs@, i + 1, secs@.len() as int, SectionClass::Data);
                assert(secs@.take(secs@.len() as int) =~= secs@);
            }
            return None;
        }
        text = t.unwrap();
        rodata = ro.unwrap();
        data = d.unwrap();
        i = i + 1;
    }
    assert(secs@.take(i as int) =~= secs@);
    let r = PerClass { text, rodata, data };
    assert forall|c: SectionClass| #[trigger] r.of(c) == class_total(secs@, c) by {
        match c {
            SectionClass::Text => {},
            SectionClass::Rodata => {},
            SectionClass::Data => {},
        }
    };
    Some(r)
}

/// Whether a symbol makes its section visible outside: a function or
/// an object, of default visibility and global binding.
pub open spec fn is_global_symbol(s: Symbol) -> bool {
    (s.typ == SymbolType::Func || s.typ == SymbolType::Object) && s.visibility
        == SymbolVisibility::Default && s.binding == SymbolBinding::Global
}

/// Whether some global symbol lies in section `shndx`.
pub open spec fn is_global_section(syms: Seq<Symbol>, shndx: int) -> bool {
    exists|i: int| 0 <= i < syms.len() && is_global_symbol(syms[i]) && syms[i].shndx == shndx
}

/// The indices of the sections that hold a global symbol.
pub fn global_sections(syms: &Vec<Symbol>) -> (r: Vec<u16>)
    ensures
        forall|k: u16| r@.contains(k) <==> is_global_section(syms@, k as int),
{
    let mut r: Vec<u16> = Vec::new();
    let mut i: usize = 0;
    while i < syms.len()
        invariant
            i <= syms@.len(),
            forall|k: u16|
                r@.contains(k) <==> exists|j: int|
                    0 <= j < i && is_global_symbol(syms@[j]) && syms@[j].shndx == k,
        decreases syms@.len() - i,
    {
        let s = &syms[i];
        let g = (s.typ == SymbolType::Func || s.typ == SymbolType::Object) && s.visibility
            == SymbolVisibility::Default && s.binding == SymbolBinding::Global;
        let ghost before = r@;
        if g {
            r.push(s.shndx);
        }
        assert forall|k: u16|
            r@.contains(k) <==> exists|j: int|
                0 <= j < i + 1 && is_global_symbol(syms@[j]) && syms@[j].shndx == k by {
            if r@.contains(k) && !before.contains(k) {
                let j = i as int;
                assert(0 <= j < i + 1 && is_global_symbol(syms@[j]) && syms@[j].shndx == k);
            }
            if exists|j: int| 0 <= j < i + 1 && is_global_symbol(syms@[j]) && syms@[j].shndx == k {
                let j = choose|j: int| 0 <= j < i + 1 && is_global_symbol(syms@[j]) && syms@[j].shndx == k;
                if j < i {
                    assert(before.contains(k));
                    let t = choose|t: int| 0 <= t < before.len() && before[t] == k;
                    assert(r@[t] == k);
                } else {
                    assert(r@[r@.len() - 1] == k);
                }
            }
        };
        i = i + 1;
    }
    r
}

/// Whether `shndx` is among the global sections.
pub fn contains_index(globals: &Vec<u16>, shndx: usize) -> (r: bool)
    ensures
        r <==> exists|k: u16| globals@.contains(k) && k as int == shndx as int,
{
    let mut i: usize = 0;
    while i < globals.len()
        invariant
            i <= globals@.len(),
            forall|j: int| 0 <= j < i ==> globals@[j] as int != shndx as int,
        decreases globals@.len() - i,
    {
        if globals[i] as usize == shndx {
            assert(globals@.contains(globals@[i as int]));
            return true;
        }
        i = i + 1;
    }
    assert forall|k: u16| globals@.contains(k) implies k as int != shndx as int by {
        let t = choose|t: int| 0 <= t < globals@.len() && globals@[t] == k;
    };
    false
}

/// Whether section `i` is the first of the object's symbol tables.
pub open spec fn is_first_symtab(secs: Seq<Section>, i: int) -> bool {
    0 <= i < secs.len() && secs[i].typ == SectionType::SymTab && forall|j: int|
        0 <= j < i ==> secs[j].typ != SectionType::SymTab
}

/// The entries of the object's first symbol table, where it has one and
/// its contents are symbols.
pub open spec fn symbols_of(secs: Seq<Section>) -> Option<Seq<Symbol>> {
    if exists|i: int| is_first_symtab(secs, i) {
        match secs[choose|i: int| is_first_symtab(secs, i)].data {
            SectionData::Symbols(v) => Some(v@),
            _ => None,
        }
    } else {
        None
    }
}

/// The first symbol table's index, where it holds symbols.
pub fn symbol_table_index(obj: &ObjectFile) -> (r: Option<usize>)
    ensures
        r is Some <==> symbols_of(obj.sections@) is Some,
        r is Some ==> is_first_symtab(obj.sections@, r.unwrap() as int),
{
    match find_first_section_by_type(obj, SectionType::SymTab) {
        Some(i) => {
            assert(is_first_symtab(obj.sections@, i as int));
            assert forall|j: int| is_first_symtab(obj.sections@, j) implies j == i by {
                if j < i {
                    assert(obj.sections@[j].typ != SectionType::SymTab);
                }
                if j > i {
                    assert(obj.sections@[i as int].typ != SectionType::SymTab);
                }
            };
            match &obj.sections[i].data {
                SectionData::Symbols(_) => Some(i),
                _ => None,
            }
        },
        None => {
            assert(!exists|i: int| is_first_symtab(obj.sections@, i));
            None
        },
    }
}

/// The first failed check of a module before its memory is planned:
/// its name, the object's type, its symbol table.
pub open spec fn precheck_error(obj: ObjectFile, module_name: Seq<char>) -> Option<LoadError> {
    if !has_prefix(module_name, module_prefix()) {
        Some(LoadError::BadModuleName)
    } else if obj.kind != ObjectKind::Relocatable {
        Some(LoadError::WrongObjectKind)
    } else if symbols_of(obj.sections@) is None {
        Some(LoadError::StrippedObject)
    } else {
        None
    }
}

/// Checks the module's name, the object's type and its symbol table;
/// returns the symbol table's index.
pub fn precheck(obj: &ObjectFile, module_name: &str) -> (r: Result<usize, LoadError>)
    ensures
        r is Err <==> precheck_error(*obj, module_name@) is Some,
        r is Err ==> r == Err::<usize, LoadError>(precheck_error(*obj, module_name@).unwrap()),
        r is Ok ==> is_first_symtab(obj.sections@, r.unwrap() as int) && symbols_of(
            obj.sections@,
        ) is Some,
{
    proof {
        reveal_strlit("__k_");
        assert("__k_"@ =~= module_prefix());
    }
    if !starts_with(module_name, "__k_") {
        return Err(LoadError::BadModuleName);
    }
    if obj.kind != ObjectKind::Relocatable {
        return Err(LoadError::WrongObjectKind);
    }
    match symbol_table_index(obj) {
        Some(i) => Ok(i),
        None => Err(LoadError::StrippedObject),
    }
}

/// How many bytes each region of a module needs, after the checks of
/// `precheck`: for each region, the padded sizes of its sections added
/// up. A total that does not fit in 64 bits is `SizeOverflow`.
pub fn plan_regions(obj: &ObjectFile, module_name: &str) -> (r: Result<PerClass, LoadError>)
    ensures
        precheck_error(*obj, module_name@) is Some ==> r == Err::<PerClass, LoadError>(
            precheck_error(*obj, module_name@).unwrap(),
        ),
        precheck_error(*obj, module_name@) is None && !totals_fit(obj.sections@) ==> r == Err::<
            PerClass,
            LoadError,
        >(LoadError::SizeOverflow),
        precheck_error(*obj, module_name@) is None && totals_fit(obj.sections@) ==> r is Ok,
        r is Ok ==> forall|c: SectionClass| #[trigger] r.unwrap().of(c) == class_total(
            obj.sections@,
            c,
        ),
{
    match precheck(obj, module_name) {
        Err(e) => Err(e),
        Ok(_) => match plan_sizes(&obj.sections) {
            Some(p) => Ok(p),
            None => Err(LoadError::SizeOverflow),
        },
    }
}

} // verus!
