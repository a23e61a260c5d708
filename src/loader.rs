//! Loading a relocatable module: the phases put together, the page
//! permissions of each region, and what holds of a load.
use vstd::prelude::*;
use crate::error::LoadError;
use crate::layout::{
    class_total, global_sections, plan_sizes, precheck, precheck_error, symbols_of, totals_fit,
    PerClass,
};
use crate::object::{ObjectFile, SectionData, Symbol};
use crate::placement::{
    first_error, is_loaded, named_class, occupies, place_sections, placed_bytes, placed_offset,
    record_of, records_upto, region_fill, sec_name, RegionBytes,
};
use crate::registry::{
    publish_all, LoadedCrate, LoadedSectionView, RegionImage, SectionClass, SymbolRegistry, views,
};
use crate::relocate::{apply_relocations, apply_sections, seqs_of, RegionSeqs};
use crate::text::skip_chars;

verus! {

/// The permissions of a region's pages.
#[derive(Clone, Copy, Debug, PartialEq, Eq, Structural)]
pub struct PageFlags {
    pub present: bool,
    pub writable: bool,
    pub no_execute: bool,
}

/// The permissions under which a region is filled and relocated.
pub fn loading_permissions() -> (r: PageFlags)
    ensures
        r == (PageFlags { present: true, writable: true, no_execute: false }),
{
    PageFlags { present: true, writable: true, no_execute: false }
}

/// The permissions a region keeps once loaded: text executable and
/// read-only, rodata read-only and not executable, data writable and not
/// executable.
pub fn final_permissions(c: SectionClass) -> (r: PageFlags)
    ensures
        r.present,
        r.writable <==> c == SectionClass::Data,
        !r.no_execute <==> c == SectionClass::Text,
{
    match c {
        SectionClass::Text => PageFlags { present: true, writable: false, no_execute: false },
        SectionClass::Rodata => PageFlags { present: true, writable: false, no_execute: true },
        SectionClass::Data => PageFlags { present: true, writable: true, no_execute: true },
    }
}

/// The bytes each region needs.
pub open spec fn region_sizes(obj: ObjectFile) -> PerClass {
    PerClass {
        text: class_total(obj.sections@, SectionClass::Text) as u64,
        rodata: class_total(obj.sections@, SectionClass::Rodata) as u64,
        data: class_total(obj.sections@, SectionClass::Data) as u64,
    }
}

/// Whether regions of these sizes at these bases fit in memory.
pub open spec fn bases_fit(sizes: PerClass, bases: PerClass) -> bool {
    &&& sizes.text <= usize::MAX && bases.text + sizes.text <= u64::MAX
    &&& sizes.rodata <= usize::MAX && bases.rodata + sizes.rodata <= u64::MAX
    &&& sizes.data <= usize::MAX && bases.data + sizes.data <= u64::MAX
}

/// The regions once the sections are copied.
pub open spec fn filled_regions(obj: ObjectFile, sizes: PerClass) -> RegionSeqs {
    let n = obj.sections@.len() as int;
    RegionSeqs {
        text: region_fill(obj.sections@, SectionClass::Text, n, sizes.text as nat),
        rodata: region_fill(obj.sections@, SectionClass::Rodata, n, sizes.rodata as nat),
        data: region_fill(obj.sections@, SectionClass::Data, n, sizes.data as nat),
    }
}

/// What loading `obj` as `module_name` at `bases` gives: the records of
/// its sections and the final bytes of its regions, or the first error.
pub open spec fn load_outcome(
    obj: ObjectFile,
    module_name: Seq<char>,
    bases: PerClass,
    reg: Map<Seq<char>, LoadedSectionView>,
) -> Result<(Seq<LoadedSectionView>, RegionSeqs), LoadError> {
    let secs = obj.sections@;
    let n = secs.len() as int;
    let sizes = region_sizes(obj);
    if precheck_error(obj, module_name) is Some {
        Err(precheck_error(obj, module_name).unwrap())
    } else if !totals_fit(secs) || !bases_fit(sizes, bases) {
        Err(LoadError::SizeOverflow)
    } else if first_error(secs, sizes, n) is Some {
        Err(first_error(secs, sizes, n).unwrap())
    } else {
        let syms = symbols_of(secs).unwrap();
        let recs = records_upto(secs, syms, bases, n);
        match apply_sections(filled_regions(obj, sizes), secs, n, syms, recs, reg, bases) {
            Ok(m) => Ok((recs, m)),
            Err(e) => Err(e),
        }
    }
}

pub open spec fn image_view(r: RegionImage) -> (SectionClass, u64, Seq<u8>) {
    (r.class, r.base, r.bytes@)
}

/// The regions of a crate, in the order text, rodata, data, each only
/// where it has bytes.
pub open spec fn region_list(sizes: PerClass, bases: PerClass, m: RegionSeqs) -> Seq<
    (SectionClass, u64, Seq<u8>),
> {
    let t = if sizes.text > 0 {
        seq![(SectionClass::Text, bases.text, m.text)]
    } else {
        seq![]
    };
    let ro = if sizes.rodata > 0 {
        seq![(SectionClass::Rodata, bases.rodata, m.rodata)]
    } else {
        seq![]
    };
    let d = if sizes.data > 0 {
        seq![(SectionClass::Data, bases.data, m.data)]
    } else {
        seq![]
    };
    t + ro + d
}

fn push_region(regions: &mut Vec<RegionImage>, c: SectionClass, base: u64, bytes: Vec<u8>, size: u64)
    ensures
        final(regions)@.map_values(|r: RegionImage| image_view(r)) == old(regions)@.map_values(
            |r: RegionImage| image_view(r),
        ) + if size > 0 {
            seq![(c, base, bytes@)]
        } else {
            seq![]
        },
{
    let ghost before = regions@;
    if size > 0 {
        regions.push(RegionImage { class: c, base, bytes });
        assert(regions@.map_values(|r: RegionImage| image_view(r)) =~= before.map_values(
            |r: RegionImage| image_view(r),
        ) + seq![(c, base, bytes@)]);
    } else {
        assert(regions@.map_values(|r: RegionImage| image_view(r)) =~= before.map_values(
            |r: RegionImage| image_view(r),
        ) + Seq::<(SectionClass, u64, Seq<u8>)>::empty());
    }
}

/// Loads the module `obj`, named `module_name`, into regions at `bases`
/// (text, rodata, data): checks it, places its sections, and applies its
/// relocations against its own sections and those of `registry`. The
/// registry is not changed; see `load_module` for publication.
pub fn parse_elf_kernel_crate(
    obj: &ObjectFile,
    module_name: &str,
    bases: &PerClass,
    registry: &SymbolRegistry,
) -> (r: Result<LoadedCrate, LoadError>)
    ensures
        match load_outcome(*obj, module_name@, *bases, registry@) {
            Ok((recs, m)) => r is Ok && views(r.unwrap().sections@) == recs && r.unwrap().crate_name@
                == module_name@.skip(4) && r.unwrap().regions@.map_values(
                |x: RegionImage| image_view(x),
            ) == region_list(region_sizes(*obj), *bases, m),
            Err(e) => r == Err::<LoadedCrate, LoadError>(e),
        },
{
    let symtab = match precheck(obj, module_name) {
        Ok(i) => i,
        Err(e) => return Err(e),
    };
    let sizes = match plan_sizes(&obj.sections) {
        Some(p) => p,
        None => return Err(LoadError::SizeOverflow),
    };
    assert(sizes == region_sizes(*obj)) by {
        assert(sizes.of(SectionClass::Text) == class_total(obj.sections@, SectionClass::Text));
        assert(sizes.of(SectionClass::Rodata) == class_total(obj.sections@, SectionClass::Rodata));
        assert(sizes.of(SectionClass::Data) == class_total(obj.sections@, SectionClass::Data));
    };
    if sizes.text > usize::MAX as u64 || sizes.rodata > usize::MAX as u64 || sizes.data
        > usize::MAX as u64 || bases.text > u64::MAX - sizes.text || bases.rodata > u64::MAX
        - sizes.rodata || bases.data > u64::MAX - sizes.data {
        return Err(LoadError::SizeOverflow);
    }
    let syms: &Vec<Symbol> = match &obj.sections[symtab].data {
        SectionData::Symbols(v) => v,
        _ => return Err(LoadError::StrippedObject),
    };
    assert(symbols_of(obj.sections@) == Some(syms@));
    let globals = global_sections(syms);
    assert forall|c: SectionClass| #[trigger] bases.of(c) + sizes.of(c) <= u64::MAX
        && sizes.of(c) <= usize::MAX by {
        match c {
            SectionClass::Text => {},
            SectionClass::Rodata => {},
            SectionClass::Data => {},
        }
    };
    let (sections, mut images) = match place_sections(obj, Ghost(syms@), &globals, &sizes, bases) {
        Ok(p) => p,
        Err(e) => return Err(e),
    };
    assert(seqs_of(images) == filled_regions(*obj, sizes)) by {
        assert(images.of(SectionClass::Text) == region_fill(obj.sections@, SectionClass::Text, obj.sections@.len() as int, sizes.of(SectionClass::Text) as nat));
        assert(images.of(SectionClass::Rodata) == region_fill(obj.sections@, SectionClass::Rodata, obj.sections@.len() as int, sizes.of(SectionClass::Rodata) as nat));
        assert(images.of(SectionClass::Data) == region_fill(obj.sections@, SectionClass::Data, obj.sections@.len() as int, sizes.of(SectionClass::Data) as nat));
    };
    assert forall|c: SectionClass| #[trigger] bases.of(c) + images.of(c).len() <= u64::MAX by {
        assert(images.of(c).len() == sizes.of(c));
    };
    match apply_relocations(obj, syms, &sections, registry, bases, &mut images) {
        Ok(()) => {},
        Err(e) => return Err(e),
    }
    proof {
        reveal_strlit("__k_");
    }
    let crate_name = skip_chars(module_name, 4);
    let mut regions: Vec<RegionImage> = Vec::new();
    let RegionBytes { text, rodata, data } = images;
    push_region(&mut regions, SectionClass::Text, bases.text, text, sizes.text);
    push_region(&mut regions, SectionClass::Rodata, bases.rodata, rodata, sizes.rodata);
    push_region(&mut regions, SectionClass::Data, bases.data, data, sizes.data);
    assert(Seq::<RegionImage>::empty().map_values(|x: RegionImage| image_view(x)) =~= Seq::<
        (SectionClass, u64, Seq<u8>),
    >::empty());
    Ok(LoadedCrate { crate_name, sections, regions })
}

/// Loads the module as `parse_elf_kernel_crate` does and, where that
/// succeeds, publishes its global sections in `registry`. A load that
/// fails leaves the registry as it was.
pub fn load_module(
    obj: &ObjectFile,
    module_name: &str,
    bases: &PerClass,
    registry: &mut SymbolRegistry,
) -> (r: Result<LoadedCrate, LoadError>)
    ensures
        match load_outcome(*obj, module_name@, *bases, old(registry)@) {
            Ok((recs, m)) => r is Ok && views(r.unwrap().sections@) == recs,
            Err(e) => r == Err::<LoadedCrate, LoadError>(e),
        },
        r is Err ==> final(registry)@ == old(registry)@,
        r is Ok ==> final(registry)@ == publish_all(old(registry)@, views(r.unwrap().sections@)),
{
    match parse_elf_kernel_crate(obj, module_name, bases, registry) {
        Ok(c) => {
            registry.publish(&c);
            Ok(c)
        },
        Err(e) => Err(e),
    }
}

/// Within a region, two sections that take room do not overlap: the
/// earlier one ends at or before the later one starts.
#[verifier::rlimit(60)]
pub proof fn lemma_placed_sections_disjoint(
    secs: Seq<crate::object::Section>,
    syms: Seq<Symbol>,
    bases: PerClass,
    a: int,
    b: int,
    c: SectionClass,
)
    requires
        0 <= a < b < secs.len(),
        occupies(secs, a, c),
        occupies(secs, b, c),
        bases.of(c) + placed_offset(secs, b, c) <= u64::MAX,
    ensures
        record_of(secs, syms, bases, a).virtual_address + record_of(secs, syms, bases, a).size_bytes
            <= record_of(secs, syms, bases, b).virtual_address,
{
    lemma_placed_offset_monotone(secs, a + 1, b, c);
    lemma_placed_offset_monotone(secs, 0, a, c);
    crate::layout::lemma_round_up_bounds(secs[a].size as int, secs[a].align as int);
    let oa = placed_offset(secs, a, c);
    let ob = placed_offset(secs, b, c);
    assert(oa + placed_bytes(secs, a, c) <= ob);
    assert(secs[a].size <= placed_bytes(secs, a, c));
    let ra = record_of(secs, syms, bases, a);
    let rb = record_of(secs, syms, bases, b);
    assert(ra.virtual_address == bases.of(c) + oa);
    assert(rb.virtual_address == bases.of(c) + ob);
    assert(ra.size_bytes == secs[a].size);
}

proof fn lemma_placed_offset_monotone(
    secs: Seq<crate::object::Section>,
    i: int,
    j: int,
    c: SectionClass,
)
    requires
        0 <= i <= j,
    ensures
        placed_offset(secs, i, c) <= placed_offset(secs, j, c),
    decreases j - i,
{
    if i < j {
        lemma_placed_offset_monotone(secs, i, j - 1, c);
        if occupies(secs, j - 1, c) {
            crate::layout::lemma_round_up_bounds(secs[j - 1].size as int, secs[j - 1].align as int);
        }
    }
}

/// A zero-sized section followed by a section of the same region stands
/// for that section: it has its address and its size.
#[verifier::rlimit(60)]
pub proof fn lemma_zero_sized_section_aliases_next(
    secs: Seq<crate::object::Section>,
    syms: Seq<Symbol>,
    bases: PerClass,
    a: int,
)
    requires
        0 <= a,
        a + 1 < secs.len(),
        is_loaded(secs, a),
        is_loaded(secs, a + 1),
        secs[a].size == 0,
        secs[a + 1].size != 0,
        named_class(sec_name(secs[a])) == named_class(sec_name(secs[a + 1])),
    ensures
        record_of(secs, syms, bases, a).virtual_address == record_of(
            secs,
            syms,
            bases,
            a + 1,
        ).virtual_address,
        record_of(secs, syms, bases, a).size_bytes == secs[a + 1].size,
        record_of(secs, syms, bases, a + 1).size_bytes == secs[a + 1].size,
{
    let c = named_class(sec_name(secs[a])).unwrap();
    assert(!occupies(secs, a, c));
    assert(placed_bytes(secs, a, c) == 0);
    assert(placed_offset(secs, a + 1, c) == placed_offset(secs, a, c));
    let ra = record_of(secs, syms, bases, a);
    let rb = record_of(secs, syms, bases, a + 1);
    assert(ra.virtual_address == (bases.of(c) + placed_offset(secs, a, c)) as u64);
    assert(rb.virtual_address == (bases.of(c) + placed_offset(secs, a + 1, c)) as u64);
}

} // verus!
