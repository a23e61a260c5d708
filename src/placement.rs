//! Placing a module's sections in their regions: the record of each
//! loaded section, and the bytes of each region before relocation.
use vstd::prelude::*;
use crate::demangle::{canonical_name_of, demangle_symbol, hash_of};
use crate::error::LoadError;
use crate::layout::{
    class_by_flags, class_total, contains_index, is_global_section, is_planned, lemma_round_up_bounds,
    round_up, round_up_to, PerClass,
};
use crate::object::{ObjectFile, Section, SectionData, SectionType, Symbol};
use crate::registry::{LoadedSection, LoadedSectionView, SectionClass, views};
use crate::text::{has_prefix, skip_chars, starts_with};

verus! {

pub open spec fn text_prefix() -> Seq<char> {
    seq!['.', 't', 'e', 'x', 't', '.']
}

pub open spec fn rodata_prefix() -> Seq<char> {
    seq!['.', 'r', 'o', 'd', 'a', 't', 'a', '.']
}

pub open spec fn data_prefix() -> Seq<char> {
    seq!['.', 'd', 'a', 't', 'a', '.']
}

pub open spec fn bss_prefix() -> Seq<char> {
    seq!['.', 'b', 's', 's', '.']
}

/// The region that a section's name sends it to, where it names one.
pub open spec fn named_class(name: Seq<char>) -> Option<SectionClass> {
    if has_prefix(name, text_prefix()) {
        Some(SectionClass::Text)
    } else if has_prefix(name, rodata_prefix()) {
        Some(SectionClass::Rodata)
    } else if has_prefix(name, data_prefix()) {
        Some(SectionClass::Data)
    } else if has_prefix(name, bss_prefix()) {
        Some(SectionClass::Data)
    } else {
        None
    }
}

/// The length of the prefix that gives a section its region.
pub open spec fn class_prefix_len(name: Seq<char>) -> int {
    if has_prefix(name, text_prefix()) {
        6
    } else if has_prefix(name, rodata_prefix()) {
        8
    } else if has_prefix(name, data_prefix()) {
        6
    } else {
        5
    }
}

/// The allocation, write and execute flags that a region's sections carry.
pub open spec fn required_flags(c: SectionClass) -> u64 {
    match c {
        SectionClass::Text => 6,
        SectionClass::Rodata => 2,
        SectionClass::Data => 3,
    }
}

pub open spec fn is_bits(s: Section) -> bool {
    s.typ == SectionType::ProgBits || s.typ == SectionType::NoBits
}

pub open spec fn sec_name(s: Section) -> Seq<char> {
    s.name.unwrap()@
}

/// The header whose size, alignment and contents stand for section `i`:
/// a zero-sized section stands for the section that follows it.
pub open spec fn effective(secs: Seq<Section>, i: int) -> Section {
    if secs[i].size == 0 {
        secs[i + 1]
    } else {
        secs[i]
    }
}

pub open spec fn data_bytes(d: SectionData) -> Seq<u8> {
    match d {
        SectionData::Bytes(v) => v@,
        _ => seq![],
    }
}

/// Why section `i` cannot be placed, if it cannot.
pub open spec fn section_error(secs: Seq<Section>, sizes: PerClass, i: int) -> Option<LoadError> {
    let s = secs[i];
    if !is_bits(s) {
        None
    } else if s.name is None {
        Some(LoadError::MissingSectionName)
    } else if s.size == 0 && i + 1 >= secs.len() {
        Some(LoadError::MissingNextSection)
    } else {
        let e = effective(secs, i);
        let name = sec_name(s);
        let bss = has_prefix(name, bss_prefix());
        if (bss && !(e.data is Empty)) || (!bss && !(e.data is Bytes)) {
            Some(LoadError::UnexpectedSectionData)
        } else {
            match named_class(name) {
                None => None,
                Some(c) => if s.flags & 7 != required_flags(c) {
                    Some(LoadError::SectionFlagsMismatch)
                } else if sizes.of(c) == 0 {
                    Some(LoadError::MissingRegion)
                } else if !bss && s.size != 0 && data_bytes(e.data).len() != e.size {
                    Some(LoadError::UnexpectedSectionData)
                } else {
                    None
                },
            }
        }
    }
}

/// The first section, among the first `n`, that cannot be placed.
pub open spec fn first_error(secs: Seq<Section>, sizes: PerClass, n: int) -> Option<LoadError>
    decreases n,
{
    if n <= 0 {
        None
    } else {
        match first_error(secs, sizes, n - 1) {
            Some(e) => Some(e),
            None => section_error(secs, sizes, n - 1),
        }
    }
}

/// Whether section `i` is loaded: a named section whose name gives it a region.
pub open spec fn is_loaded(secs: Seq<Section>, i: int) -> bool {
    is_bits(secs[i]) && secs[i].name is Some && named_class(sec_name(secs[i])) is Some
}

/// Whether section `i` takes room in region `c`: a loaded section of
/// non-zero size. A zero-sized one takes none.
pub open spec fn occupies(secs: Seq<Section>, i: int, c: SectionClass) -> bool {
    is_loaded(secs, i) && named_class(sec_name(secs[i])) == Some(c) && secs[i].size != 0
}

/// The room that section `i` takes in region `c`.
pub open spec fn placed_bytes(secs: Seq<Section>, i: int, c: SectionClass) -> int {
    if occupies(secs, i, c) {
        round_up(secs[i].size as int, secs[i].align as int)
    } else {
        0
    }
}

/// Where in region `c` the section after the first `n` goes.
pub open spec fn placed_offset(secs: Seq<Section>, n: int, c: SectionClass) -> int
    decreases n,
{
    if n <= 0 {
        0
    } else {
        placed_offset(secs, n - 1, c) + placed_bytes(secs, n - 1, c)
    }
}

/// The record of loaded section `i`: named by what follows its prefix,
/// placed at its region's base plus the room the sections before it take.
pub open spec fn record_of(
    secs: Seq<Section>,
    syms: Seq<Symbol>,
    bases: PerClass,
    i: int,
) -> LoadedSectionView {
    let name = sec_name(secs[i]);
    let c = named_class(name).unwrap();
    let rest = name.skip(class_prefix_len(name));
    LoadedSectionView {
        canonical_name: canonical_name_of(rest),
        hash_suffix: hash_of(rest),
        class: c,
        virtual_address: (bases.of(c) + placed_offset(secs, i, c)) as u64,
        size_bytes: effective(secs, i).size,
        global: is_global_section(syms, i),
        shndx: i as usize,
    }
}

/// The records of the loaded sections among the first `n`, in order.
pub open spec fn records_upto(
    secs: Seq<Section>,
    syms: Seq<Symbol>,
    bases: PerClass,
    n: int,
) -> Seq<LoadedSectionView>
    decreases n,
{
    if n <= 0 {
        seq![]
    } else {
        let prev = records_upto(secs, syms, bases, n - 1);
        if is_loaded(secs, n - 1) {
            prev.push(record_of(secs, syms, bases, n - 1))
        } else {
            prev
        }
    }
}

/// `s` with the bytes from `off` on replaced by `d`.
pub open spec fn splice(s: Seq<u8>, off: int, d: Seq<u8>) -> Seq<u8> {
    s.take(off) + d + s.skip(off + d.len())
}

/// Region `c` after the first `n` sections are copied: zeros, with the
/// bytes of each section that takes room (but `.bss`) at its place.
pub open spec fn region_fill(secs: Seq<Section>, c: SectionClass, n: int, total: nat) -> Seq<u8>
    decreases n,
{
    if n <= 0 {
        Seq::new(total, |k: int| 0u8)
    } else {
        let prev = region_fill(secs, c, n - 1, total);
        if occupies(secs, n - 1, c) && !has_prefix(sec_name(secs[n - 1]), bss_prefix()) {
            splice(prev, placed_offset(secs, n - 1, c), data_bytes(secs[n - 1].data))
        } else {
            prev
        }
    }
}

/// The bytes of the three regions.
pub struct RegionBytes {
    pub text: Vec<u8>,
    pub rodata: Vec<u8>,
    pub data: Vec<u8>,
}

impl RegionBytes {
    pub open spec fn of(&self, c: SectionClass) -> Seq<u8> {
        match c {
            SectionClass::Text => self.text@,
            SectionClass::Rodata => self.rodata@,
            SectionClass::Data => self.data@,
        }
    }
}

proof fn lemma_flags_class(flags: u64, c: SectionClass)
    requires
        flags & 7 == required_flags(c),
    ensures
        flags & 2 != 0,
        class_by_flags(flags) == c,
{
    assert(flags & 7 == 6 ==> flags & 2 != 0 && flags & 4 == 4) by (bit_vector);
    assert(flags & 7 == 2 ==> flags & 2 != 0 && flags & 4 != 4 && flags & 1 != 1) by (bit_vector);
    assert(flags & 7 == 3 ==> flags & 2 != 0 && flags & 4 != 4 && flags & 1 == 1) by (bit_vector);
}

/// With no error among the first `n` sections, each region's used room
/// is within what was planned for those sections.
proof fn lemma_placed_within_plan(secs: Seq<Section>, sizes: PerClass, n: int, c: SectionClass)
    requires
        0 <= n <= secs.len(),
        first_error(secs, sizes, n) is None,
    ensures
        0 <= placed_offset(secs, n, c) <= class_total(secs.take(n), c),
    decreases n,
{
    if n > 0 {
        assert(first_error(secs, sizes, n - 1) is None);
        lemma_placed_within_plan(secs, sizes, n - 1, c);
        assert(secs.take(n).drop_last() =~= secs.take(n - 1));
        let s = secs[n - 1];
        lemma_round_up_bounds(s.size as int, s.align as int);
        if occupies(secs, n - 1, c) {
            lemma_flags_class(s.flags, c);
            assert(is_planned(s));
        }
    } else {
        assert(secs.take(0) =~= Seq::<Section>::empty());
    }
}

/// The room that sections up to `n` take in region `c`, at most the plan.
proof fn lemma_room_left(secs: Seq<Section>, sizes: PerClass, n: int, c: SectionClass)
    requires
        0 <= n < secs.len(),
        first_error(secs, sizes, n + 1) is None,
        sizes.of(c) == class_total(secs, c),
    ensures
        placed_offset(secs, n, c) + placed_bytes(secs, n, c) <= sizes.of(c),
{
    lemma_placed_within_plan(secs, sizes, n + 1, c);
    crate::layout::lemma_class_total_monotone(secs, n + 1, secs.len() as int, c);
    assert(secs.take(secs.len() as int) =~= secs);
}

/// A load whose sections all place keeps each section that takes room
/// inside its region: from the region's base to the end of the size
/// planned for it.
pub proof fn lemma_section_within_region(
    secs: Seq<Section>,
    syms: Seq<Symbol>,
    sizes: PerClass,
    bases: PerClass,
    i: int,
    c: SectionClass,
)
    requires
        0 <= i < secs.len(),
        first_error(secs, sizes, secs.len() as int) is None,
        sizes.of(c) == class_total(secs, c),
        bases.of(c) + sizes.of(c) <= u64::MAX,
        occupies(secs, i, c),
    ensures
        bases.of(c) <= record_of(secs, syms, bases, i).virtual_address,
        record_of(secs, syms, bases, i).virtual_address + record_of(secs, syms, bases, i).size_bytes
            <= bases.of(c) + sizes.of(c),
{
    lemma_first_error_prefix(secs, sizes, i + 1, secs.len() as int);
    lemma_room_left(secs, sizes, i, c);
    lemma_placed_within_plan(secs, sizes, i, c);
    lemma_first_error_prefix(secs, sizes, i, secs.len() as int);
    lemma_round_up_bounds(secs[i].size as int, secs[i].align as int);
    assert(named_class(sec_name(secs[i])) == Some(c));
    assert(effective(secs, i) == secs[i]);
}

proof fn lemma_first_error_prefix(secs: Seq<Section>, sizes: PerClass, i: int, n: int)
    requires
        0 <= i <= n,
        first_error(secs, sizes, n) is None,
    ensures
        first_error(secs, sizes, i) is None,
    decreases n - i,
{
    if i < n {
        lemma_first_error_prefix(secs, sizes, i, n - 1);
    }
}

/// Copies `d` into `img` from `off` on.
pub(crate) fn copy_into(img: &mut Vec<u8>, off: usize, d: &Vec<u8>)
    requires
        off + d@.len() <= old(img)@.len(),
    ensures
        final(img)@ == splice(old(img)@, off as int, d@),
        final(img)@.len() == old(img)@.len(),
{
    let len = img.len();
    let mut k: usize = 0;
    while k < d.len()
        invariant
            len == img@.len(),
            off + d@.len() <= img@.len(),
            img@.len() == old(img)@.len(),
            k <= d@.len(),
            img@ == splice(old(img)@, off as int, d@.take(k as int)),
        decreases d@.len() - k,
    {
        img.set(off + k, d[k]);
        assert(splice(old(img)@, off as int, d@.take(k + 1)) =~= splice(
            old(img)@,
            off as int,
            d@.take(k as int),
        ).update(off + k, d@[k as int]));
        k = k + 1;
    }
    assert(d@.take(k as int) =~= d@);
}

fn zeros(n: u64) -> (r: Vec<u8>)
    requires
        n <= usize::MAX,
    ensures
        r@ == Seq::new(n as nat, |k: int| 0u8),
{
    let mut v: Vec<u8> = Vec::new();
    let mut i: u64 = 0;
    while i < n
        invariant
            i <= n,
            v@ =~= Seq::new(i as nat, |k: int| 0u8),
        decreases n - i,
    {
        v.push(0);
        i = i + 1;
    }
    v
}

/// The region and the prefix length that a section's name gives it.
fn classify_name(name: &str) -> (r: Option<(SectionClass, usize)>)
    ensures
        r is None <==> named_class(name@) is None,
        r is Some ==> r.unwrap().0 == named_class(name@).unwrap() && r.unwrap().1
            == class_prefix_len(name@),
{
    proof {
        reveal_strlit(".text.");
        reveal_strlit(".rodata.");
        reveal_strlit(".data.");
        reveal_strlit(".bss.");
        assert(".text."@ =~= text_prefix());
        assert(".rodata."@ =~= rodata_prefix());
        assert(".data."@ =~= data_prefix());
        assert(".bss."@ =~= bss_prefix());
    }
    if starts_with(name, ".text.") {
        Some((SectionClass::Text, 6))
    } else if starts_with(name, ".rodata.") {
        Some((SectionClass::Rodata, 8))
    } else if starts_with(name, ".data.") {
        Some((SectionClass::Data, 6))
    } else if starts_with(name, ".bss.") {
        Some((SectionClass::Data, 5))
    } else {
        None
    }
}

fn is_bss_name(name: &str) -> (r: bool)
    ensures
        r == has_prefix(name@, bss_prefix()),
{
    proof {
        reveal_strlit(".bss.");
        assert(".bss."@ =~= bss_prefix());
    }
    starts_with(name, ".bss.")
}

proof fn lemma_prefix_len_fits(name: Seq<char>)
    requires
        named_class(name) is Some,
    ensures
        class_prefix_len(name) <= name.len(),
{
}

/// What the checks of `section_error` find of section `i`, with the
/// header that stands for it.
fn check_section(obj: &ObjectFile, sizes: &PerClass, i: usize) -> (r: Result<Option<(SectionClass, usize)>, LoadError>)
    requires
        i < obj.sections@.len(),
    ensures
        r is Err <==> section_error(obj.sections@, *sizes, i as int) is Some,
        r is Err ==> r == Err::<Option<(SectionClass, usize)>, LoadError>(section_error(obj.sections@, *sizes, i as int).unwrap()),
        r is Ok ==> (r.unwrap() is Some <==> is_loaded(obj.sections@, i as int)),
        r is Ok && r.unwrap() is Some ==> r.unwrap().unwrap().0 == named_class(sec_name(obj.sections@[i as int])).unwrap()
            && r.unwrap().unwrap().1 == class_prefix_len(sec_name(obj.sections@[i as int])),
{
    let s = &obj.sections[i];
    if !(s.typ == SectionType::ProgBits || s.typ == SectionType::NoBits) {
        return Ok(None);
    }
    let name = match &s.name {
        Some(n) => n.as_str(),
        None => return Err(LoadError::MissingSectionName),
    };
    if s.size == 0 && i >= obj.sections.len() - 1 {
        return Err(LoadError::MissingNextSection);
    }
    let e = if s.size == 0 { &obj.sections[i + 1] } else { s };
    let bss = is_bss_name(name);
    let data_ok = match &e.data {
        SectionData::Empty => bss,
        SectionData::Bytes(_) => !bss,
        _ => false,
    };
    if !data_ok {
        return Err(LoadError::UnexpectedSectionData);
    }
    match classify_name(name) {
        None => Ok(None),
        Some((c, len)) => {
            if s.flags & 7 != match c {
                SectionClass::Text => 6,
                SectionClass::Rodata => 2,
                SectionClass::Data => 3,
            } {
                return Err(LoadError::SectionFlagsMismatch);
            }
            if sizes.get(c) == 0 {
                return Err(LoadError::MissingRegion);
            }
            if !bss && s.size != 0 {
                match &e.data {
                    SectionData::Bytes(v) => {
                        if v.len() as u64 != e.size {
                            return Err(LoadError::UnexpectedSectionData);
                        }
                    },
                    _ => {},
                }
            }
            Ok(Some((c, len)))
        },
    }
}

/// What placing has built so far: the records, the region bytes, and
/// where in each region the next section goes.
struct Placed {
    records: Vec<LoadedSection>,
    images: RegionBytes,
    offsets: PerClass,
}

/// What placing holds after the first `i` sections.
spec fn placed_wf(
    p: Placed,
    secs: Seq<Section>,
    syms: Seq<Symbol>,
    sizes: PerClass,
    bases: PerClass,
    i: int,
) -> bool {
    &&& first_error(secs, sizes, i) is None
    &&& forall|c: SectionClass| #[trigger] p.offsets.of(c) == placed_offset(secs, i, c)
    &&& forall|c: SectionClass| #[trigger] p.images.of(c) == region_fill(secs, c, i, sizes.of(c) as nat)
    &&& forall|c: SectionClass| #[trigger] p.images.of(c).len() == sizes.of(c)
    &&& views(p.records@) == records_upto(secs, syms, bases, i)
}

/// Copies section `i`, which region `c` holds, into its place, and
/// moves that region's offset past it.
#[verifier::rlimit(40)]
fn advance(
    images: &mut RegionBytes,
    offsets: &mut PerClass,
    secs: Ghost<Seq<Section>>,
    sizes: &PerClass,
    i: usize,
    s: &Section,
    c: SectionClass,
    bss: bool,
)
    requires
        i < secs@.len(),
        *s == secs@[i as int],
        is_loaded(secs@, i as int),
        named_class(sec_name(*s)) == Some(c),
        bss == has_prefix(sec_name(*s), bss_prefix()),
        section_error(secs@, *sizes, i as int) is None,
        forall|d: SectionClass| #[trigger] old(offsets).of(d) == placed_offset(secs@, i as int, d),
        forall|d: SectionClass| #[trigger] old(images).of(d) == region_fill(secs@, d, i as int, sizes.of(d) as nat),
        forall|d: SectionClass| #[trigger] old(images).of(d).len() == sizes.of(d),
        old(offsets).of(c) + placed_bytes(secs@, i as int, c) <= sizes.of(c),
        forall|d: SectionClass| #[trigger] sizes.of(d) <= usize::MAX,
    ensures
        forall|d: SectionClass| #[trigger] final(offsets).of(d) == placed_offset(secs@, i + 1, d),
        forall|d: SectionClass| #[trigger] final(images).of(d) == region_fill(secs@, d, i + 1, sizes.of(d) as nat),
        forall|d: SectionClass| #[trigger] final(images).of(d).len() == sizes.of(d),
{
    let ghost old_images = *images;
    let ghost old_offsets = *offsets;
    if s.size == 0 {
        assert forall|d: SectionClass| #[trigger] offsets.of(d) == placed_offset(secs@, i + 1, d) by {
            assert(!occupies(secs@, i as int, d));
        };
        assert forall|d: SectionClass| #[trigger] images.of(d) == region_fill(secs@, d, i + 1, sizes.of(d) as nat) by {
            assert(!occupies(secs@, i as int, d));
        };
        return ;
    }
    assert(occupies(secs@, i as int, c));
    let off = offsets.get(c);
    proof {
        lemma_round_up_bounds(s.size as int, s.align as int);
    }
    let step = round_up_to(s.size, s.align).unwrap();
    assert(off + s.size <= sizes.of(c) <= usize::MAX);
    assert(data_bytes(s.data) == data_bytes(secs@[i as int].data));
    if !bss {
        match &s.data {
            SectionData::Bytes(v) => {
                assert(v@.len() == s.size);
                assert(images.of(c).len() == sizes.of(c));
                match c {
                    SectionClass::Text => copy_into(&mut images.text, off as usize, v),
                    SectionClass::Rodata => copy_into(&mut images.rodata, off as usize, v),
                    SectionClass::Data => copy_into(&mut images.data, off as usize, v),
                }
            },
            _ => {},
        }
    }
    match c {
        SectionClass::Text => offsets.text = off + step,
        SectionClass::Rodata => offsets.rodata = off + step,
        SectionClass::Data => offsets.data = off + step,
    }
    assert forall|d: SectionClass| #[trigger] offsets.of(d) == placed_offset(secs@, i + 1, d) by {
        assert(old_offsets.of(d) == placed_offset(secs@, i as int, d));
        if d != c {
            assert(!occupies(secs@, i as int, d));
        }
        match d {
            SectionClass::Text => {},
            SectionClass::Rodata => {},
            SectionClass::Data => {},
        }
    };
    assert forall|d: SectionClass| #[trigger] images.of(d) == region_fill(secs@, d, i + 1, sizes.of(d) as nat) && images.of(d).len() == sizes.of(d) by {
        assert(old_images.of(d) == region_fill(secs@, d, i as int, sizes.of(d) as nat));
        if d != c {
            assert(!occupies(secs@, i as int, d));
        }
        match d {
            SectionClass::Text => {},
            SectionClass::Rodata => {},
            SectionClass::Data => {},
        }
    };
}

/// Places section `i`.
#[verifier::rlimit(80)]
fn place_one(
    obj: &ObjectFile,
    syms: Ghost<Seq<Symbol>>,
    globals: &Vec<u16>,
    sizes: &PerClass,
    bases: &PerClass,
    i: usize,
    p: &mut Placed,
) -> (r: Result<(), LoadError>)
    requires
        i < obj.sections@.len(),
        forall|k: u16| globals@.contains(k) <==> is_global_section(syms@, k as int),
        forall|c: SectionClass| #[trigger] sizes.of(c) == class_total(obj.sections@, c),
        forall|c: SectionClass| #[trigger] bases.of(c) + sizes.of(c) <= u64::MAX,
        forall|c: SectionClass| #[trigger] sizes.of(c) <= usize::MAX,
        placed_wf(*old(p), obj.sections@, syms@, *sizes, *bases, i as int),
    ensures
        r is Err ==> r == Err::<(), LoadError>(section_error(obj.sections@, *sizes, i as int).unwrap())
            && section_error(obj.sections@, *sizes, i as int) is Some,
        r is Ok ==> placed_wf(*final(p), obj.sections@, syms@, *sizes, *bases, i + 1),
{
    let ghost secs = obj.sections@;
    let ghost before = views(p.records@);
    let checked = check_section(obj, sizes, i);
    match checked {
        Err(e) => Err(e),
        Ok(None) => {
            assert forall|c: SectionClass| #[trigger] p.offsets.of(c) == placed_offset(secs, i + 1, c) by {};
            assert forall|c: SectionClass| #[trigger] p.images.of(c) == region_fill(secs, c, i + 1, sizes.of(c) as nat) by {};
            Ok(())
        },
        Ok(Some((c, len))) => {
            let s = &obj.sections[i];
            let name = s.name.as_ref().unwrap().as_str();
            proof {
                lemma_prefix_len_fits(name@);
                lemma_room_left(secs, *sizes, i as int, c);
                lemma_round_up_bounds(s.size as int, s.align as int);
            }
            let rest = skip_chars(name, len);
            let demangled = demangle_symbol(rest.as_str());
            let off = p.offsets.get(c);
            let count = obj.sections.len();
            assert(s.size == 0 ==> i + 1 < count);
            let e = if s.size == 0 { &obj.sections[i + 1] } else { s };
            let rec = LoadedSection {
                canonical_name: demangled.full,
                hash_suffix: demangled.hash,
                class: c,
                virtual_address: bases.get(c) + off,
                size_bytes: e.size,
                global: contains_index(globals, i),
                shndx: i,
            };
            proof {
                if rec.global {
                    let k = choose|k: u16| globals@.contains(k) && k as int == i as int;
                } else if i <= u16::MAX {
                    assert(!globals@.contains(i as u16));
                }
            }
            p.records.push(rec);
            let bss = is_bss_name(name);
            advance(&mut p.images, &mut p.offsets, Ghost(secs), sizes, i, s, c, bss);
            assert(views(p.records@) =~= before.push(rec@));
            Ok(())
        },
    }
}

/// Places the sections of `obj` in regions at `bases`, each region of
/// the size planned for it, in the object's order.
#[verifier::rlimit(80)]
pub fn place_sections(
    obj: &ObjectFile,
    syms: Ghost<Seq<Symbol>>,
    globals: &Vec<u16>,
    sizes: &PerClass,
    bases: &PerClass,
) -> (r: Result<(Vec<LoadedSection>, RegionBytes), LoadError>)
    requires
        forall|k: u16| globals@.contains(k) <==> is_global_section(syms@, k as int),
        forall|c: SectionClass| #[trigger] sizes.of(c) == class_total(obj.sections@, c),
        forall|c: SectionClass| #[trigger] bases.of(c) + sizes.of(c) <= u64::MAX,
        forall|c: SectionClass| #[trigger] sizes.of(c) <= usize::MAX,
    ensures
        r is Err <==> first_error(obj.sections@, *sizes, obj.sections@.len() as int) is Some,
        r is Err ==> r == Err::<(Vec<LoadedSection>, RegionBytes), LoadError>(
            first_error(obj.sections@, *sizes, obj.sections@.len() as int).unwrap(),
        ),
        r is Ok ==> views(r.unwrap().0@) == records_upto(
            obj.sections@,
            syms@,
            *bases,
            obj.sections@.len() as int,
        ),
        r is Ok ==> forall|c: SectionClass| #[trigger] r.unwrap().1.of(c) == region_fill(
            obj.sections@,
            c,
            obj.sections@.len() as int,
            sizes.of(c) as nat,
        ),
        r is Ok ==> forall|c: SectionClass| #[trigger] r.unwrap().1.of(c).len() == sizes.of(c),
{
    let ghost secs = obj.sections@;
    let ghost n = secs.len() as int;
    assert(sizes.of(SectionClass::Text) <= usize::MAX);
    assert(sizes.of(SectionClass::Rodata) <= usize::MAX);
    assert(sizes.of(SectionClass::Data) <= usize::MAX);
    let mut p = Placed {
        records: Vec::new(),
        images: RegionBytes {
            text: zeros(sizes.text),
            rodata: zeros(sizes.rodata),
            data: zeros(sizes.data),
        },
        offsets: PerClass { text: 0, rodata: 0, data: 0 },
    };
    assert forall|c: SectionClass| #[trigger] p.images.of(c) == region_fill(secs, c, 0, sizes.of(c) as nat) by {
        match c {
            SectionClass::Text => {},
            SectionClass::Rodata => {},
            SectionClass::Data => {},
        }
    };
    assert(views(p.records@) =~= records_upto(secs, syms@, *bases, 0));
    assert(placed_wf(p, secs, syms@, *sizes, *bases, 0));
    let mut i: usize = 0;
    while i < obj.sections.len()
        invariant
            secs == obj.sections@,
            n == secs.len(),
            i <= n,
            forall|k: u16| globals@.contains(k) <==> is_global_section(syms@, k as int),
            forall|c: SectionClass| #[trigger] sizes.of(c) == class_total(secs, c),
            forall|c: SectionClass| #[trigger] bases.of(c) + sizes.of(c) <= u64::MAX,
            forall|c: SectionClass| #[trigger] sizes.of(c) <= usize::MAX,
            placed_wf(p, secs, syms@, *sizes, *bases, i as int),
        decreases n - i,
    {
        match place_one(obj, syms, globals, sizes, bases, i, &mut p) {
            Err(e) => {
                proof {
                    lemma_first_error_stays(secs, *sizes, i as int + 1, n);
                }
                return Err(e);
            },
            Ok(()) => {},
        }
        i = i + 1;
    }
    Ok((p.records, p.images))
}

proof fn lemma_first_error_stays(secs: Seq<Section>, sizes: PerClass, i: int, n: int)
    requires
        0 <= i <= n,
        first_error(secs, sizes, i) is Some,
    ensures
        first_error(secs, sizes, n) == first_error(secs, sizes, i),
    decreases n - i,
{
    if i < n {
        lemma_first_error_stays(secs, sizes, i, n - 1);
    }
}

} // verus!
