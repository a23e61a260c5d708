use mod_mgmt::demangle::{demangle_symbol, split_hash};
use mod_mgmt::error::LoadError;
use mod_mgmt::layout::{plan_regions, round_up_to, PerClass};
use mod_mgmt::loader::{final_permissions, load_module, loading_permissions, parse_elf_kernel_crate};
use mod_mgmt::object::{
    find_first_section_by_type, ObjectFile, ObjectKind, Relocation, Section, SectionData,
    SectionType, Symbol, SymbolBinding, SymbolType, SymbolVisibility, R_X86_64_32, R_X86_64_64,
    R_X86_64_PC32, R_X86_64_PC64, SHF_ALLOC, SHF_EXECINSTR, SHF_WRITE, SHN_ABS, SHN_UNDEF,
};
use mod_mgmt::registry::{LoadedCrate, LoadedSection, SectionClass, SymbolRegistry};

const TEXT: u64 = SHF_ALLOC | SHF_EXECINSTR;
const RODATA: u64 = SHF_ALLOC;
const DATA: u64 = SHF_ALLOC | SHF_WRITE;

fn section(name: &str, typ: SectionType, flags: u64, size: u64, align: u64, data: SectionData) -> Section {
    Section { name: Some(name.to_string()), typ, flags, size, align, info: 0, data }
}

fn bits(name: &str, flags: u64, size: u64, align: u64) -> Section {
    section(name, SectionType::ProgBits, flags, size, align, SectionData::Bytes(vec![0xcc; size as usize]))
}

fn null_section() -> Section {
    Section { name: None, typ: SectionType::Other, flags: 0, size: 0, align: 0, info: 0, data: SectionData::Other }
}

fn symbol(name: &str, shndx: u16, global: bool) -> Symbol {
    Symbol {
        name: Some(name.to_string()),
        shndx,
        typ: SymbolType::Func,
        binding: if global { SymbolBinding::Global } else { SymbolBinding::Other },
        visibility: SymbolVisibility::Default,
    }
}

fn symtab(syms: Vec<Symbol>) -> Section {
    section(".symtab", SectionType::SymTab, 0, 24 * syms.len() as u64, 8, SectionData::Symbols(syms))
}

fn rela(name: &str, target: u32, relocs: Vec<Relocation>) -> Section {
    Section {
        name: Some(name.to_string()),
        typ: SectionType::Rela,
        flags: 0,
        size: 24 * relocs.len() as u64,
        align: 8,
        info: target,
        data: SectionData::Relocations(relocs),
    }
}

fn object(sections: Vec<Section>) -> ObjectFile {
    ObjectFile { kind: ObjectKind::Relocatable, sections, program_headers: vec![], entry_point: 0 }
}

fn bases() -> PerClass {
    PerClass { text: 0x10000, rodata: 0x20000, data: 0x30000 }
}

fn registered(name: &str, addr: u64) -> LoadedSection {
    LoadedSection {
        canonical_name: name.to_string(),
        hash_suffix: None,
        class: SectionClass::Text,
        virtual_address: addr,
        size_bytes: 4,
        global: true,
        shndx: 1,
    }
}

fn region(c: &LoadedCrate, class: SectionClass) -> &Vec<u8> {
    &c.regions.iter().find(|r| r.class == class).unwrap().bytes
}

fn reloc(offset: u64, addend: i64, symbol_index: u32, typ: u32) -> Relocation {
    Relocation { offset, addend: addend as u64, symbol_index, typ }
}

#[test]
fn single_global_text_section_is_published() {
    let obj = object(vec![
        null_section(),
        null_section(),
        symtab(vec![symbol("", 0, false), symbol("foo", 3, true)]),
        bits(".text.foo", TEXT, 16, 16),
    ]);
    let mut reg = SymbolRegistry::new();
    let c = load_module(&obj, "__k_foo", &bases(), &mut reg).unwrap();
    assert_eq!(c.crate_name, "foo");
    let s = reg.get_symbol("foo").unwrap();
    assert_eq!(s.virtual_address, 0x10000);
    assert_eq!(s.size_bytes, 16);
    assert!(s.global);
    assert_eq!(s.class, SectionClass::Text);
    assert_eq!(region(&c, SectionClass::Text), &vec![0xcc; 16]);
}

#[test]
fn pc32_call_between_sections() {
    let obj = object(vec![
        null_section(),
        bits(".text.caller", TEXT, 16, 16),
        bits(".text.callee", TEXT, 16, 16),
        symtab(vec![symbol("", 0, false), symbol("callee", 2, true)]),
        rela(".rela.text.caller", 1, vec![reloc(4, -4, 1, R_X86_64_PC32)]),
    ]);
    let reg = SymbolRegistry::new();
    let c = parse_elf_kernel_crate(&obj, "__k_calls", &bases(), &reg).unwrap();
    let caller = c.sections.iter().find(|s| s.canonical_name == "caller").unwrap();
    let callee = c.sections.iter().find(|s| s.canonical_name == "callee").unwrap();
    assert_eq!(caller.virtual_address, 0x10000);
    assert_eq!(callee.virtual_address, 0x10010);
    let expected = (callee.virtual_address.wrapping_add(-4i64 as u64))
        .wrapping_sub(caller.virtual_address + 4) as u32;
    assert_eq!(expected, 8);
    let text = region(&c, SectionClass::Text);
    assert_eq!(&text[4..8], &expected.to_le_bytes());
    assert_eq!(&text[0..4], &[0xcc; 4]);
}

fn kprint_object() -> ObjectFile {
    object(vec![
        null_section(),
        bits(".data.ptr", DATA, 8, 8),
        symtab(vec![symbol("", 0, false), symbol("kprint", SHN_UNDEF, true)]),
        rela(".rela.data.ptr", 1, vec![reloc(0, 0, 1, R_X86_64_64)]),
    ])
}

#[test]
fn external_symbol_resolves_through_registry() {
    let mut reg = SymbolRegistry::new();
    reg.insert(registered("kprint", 0x1_0000_0000));
    let c = parse_elf_kernel_crate(&kprint_object(), "__k_user", &bases(), &reg).unwrap();
    assert_eq!(region(&c, SectionClass::Data), &0x1_0000_0000u64.to_le_bytes().to_vec());
}

#[test]
fn missing_external_symbol_fails() {
    let reg = SymbolRegistry::new();
    let r = parse_elf_kernel_crate(&kprint_object(), "__k_user", &bases(), &reg);
    assert_eq!(r.unwrap_err(), LoadError::UnresolvedExternalSymbol);
}

#[test]
fn bss_section_is_zero_filled() {
    let obj = object(vec![
        null_section(),
        section(".bss.counter", SectionType::NoBits, DATA, 8, 8, SectionData::Empty),
        symtab(vec![symbol("", 0, false)]),
    ]);
    let reg = SymbolRegistry::new();
    let c = parse_elf_kernel_crate(&obj, "__k_counter", &bases(), &reg).unwrap();
    assert_eq!(c.regions.len(), 1);
    assert_eq!(c.regions[0].base, 0x30000);
    assert_eq!(c.regions[0].bytes, vec![0u8; 8]);
    assert_eq!(c.sections[0].virtual_address, 0x30000);
    let p = final_permissions(SectionClass::Data);
    assert!(p.present && p.writable && p.no_execute);
}

#[test]
fn module_name_without_prefix_is_refused() {
    let mut reg = SymbolRegistry::new();
    reg.insert(registered("kept", 0x5000));
    let obj = object(vec![null_section(), symtab(vec![symbol("x", 1, true)]), bits(".text.x", TEXT, 4, 4)]);
    let r = load_module(&obj, "core_utils", &bases(), &mut reg);
    assert_eq!(r.unwrap_err(), LoadError::BadModuleName);
    assert!(reg.get_symbol("x").is_none());
    assert_eq!(reg.get_symbol("kept").unwrap().virtual_address, 0x5000);
}

#[test]
fn debug_relocations_are_skipped() {
    let obj = object(vec![
        null_section(),
        bits(".text.f", TEXT, 8, 8),
        section(".debug_info", SectionType::ProgBits, 0, 8, 1, SectionData::Bytes(vec![1; 8])),
        symtab(vec![symbol("", 0, false), symbol("missing", SHN_UNDEF, true)]),
        rela(".rela.debug_info", 2, vec![reloc(0, 0, 1, R_X86_64_64)]),
    ]);
    let reg = SymbolRegistry::new();
    let c = parse_elf_kernel_crate(&obj, "__k_dbg", &bases(), &reg).unwrap();
    assert_eq!(c.sections.len(), 1);
    assert_eq!(region(&c, SectionClass::Text), &vec![0xcc; 8]);
}

#[test]
fn region_sizes_add_padded_sections() {
    let obj = object(vec![
        null_section(),
        bits(".text.a", TEXT, 10, 8),
        bits(".text.b", TEXT, 3, 4),
        bits(".rodata.c", RODATA, 5, 1),
        bits(".data.d", DATA, 1, 0),
        bits(".note.x", 0, 4, 4),
        symtab(vec![symbol("", 0, false)]),
    ]);
    let p = plan_regions(&obj, "__k_sizes").unwrap();
    assert_eq!(p, PerClass { text: 20, rodata: 5, data: 1 });
}

#[test]
fn round_up_cases() {
    assert_eq!(round_up_to(10, 8), Some(16));
    assert_eq!(round_up_to(16, 16), Some(16));
    assert_eq!(round_up_to(7, 0), Some(7));
    assert_eq!(round_up_to(7, 1), Some(7));
    assert_eq!(round_up_to(u64::MAX, 2), None);
}

#[test]
fn sections_of_one_region_do_not_overlap() {
    let obj = object(vec![
        null_section(),
        bits(".text.a", TEXT, 10, 8),
        bits(".text.b", TEXT, 3, 4),
        bits(".text.c", TEXT, 7, 16),
        symtab(vec![symbol("", 0, false)]),
    ]);
    let reg = SymbolRegistry::new();
    let c = parse_elf_kernel_crate(&obj, "__k_pack", &bases(), &reg).unwrap();
    let addrs: Vec<(u64, u64)> = c.sections.iter().map(|s| (s.virtual_address, s.size_bytes)).collect();
    assert_eq!(addrs, vec![(0x10000, 10), (0x10010, 3), (0x10014, 7)]);
    for w in addrs.windows(2) {
        assert!(w[0].0 + w[0].1 <= w[1].0);
    }
    assert_eq!(region(&c, SectionClass::Text).len(), 16 + 4 + 16);
}

#[test]
fn absolute_and_truncated_relocations() {
    let obj = object(vec![
        null_section(),
        bits(".data.table", DATA, 24, 8),
        bits(".rodata.target", RODATA, 8, 8),
        symtab(vec![symbol("", 0, false), symbol("target", 2, true)]),
        rela(
            ".rela.data.table",
            1,
            vec![
                reloc(0, 0x10, 1, R_X86_64_32),
                reloc(8, -0x30000, 1, R_X86_64_PC64),
                reloc(16, 0, 1, R_X86_64_64),
            ],
        ),
    ]);
    let reg = SymbolRegistry::new();
    let c = parse_elf_kernel_crate(&obj, "__k_table", &bases(), &reg).unwrap();
    let data = region(&c, SectionClass::Data);
    assert_eq!(&data[0..4], &0x20010u32.to_le_bytes());
    assert_eq!(&data[4..8], &[0xcc; 4]);
    let pc64 = 0x20000u64.wrapping_add(-0x30000i64 as u64).wrapping_sub(0x30008);
    assert_eq!(&data[8..16], &pc64.to_le_bytes());
    assert_eq!(&data[16..24], &0x20000u64.to_le_bytes());
}

#[test]
fn demangled_name_and_hash() {
    let d = demangle_symbol("_ZN3foo3bar17h05af221e174051e9E");
    assert_eq!(d.full, "foo::bar");
    assert_eq!(d.hash.as_deref(), Some("h05af221e174051e9"));
    assert_eq!(format!("{}::{}", d.full, d.hash.unwrap()), "foo::bar::h05af221e174051e9");
}

#[test]
fn plain_name_has_no_hash() {
    let d = demangle_symbol("kprint");
    assert_eq!(d.full, "kprint");
    assert_eq!(d.hash, None);
}

#[test]
fn split_hash_cases() {
    assert_eq!(split_hash("a::b::h12", "a::b").as_deref(), Some("h12"));
    assert_eq!(split_hash("a::b", "a::b"), None);
    assert_eq!(split_hash("x", "y"), None);
    assert_eq!(split_hash("a::", "a").as_deref(), Some(""));
}

#[test]
fn published_globals_resolve_to_their_sections() {
    let obj = object(vec![
        null_section(),
        bits(".text.pub_fn", TEXT, 4, 4),
        bits(".text.private_fn", TEXT, 4, 4),
        bits(".rodata.pub_table", RODATA, 8, 8),
        symtab(vec![
            symbol("", 0, false),
            symbol("pub_fn", 1, true),
            symbol("private_fn", 2, false),
            symbol("pub_table", 3, true),
        ]),
    ]);
    let mut reg = SymbolRegistry::new();
    let c = load_module(&obj, "__k_pubs", &bases(), &mut reg).unwrap();
    for s in c.sections.iter().filter(|s| s.global) {
        let r = reg.get_symbol(&s.canonical_name).unwrap();
        assert_eq!(r.virtual_address, s.virtual_address);
        assert_eq!(r.shndx, s.shndx);
    }
    assert!(reg.get_symbol("private_fn").is_none());
    assert_eq!(reg.get_symbol("pub_table").unwrap().virtual_address, 0x20000);
}

#[test]
fn later_insertion_wins() {
    let mut reg = SymbolRegistry::new();
    reg.insert(registered("dup", 1));
    reg.insert(registered("dup", 2));
    assert_eq!(reg.get_symbol("dup").unwrap().virtual_address, 2);
}

#[test]
fn failed_load_adds_nothing() {
    let mut reg = SymbolRegistry::new();
    let obj = object(vec![
        null_section(),
        bits(".text.ok", TEXT, 4, 4),
        symtab(vec![symbol("", 0, false), symbol("ok", 1, true), symbol("nowhere", SHN_UNDEF, true)]),
        rela(".rela.text.ok", 1, vec![reloc(0, 0, 2, R_X86_64_PC32)]),
    ]);
    let r = load_module(&obj, "__k_fails", &bases(), &mut reg);
    assert_eq!(r.unwrap_err(), LoadError::UnresolvedExternalSymbol);
    assert!(reg.get_symbol("ok").is_none());
}

#[test]
fn zero_sized_section_stands_for_the_next() {
    let obj = object(vec![
        null_section(),
        section(".text.alias", SectionType::ProgBits, TEXT, 0, 1, SectionData::Bytes(vec![])),
        bits(".text.real", TEXT, 16, 16),
        symtab(vec![symbol("", 0, false)]),
    ]);
    let reg = SymbolRegistry::new();
    let c = parse_elf_kernel_crate(&obj, "__k_alias", &bases(), &reg).unwrap();
    assert_eq!(c.sections.len(), 2);
    assert_eq!(c.sections[0].canonical_name, "alias");
    assert_eq!(c.sections[0].virtual_address, c.sections[1].virtual_address);
    assert_eq!(c.sections[0].size_bytes, 16);
    assert_eq!(region(&c, SectionClass::Text).len(), 16);
}

#[test]
fn permissions_by_region() {
    let t = final_permissions(SectionClass::Text);
    assert!(t.present && !t.writable && !t.no_execute);
    let r = final_permissions(SectionClass::Rodata);
    assert!(r.present && !r.writable && r.no_execute);
    let l = loading_permissions();
    assert!(l.present && l.writable);
}

#[test]
fn first_section_by_type() {
    let obj = object(vec![null_section(), symtab(vec![]), symtab(vec![])]);
    assert_eq!(find_first_section_by_type(&obj, SectionType::SymTab), Some(1));
    assert_eq!(find_first_section_by_type(&obj, SectionType::Rela), None);
}

#[test]
fn relocation_numbers_match_the_abi() {
    assert_eq!(R_X86_64_64, goblin::elf::reloc::R_X86_64_64);
    assert_eq!(R_X86_64_PC32, goblin::elf::reloc::R_X86_64_PC32);
    assert_eq!(R_X86_64_32, goblin::elf::reloc::R_X86_64_32);
    assert_eq!(R_X86_64_PC64, goblin::elf::reloc::R_X86_64_PC64);
    assert_eq!(SHN_ABS as u32, goblin::elf::section_header::SHN_ABS);
}

fn err(obj: &ObjectFile, reg: &SymbolRegistry) -> LoadError {
    parse_elf_kernel_crate(obj, "__k_err", &bases(), reg).unwrap_err()
}

#[test]
fn error_wrong_object_kind() {
    let mut obj = object(vec![null_section(), symtab(vec![])]);
    obj.kind = ObjectKind::Executable;
    assert_eq!(err(&obj, &SymbolRegistry::new()), LoadError::WrongObjectKind);
}

#[test]
fn error_stripped_object() {
    let obj = object(vec![null_section(), bits(".text.a", TEXT, 4, 4)]);
    assert_eq!(err(&obj, &SymbolRegistry::new()), LoadError::StrippedObject);
}

#[test]
fn error_missing_section_name() {
    let mut s = bits(".text.a", TEXT, 4, 4);
    s.name = None;
    let obj = object(vec![null_section(), s, symtab(vec![])]);
    assert_eq!(err(&obj, &SymbolRegistry::new()), LoadError::MissingSectionName);
}

#[test]
fn error_missing_next_section() {
    let obj = object(vec![
        null_section(),
        symtab(vec![]),
        section(".text.last", SectionType::ProgBits, TEXT, 0, 1, SectionData::Bytes(vec![])),
    ]);
    assert_eq!(err(&obj, &SymbolRegistry::new()), LoadError::MissingNextSection);
}

#[test]
fn error_unexpected_section_data() {
    let obj = object(vec![
        null_section(),
        section(".bss.x", SectionType::NoBits, DATA, 8, 8, SectionData::Bytes(vec![0; 8])),
        symtab(vec![]),
    ]);
    assert_eq!(err(&obj, &SymbolRegistry::new()), LoadError::UnexpectedSectionData);
    let short = object(vec![
        null_section(),
        section(".text.s", SectionType::ProgBits, TEXT, 8, 8, SectionData::Bytes(vec![0; 4])),
        symtab(vec![]),
    ]);
    assert_eq!(err(&short, &SymbolRegistry::new()), LoadError::UnexpectedSectionData);
}

#[test]
fn error_section_flags_mismatch() {
    let obj = object(vec![null_section(), bits(".text.w", TEXT | SHF_WRITE, 4, 4), symtab(vec![])]);
    assert_eq!(err(&obj, &SymbolRegistry::new()), LoadError::SectionFlagsMismatch);
}

#[test]
fn error_missing_region() {
    let obj = object(vec![
        null_section(),
        section(".text.alias", SectionType::ProgBits, TEXT, 0, 1, SectionData::Bytes(vec![])),
        bits(".rodata.next", RODATA, 8, 8),
        symtab(vec![]),
    ]);
    assert_eq!(err(&obj, &SymbolRegistry::new()), LoadError::MissingRegion);
}

#[test]
fn error_size_overflow() {
    let obj = object(vec![
        null_section(),
        section(".text.huge", SectionType::ProgBits, TEXT, u64::MAX, 16, SectionData::Bytes(vec![])),
        symtab(vec![]),
    ]);
    assert_eq!(err(&obj, &SymbolRegistry::new()), LoadError::SizeOverflow);
    let near_top = object(vec![null_section(), bits(".text.a", TEXT, 16, 16), symtab(vec![])]);
    let b = PerClass { text: u64::MAX - 8, rodata: 0, data: 0 };
    let r = parse_elf_kernel_crate(&near_top, "__k_top", &b, &SymbolRegistry::new());
    assert_eq!(r.unwrap_err(), LoadError::SizeOverflow);
}

fn one_reloc(sym: Symbol, r: Relocation) -> ObjectFile {
    object(vec![
        null_section(),
        bits(".text.a", TEXT, 16, 16),
        symtab(vec![symbol("", 0, false), sym]),
        rela(".rela.text.a", 1, vec![r]),
    ])
}

#[test]
fn error_bad_symbol_index() {
    let obj = one_reloc(symbol("a", 1, true), reloc(0, 0, 9, R_X86_64_64));
    assert_eq!(err(&obj, &SymbolRegistry::new()), LoadError::BadSymbolIndex);
}

#[test]
fn error_unsupported_symbol_section() {
    let obj = one_reloc(symbol("abs", SHN_ABS, true), reloc(0, 0, 1, R_X86_64_64));
    assert_eq!(err(&obj, &SymbolRegistry::new()), LoadError::UnsupportedSymbolSection);
}

#[test]
fn error_missing_symbol_name() {
    let mut s = symbol("x", SHN_UNDEF, true);
    s.name = None;
    let obj = one_reloc(s, reloc(0, 0, 1, R_X86_64_64));
    assert_eq!(err(&obj, &SymbolRegistry::new()), LoadError::MissingSymbolName);
}

#[test]
fn error_unsupported_relocation() {
    let obj = one_reloc(symbol("a", 1, true), reloc(0, 0, 1, 9));
    assert_eq!(err(&obj, &SymbolRegistry::new()), LoadError::UnsupportedRelocation);
}

#[test]
fn error_relocation_out_of_bounds() {
    let obj = one_reloc(symbol("a", 1, true), reloc(12, 0, 1, R_X86_64_64));
    assert_eq!(err(&obj, &SymbolRegistry::new()), LoadError::RelocationOutOfBounds);
    let fits = one_reloc(symbol("a", 1, true), reloc(12, 0, 1, R_X86_64_32));
    assert!(parse_elf_kernel_crate(&fits, "__k_fits", &bases(), &SymbolRegistry::new()).is_ok());
}

#[test]
fn error_bad_relocation_data() {
    let mut r = rela(".rela.text.a", 1, vec![]);
    r.size = 24;
    r.data = SectionData::Other;
    let obj = object(vec![null_section(), bits(".text.a", TEXT, 16, 16), symtab(vec![]), r]);
    assert_eq!(err(&obj, &SymbolRegistry::new()), LoadError::BadRelocationData);
}

#[test]
fn relocation_against_unloaded_target_is_skipped() {
    let obj = object(vec![
        null_section(),
        bits(".text.a", TEXT, 8, 8),
        bits(".comment", 0, 8, 1),
        symtab(vec![symbol("", 0, false)]),
        rela(".rela.comment", 2, vec![reloc(0, 0, 5, 99)]),
    ]);
    assert!(parse_elf_kernel_crate(&obj, "__k_skip", &bases(), &SymbolRegistry::new()).is_ok());
}
