use mod_mgmt::error::LoadError;
use mod_mgmt::nano_core::{contains_bytes, get_section_index, parse_nano_core_symbols, parse_number};
use mod_mgmt::object::{ObjectFile, ObjectKind, ProgramHeader};
use mod_mgmt::program::parse_elf_executable;
use mod_mgmt::registry::{SectionClass, SymbolRegistry};

const DUMP: &str = "There are 5 section headers:
  [ 1] .text             PROGBITS         ffffffff80100000  00001000
  [ 2] .rodata           PROGBITS         ffffffff80200000  00002000
  [ 3] .data             PROGBITS         ffffffff80300000  00003000
  [ 4] .bss              NOBITS           ffffffff80400000  00004000

Symbol table '.symtab' contains 5 entries:
   Num:    Value          Size Type    Bind   Vis      Ndx Name
     1: ffffffff80100000    42 FUNC    GLOBAL DEFAULT    1 _ZN9nano_core5start17h0123456789abcdefE
     2: ffffffff80400010     8 OBJECT  GLOBAL DEFAULT    4 COUNTER
     3: ffffffff80200020    16 OBJECT  GLOBAL DEFAULT    2 TABLE
     4: 0000000000000000     0 NOTYPE  GLOBAL DEFAULT  ABS SKIPPED
     5: ffffffff80100100     4 FUNC    LOCAL  DEFAULT    1 local_fn
";

#[test]
fn base_image_symbols_become_sections() {
    let mut region = DUMP.as_bytes().to_vec();
    region.push(b'\n');
    let size = region.len();
    let c = parse_nano_core_symbols(&mut region, size).unwrap();
    assert_eq!(c.crate_name, "nano_core");
    assert_eq!(region[size - 1], 0);
    assert_eq!(c.sections.len(), 3);
    let start = &c.sections[0];
    assert_eq!(start.canonical_name, "nano_core::start");
    assert_eq!(start.hash_suffix.as_deref(), Some("h0123456789abcdef"));
    assert_eq!(start.class, SectionClass::Text);
    assert_eq!(start.virtual_address, 0xffffffff80100000);
    assert_eq!(start.size_bytes, 42);
    assert!(start.global);
    assert_eq!(c.sections[1].canonical_name, "COUNTER");
    assert_eq!(c.sections[1].class, SectionClass::Data);
    assert_eq!(c.sections[2].class, SectionClass::Rodata);
    let mut reg = SymbolRegistry::new();
    reg.publish(&c);
    assert_eq!(reg.get_symbol("nano_core::start").unwrap().virtual_address, 0xffffffff80100000);
}

#[test]
fn dump_errors() {
    let mut big = b"abc\n".to_vec();
    assert_eq!(parse_nano_core_symbols(&mut big, 5).unwrap_err(), LoadError::OversizedInput);
    assert_eq!(parse_nano_core_symbols(&mut big, 0).unwrap_err(), LoadError::BadTextTerminator);
    let mut nul = b"a\0b\n".to_vec();
    assert_eq!(parse_nano_core_symbols(&mut nul, 4).unwrap_err(), LoadError::BadTextTerminator);
    let mut bad = vec![0xff, 0xfe, b'\n'];
    assert_eq!(parse_nano_core_symbols(&mut bad, 3).unwrap_err(), LoadError::InvalidUtf8);
    let mut short = b"  1: ffff 8 FUNC GLOBAL DEFAULT\n".to_vec();
    let n = short.len();
    assert_eq!(parse_nano_core_symbols(&mut short, n).unwrap_err(), LoadError::MissingColumn);
    let mut nonhex = b"  1: zz 8 FUNC GLOBAL DEFAULT 1 f\n".to_vec();
    let n = nonhex.len();
    assert_eq!(parse_nano_core_symbols(&mut nonhex, n).unwrap_err(), LoadError::BadNumber);
}

#[test]
fn section_index_between_brackets() {
    assert_eq!(get_section_index(b"  [ 3] .data PROGBITS"), Some(3));
    assert_eq!(get_section_index(b"  [12] .bss NOBITS"), Some(12));
    assert_eq!(get_section_index(b"  no brackets"), None);
    assert_eq!(get_section_index(b"  ] reversed ["), None);
    assert_eq!(get_section_index(b"  [ x] .text"), None);
}

#[test]
fn numbers_by_radix() {
    assert_eq!(parse_number(b"ff", 16), Some(255));
    assert_eq!(parse_number(b"+10", 10), Some(10));
    assert_eq!(parse_number(b"", 10), None);
    assert_eq!(parse_number(b"+", 10), None);
    assert_eq!(parse_number(b"1a", 10), None);
    assert_eq!(parse_number(b"ffffffffffffffff", 16), Some(u64::MAX));
    assert_eq!(parse_number(b"10000000000000000", 16), None);
}

#[test]
fn substring_search() {
    assert!(contains_bytes(b"GLOBAL DEFAULT", b"GLOBAL "));
    assert!(!contains_bytes(b"GLOBAL", b"GLOBAL "));
    assert!(contains_bytes(b"x", b""));
}

fn executable(headers: Vec<ProgramHeader>) -> ObjectFile {
    ObjectFile { kind: ObjectKind::Executable, sections: vec![], program_headers: headers, entry_point: 0x401000 }
}

fn header(is_load: bool, flags: u32) -> ProgramHeader {
    ProgramHeader { is_load, flags, virtual_address: 0x400000, mem_size: 0x2000, offset: 0x1000 }
}

#[test]
fn executable_segments() {
    let (segs, entry) = parse_elf_executable(&executable(vec![header(true, 5), header(true, 6)])).unwrap();
    assert_eq!(entry, 0x401000);
    assert_eq!(segs.len(), 2);
    assert!(segs[0].flags.present && !segs[0].flags.writable && !segs[0].flags.no_execute);
    assert!(segs[1].flags.writable && segs[1].flags.no_execute);
    assert_eq!(segs[0].virtual_address, 0x400000);
    assert_eq!(segs[0].size, 0x2000);
    assert_eq!(segs[0].offset, 0x1000);
}

#[test]
fn executable_errors() {
    assert_eq!(parse_elf_executable(&executable(vec![header(false, 4)])).unwrap_err(), LoadError::NotLoadSegment);
    assert_eq!(parse_elf_executable(&executable(vec![header(true, 1)])).unwrap_err(), LoadError::UnreadableSegment);
    let mut obj = executable(vec![]);
    obj.kind = ObjectKind::Relocatable;
    assert_eq!(parse_elf_executable(&obj).unwrap_err(), LoadError::WrongObjectKind);
}
