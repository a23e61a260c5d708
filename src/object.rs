//! A relocatable or executable object file, as plain values: what the
//! loader reads of its header, sections, symbols and relocations.
use vstd::prelude::*;

verus! {

/// Section flag: writable at run time.
pub const SHF_WRITE: u64 = 0x1;

/// Section flag: occupies memory at run time.
pub const SHF_ALLOC: u64 = 0x2;

/// Section flag: holds machine instructions.
pub const SHF_EXECINSTR: u64 = 0x4;

/// Symbol section index: undefined, to be found elsewhere.
pub const SHN_UNDEF: u16 = 0;

pub const SHN_LORESERVE: u16 = 0xff00;

pub const SHN_LOPROC: u16 = 0xff00;

pub const SHN_HIPROC: u16 = 0xff1f;

pub const SHN_LOOS: u16 = 0xff20;

pub const SHN_HIOS: u16 = 0xff3f;

pub const SHN_ABS: u16 = 0xfff1;

pub const SHN_COMMON: u16 = 0xfff2;

pub const SHN_XINDEX: u16 = 0xffff;

pub const SHN_HIRESERVE: u16 = 0xffff;

/// Relocation: the 64-bit address `S + A`.
pub const R_X86_64_64: u32 = 1;

/// Relocation: the 32-bit displacement `S + A - P`.
pub const R_X86_64_PC32: u32 = 2;

/// Relocation: the address `S + A` truncated to 32 bits.
pub const R_X86_64_32: u32 = 10;

/// Relocation: the 64-bit displacement `S + A - P`.
pub const R_X86_64_PC64: u32 = 24;

/// The type of an object file.
#[derive(Clone, Copy, Debug, PartialEq, Eq, Structural)]
pub enum ObjectKind {
    Relocatable,
    Executable,
    Other,
}

/// The type of a section, as far as the loader tells them apart.
#[derive(Clone, Copy, Debug, PartialEq, Eq, Structural)]
pub enum SectionType {
    ProgBits,
    NoBits,
    SymTab,
    Rela,
    Other,
}

#[derive(Clone, Copy, Debug, PartialEq, Eq, Structural)]
pub enum SymbolType {
    Func,
    Object,
    Other,
}

#[derive(Clone, Copy, Debug, PartialEq, Eq, Structural)]
pub enum SymbolBinding {
    Global,
    Other,
}

#[derive(Clone, Copy, Debug, PartialEq, Eq, Structural)]
pub enum SymbolVisibility {
    Default,
    Other,
}

/// An entry of the symbol table.
#[derive(Debug)]
pub struct Symbol {
    /// The symbol's name, where the string table gives one.
    pub name: Option<String>,
    /// The index of the section that defines the symbol.
    pub shndx: u16,
    pub typ: SymbolType,
    pub binding: SymbolBinding,
    pub visibility: SymbolVisibility,
}

/// A relocation with addend.
#[derive(Clone, Copy, Debug, PartialEq, Eq, Structural)]
pub struct Relocation {
    /// Where to patch, from the start of the target section.
    pub offset: u64,
    /// The constant to add, as the bits of a signed 64-bit value.
    pub addend: u64,
    pub symbol_index: u32,
    pub typ: u32,
}

/// The contents of a section.
#[derive(Debug)]
pub enum SectionData {
    /// No bytes in the file (`NOBITS`).
    Empty,
    /// The section's bytes.
    Bytes(Vec<u8>),
    Relocations(Vec<Relocation>),
    Symbols(Vec<Symbol>),
    /// Anything else, or contents that could not be read.
    Other,
}

/// A section header with its contents.
#[derive(Debug)]
pub struct Section {
    /// The section's name, where the string table gives one.
    pub name: Option<String>,
    pub typ: SectionType,
    pub flags: u64,
    pub size: u64,
    pub align: u64,
    /// For a relocation section: the index of the section it patches.
    pub info: u32,
    pub data: SectionData,
}

/// A program header of an executable.
#[derive(Clone, Copy, Debug, PartialEq, Eq, Structural)]
pub struct ProgramHeader {
    /// Whether the segment is of type `LOAD`.
    pub is_load: bool,
    /// The segment's permission bits (`PF_X` 1, `PF_W` 2, `PF_R` 4).
    pub flags: u32,
    pub virtual_address: u64,
    pub mem_size: u64,
    pub offset: u64,
}

/// An object file.
#[derive(Debug)]
pub struct ObjectFile {
    pub kind: ObjectKind,
    pub sections: Vec<Section>,
    pub program_headers: Vec<ProgramHeader>,
    pub entry_point: u64,
}

/// Finds the first section of type `typ`, in the object's order.
pub fn find_first_section_by_type(obj: &ObjectFile, typ: SectionType) -> (r: Option<usize>)
    ensures
        r is Some ==> r.unwrap() < obj.sections@.len() && obj.sections@[r.unwrap() as int].typ
            == typ && forall|j: int| 0 <= j < r.unwrap() ==> obj.sections@[j].typ != typ,
        r is None ==> forall|j: int| 0 <= j < obj.sections@.len() ==> obj.sections@[j].typ != typ,
{
    let mut i: usize = 0;
    while i < obj.sections.len()
        invariant
            i <= obj.sections@.len(),
            forall|j: int| 0 <= j < i ==> obj.sections@[j].typ != typ,
        decreases obj.sections@.len() - i,
    {
        if obj.sections[i].typ == typ {
            return Some(i);
        }
        i = i + 1;
    }
    None
}

} // verus!
