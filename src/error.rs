//! The ways in which loading can fail.
use vstd::prelude::*;

verus! {

#[derive(Clone, Copy, Debug, PartialEq, Eq, Structural)]
pub enum LoadError {
    /// The module's name lacks the `__k_` prefix.
    BadModuleName,
    /// The object is not of the expected type.
    WrongObjectKind,
    /// The object has no symbol table.
    StrippedObject,
    /// A section that the loader reads has no name.
    MissingSectionName,
    /// A zero-sized section is the last one, with no section after it.
    MissingNextSection,
    /// A section's contents are not what its type and name call for.
    UnexpectedSectionData,
    /// A section's flags contradict its name's prefix.
    SectionFlagsMismatch,
    /// A section belongs to a region that nothing was planned for.
    MissingRegion,
    /// A size or an address does not fit in 64 bits.
    SizeOverflow,
    /// A relocation names a symbol past the end of the symbol table.
    BadSymbolIndex,
    /// A relocation's symbol lies in a reserved or absolute section.
    UnsupportedSymbolSection,
    /// A symbol that must be found by name has none.
    MissingSymbolName,
    /// No section of this module nor of the registry defines the symbol.
    UnresolvedExternalSymbol,
    /// A relocation of a type that the loader does not apply.
    UnsupportedRelocation,
    /// A relocation section whose contents are not relocations.
    BadRelocationData,
    /// A relocation would patch bytes outside its region.
    RelocationOutOfBounds,
    /// A symbol dump larger than the memory that holds it.
    OversizedInput,
    /// A symbol dump with no bytes, or with a zero byte before its end.
    BadTextTerminator,
    /// A symbol dump that is not UTF-8.
    InvalidUtf8,
    /// A symbol line with fewer columns than a symbol needs.
    MissingColumn,
    /// A column that should hold a number does not.
    BadNumber,
    /// A program header that is not of type `LOAD`.
    NotLoadSegment,
    /// A loadable segment that is not readable.
    UnreadableSegment,
}

} // verus!
