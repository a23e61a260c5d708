//! Reading the loadable segments of an executable.
use vstd::prelude::*;
use crate::error::LoadError;
use crate::loader::PageFlags;
use crate::object::{ObjectFile, ObjectKind, ProgramHeader};

verus! {

/// Segment permission: executable.
pub const PF_X: u32 = 0x1;

/// Segment permission: writable.
pub const PF_W: u32 = 0x2;

/// Segment permission: readable.
pub const PF_R: u32 = 0x4;

/// A segment of an executable and where it is to be mapped.
#[derive(Clone, Copy, Debug, PartialEq, Eq, Structural)]
pub struct ElfProgramSegment {
    /// Where the segment starts in memory.
    pub virtual_address: u64,
    /// The segment's size in memory.
    pub size: u64,
    /// The permissions of its pages.
    pub flags: PageFlags,
    /// The segment's offset in the file.
    pub offset: u64,
}

/// The page permissions of a segment's flags: present when readable,
/// writable when writable, not executable unless executable.
pub open spec fn segment_flags(f: u32) -> PageFlags {
    PageFlags { present: f & PF_R != 0, writable: f & PF_W != 0, no_execute: f & PF_X == 0 }
}

pub open spec fn segment_of(h: ProgramHeader) -> ElfProgramSegment {
    ElfProgramSegment {
        virtual_address: h.virtual_address,
        size: h.mem_size,
        flags: segment_flags(h.flags),
        offset: h.offset,
    }
}

/// Why a program header cannot be mapped, if it cannot.
pub open spec fn segment_error(h: ProgramHeader) -> Option<LoadError> {
    if !h.is_load {
        Some(LoadError::NotLoadSegment)
    } else if h.flags & PF_R == 0 {
        Some(LoadError::UnreadableSegment)
    } else {
        None
    }
}

/// The first error among the first `n` program headers.
pub open spec fn first_segment_error(hs: Seq<ProgramHeader>, n: int) -> Option<LoadError>
    decreases n,
{
    if n <= 0 {
        None
    } else {
        match first_segment_error(hs, n - 1) {
            Some(e) => Some(e),
            None => segment_error(hs[n - 1]),
        }
    }
}

proof fn lemma_segment_error_stays(hs: Seq<ProgramHeader>, i: int, n: int)
    requires
        0 <= i <= n,
        first_segment_error(hs, i) is Some,
    ensures
        first_segment_error(hs, n) == first_segment_error(hs, i),
    decreases n - i,
{
    if i < n {
        lemma_segment_error_stays(hs, i, n - 1);
    }
}

/// The page permissions of a segment's flags.
pub fn flags_of_segment(f: u32) -> (r: PageFlags)
    ensures
        r == segment_flags(f),
{
    PageFlags { present: f & PF_R != 0, writable: f & PF_W != 0, no_execute: f & PF_X == 0 }
}

/// The loadable segments of the executable `obj`, one for each program
/// header in order, and its entry point. Every header must be a readable
/// `LOAD` segment.
pub fn parse_elf_executable(obj: &ObjectFile) -> (r: Result<(Vec<ElfProgramSegment>, u64), LoadError>)
    ensures
        obj.kind != ObjectKind::Executable ==> r == Err::<(Vec<ElfProgramSegment>, u64), LoadError>(
            LoadError::WrongObjectKind,
        ),
        obj.kind == ObjectKind::Executable && first_segment_error(
            obj.program_headers@,
            obj.program_headers@.len() as int,
        ) is Some ==> r == Err::<(Vec<ElfProgramSegment>, u64), LoadError>(
            first_segment_error(obj.program_headers@, obj.program_headers@.len() as int).unwrap(),
        ),
        obj.kind == ObjectKind::Executable && first_segment_error(
            obj.program_headers@,
            obj.program_headers@.len() as int,
        ) is None ==> r is Ok,
        r is Ok ==> r.unwrap().1 == obj.entry_point && r.unwrap().0@ == obj.program_headers@.map_values(
            |h: ProgramHeader| segment_of(h),
        ),
{
    if obj.kind != ObjectKind::Executable {
        return Err(LoadError::WrongObjectKind);
    }
    let ghost hs = obj.program_headers@;
    let mut segs: Vec<ElfProgramSegment> = Vec::new();
    let mut i: usize = 0;
    while i < obj.program_headers.len()
        invariant
            hs == obj.program_headers@,
            obj.kind == ObjectKind::Executable,
            i <= hs.len(),
            first_segment_error(hs, i as int) is None,
            segs@ == hs.take(i as int).map_values(|h: ProgramHeader| segment_of(h)),
        decreases hs.len() - i,
    {
        let h = obj.program_headers[i];
        if !h.is_load {
            proof {
                lemma_segment_error_stays(hs, i + 1, hs.len() as int);
            }
            return Err(LoadError::NotLoadSegment);
        }
        if h.flags & PF_R == 0 {
            proof {
                lemma_segment_error_stays(hs, i + 1, hs.len() as int);
            }
            return Err(LoadError::UnreadableSegment);
        }
        segs.push(
            ElfProgramSegment {
                virtual_address: h.virtual_address,
                size: h.mem_size,
                flags: flags_of_segment(h.flags),
                offset: h.offset,
            },
        );
        assert(hs.take(i + 1).map_values(|h: ProgramHeader| segment_of(h)) =~= hs.take(
            i as int,
        ).map_values(|h: ProgramHeader| segment_of(h)).push(segment_of(hs[i as int])));
        i = i + 1;
    }
    assert(hs.take(i as int) =~= hs);
    Ok((segs, obj.entry_point))
}

} // verus!
