//! The program-header record and the constants of the ELF format that the
//! library works with.

use vstd::prelude::*;

verus! {

/// Segment type: program-header table.
pub const PT_PHDR: u32 = 6;
/// Segment type: loadable segment.
pub const PT_LOAD: u32 = 1;
/// Segment type: dynamic array.
pub const PT_DYNAMIC: u32 = 2;
/// Segment type: interpreter reference.
pub const PT_INTERP: u32 = 3;
/// Segment flag: readable.
pub const PF_R: u32 = 4;
/// ELF file type: executable file.
pub const ET_EXEC: u16 = 2;

/// One program header, with the fields of the ELF format held as plain
/// integers.  The same record is used for headers read from the input file
/// and for headers of the computed output layout.
#[derive(Debug, Clone, Copy, PartialEq, Eq, Structural)]
pub struct ProgramHeader {
    /// Segment type (`PT_LOAD`, `PT_PHDR`, ...).
    pub p_type: u32,
    /// Segment flags.
    pub p_flags: u32,
    /// Offset of the segment in the file.
    pub p_offset: u64,
    /// Virtual address of the segment.
    pub p_vaddr: u64,
    /// Physical address of the segment.
    pub p_paddr: u64,
    /// Size of the segment in the file.
    pub p_filesz: u64,
    /// Size of the segment in memory.
    pub p_memsz: u64,
    /// Alignment of the segment.
    pub p_align: u64,
}

impl ProgramHeader {
    /// True when every field of the header fits in 32 bits, so that the
    /// header can be written in the 32-bit form of the format.
    pub open spec fn fits_32(self) -> bool {
        self.p_offset <= u32::MAX && self.p_vaddr <= u32::MAX && self.p_paddr <= u32::MAX
            && self.p_filesz <= u32::MAX && self.p_memsz <= u32::MAX && self.p_align <= u32::MAX
    }
}

/// Lexicographic key order on (physical address, virtual address): the order
/// in which loadable input headers are kept.
pub open spec fn key_le(a: ProgramHeader, b: ProgramHeader) -> bool {
    a.p_paddr < b.p_paddr || (a.p_paddr == b.p_paddr && a.p_vaddr <= b.p_vaddr)
}

/// The sequence is sorted ascending by (physical address, virtual address).
pub open spec fn sorted_by_key(s: Seq<ProgramHeader>) -> bool {
    forall|i: int, j: int| 0 <= i < j < s.len() ==> key_le(s[i], s[j])
}

} // verus!
