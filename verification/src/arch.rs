//! The architecture of an ELF file.

use vstd::prelude::*;

verus! {

/// The architecture of an ELF file.
///
/// The architecture is the combination of the bit-size (64 vs. 32 bit), the
/// endianness, and the machine code of the file.  It is drawn from the ELF
/// header of the input file and reproduced in the header of the output file.
#[derive(Debug, Clone, Copy, PartialEq, Eq, Structural)]
pub struct Arch {
    /// The machine code from the ELF header.
    pub machine: u16,
    /// True for a 64-bit file, false for a 32-bit file.
    pub is_64: bool,
    /// True for a little-endian file, false for a big-endian file.
    pub is_little_endian: bool,
}

impl Arch {
    /// Size in bytes of an ELF header written for this architecture.
    pub open spec fn spec_ehdr_size(self) -> int {
        if self.is_64 { 64 } else { 52 }
    }

    /// Size in bytes of a program header written for this architecture.
    pub open spec fn spec_phdr_size(self) -> int {
        if self.is_64 { 56 } else { 32 }
    }

    /// Size in bytes of an ELF header written for this architecture.
    pub fn ehdr_size(&self) -> (r: u64)
        ensures
            r == self.spec_ehdr_size(),
    {
        if self.is_64 { 64 } else { 52 }
    }

    /// Size in bytes of a program header written for this architecture.
    pub fn phdr_size(&self) -> (r: u64)
        ensures
            r == self.spec_phdr_size(),
    {
        if self.is_64 { 56 } else { 32 }
    }

    /// Largest value representable in one address or size field of a file of
    /// this architecture.
    pub open spec fn spec_word_max(self) -> int {
        if self.is_64 { u64::MAX as int } else { u32::MAX as int }
    }

    /// Largest value representable in one address or size field of a file of
    /// this architecture.
    pub fn word_max(&self) -> (r: u64)
        ensures
            r == self.spec_word_max(),
    {
        if self.is_64 { u64::MAX } else { u32::MAX as u64 }
    }
}

} // verus!
