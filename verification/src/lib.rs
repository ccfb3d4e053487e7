//! Transform ELF files into a form that can be loaded by copying the whole
//! file image to a single load address.
//!
//! An arbitrary ELF file cannot in general be loaded by copying its bytes to
//! its expected load address: segments may have zero-initialized tails (BSS)
//! that exist only in memory, and alignment gaps between segments need not be
//! materialized on disk.  This library transforms an ELF file that satisfies
//! a few constraints into an ELF file whose on-disk bytes are exactly the
//! memory image of its segments, so that a boot-time loader can place it with
//! one contiguous copy.
//!
//! The main types are [`Input`], [`Layout`], and [`OutputWriter`].  `Input`
//! holds the parsed and validated input file.  `Layout` is the computed
//! layout of the output file.  `OutputWriter` writes part or all of the
//! output and can be split in two so that independent parts of the output
//! can be written in parallel.

use vstd::prelude::*;

mod arch;
mod codec;
mod error;
mod input;
mod layout;
mod output;
mod phdr;
pub mod sel4;

pub use arch::Arch;
pub use error::{BadElfError, Error};
pub use input::Input;
pub use layout::{Layout, LayoutStrategy};
pub use output::{ElfWriter, OutputWriter, SegmentWriter};
pub use phdr::ProgramHeader;

verus! {

/// Alignment unit assumed for the synthesized header segment.
pub const PAGE_SIZE: u64 = 4096;

} // verus!
