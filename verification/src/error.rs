//! The error type for the stages of preloading an ELF file.

use vstd::prelude::*;

verus! {

/// The reason for which the input bytes could not be read as an ELF file.
#[derive(Debug, Clone, Copy, PartialEq, Eq, Structural)]
pub enum ParseFault {
    /// The bytes do not start with the ELF magic number.
    BadMagic,
    /// The class byte names neither a 32-bit nor a 64-bit file.
    BadClass,
    /// The data byte names neither a little-endian nor a big-endian file.
    BadEncoding,
    /// The bytes end before the ELF header does.
    HeaderOutOfBounds,
    /// The program-header table lies outside the bytes.
    PhdrsOutOfBounds,
}

/// A wrapper for the diagnostic of a failed parse of an ELF file.
#[derive(Debug, Clone, Copy, PartialEq, Eq, Structural)]
pub struct BadElfError {
    /// The reason for which the parse failed.
    pub fault: ParseFault,
}

/// The error type for the different stages of preloading an ELF file.
#[derive(Debug)]
pub enum Error {
    /// The input bytes are not a proper ELF file.
    BadElf(BadElfError),
    /// The input ELF file has failed a constraint validation.
    InvalidElf {
        /// The message that describes the failed constraint.
        message: String,
    },
    /// The output bytes are too small for the layout of the output ELF file.
    OutputTooSmall,
}

} // verus!
