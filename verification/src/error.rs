//! Error kinds of the loader, linker, slicer and packer. Each carries
//! enough structured context to pinpoint the failure.

use vstd::prelude::*;

use crate::module::ModuleType;

verus! {

/// A fatal failure of the pipeline. Soft failures (unresolved
/// `GLOB_DAT`/`JUMP_SLOT` symbols) are not errors: they are collected as
/// warnings and the relocation writes zero.
#[derive(Debug, Clone)]
pub enum Error {
    /// the program base address violates the alignment mask
    InvalidProgramStart,
    /// no known sdk version string was found, or both were
    UnrecognizedVersion,
    /// a sibling module file was not found
    MissingModule(ModuleType),
    /// the ELF data handed to the loader was malformed
    BadElf(String),
    /// a PT_LOAD position disagrees with the expected layout table
    LayoutMismatch { module: ModuleType, expected: u64, actual: u64 },
    /// a module carried no PT_LOAD segment at all
    MissingSegments,
    /// a program header carried contradictory fields
    BadProgramHeader,
    /// two strong definitions of one name inside one module
    DuplicateStrongSymbol { module: ModuleType, name: String },
    /// a name that no module defines, where resolution is mandatory
    UnresolvedSymbol(String),
    /// more than one strong definition of one name across modules
    AmbiguousSymbol(String),
    /// a relocation type outside the supported four
    UnexpectedRelocation(u32),
    /// a prohibited addend or symbol reference on a relocation
    MalformedRelocation(String),
    /// a relocation target that no loaded region contains
    OffsetOutsideRegions(u64),
    /// an unpack length prefix or invariant failure
    CorruptImage(String),
    /// pack then unpack did not reproduce the input
    RoundTripMismatch,
    /// a malformed region filter or address argument
    InvalidRegionArgument(String),
    /// a filesystem failure, raised by the surrounding tooling
    Io { path: String, message: String },
}

} // verus!
