//! Loader, linker and packer for a relocated AArch64 program image.
//!
//! The crate builds a page-addressed memory image of the four statically
//! linked modules of the game's executable bundle (`rtld`, `main`,
//! `subsdk0`, `sdk`), applies the dynamic relocations, slices the image by
//! a caller-supplied region filter, and packs the result into a
//! length-prefixed binary container that round-trips exactly through the
//! inverse unpacker.

use vstd::prelude::*;

pub mod env;
pub mod error;
pub mod module;
pub mod cli;
pub mod elf_image;
pub mod memory;
pub mod pack;
pub mod paths;
pub mod program;
pub mod reloc;
pub mod search;
pub mod slicer;
pub mod singleton;
pub mod singletons;
pub mod symbols;

pub use env::Env;
pub use error::Error;
pub use module::{ModuleInfo, ModuleType, Modules};

verus! {

/// Size of one page, the atomic unit of layout, ownership and extraction.
pub const PAGE_SIZE: u32 = 0x1000;

} // verus!
