//! Plain-value model of the parts of a parsed ELF module that the loader,
//! symbol table and relocation engine read: PT_LOAD segments, dynamic
//! symbols, and the two relocation tables. The surrounding tooling parses
//! the ELF container and hands these values in.

use vstd::prelude::*;

use crate::module::Modules;

verus! {

/// ELF segment type of a loadable segment.
pub const PT_LOAD: u32 = 1;

/// AArch64 relocation: absolute 64-bit address plus addend.
pub const R_AARCH64_ABS64: u32 = 257;

/// AArch64 relocation: GOT entry for a data symbol.
pub const R_AARCH64_GLOB_DAT: u32 = 1025;

/// AArch64 relocation: GOT entry for a PLT jump slot.
pub const R_AARCH64_JUMP_SLOT: u32 = 1026;

/// AArch64 relocation: base address plus addend, no symbol.
pub const R_AARCH64_RELATIVE: u32 = 1027;

/// ELF symbol binding: local.
pub const STB_LOCAL: u8 = 0;

/// ELF symbol binding: weak.
pub const STB_WEAK: u8 = 2;

/// ELF symbol visibility: internal.
pub const STV_INTERNAL: u8 = 1;

/// ELF symbol visibility: hidden.
pub const STV_HIDDEN: u8 = 2;

/// ELF symbol visibility: protected.
pub const STV_PROTECTED: u8 = 3;

/// One program header of an ELF module together with its file data.
pub struct LoadSegment {
    /// segment type; only `PT_LOAD` segments are placed in memory
    pub p_type: u32,
    /// permission bits (1: X, 2: W, 4: R), stored verbatim
    pub p_flags: u32,
    /// module-relative virtual address the segment expects to live at
    pub p_vaddr: u64,
    /// physical address; must equal `p_vaddr` in these modules
    pub p_paddr: u64,
    /// size of the segment in memory; the part past `data` is zero
    pub p_memsz: u64,
    /// the segment's file data (`p_filesz` bytes)
    pub data: Vec<u8>,
}

/// The mathematical value of a `LoadSegment`.
pub struct SegV {
    pub p_type: u32,
    pub p_flags: u32,
    pub p_vaddr: u64,
    pub p_paddr: u64,
    pub p_memsz: u64,
    pub data: Seq<u8>,
}

impl View for LoadSegment {
    type V = SegV;

    open spec fn view(&self) -> SegV {
        SegV {
            p_type: self.p_type,
            p_flags: self.p_flags,
            p_vaddr: self.p_vaddr,
            p_paddr: self.p_paddr,
            p_memsz: self.p_memsz,
            data: self.data@,
        }
    }
}

/// One entry of an ELF dynamic symbol table, with its name resolved out
/// of the string table.
pub struct DynSymbol {
    /// the symbol's name
    pub name: String,
    /// whether the entry's name index was non-zero
    pub named: bool,
    /// whether the entry is undefined (`st_shndx == SHN_UNDEF`)
    pub undefined: bool,
    /// the symbol's module-relative value
    pub value: u64,
    /// binding strength (`st_info >> 4`)
    pub bind: u8,
    /// visibility (`st_other & 3`)
    pub vis: u8,
}

/// The mathematical value of a `DynSymbol`.
pub struct DynSymbolV {
    pub name: Seq<char>,
    pub named: bool,
    pub undefined: bool,
    pub value: u64,
    pub bind: u8,
    pub vis: u8,
}

impl View for DynSymbol {
    type V = DynSymbolV;

    open spec fn view(&self) -> DynSymbolV {
        DynSymbolV {
            name: self.name@,
            named: self.named,
            undefined: self.undefined,
            value: self.value,
            bind: self.bind,
            vis: self.vis,
        }
    }
}

/// One entry of a `.rela.dyn` or `.rela.plt` table, with the referenced
/// symbol's name resolved out of the string tables where the symbol
/// index is non-zero.
pub struct RelaEntry {
    /// module-relative offset of the write target
    pub r_offset: u64,
    /// index of the referenced symbol, zero for none
    pub r_sym: u32,
    /// relocation type
    pub r_type: u32,
    /// addend
    pub r_addend: i64,
    /// name of the referenced symbol, where `r_sym` is non-zero
    pub name: Option<String>,
}

/// The mathematical value of a `RelaEntry`.
pub struct RelaV {
    pub r_offset: u64,
    pub r_sym: u32,
    pub r_type: u32,
    pub r_addend: i64,
    pub name: Option<Seq<char>>,
}

impl View for RelaEntry {
    type V = RelaV;

    open spec fn view(&self) -> RelaV {
        RelaV {
            r_offset: self.r_offset,
            r_sym: self.r_sym,
            r_type: self.r_type,
            r_addend: self.r_addend,
            name: match self.name {
                Option::Some(ref n) => Option::Some(n@),
                Option::None => Option::None,
            },
        }
    }
}

/// Everything the loader and linker read out of one parsed ELF module.
pub struct ElfImage {
    /// the program headers, in file order
    pub segments: Vec<LoadSegment>,
    /// the defined and undefined dynamic symbols, in table order
    pub dyn_symbols: Vec<DynSymbol>,
    /// the `.rela.dyn` table, in file order
    pub rela_dyn: Vec<RelaEntry>,
    /// the `.rela.plt` table, in file order
    pub rela_plt: Vec<RelaEntry>,
}

/// The mathematical value of an `ElfImage`.
pub struct ElfImageV {
    pub segments: Seq<SegV>,
    pub dyn_symbols: Seq<DynSymbolV>,
    pub rela_dyn: Seq<RelaV>,
    pub rela_plt: Seq<RelaV>,
}

impl View for ElfImage {
    type V = ElfImageV;

    open spec fn view(&self) -> ElfImageV {
        ElfImageV {
            segments: Seq::new(self.segments@.len(), |i: int| self.segments@[i]@),
            dyn_symbols: Seq::new(self.dyn_symbols@.len(), |i: int| self.dyn_symbols@[i]@),
            rela_dyn: Seq::new(self.rela_dyn@.len(), |i: int| self.rela_dyn@[i]@),
            rela_plt: Seq::new(self.rela_plt@.len(), |i: int| self.rela_plt@[i]@),
        }
    }
}

impl ElfImage {
    /// The `.rela.dyn` table.
    pub fn rela_dyn(&self) -> (r: &Vec<RelaEntry>)
        ensures
            r == &self.rela_dyn,
    {
        &self.rela_dyn
    }

    /// The `.rela.plt` table.
    pub fn rela_plt(&self) -> (r: &Vec<RelaEntry>)
        ensures
            r == &self.rela_plt,
    {
        &self.rela_plt
    }
}

/// The four parsed modules of one bundle, with the layout the version
/// fingerprint selected for them.
pub struct ModuleData {
    pub rtld: ElfImage,
    pub main: ElfImage,
    pub subsdk0: ElfImage,
    pub sdk: ElfImage,
    pub info: Modules,
}

/// The mathematical value of a `ModuleData`.
pub struct ModuleDataV {
    pub rtld: ElfImageV,
    pub main: ElfImageV,
    pub subsdk0: ElfImageV,
    pub sdk: ElfImageV,
    pub info: Modules,
}

impl View for ModuleData {
    type V = ModuleDataV;

    open spec fn view(&self) -> ModuleDataV {
        ModuleDataV {
            rtld: self.rtld@,
            main: self.main@,
            subsdk0: self.subsdk0@,
            sdk: self.sdk@,
            info: self.info,
        }
    }
}

} // verus!
