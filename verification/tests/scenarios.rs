//! End-to-end scenarios: base-address validation, the region filter
//! grammar, symbol precedence, one relocation write, the packed
//! container, and the slicer.

use uking_relocate::cli::{parse_region, parse_u32, parse_u64};
use uking_relocate::env::Env;
use uking_relocate::error::Error;
use uking_relocate::elf_image::{ElfImage, RelaEntry, R_AARCH64_ABS64};
use uking_relocate::memory::{Memory, Region};
use uking_relocate::module::{ModuleType, Modules};
use uking_relocate::pack::{pack, unpack};
use uking_relocate::program::{Program, ProgramBuilder};
use uking_relocate::cli::RegionArg;
use uking_relocate::symbols::{DynamicSymbolTables, SymbolValue};

fn programs_equal(a: &Program, b: &Program) -> bool {
    if a.env != b.env
        || a.program_start != b.program_start
        || a.program_size != b.program_size
        || a.singletons.len() != b.singletons.len()
        || a.program_regions.len() != b.program_regions.len()
        || a.attachments.len() != b.attachments.len()
    {
        return false;
    }
    for (x, y) in a.singletons.iter().zip(b.singletons.iter()) {
        if x.id != y.id
            || x.rel_start != y.rel_start
            || x.size != y.size
            || x.create_bytecode != y.create_bytecode
        {
            return false;
        }
    }
    for (x, y) in a.program_regions.iter().zip(b.program_regions.iter()) {
        if x.rel_start != y.rel_start || x.permissions != y.permissions || x.data != y.data {
            return false;
        }
    }
    for (x, y) in a.attachments.iter().zip(b.attachments.iter()) {
        if x.id != y.id || x.data != y.data {
            return false;
        }
    }
    true
}

#[test]
fn base_address_validation() {
    // a bit above the 40-bit window: rejected
    let r = ProgramBuilder::new(Env::X150, 0x0000_0100_0000_0000, 0x1000);
    assert!(matches!(r, Err(Error::InvalidProgramStart)));
    // not 1 MiB aligned: rejected
    let r = ProgramBuilder::new(Env::X150, 0x0000_0000_8000_1000, 0x1000);
    assert!(matches!(r, Err(Error::InvalidProgramStart)));
    // a 1 MiB-aligned address in the low 40 bits: accepted
    let r = ProgramBuilder::new(Env::X150, 0x0000_0000_8000_0000, 0x1000);
    assert!(r.is_ok());
    // the mask leaves the whole 40-bit window open
    let r = ProgramBuilder::new(Env::X150, 0x0000_0008_0010_0000, 0x1000);
    assert!(r.is_ok());
}

#[test]
fn region_filter_parse_with_module() {
    let r = parse_region("[main]:0x1000-0x3000").unwrap();
    assert_eq!(r.module, ModuleType::Main);
    assert_eq!(r.start, 0x1000);
    assert_eq!(r.end, 0x3000);
}

#[test]
fn region_filter_parse_default_module_aligns_end() {
    let r = parse_region("0x2000-0x2800").unwrap();
    assert_eq!(r.module, ModuleType::Rtld);
    assert_eq!(r.start, 0x2000);
    assert_eq!(r.end, 0x3000);
}

#[test]
fn region_filter_parse_bad_module() {
    let r = parse_region("[bogus]:0-1");
    assert!(matches!(r, Err(Error::InvalidRegionArgument(_))));
}

#[test]
fn region_filter_parse_empty_range() {
    let r = parse_region("0x3000-0x3000");
    assert!(matches!(r, Err(Error::InvalidRegionArgument(_))));
}

#[test]
fn region_filter_parse_aliases() {
    assert_eq!(parse_region("[nnsdk]:0-1000").unwrap().module, ModuleType::Sdk);
    assert_eq!(parse_region("[U-KING]:0-1000").unwrap().module, ModuleType::Main);
    assert_eq!(parse_region("[multimedia.nss]:0-1000").unwrap().module, ModuleType::Subsdk0);
    assert_eq!(parse_region("[ nnrtld ]:0-1000").unwrap().module, ModuleType::Rtld);
}

#[test]
fn hex_parsing() {
    assert_eq!(parse_u32("0x1f").unwrap(), 0x1f);
    assert_eq!(parse_u32("X10").unwrap(), 0x10);
    assert_eq!(parse_u32("").unwrap(), 0);
    assert_eq!(parse_u32("0x").unwrap(), 0);
    assert_eq!(parse_u32("ffffffff").unwrap(), 0xffff_ffff);
    assert!(parse_u32("1g").is_err());
    assert!(parse_u32("100000000").is_err());
    assert_eq!(parse_u64("123456789a").unwrap(), 0x1234_5678_9a);
    assert!(parse_u64("ZZZ").is_err());
}

fn strong(addr: u64) -> SymbolValue {
    SymbolValue { address: addr, weak: false, protected: false }
}

fn weak(addr: u64) -> SymbolValue {
    SymbolValue { address: addr, weak: true, protected: false }
}

#[test]
fn symbol_precedence_strong_wins() {
    let mut t = DynamicSymbolTables::new(0, 0x1000);
    t.main.insert(ModuleType::Main, "foo".to_string(), weak(0xA)).unwrap();
    t.sdk.insert(ModuleType::Sdk, "foo".to_string(), strong(0xB)).unwrap();
    assert_eq!(t.resolve(ModuleType::Rtld, &"foo".to_string()).unwrap(), 0xB);
}

#[test]
fn symbol_precedence_all_weak_lowest_module() {
    let mut t = DynamicSymbolTables::new(0, 0x1000);
    t.main.insert(ModuleType::Main, "foo".to_string(), weak(0xA)).unwrap();
    t.sdk.insert(ModuleType::Sdk, "foo".to_string(), weak(0xB)).unwrap();
    assert_eq!(t.resolve(ModuleType::Rtld, &"foo".to_string()).unwrap(), 0xA);
}

#[test]
fn symbol_precedence_two_strong_is_ambiguous() {
    let mut t = DynamicSymbolTables::new(0, 0x1000);
    t.main.insert(ModuleType::Main, "foo".to_string(), strong(0xA)).unwrap();
    t.sdk.insert(ModuleType::Sdk, "foo".to_string(), strong(0xB)).unwrap();
    let r = t.resolve(ModuleType::Rtld, &"foo".to_string());
    assert!(matches!(r, Err(Error::AmbiguousSymbol(_))));
}

#[test]
fn symbol_resolution_is_deterministic() {
    let mut t = DynamicSymbolTables::new(0, 0x1000);
    t.main.insert(ModuleType::Main, "foo".to_string(), weak(0xA)).unwrap();
    t.subsdk0.insert(ModuleType::Subsdk0, "foo".to_string(), weak(0xB)).unwrap();
    let first = t.resolve(ModuleType::Rtld, &"foo".to_string()).unwrap();
    let second = t.resolve(ModuleType::Rtld, &"foo".to_string()).unwrap();
    assert_eq!(first, second);
    assert_eq!(first, 0xA);
}

#[test]
fn magic_symbols_resolve_to_image_bounds() {
    let t = DynamicSymbolTables::new(0x8000_0000, 0x4000);
    assert_eq!(t.resolve(ModuleType::Rtld, &"__EX_start".to_string()).unwrap(), 0x8000_0000);
    assert_eq!(t.resolve(ModuleType::Rtld, &"__EX_end".to_string()).unwrap(), 0x8000_4000);
    let r = t.resolve(ModuleType::Rtld, &"nothing".to_string());
    assert!(matches!(r, Err(Error::UnresolvedSymbol(_))));
}

#[test]
fn relocation_write_abs64() {
    let info = Modules::new_1_5_0();
    let region = Region::allocate(ModuleType::Main, 0x4000, 0x6, &[], 0x2000);
    let mut mem = Memory { info, start: 0, regions: vec![region], loaded_size: 0x8000 };
    let mut tables = DynamicSymbolTables::new(0, 0x8000);
    tables
        .main
        .insert(ModuleType::Main, "sym".to_string(), strong(0x0000_0000_DEAD_BEEF))
        .unwrap();
    let elf = ElfImage {
        segments: vec![],
        dyn_symbols: vec![],
        rela_dyn: vec![RelaEntry {
            r_offset: 0x100,
            r_sym: 1,
            r_type: R_AARCH64_ABS64,
            r_addend: 0x10,
            name: Some("sym".to_string()),
        }],
        rela_plt: vec![],
    };
    let mut warnings = Vec::new();
    let count = mem
        .relocate(ModuleType::Main, &elf, &info.main, &tables, &mut warnings)
        .unwrap();
    assert_eq!(count, 1);
    assert!(warnings.is_empty());
    // image offset 0x4100 lies at offset 0x100 of the region's first page
    let page = &mem.regions[0].pages[0];
    assert_eq!(&page.data[0x100..0x108], &[0xFF, 0xBE, 0xAD, 0xDE, 0, 0, 0, 0]);
}

#[test]
fn pack_minimal_program_bytes() {
    let b = ProgramBuilder::new(Env::X150, 0x8000_0000, 0x1000).unwrap();
    let b = b.add_module(ModuleType::Rtld, 0).done_with_modules();
    let b = b.add_section(0, 0x6).done_with_sections();
    let b = b.add_segment(0, vec![0u8; 0x1000]);
    let p = b.done_with_segments().done();
    let bytes = pack(&p);
    let mut expect: Vec<u8> = Vec::new();
    expect.push(0x01); // env tag X150
    expect.extend_from_slice(&0u32.to_le_bytes()); // no singletons
    expect.extend_from_slice(&0x8000_0000u64.to_le_bytes()); // program start
    expect.extend_from_slice(&0x1000u32.to_le_bytes()); // program size
    expect.extend_from_slice(&1u32.to_le_bytes()); // one region
    expect.extend_from_slice(&0u32.to_le_bytes()); // rel_start
    expect.extend_from_slice(&0x6u32.to_le_bytes()); // permissions
    expect.extend_from_slice(&0x1000u32.to_le_bytes()); // data length
    expect.extend_from_slice(&[0u8; 0x1000]);
    assert_eq!(bytes, expect);
    let q = unpack(&bytes).unwrap();
    assert!(programs_equal(&p, &q));
}

#[test]
fn slicer_extracts_three_pages() {
    let info = Modules::new_1_5_0();
    let mut data = Vec::new();
    for i in 0..0x4000u32 {
        data.push((i % 251) as u8);
    }
    let region = Region::allocate(ModuleType::Main, 0x4000, 5, &data, 0x4000);
    let mem = Memory { info, start: 0, regions: vec![region], loaded_size: 0x8000 };
    let b = ProgramBuilder::new(Env::X150, 0, 0x8000).unwrap();
    let b = b.add_module(ModuleType::Main, 0x4000).done_with_modules();
    let b = b.add_section(0x4000, 5).done_with_sections();
    let filter = vec![RegionArg { module: ModuleType::Main, start: 0x500, end: 0x2500 }];
    let b = mem.add_program_segments(&filter, b);
    assert_eq!(b.regions.len(), 1);
    assert_eq!(b.regions[0].rel_start, 0x4000);
    assert_eq!(b.regions[0].permissions, 5);
    assert_eq!(b.regions[0].data.len(), 3 * 0x1000);
    assert_eq!(&b.regions[0].data[..], &data[..0x3000]);
}

#[test]
fn slicer_empty_filter_keeps_everything() {
    let info = Modules::new_1_5_0();
    let r1 = Region::allocate(ModuleType::Rtld, 0x0, 5, &[1, 2, 3], 0x1000);
    let r2 = Region::allocate(ModuleType::Rtld, 0x1000, 6, &[4, 5, 6], 0x2000);
    let mem = Memory { info, start: 0, regions: vec![r1, r2], loaded_size: 0x3000 };
    let b = ProgramBuilder::new(Env::X150, 0, 0x3000).unwrap();
    let b = b.add_module(ModuleType::Rtld, 0).done_with_modules();
    let b = b.add_section(0x0, 5).add_section(0x1000, 6).done_with_sections();
    let b = mem.add_program_segments(&Vec::new(), b);
    assert_eq!(b.regions.len(), 2);
    assert_eq!(b.regions[0].rel_start, 0);
    assert_eq!(b.regions[0].permissions, 5);
    assert_eq!(b.regions[0].data.len(), 0x1000);
    assert_eq!(&b.regions[0].data[..3], &[1, 2, 3]);
    assert_eq!(b.regions[1].rel_start, 0x1000);
    assert_eq!(b.regions[1].permissions, 6);
    assert_eq!(b.regions[1].data.len(), 0x2000);
    assert_eq!(&b.regions[1].data[..3], &[4, 5, 6]);
}
