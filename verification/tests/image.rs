//! The packed container, version detection, the loader, symbol
//! gathering, and the singleton store.

use uking_relocate::elf_image::{
    DynSymbol, ElfImage, LoadSegment, ModuleData, RelaEntry, PT_LOAD, R_AARCH64_GLOB_DAT,
    R_AARCH64_RELATIVE, STB_LOCAL, STB_WEAK, STV_HIDDEN,
};
use uking_relocate::env::Env;
use uking_relocate::error::Error;
use uking_relocate::memory::{perm_str, Memory, Page, Region};
use uking_relocate::module::{ModuleInfo, ModuleType, Modules};
use uking_relocate::pack::{pack, unpack};
use uking_relocate::paths::module_file_names;
use uking_relocate::program::{DataId, ProgramBuilder};
use uking_relocate::singleton::{CreateByteCode, Singleton, SingletonCreator, SingletonInfo};
use uking_relocate::singletons::{pause_menu_data_mgr, SingletonAlloc};
use uking_relocate::symbols::{DynamicSymbolTables, SymbolMap, SymbolValue};

#[test]
fn env_tags_roundtrip() {
    for env in [Env::X150, Env::X160, Env::X150DLC, Env::X160DLC] {
        assert_eq!(Env::from_tag(env.tag()), Some(env));
    }
    assert_eq!(Env::from_tag(0x05), None);
    assert!(Env::X160.is_1_6_0());
    assert!(Env::X160DLC.is_1_6_0());
    assert!(!Env::X150.is_1_6_0());
    assert!(!Env::X150DLC.is_1_6_0());
}

#[test]
fn version_detection() {
    let mut with_150 = b"garbage garbage sdk_version: 4.4.0 more garbage".to_vec();
    let m = Modules::detect(&with_150).unwrap();
    assert!(!m.is_1_6_0);
    assert_eq!(m.main.start, 0x4000);
    assert_eq!(m.sdk.end, 0x381e000);

    let with_160 = b"xx sdk_version: 7.3.2 yy".to_vec();
    let m = Modules::detect(&with_160).unwrap();
    assert!(m.is_1_6_0);
    assert_eq!(m.sdk.end, 0x415b000);

    with_150.extend_from_slice(b"sdk_version: 7.3.2");
    assert!(matches!(Modules::detect(&with_150), Err(Error::UnrecognizedVersion)));
    assert!(matches!(Modules::detect(b"nothing here"), Err(Error::UnrecognizedVersion)));
}

#[test]
fn pack_roundtrip_full_program() {
    let b = ProgramBuilder::new(Env::X160DLC, 0x0000_00F0_0000_0000, 0x3000).unwrap();
    let singletons = vec![SingletonInfo::new(
        Singleton::PauseMenuDataMgr,
        0x123,
        0x456,
        vec![
            CreateByteCode::Enter(7),
            CreateByteCode::ExecuteUntil(8),
            CreateByteCode::Allocate,
            CreateByteCode::Jump(9),
            CreateByteCode::ExecuteToReturn,
            CreateByteCode::Return,
        ],
    )];
    let b = b.singletons(singletons);
    let b = b.add_module(ModuleType::Rtld, 0).done_with_modules();
    let b = b.add_section(0, 5).add_section(0x1000, 6).done_with_sections();
    let b = b.add_segment(0, vec![0xAA; 0x1000]).add_segment(0x2000, vec![0xBB; 0x1000]);
    let b = b.done_with_segments();
    let b = b.add_data(DataId::ActorInfoByml, vec![9, 8, 7]);
    let p = b.done();
    let bytes = pack(&p);
    let q = unpack(&bytes).unwrap();
    assert_eq!(q.env, Env::X160DLC);
    assert_eq!(q.program_start, 0x0000_00F0_0000_0000);
    assert_eq!(q.program_size, 0x3000);
    assert_eq!(q.singletons.len(), 1);
    assert_eq!(q.singletons[0].id, Singleton::PauseMenuDataMgr);
    assert_eq!(q.singletons[0].rel_start, 0x123);
    assert_eq!(q.singletons[0].size, 0x456);
    assert_eq!(q.singletons[0].create_bytecode.len(), 6);
    assert_eq!(q.singletons[0].create_bytecode[0], CreateByteCode::Enter(7));
    assert_eq!(q.program_regions.len(), 2);
    assert_eq!(q.program_regions[1].rel_start, 0x2000);
    // the segment at 0x2000 took the permissions of the section at 0x1000
    assert_eq!(q.program_regions[1].permissions, 6);
    assert_eq!(q.program_regions[1].data, vec![0xBB; 0x1000]);
    assert_eq!(q.attachments.len(), 1);
    assert_eq!(q.attachments[0].id, DataId::ActorInfoByml);
    assert_eq!(q.attachments[0].data, vec![9, 8, 7]);
    // packing the reparsed image gives identical bytes
    assert_eq!(pack(&q), bytes);
}

#[test]
fn unpack_rejects_corrupt_images() {
    // empty input
    assert!(matches!(unpack(&[]), Err(Error::CorruptImage(_))));
    // unknown environment tag
    assert!(matches!(unpack(&[0x09]), Err(Error::CorruptImage(_))));
    // truncated singleton count
    assert!(matches!(unpack(&[0x01, 0x01]), Err(Error::CorruptImage(_))));
    // a misaligned program start
    let mut bytes = Vec::new();
    bytes.push(0x01);
    bytes.extend_from_slice(&0u32.to_le_bytes());
    bytes.extend_from_slice(&0x1234u64.to_le_bytes()); // not 1 MiB aligned
    bytes.extend_from_slice(&0x1000u32.to_le_bytes());
    bytes.extend_from_slice(&0u32.to_le_bytes());
    assert!(matches!(unpack(&bytes), Err(Error::CorruptImage(_))));
    // a region length that is no page multiple
    let mut bytes = Vec::new();
    bytes.push(0x01);
    bytes.extend_from_slice(&0u32.to_le_bytes());
    bytes.extend_from_slice(&0u64.to_le_bytes());
    bytes.extend_from_slice(&0x1000u32.to_le_bytes());
    bytes.extend_from_slice(&1u32.to_le_bytes());
    bytes.extend_from_slice(&0u32.to_le_bytes()); // rel_start
    bytes.extend_from_slice(&5u32.to_le_bytes()); // permissions
    bytes.extend_from_slice(&3u32.to_le_bytes()); // 3 bytes: not a page
    bytes.extend_from_slice(&[1, 2, 3]);
    assert!(matches!(unpack(&bytes), Err(Error::CorruptImage(_))));
    // a length prefix past the end of the input
    let mut bytes = Vec::new();
    bytes.push(0x01);
    bytes.extend_from_slice(&1u32.to_le_bytes());
    bytes.push(0x01); // singleton id
    assert!(matches!(unpack(&bytes), Err(Error::CorruptImage(_))));
}

fn page_data(byte: u8) -> Vec<u8> {
    vec![byte; 0x1000]
}

fn segment(vaddr: u64, flags: u32, memsz: u64, data: Vec<u8>) -> LoadSegment {
    LoadSegment { p_type: PT_LOAD, p_flags: flags, p_vaddr: vaddr, p_paddr: vaddr, p_memsz: memsz, data }
}

fn tiny_info() -> ModuleInfo {
    ModuleInfo { start: 0x0, text_end: 0x1000, end: 0x3000 }
}

#[test]
fn load_module_places_segments_and_zero_fills() {
    let info = tiny_info();
    let elf = ElfImage {
        segments: vec![
            segment(0, 5, 0x1000, page_data(0x11)),
            segment(0x1000, 6, 0x2000, vec![0x22; 16]),
        ],
        dyn_symbols: vec![],
        rela_dyn: vec![],
        rela_plt: vec![],
    };
    let mut mem = Memory {
        info: Modules::new_1_5_0(),
        start: 0,
        regions: Vec::new(),
        loaded_size: 0,
    };
    mem.load_module(ModuleType::Rtld, &elf, &info).unwrap();
    assert_eq!(mem.loaded_size, 0x3000);
    assert_eq!(mem.regions.len(), 2);
    assert_eq!(mem.regions[0].rel_start, 0);
    assert_eq!(mem.regions[0].permissions, 5);
    assert_eq!(mem.regions[0].get_num_pages(), 1);
    assert_eq!(mem.regions[1].rel_start, 0x1000);
    assert_eq!(mem.regions[1].get_byte_len(), 0x2000);
    // the copied prefix, then .bss zero fill
    assert_eq!(mem.regions[1].pages[0].data[..16], [0x22; 16]);
    assert_eq!(mem.regions[1].pages[0].data[16], 0);
    assert_eq!(mem.regions[1].pages[1].data[0], 0);
}

#[test]
fn load_module_rejects_wrong_text_end() {
    let info = ModuleInfo { start: 0, text_end: 0x2000, end: 0x3000 };
    let elf = ElfImage {
        segments: vec![segment(0, 5, 0x1000, vec![])],
        dyn_symbols: vec![],
        rela_dyn: vec![],
        rela_plt: vec![],
    };
    let mut mem = Memory {
        info: Modules::new_1_5_0(),
        start: 0,
        regions: Vec::new(),
        loaded_size: 0,
    };
    let r = mem.load_module(ModuleType::Rtld, &elf, &info);
    assert!(matches!(r, Err(Error::LayoutMismatch { .. })));
}

#[test]
fn load_module_rejects_gap_and_missing_segments() {
    let info = tiny_info();
    let elf = ElfImage {
        segments: vec![segment(0x1000, 5, 0x1000, vec![])],
        dyn_symbols: vec![],
        rela_dyn: vec![],
        rela_plt: vec![],
    };
    let mut mem = Memory {
        info: Modules::new_1_5_0(),
        start: 0,
        regions: Vec::new(),
        loaded_size: 0,
    };
    let r = mem.load_module(ModuleType::Rtld, &elf, &info);
    assert!(matches!(r, Err(Error::LayoutMismatch { .. })));

    let empty = ElfImage { segments: vec![], dyn_symbols: vec![], rela_dyn: vec![], rela_plt: vec![] };
    let mut mem = Memory {
        info: Modules::new_1_5_0(),
        start: 0,
        regions: Vec::new(),
        loaded_size: 0,
    };
    let r = mem.load_module(ModuleType::Rtld, &empty, &info);
    assert!(matches!(r, Err(Error::MissingSegments)));
}

fn dyn_symbol(name: &str, value: u64, bind: u8, vis: u8) -> DynSymbol {
    DynSymbol {
        name: name.to_string(),
        named: true,
        undefined: false,
        value,
        bind,
        vis,
    }
}

#[test]
fn dynamic_symbols_skip_rules_and_duplicates() {
    let elf = ElfImage {
        segments: vec![],
        dyn_symbols: vec![
            dyn_symbol("keep", 0x10, 1, 0),
            DynSymbol { name: "undef".to_string(), named: true, undefined: true, value: 1, bind: 1, vis: 0 },
            DynSymbol { name: String::new(), named: false, undefined: false, value: 2, bind: 1, vis: 0 },
            dyn_symbol("hidden", 3, 1, STV_HIDDEN),
            dyn_symbol("local", 4, STB_LOCAL, 0),
            dyn_symbol("weakling", 5, STB_WEAK, 0),
        ],
        rela_dyn: vec![],
        rela_plt: vec![],
    };
    let mut table = SymbolMap::new();
    let count = elf.load_dynamic_symbols(ModuleType::Main, 0x1000, &mut table).unwrap();
    assert_eq!(count, 2);
    assert_eq!(table.len(), 2);
    let v = table.get(&"keep".to_string()).unwrap();
    assert_eq!(v.address, 0x1010);
    assert!(!v.weak);
    let w = table.get(&"weakling".to_string()).unwrap();
    assert!(w.weak);
    assert!(table.get(&"hidden".to_string()).is_none());

    // a weak occupant is replaced; two strong bindings collide
    let elf2 = ElfImage {
        segments: vec![],
        dyn_symbols: vec![
            dyn_symbol("weakling", 0x77, 1, 0),
            dyn_symbol("keep", 0x99, 1, 0),
        ],
        rela_dyn: vec![],
        rela_plt: vec![],
    };
    let r = elf2.load_dynamic_symbols(ModuleType::Main, 0, &mut table);
    assert!(matches!(r, Err(Error::DuplicateStrongSymbol { .. })));
    // the weak entry was replaced before the failure stopped the walk
    assert_eq!(table.get(&"weakling".to_string()).unwrap().address, 0x77);
}

#[test]
fn unresolved_got_entry_warns_and_writes_zero() {
    let info = ModuleInfo { start: 0, text_end: 0x0, end: 0x1000 };
    let region = Region::allocate(ModuleType::Rtld, 0, 6, &[0xFFu8; 0x1000], 0x1000);
    let mut mem = Memory {
        info: Modules::new_1_5_0(),
        start: 0,
        regions: vec![region],
        loaded_size: 0x1000,
    };
    let tables = DynamicSymbolTables::new(0, 0x1000);
    let elf = ElfImage {
        segments: vec![],
        dyn_symbols: vec![],
        rela_dyn: vec![RelaEntry {
            r_offset: 0x20,
            r_sym: 3,
            r_type: R_AARCH64_GLOB_DAT,
            r_addend: 0,
            name: Some("mystery".to_string()),
        }],
        rela_plt: vec![],
    };
    let mut warnings = Vec::new();
    let count = mem.relocate(ModuleType::Rtld, &elf, &info, &tables, &mut warnings).unwrap();
    assert_eq!(count, 1);
    assert_eq!(warnings, vec!["mystery".to_string()]);
    assert_eq!(&mem.regions[0].pages[0].data[0x20..0x28], &[0u8; 8]);
}

#[test]
fn relocation_errors() {
    let info = ModuleInfo { start: 0, text_end: 0, end: 0x1000 };
    let region = Region::allocate(ModuleType::Rtld, 0, 6, &[], 0x1000);
    let mut mem = Memory {
        info: Modules::new_1_5_0(),
        start: 0,
        regions: vec![region],
        loaded_size: 0x1000,
    };
    let tables = DynamicSymbolTables::new(0, 0x1000);
    let mut warnings = Vec::new();

    let bad_type = ElfImage {
        segments: vec![],
        dyn_symbols: vec![],
        rela_dyn: vec![RelaEntry { r_offset: 0, r_sym: 0, r_type: 42, r_addend: 0, name: None }],
        rela_plt: vec![],
    };
    let r = mem.relocate(ModuleType::Rtld, &bad_type, &info, &tables, &mut warnings);
    assert!(matches!(r, Err(Error::UnexpectedRelocation(42))));

    let stray_sym = ElfImage {
        segments: vec![],
        dyn_symbols: vec![],
        rela_dyn: vec![RelaEntry {
            r_offset: 0,
            r_sym: 1,
            r_type: R_AARCH64_RELATIVE,
            r_addend: 0,
            name: Some("x".to_string()),
        }],
        rela_plt: vec![],
    };
    let r = mem.relocate(ModuleType::Rtld, &stray_sym, &info, &tables, &mut warnings);
    assert!(matches!(r, Err(Error::MalformedRelocation(_))));

    let outside = ElfImage {
        segments: vec![],
        dyn_symbols: vec![],
        rela_dyn: vec![RelaEntry {
            r_offset: 0x2000,
            r_sym: 0,
            r_type: R_AARCH64_RELATIVE,
            r_addend: 0,
            name: None,
        }],
        rela_plt: vec![],
    };
    let r = mem.relocate(ModuleType::Rtld, &outside, &info, &tables, &mut warnings);
    assert!(matches!(r, Err(Error::OffsetOutsideRegions(_))));
}

#[test]
fn relative_relocation_adds_base() {
    let info = ModuleInfo { start: 0, text_end: 0, end: 0x1000 };
    let region = Region::allocate(ModuleType::Rtld, 0, 6, &[], 0x1000);
    let mut mem = Memory {
        info: Modules::new_1_5_0(),
        start: 0x0000_0000_8000_0000,
        regions: vec![region],
        loaded_size: 0x1000,
    };
    let tables = DynamicSymbolTables::new(0x8000_0000, 0x1000);
    let elf = ElfImage {
        segments: vec![],
        dyn_symbols: vec![],
        rela_dyn: vec![RelaEntry {
            r_offset: 0x40,
            r_sym: 0,
            r_type: R_AARCH64_RELATIVE,
            r_addend: 0x30,
            name: None,
        }],
        rela_plt: vec![],
    };
    let mut warnings = Vec::new();
    mem.relocate(ModuleType::Rtld, &elf, &info, &tables, &mut warnings).unwrap();
    assert_eq!(
        &mem.regions[0].pages[0].data[0x40..0x48],
        &0x0000_0000_8000_0030u64.to_le_bytes()
    );
}

#[test]
fn page_copy_zero_fills_uncovered_tail() {
    let p = Page::copy(&[7, 8, 9], 0);
    assert_eq!(p.data.len(), 0x1000);
    assert_eq!(&p.data[..3], &[7, 8, 9]);
    assert_eq!(p.data[3], 0);
    let p2 = Page::copy(&[7, 8, 9], 0x1000);
    assert_eq!(p2.data, vec![0u8; 0x1000]);
}

#[test]
fn region_overlap_queries() {
    let mut data = Vec::new();
    for i in 0..0x2000u32 {
        data.push((i % 13) as u8);
    }
    let region = Region::allocate(ModuleType::Main, 0x2000, 5, &data, 0x2000);
    assert!(region.get_overlapped(0x0000, 2).is_none());
    assert!(region.get_overlapped(0x4000, 1).is_none());
    let (start, bytes) = region.get_overlapped(0x1000, 2).unwrap();
    assert_eq!(start, 0x2000);
    assert_eq!(bytes.len(), 0x1000);
    assert_eq!(&bytes[..], &data[..0x1000]);
}

#[test]
fn perm_str_renders_bits() {
    assert_eq!(perm_str(5), "r-x");
    assert_eq!(perm_str(6), "rw-");
    assert_eq!(perm_str(7), "rwx");
    assert_eq!(perm_str(0), "---");
}

#[test]
fn sibling_file_names() {
    let (rtld, main, subsdk0) = module_file_names("main-sdk.elf").unwrap();
    assert_eq!(rtld, "main-rtld.elf");
    assert_eq!(main, "main-main.elf");
    assert_eq!(subsdk0, "main-subsdk0.elf");
    assert!(module_file_names("program.elf").is_none());
    let (rtld, _, _) = module_file_names("sdksdk").unwrap();
    assert_eq!(rtld, "rtldrtld");
}

struct RecordingCreator {
    log: Vec<String>,
    fail_at: Option<usize>,
}

impl SingletonCreator for RecordingCreator {
    type Error = String;

    fn set_main_rel_pc(&mut self, pc: u32) -> Result<(), String> {
        self.step(format!("jump {pc:#x}"))
    }

    fn enter(&mut self, target: u32) -> Result<(), String> {
        self.step(format!("enter {target:#x}"))
    }

    fn execute_until(&mut self, target: u32) -> Result<(), String> {
        self.step(format!("until {target:#x}"))
    }

    fn allocate(&mut self, rel_start: u32, size: u32) -> Result<(), String> {
        self.step(format!("alloc {rel_start:#x}+{size:#x}"))
    }

    fn execute_to_return(&mut self) -> Result<(), String> {
        self.step("ret".to_string())
    }

    fn stop(&mut self) -> Result<(), String> {
        self.step("stop".to_string())
    }
}

impl RecordingCreator {
    fn step(&mut self, what: String) -> Result<(), String> {
        if self.fail_at == Some(self.log.len()) {
            return Err(what);
        }
        self.log.push(what);
        Ok(())
    }
}

#[test]
fn create_instance_drives_the_creator_in_order() {
    let info = pause_menu_data_mgr(Env::X150);
    assert_eq!(info.id, Singleton::PauseMenuDataMgr);
    assert_eq!(info.size, 0x44808);
    let mut creator = RecordingCreator { log: Vec::new(), fail_at: None };
    info.create_instance(&mut creator).unwrap();
    assert_eq!(
        creator.log,
        vec![
            "enter 0x96b1cc".to_string(),
            "until 0x96b200".to_string(),
            format!("alloc {:#x}+{:#x}", 0xaaaa_aaa0u32, 0x44808),
            "jump 0x96b204".to_string(),
            "until 0x96b218".to_string(),
            "jump 0x96b21c".to_string(),
            "ret".to_string(),
        ]
    );
    let mut failing = RecordingCreator { log: Vec::new(), fail_at: Some(2) };
    let r = info.create_instance(&mut failing);
    assert!(r.is_err());
    assert_eq!(failing.log.len(), 2);
}

#[test]
fn singleton_offsets_per_environment() {
    assert_eq!(Singleton::PauseMenuDataMgr.get_main_offset(Env::X150), 0x25d75b8);
    assert_eq!(Singleton::PauseMenuDataMgr.get_main_offset(Env::X160), 0x2ca6d50);
    let alloc = SingletonAlloc::make_pause_menu_data_mgr(Env::X150);
    assert_eq!(alloc.name, "uking::ui::PauseMenuDataMgr");
    assert_eq!(alloc.size, 0x44808);
    assert_eq!(alloc.create, (0x0096b1cc, None));
    assert_eq!(alloc.ctor_invoke, 0x0096b23c);
}

#[test]
fn full_pipeline_on_synthetic_modules() {
    // a miniature layout: every module one page, text_end == end
    let info = Modules {
        is_1_6_0: false,
        rtld: ModuleInfo { start: 0x0, text_end: 0x1000, end: 0x1000 },
        main: ModuleInfo { start: 0x1000, text_end: 0x2000, end: 0x2000 },
        subsdk0: ModuleInfo { start: 0x2000, text_end: 0x3000, end: 0x3000 },
        sdk: ModuleInfo { start: 0x3000, text_end: 0x4000, end: 0x4000 },
    };
    let one_page = |marker: u8, syms: Vec<DynSymbol>, relas: Vec<RelaEntry>| ElfImage {
        segments: vec![segment(0, 5, 0x1000, page_data(marker))],
        dyn_symbols: syms,
        rela_dyn: relas,
        rela_plt: vec![],
    };
    let md = ModuleData {
        rtld: one_page(1, vec![], vec![]),
        main: one_page(
            2,
            vec![dyn_symbol("shared", 0x10, 1, 0)],
            vec![RelaEntry {
                r_offset: 0x100,
                r_sym: 1,
                r_type: uking_relocate::elf_image::R_AARCH64_ABS64,
                r_addend: 0,
                name: Some("shared".to_string()),
            }],
        ),
        subsdk0: one_page(3, vec![], vec![]),
        sdk: one_page(4, vec![], vec![]),
        info,
    };
    let base = 0x0000_0000_4010_0000u64;
    let (mem, warnings) = Memory::load(base, &md).unwrap();
    assert!(warnings.is_empty());
    assert_eq!(mem.get_program_size(), 0x4000);
    assert_eq!(mem.regions.len(), 4);
    // the ABS64 slot in main holds base + main.start + 0x10
    let expect = (base + 0x1000 + 0x10).to_le_bytes();
    assert_eq!(&mem.regions[1].pages[0].data[0x100..0x108], &expect);
    // untouched bytes keep their file contents
    assert_eq!(mem.regions[1].pages[0].data[0], 2);
    assert_eq!(mem.regions[3].pages[0].data[0x123], 4);
}

#[test]
fn jump_slot_relocations_live_in_the_plt_table() {
    let info = ModuleInfo { start: 0, text_end: 0, end: 0x1000 };
    let mk_mem = || Memory {
        info: Modules::new_1_5_0(),
        start: 0,
        regions: vec![Region::allocate(ModuleType::Rtld, 0, 6, &[0xFF; 0x1000], 0x1000)],
        loaded_size: 0x1000,
    };
    let mut tables = DynamicSymbolTables::new(0, 0x1000);
    tables
        .rtld
        .insert(
            ModuleType::Rtld,
            "f".to_string(),
            SymbolValue { address: 0x1234, weak: false, protected: false },
        )
        .unwrap();
    let jump_slot = |addend: i64| RelaEntry {
        r_offset: 0x10,
        r_sym: 1,
        r_type: uking_relocate::elf_image::R_AARCH64_JUMP_SLOT,
        r_addend: addend,
        name: Some("f".to_string()),
    };

    // resolved jump slot in .rela.plt: the slot takes the address
    let elf = ElfImage {
        segments: vec![],
        dyn_symbols: vec![],
        rela_dyn: vec![],
        rela_plt: vec![jump_slot(0)],
    };
    let mut mem = mk_mem();
    let mut warnings = Vec::new();
    mem.relocate(ModuleType::Rtld, &elf, &info, &tables, &mut warnings).unwrap();
    assert_eq!(&mem.regions[0].pages[0].data[0x10..0x18], &0x1234u64.to_le_bytes());

    // a jump slot in .rela.dyn is not a legal relocation there
    let elf = ElfImage {
        segments: vec![],
        dyn_symbols: vec![],
        rela_dyn: vec![jump_slot(0)],
        rela_plt: vec![],
    };
    let mut mem = mk_mem();
    let r = mem.relocate(ModuleType::Rtld, &elf, &info, &tables, &mut warnings);
    assert!(matches!(r, Err(Error::UnexpectedRelocation(_))));

    // a non-zero addend on a jump slot is malformed
    let elf = ElfImage {
        segments: vec![],
        dyn_symbols: vec![],
        rela_dyn: vec![],
        rela_plt: vec![jump_slot(4)],
    };
    let mut mem = mk_mem();
    let r = mem.relocate(ModuleType::Rtld, &elf, &info, &tables, &mut warnings);
    assert!(matches!(r, Err(Error::MalformedRelocation(_))));

    // an unresolved jump slot warns and zeroes the slot
    let unresolved = RelaEntry {
        r_offset: 0x20,
        r_sym: 2,
        r_type: uking_relocate::elf_image::R_AARCH64_JUMP_SLOT,
        r_addend: 0,
        name: Some("ghost".to_string()),
    };
    let elf = ElfImage {
        segments: vec![],
        dyn_symbols: vec![],
        rela_dyn: vec![],
        rela_plt: vec![unresolved],
    };
    let mut mem = mk_mem();
    let mut warnings = Vec::new();
    mem.relocate(ModuleType::Rtld, &elf, &info, &tables, &mut warnings).unwrap();
    assert_eq!(warnings, vec!["ghost".to_string()]);
    assert_eq!(&mem.regions[0].pages[0].data[0x20..0x28], &[0u8; 8]);
}

#[test]
fn relocation_write_may_cross_a_page_inside_a_region() {
    let mut mem = Memory {
        info: Modules::new_1_5_0(),
        start: 0,
        regions: vec![Region::allocate(ModuleType::Rtld, 0, 6, &[0xFF; 0x2000], 0x2000)],
        loaded_size: 0x2000,
    };
    mem.write_relocation(0xFFC, 0x1122334455667788).unwrap();
    assert_eq!(&mem.regions[0].pages[0].data[0xFFC..], &[0x88, 0x77, 0x66, 0x55]);
    assert_eq!(&mem.regions[0].pages[1].data[..4], &[0x44, 0x33, 0x22, 0x11]);
    // but never past its region's end
    let r = mem.write_relocation(0x1FFC, 0);
    assert!(matches!(r, Err(Error::OffsetOutsideRegions(_))));
    // nor into a hole before a region
    let mut gapped = Memory {
        info: Modules::new_1_5_0(),
        start: 0,
        regions: vec![Region::allocate(ModuleType::Rtld, 0x2000, 6, &[], 0x1000)],
        loaded_size: 0x3000,
    };
    let r = gapped.write_relocation(0x1000, 0);
    assert!(matches!(r, Err(Error::OffsetOutsideRegions(_))));
}

#[test]
fn slicer_union_of_two_filter_arguments() {
    let info = Modules::new_1_5_0();
    let mut data = Vec::new();
    for i in 0..0x4000u32 {
        data.push((i / 0x1000) as u8);
    }
    let region = Region::allocate(ModuleType::Main, 0x4000, 5, &data, 0x4000);
    let mem = Memory { info, start: 0, regions: vec![region], loaded_size: 0x8000 };
    let b = uking_relocate::program::ProgramBuilder::new(Env::X150, 0, 0x8000).unwrap();
    let b = b.done_with_modules().add_section(0x4000, 5).done_with_sections();
    // pages 0 and 2..3 of the region, leaving a gap at page 1
    let filter = vec![
        uking_relocate::cli::RegionArg { module: ModuleType::Main, start: 0x0, end: 0x1000 },
        uking_relocate::cli::RegionArg { module: ModuleType::Main, start: 0x2000, end: 0x4000 },
    ];
    let b = mem.add_program_segments(&filter, b);
    assert_eq!(b.regions.len(), 2);
    assert_eq!(b.regions[0].rel_start, 0x4000);
    assert_eq!(b.regions[0].data.len(), 0x1000);
    assert!(b.regions[0].data.iter().all(|&x| x == 0));
    assert_eq!(b.regions[1].rel_start, 0x6000);
    assert_eq!(b.regions[1].data.len(), 0x2000);
    assert_eq!(b.regions[1].data[0], 2);
    assert_eq!(b.regions[1].data[0x1000], 3);
}
