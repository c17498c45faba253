//! The known singletons of the game, with their allocation data and
//! creation recipes.

use vstd::prelude::*;

use crate::env::Env;
use crate::singleton::{CreateByteCode, Singleton, SingletonInfo, SingletonInfoV};

verus! {

/// Allocation and initialization info for a singleton, in the raw form
/// extracted from the game: an instruction range to run and the call
/// site that invokes the constructor.
pub struct SingletonAlloc {
    /// Identifier of the singleton
    pub name: String,
    /// Start of the allocation relative to the heap start
    pub rel_start: u32,
    /// Size of the object
    pub size: u32,
    /// Range of the instructions to run to create the singleton; the end
    /// is exclusive. The CPU sets up SP, then jumps to the start of the
    /// range. With no end it executes until RET.
    pub create: (u32, Option<u32>),
    /// Address of the instruction that calls the constructor; the
    /// singleton address is injected into X0 there
    pub ctor_invoke: u32,
}

/// The allocation start of `PauseMenuDataMgr` relative to the heap
/// start. The true offset has not been determined yet; this placeholder
/// stands until it is.
pub const PAUSE_MENU_DATA_MGR_REL_START: u32 = 0xaaaa_aaa0;

/// The allocation size of `PauseMenuDataMgr`, the same in every
/// environment.
pub const PAUSE_MENU_DATA_MGR_SIZE: u32 = 0x44808;

impl SingletonAlloc {
    /// The raw allocation data of `PauseMenuDataMgr`. The 1.6.0 offsets
    /// have not been determined yet, so only the 1.5.0 builds are
    /// accepted.
    pub fn make_pause_menu_data_mgr(env: Env) -> (r: SingletonAlloc)
        requires
            !env.spec_is_1_6_0(),
        ensures
            r.name@ == "uking::ui::PauseMenuDataMgr"@,
            r.rel_start == PAUSE_MENU_DATA_MGR_REL_START,
            r.size == PAUSE_MENU_DATA_MGR_SIZE,
            r.create == (0x0096b1ccu32, Option::<u32>::None),
            r.ctor_invoke == 0x0096b23cu32,
    {
        let name = "uking::ui::PauseMenuDataMgr".to_owned();
        SingletonAlloc {
            name,
            rel_start: PAUSE_MENU_DATA_MGR_REL_START,
            size: PAUSE_MENU_DATA_MGR_SIZE,
            create: (0x0096b1cc, None),
            ctor_invoke: 0x0096b23c,
        }
    }
}

/// The creation recipe of `PauseMenuDataMgr` as stored byte code. The
/// 1.6.0 offsets have not been determined yet, so only the 1.5.0 builds
/// are accepted.
pub fn pause_menu_data_mgr(env: Env) -> (r: SingletonInfo)
    requires
        !env.spec_is_1_6_0(),
    ensures
        r@ == (SingletonInfoV {
            id: Singleton::PauseMenuDataMgr,
            rel_start: PAUSE_MENU_DATA_MGR_REL_START,
            size: PAUSE_MENU_DATA_MGR_SIZE,
            bytecode: seq![
                CreateByteCode::Enter(0x0096b1cc),
                CreateByteCode::ExecuteUntil(0x0096b200),
                CreateByteCode::Allocate,
                CreateByteCode::Jump(0x0096b204),
                CreateByteCode::ExecuteUntil(0x0096b218),
                CreateByteCode::Jump(0x0096b21c),
                CreateByteCode::ExecuteToReturn,
            ],
        }),
{
    let mut create_bytecode: Vec<CreateByteCode> = Vec::new();
    create_bytecode.push(CreateByteCode::Enter(0x0096b1cc));
    create_bytecode.push(CreateByteCode::ExecuteUntil(0x0096b200));
    create_bytecode.push(CreateByteCode::Allocate);
    create_bytecode.push(CreateByteCode::Jump(0x0096b204));
    create_bytecode.push(CreateByteCode::ExecuteUntil(0x0096b218));
    // skip the Disposer constructor
    create_bytecode.push(CreateByteCode::Jump(0x0096b21c));
    create_bytecode.push(CreateByteCode::ExecuteToReturn);
    proof {
        assert(create_bytecode@ =~= seq![
            CreateByteCode::Enter(0x0096b1cc),
            CreateByteCode::ExecuteUntil(0x0096b200),
            CreateByteCode::Allocate,
            CreateByteCode::Jump(0x0096b204),
            CreateByteCode::ExecuteUntil(0x0096b218),
            CreateByteCode::Jump(0x0096b21c),
            CreateByteCode::ExecuteToReturn,
        ]);
    }
    SingletonInfo::new(
        Singleton::PauseMenuDataMgr,
        PAUSE_MENU_DATA_MGR_REL_START,
        PAUSE_MENU_DATA_MGR_SIZE,
        create_bytecode,
    )
}

} // verus!
