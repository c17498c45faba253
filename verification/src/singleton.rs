//! Singleton allocation and creation info carried by the image. The
//! byte code is stored here and interpreted by a downstream simulator
//! through the `SingletonCreator` capability.

use vstd::prelude::*;

use crate::env::Env;

verus! {

/// Trait implemented by a CPU simulator for creating singletons. The
/// storage layer drives an implementation through `create_instance`; it
/// does not depend on what the implementation does.
pub trait SingletonCreator {
    type Error;

    /// Set PC relative to the start of the main module without doing
    /// anything else (i.e. the next instruction to execute is at `pc`).
    fn set_main_rel_pc(&mut self, pc: u32) -> Result<(), Self::Error>;

    /// Enter the singleton creation function: treat `target` as the
    /// start of a function, set up the stack pointer, and jump to it.
    fn enter(&mut self, target: u32) -> Result<(), Self::Error>;

    /// Execute until the next instruction is at `target`, relative to
    /// the start of the main module.
    fn execute_until(&mut self, target: u32) -> Result<(), Self::Error>;

    /// Simulate allocation of the singleton at `rel_start` (relative to
    /// the heap start) of `size` bytes, putting its address into X0.
    fn allocate(&mut self, rel_start: u32, size: u32) -> Result<(), Self::Error>;

    /// Execute until jumping out of the singleton creation function.
    fn execute_to_return(&mut self) -> Result<(), Self::Error>;

    /// Stop the execution; the singleton is created.
    fn stop(&mut self) -> Result<(), Self::Error>;
}

/// One step of a singleton creation recipe.
#[derive(Debug, Clone, Copy, PartialEq, Eq, Structural)]
pub enum CreateByteCode {
    /// Enter the singleton creation function
    Enter(u32),
    /// Execute the program, and return when the next instruction is at
    /// the target
    ExecuteUntil(u32),
    /// Simulate allocation of the singleton (rel_start to heap, size)
    Allocate,
    /// Set the PC relative to the start of the main module, without
    /// doing anything else
    Jump(u32),
    /// Execute the program until jumping out of the singleton creation
    /// function
    ExecuteToReturn,
    /// Stop the execution, the singleton is done created
    Return,
}

/// Singleton identifiers.
#[derive(Debug, Clone, Copy, PartialEq, Eq, Structural)]
pub enum Singleton {
    PauseMenuDataMgr,
}

impl Singleton {
    /// The tag byte this identifier is serialized as.
    pub open spec fn spec_tag(self) -> u8 {
        match self {
            Singleton::PauseMenuDataMgr => 0x01,
        }
    }

    /// Serialize the identifier to its tag byte.
    pub fn tag(&self) -> (r: u8)
        ensures
            r == self.spec_tag(),
    {
        match self {
            Singleton::PauseMenuDataMgr => 0x01,
        }
    }

    /// The identifier a tag byte stands for, if any.
    pub open spec fn spec_from_tag(tag: u8) -> Option<Singleton> {
        if tag == 0x01 {
            Some(Singleton::PauseMenuDataMgr)
        } else {
            None
        }
    }

    /// Parse a tag byte back into an identifier.
    pub fn from_tag(tag: u8) -> (r: Option<Singleton>)
        ensures
            r == Self::spec_from_tag(tag),
    {
        if tag == 0x01 {
            Some(Singleton::PauseMenuDataMgr)
        } else {
            None
        }
    }

    /// Offset of the instance global variable of this singleton in the
    /// main module (i.e. `program_start + offset` is a static pointer to
    /// the singleton).
    pub fn get_main_offset(self, env: Env) -> (r: u32)
        ensures
            r == self.spec_main_offset(env),
    {
        match self {
            Singleton::PauseMenuDataMgr => {
                if env.is_1_6_0() {
                    0x2ca6d50
                } else {
                    0x25d75b8
                }
            },
        }
    }

    /// The instance offset, per environment.
    pub open spec fn spec_main_offset(self, env: Env) -> u32 {
        match self {
            Singleton::PauseMenuDataMgr => if env.spec_is_1_6_0() {
                0x2ca6d50
            } else {
                0x25d75b8
            },
        }
    }
}

/// Allocation and initialization info for a singleton.
///
/// To encapsulate the singleton allocation and initialization process,
/// the [`SingletonCreator`] trait is provided: at runtime,
/// `create_instance` drives a creator through the stored byte code.
pub struct SingletonInfo {
    /// Identifier of the singleton
    pub id: Singleton,
    /// Start of the allocation relative to the heap start
    pub rel_start: u32,
    /// Size of the object
    pub size: u32,
    /// Byte code to create the singleton
    pub create_bytecode: Vec<CreateByteCode>,
}

/// The mathematical value of a `SingletonInfo`.
pub struct SingletonInfoV {
    pub id: Singleton,
    pub rel_start: u32,
    pub size: u32,
    pub bytecode: Seq<CreateByteCode>,
}

impl View for SingletonInfo {
    type V = SingletonInfoV;

    open spec fn view(&self) -> SingletonInfoV {
        SingletonInfoV {
            id: self.id,
            rel_start: self.rel_start,
            size: self.size,
            bytecode: self.create_bytecode@,
        }
    }
}

impl SingletonInfo {
    /// Wrap a singleton's identity, allocation and creation recipe.
    pub fn new(
        id: Singleton,
        rel_start: u32,
        size: u32,
        create_bytecode: Vec<CreateByteCode>,
    ) -> (r: SingletonInfo)
        ensures
            r@ == (SingletonInfoV { id, rel_start, size, bytecode: create_bytecode@ }),
    {
        SingletonInfo { id, rel_start, size, create_bytecode }
    }

    /// Drive a creator through the stored byte code, step by step and in
    /// order, stopping at the creator's first error. What each step does
    /// is the creator's business; this layer only dispatches.
    pub fn create_instance<C: SingletonCreator>(&self, creator: &mut C) -> Result<(), C::Error> {
        let n = self.create_bytecode.len();
        let mut i: usize = 0;
        while i < n
            invariant
                i <= n,
                n == self.create_bytecode@.len(),
            decreases n - i,
        {
            let step = match self.create_bytecode[i] {
                CreateByteCode::Enter(target) => creator.enter(target),
                CreateByteCode::ExecuteUntil(target) => creator.execute_until(target),
                CreateByteCode::Allocate => creator.allocate(self.rel_start, self.size),
                CreateByteCode::Jump(target) => creator.set_main_rel_pc(target),
                CreateByteCode::ExecuteToReturn => creator.execute_to_return(),
                CreateByteCode::Return => creator.stop(),
            };
            match step {
                Ok(()) => {},
                Err(e) => {
                    return Err(e);
                },
            }
            i += 1;
        }
        Ok(())
    }
}

} // verus!
