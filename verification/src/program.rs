//! The packed program image: regions, singleton allocation info, data
//! attachments, and the staged builder that is the only way to construct
//! a `Program`.

use vstd::prelude::*;

use crate::env::Env;
use crate::error::Error;
use crate::module::ModuleType;
use crate::singleton::{Singleton, SingletonInfo, SingletonInfoV};

verus! {

/// Identifier of an auxiliary data blob attached to the image.
#[derive(Debug, Clone, Copy, PartialEq, Eq, Structural)]
pub enum DataId {
    /// the decompressed `ActorInfo.product.byml` table
    ActorInfoByml,
}

impl DataId {
    /// The tag byte this identifier is serialized as.
    pub open spec fn spec_tag(self) -> u8 {
        match self {
            DataId::ActorInfoByml => 0x01,
        }
    }

    /// Serialize the identifier to its tag byte.
    pub fn tag(&self) -> (r: u8)
        ensures
            r == self.spec_tag(),
    {
        match self {
            DataId::ActorInfoByml => 0x01,
        }
    }

    /// The identifier a tag byte stands for, if any.
    pub open spec fn spec_from_tag(tag: u8) -> Option<DataId> {
        if tag == 0x01 {
            Some(DataId::ActorInfoByml)
        } else {
            None
        }
    }

    /// Parse a tag byte back into an identifier.
    pub fn from_tag(tag: u8) -> (r: Option<DataId>)
        ensures
            r == Self::spec_from_tag(tag),
    {
        if tag == 0x01 {
            Some(DataId::ActorInfoByml)
        } else {
            None
        }
    }
}

/// A named auxiliary byte blob carried by the image, stored opaquely.
pub struct DataAttachment {
    /// which blob this is
    pub id: DataId,
    /// its bytes, decompressed before attachment
    pub data: Vec<u8>,
}

/// The mathematical value of a `DataAttachment`.
pub struct DataAttachmentV {
    pub id: DataId,
    pub data: Seq<u8>,
}

impl View for DataAttachment {
    type V = DataAttachmentV;

    open spec fn view(&self) -> DataAttachmentV {
        DataAttachmentV { id: self.id, data: self.data@ }
    }
}

/// One contiguous region of the packed program memory.
pub struct ProgramRegion {
    /// start relative to `program_start` (page aligned)
    pub rel_start: u32,
    /// ELF permission bits of the region (1: X, 2: W, 4: R)
    pub permissions: u32,
    /// the region's bytes (a whole number of pages)
    pub data: Vec<u8>,
}

/// The mathematical value of a `ProgramRegion`.
pub struct ProgramRegionV {
    pub rel_start: u32,
    pub permissions: u32,
    pub data: Seq<u8>,
}

impl View for ProgramRegion {
    type V = ProgramRegionV;

    open spec fn view(&self) -> ProgramRegionV {
        ProgramRegionV {
            rel_start: self.rel_start,
            permissions: self.permissions,
            data: self.data@,
        }
    }
}

impl ProgramRegionV {
    /// Page-aligned start and a whole number of pages that can be
    /// length-prefixed.
    pub open spec fn wf(self) -> bool {
        &&& self.rel_start % 0x1000 == 0
        &&& self.data.len() % 0x1000 == 0
        &&& self.data.len() <= u32::MAX
    }
}

impl ProgramRegion {
    /// Wrap a region's start, permissions and page data.
    pub fn new(rel_start: u32, permissions: u32, data: Vec<u8>) -> (r: ProgramRegion)
        ensures
            r@ == (ProgramRegionV { rel_start, permissions, data: data@ }),
    {
        ProgramRegion { rel_start, permissions, data }
    }

    /// The region's bytes.
    pub fn data(&self) -> (r: &Vec<u8>)
        ensures
            r == &self.data,
    {
        &self.data
    }

    /// The region's bytes, by value.
    pub fn into_data(self) -> (r: Vec<u8>)
        ensures
            r@ == self@.data,
    {
        self.data
    }
}

/// The views of a sequence of program regions.
pub open spec fn program_region_views(s: Seq<ProgramRegion>) -> Seq<ProgramRegionV> {
    Seq::new(s.len(), |i: int| s[i]@)
}

/// The views of a sequence of singleton infos.
pub open spec fn singleton_views(s: Seq<SingletonInfo>) -> Seq<SingletonInfoV> {
    Seq::new(s.len(), |i: int| s[i]@)
}

/// The views of a sequence of attachments.
pub open spec fn attachment_views(s: Seq<DataAttachment>) -> Seq<DataAttachmentV> {
    Seq::new(s.len(), |i: int| s[i]@)
}

/// Memory information of a program at runtime: the relocated,
/// page-addressed snapshot plus its metadata.
pub struct Program {
    /// environment the image was built for
    pub env: Env,
    /// allocation info for the singletons, derived from the game
    pub singletons: Vec<SingletonInfo>,
    /// physical address the image is meant to live at (1 MiB aligned in
    /// the low 40 bits)
    pub program_start: u64,
    /// size of the program region in bytes (a whole number of pages)
    pub program_size: u32,
    /// the regions kept by the slicer, ascending by `rel_start`
    pub program_regions: Vec<ProgramRegion>,
    /// auxiliary data blobs
    pub attachments: Vec<DataAttachment>,
}

/// The mathematical value of a `Program`.
pub struct ProgramV {
    pub env: Env,
    pub singletons: Seq<SingletonInfoV>,
    pub program_start: u64,
    pub program_size: u32,
    pub program_regions: Seq<ProgramRegionV>,
    pub attachments: Seq<DataAttachmentV>,
}

impl View for Program {
    type V = ProgramV;

    open spec fn view(&self) -> ProgramV {
        ProgramV {
            env: self.env,
            singletons: singleton_views(self.singletons@),
            program_start: self.program_start,
            program_size: self.program_size,
            program_regions: program_region_views(self.program_regions@),
            attachments: attachment_views(self.attachments@),
        }
    }
}

impl ProgramV {
    /// The image invariants: an aligned base address, a page-multiple
    /// size, page-aligned regions of whole pages, and every list short
    /// enough for its length prefix.
    pub open spec fn wf(self) -> bool {
        &&& self.program_start & 0xFFFFFF00_000FFFFF == 0
        &&& self.program_size % 0x1000 == 0
        &&& forall|i: int|
            0 <= i < self.program_regions.len() ==> (#[trigger] self.program_regions[i]).wf()
        &&& self.program_regions.len() <= u32::MAX
        &&& self.singletons.len() <= u32::MAX
        &&& forall|i: int|
            0 <= i < self.singletons.len() ==> (#[trigger] self.singletons[i]).bytecode.len()
                <= u32::MAX
        &&& forall|i: int|
            0 <= i < self.attachments.len() ==> (#[trigger] self.attachments[i]).data.len()
                <= u32::MAX
    }
}

impl Program {
    /// The singleton allocations.
    pub fn singletons(&self) -> (r: &Vec<SingletonInfo>)
        ensures
            r == &self.singletons,
    {
        &self.singletons
    }

    /// The singleton with the given identifier, if the image carries
    /// one: the first match in storage order.
    pub fn singleton_by_id(&self, id: Singleton) -> (r: Option<&SingletonInfo>)
        ensures
            match r {
                Some(s) => exists|i: int|
                    0 <= i < self@.singletons.len() && (#[trigger] self@.singletons[i]).id == id
                        && s@ == self@.singletons[i] && forall|j: int|
                        0 <= j < i ==> (#[trigger] self@.singletons[j]).id != id,
                None => forall|i: int|
                    0 <= i < self@.singletons.len() ==> (#[trigger] self@.singletons[i]).id != id,
            },
    {
        let n = self.singletons.len();
        let mut i: usize = 0;
        while i < n
            invariant
                i <= n,
                n == self.singletons@.len(),
                forall|j: int| 0 <= j < i ==> (#[trigger] self@.singletons[j]).id != id,
            decreases n - i,
        {
            if self.singletons[i].id == id {
                proof {
                    assert(self@.singletons[i as int] == self.singletons@[i as int]@);
                    assert(self@.singletons[i as int].id == id);
                }
                return Some(&self.singletons[i]);
            }
            i += 1;
        }
        None
    }

    /// The program regions stored in the image.
    pub fn regions(&self) -> (r: &Vec<ProgramRegion>)
        ensures
            r == &self.program_regions,
    {
        &self.program_regions
    }

    /// The data attachments stored in the image.
    pub fn attachments(&self) -> (r: &Vec<DataAttachment>)
        ensures
            r == &self.attachments,
    {
        &self.attachments
    }
}

/// The permission bits a segment at `rel_start` receives: those of the
/// last section added whose start is at or below `rel_start`.
pub open spec fn spec_section_perm(sections: Seq<(u32, u32)>, rel_start: u32) -> Option<u32>
    decreases sections.len(),
{
    if sections.len() == 0 {
        None
    } else if sections.last().0 <= rel_start {
        Some(sections.last().1)
    } else {
        spec_section_perm(sections.drop_last(), rel_start)
    }
}

/// First phase of the staged builder: the caller names the environment,
/// the base address and the image size, then adds the module layout.
///
/// The binary serialization is length-prefixed, so a `Program` can only
/// be built through these phases: lengths and contents cannot disagree.
pub struct ProgramBuilder {
    pub env: Env,
    pub program_start: u64,
    pub program_size: u32,
    pub singletons: Vec<SingletonInfo>,
    pub modules: Vec<(ModuleType, u32)>,
}

/// Second phase: the caller declares one `(rel_start, permissions)`
/// section per region of the image.
pub struct SectionsBuilder {
    pub env: Env,
    pub program_start: u64,
    pub program_size: u32,
    pub singletons: Vec<SingletonInfo>,
    pub sections: Vec<(u32, u32)>,
}

/// Third phase: the caller adds the page data kept by the slicer; each
/// segment takes the permissions of the section it falls in.
pub struct SegmentsBuilder {
    pub env: Env,
    pub program_start: u64,
    pub program_size: u32,
    pub singletons: Vec<SingletonInfo>,
    pub sections: Vec<(u32, u32)>,
    pub regions: Vec<ProgramRegion>,
}

/// Fourth phase: the caller attaches auxiliary data blobs and finishes.
pub struct AttachmentsBuilder {
    pub env: Env,
    pub program_start: u64,
    pub program_size: u32,
    pub singletons: Vec<SingletonInfo>,
    pub regions: Vec<ProgramRegion>,
    pub attachments: Vec<DataAttachment>,
}

impl ProgramBuilder {
    /// Start building: the base address must have its upper 24 and
    /// lower 20 bits zero, and the size must be a whole number of pages.
    pub fn new(env: Env, program_start: u64, program_size: u32) -> (r: Result<
        ProgramBuilder,
        Error,
    >)
        requires
            program_size % 0x1000 == 0,
        ensures
            r is Ok <==> program_start & 0xFFFFFF00_000FFFFF == 0,
            r matches Ok(b) ==> b.env == env && b.program_start == program_start
                && b.program_size == program_size && b.singletons@.len() == 0,
            r matches Err(e) ==> e is InvalidProgramStart,
    {
        if program_start & crate::reloc::PROGRAM_START_MASK != 0 {
            return Err(Error::InvalidProgramStart);
        }
        Ok(
            ProgramBuilder {
                env,
                program_start,
                program_size,
                singletons: Vec::new(),
                modules: Vec::new(),
            },
        )
    }

    /// Set the singleton allocation info.
    pub fn singletons(self, singletons: Vec<SingletonInfo>) -> (r: ProgramBuilder)
        ensures
            r.env == self.env,
            r.program_start == self.program_start,
            r.program_size == self.program_size,
            r.singletons == singletons,
    {
        ProgramBuilder {
            env: self.env,
            program_start: self.program_start,
            program_size: self.program_size,
            singletons,
            modules: self.modules,
        }
    }

    /// Record one module kind and its program-relative start. The module
    /// layout documents the image; it is not serialized.
    pub fn add_module(self, module: ModuleType, start: u32) -> (r: ProgramBuilder)
        ensures
            r.env == self.env,
            r.program_start == self.program_start,
            r.program_size == self.program_size,
            r.singletons == self.singletons,
    {
        let mut modules = self.modules;
        modules.push((module, start));
        ProgramBuilder {
            env: self.env,
            program_start: self.program_start,
            program_size: self.program_size,
            singletons: self.singletons,
            modules,
        }
    }

    /// Close the module phase and start declaring sections.
    pub fn done_with_modules(self) -> (r: SectionsBuilder)
        ensures
            r.env == self.env,
            r.program_start == self.program_start,
            r.program_size == self.program_size,
            r.singletons == self.singletons,
            r.sections@.len() == 0,
    {
        SectionsBuilder {
            env: self.env,
            program_start: self.program_start,
            program_size: self.program_size,
            singletons: self.singletons,
            sections: Vec::new(),
        }
    }
}

impl SectionsBuilder {
    /// Declare one section: a region start and its permission bits.
    pub fn add_section(self, rel_start: u32, permissions: u32) -> (r: SectionsBuilder)
        ensures
            r.env == self.env,
            r.program_start == self.program_start,
            r.program_size == self.program_size,
            r.singletons == self.singletons,
            r.sections@ == self.sections@.push((rel_start, permissions)),
    {
        let mut sections = self.sections;
        sections.push((rel_start, permissions));
        SectionsBuilder {
            env: self.env,
            program_start: self.program_start,
            program_size: self.program_size,
            singletons: self.singletons,
            sections,
        }
    }

    /// Close the section phase and start adding page data.
    pub fn done_with_sections(self) -> (r: SegmentsBuilder)
        ensures
            r.env == self.env,
            r.program_start == self.program_start,
            r.program_size == self.program_size,
            r.singletons == self.singletons,
            r.sections == self.sections,
            r.regions@.len() == 0,
    {
        SegmentsBuilder {
            env: self.env,
            program_start: self.program_start,
            program_size: self.program_size,
            singletons: self.singletons,
            sections: self.sections,
            regions: Vec::new(),
        }
    }
}

impl SegmentsBuilder {
    /// The sections the builder carries.
    pub open spec fn spec_sections(self) -> Seq<(u32, u32)> {
        self.sections@
    }

    /// The regions added so far.
    pub open spec fn spec_regions(self) -> Seq<ProgramRegionV> {
        program_region_views(self.regions@)
    }

    /// Add the page data of one kept segment. It takes the permissions
    /// of the last declared section at or below its start.
    pub fn add_segment(self, rel_start: u32, data: Vec<u8>) -> (r: SegmentsBuilder)
        requires
            rel_start % 0x1000 == 0,
            data@.len() % 0x1000 == 0,
            data@.len() <= u32::MAX,
            spec_section_perm(self.spec_sections(), rel_start) is Some,
        ensures
            r.env == self.env,
            r.program_start == self.program_start,
            r.program_size == self.program_size,
            r.singletons == self.singletons,
            r.sections == self.sections,
            r.spec_regions() == self.spec_regions().push(
                ProgramRegionV {
                    rel_start,
                    permissions: spec_section_perm(self.spec_sections(), rel_start)->Some_0,
                    data: data@,
                },
            ),
    {
        let n = self.sections.len();
        let mut k: usize = n;
        let mut permissions: u32 = 0;
        let mut found = false;
        proof {
            assert(self.sections@.take(n as int) =~= self.sections@);
        }
        while k > 0 && !found
            invariant
                k <= n,
                n == self.sections@.len(),
                !found ==> spec_section_perm(self.sections@, rel_start) == spec_section_perm(
                    self.sections@.take(k as int),
                    rel_start,
                ),
                found ==> spec_section_perm(self.sections@, rel_start) == Some(permissions),
            decreases k,
        {
            proof {
                assert(self.sections@.take(k as int).last() == self.sections@[k as int - 1]);
                assert(self.sections@.take(k as int).drop_last() =~= self.sections@.take(
                    k as int - 1,
                ));
            }
            if self.sections[k - 1].0 <= rel_start {
                permissions = self.sections[k - 1].1;
                found = true;
            }
            k -= 1;
        }
        proof {
            if !found {
                assert(self.sections@.take(0) =~= Seq::<(u32, u32)>::empty());
            }
        }
        let ghost pre = self.spec_regions();
        let mut regions = self.regions;
        regions.push(ProgramRegion { rel_start, permissions, data });
        let r = SegmentsBuilder {
            env: self.env,
            program_start: self.program_start,
            program_size: self.program_size,
            singletons: self.singletons,
            sections: self.sections,
            regions,
        };
        proof {
            assert(r.spec_regions() =~= pre.push(
                ProgramRegionV {
                    rel_start,
                    permissions: spec_section_perm(self.sections@, rel_start)->Some_0,
                    data: data@,
                },
            ));
        }
        r
    }

    /// Close the segment phase and start attaching data.
    pub fn done_with_segments(self) -> (r: AttachmentsBuilder)
        ensures
            r.env == self.env,
            r.program_start == self.program_start,
            r.program_size == self.program_size,
            r.singletons == self.singletons,
            r.regions == self.regions,
            r.attachments@.len() == 0,
    {
        AttachmentsBuilder {
            env: self.env,
            program_start: self.program_start,
            program_size: self.program_size,
            singletons: self.singletons,
            regions: self.regions,
            attachments: Vec::new(),
        }
    }
}

impl AttachmentsBuilder {
    /// The attachments added so far.
    pub open spec fn spec_attachments(self) -> Seq<DataAttachmentV> {
        attachment_views(self.attachments@)
    }

    /// Attach one auxiliary data blob.
    pub fn add_data(self, id: DataId, data: Vec<u8>) -> (r: AttachmentsBuilder)
        requires
            data@.len() <= u32::MAX,
        ensures
            r.env == self.env,
            r.program_start == self.program_start,
            r.program_size == self.program_size,
            r.singletons == self.singletons,
            r.regions == self.regions,
            r.spec_attachments() == self.spec_attachments().push(
                DataAttachmentV { id, data: data@ },
            ),
    {
        let ghost pre = self.spec_attachments();
        let mut attachments = self.attachments;
        attachments.push(DataAttachment { id, data });
        let r = AttachmentsBuilder {
            env: self.env,
            program_start: self.program_start,
            program_size: self.program_size,
            singletons: self.singletons,
            regions: self.regions,
            attachments,
        };
        proof {
            assert(r.spec_attachments() =~= pre.push(DataAttachmentV { id, data: data@ }));
        }
        r
    }

    /// Finish: yield the immutable `Program`. All image invariants hold
    /// of it.
    pub fn done(self) -> (r: Program)
        requires
            self.program_start & 0xFFFFFF00_000FFFFF == 0,
            self.program_size % 0x1000 == 0,
            forall|i: int|
                0 <= i < self.regions@.len() ==> (#[trigger] self.regions@[i])@.wf(),
            self.regions@.len() <= u32::MAX,
            self.singletons@.len() <= u32::MAX,
            forall|i: int|
                0 <= i < self.singletons@.len() ==> (#[trigger] self.singletons@[i])@.bytecode.len()
                    <= u32::MAX,
            forall|i: int|
                0 <= i < self.attachments@.len() ==> (#[trigger] self.attachments@[i])@.data.len()
                    <= u32::MAX,
        ensures
            r@.wf(),
            r@.env == self.env,
            r@.program_start == self.program_start,
            r@.program_size == self.program_size,
            r@.singletons == singleton_views(self.singletons@),
            r@.program_regions == program_region_views(self.regions@),
            r@.attachments == attachment_views(self.attachments@),
    {
        Program {
            env: self.env,
            singletons: self.singletons,
            program_start: self.program_start,
            program_size: self.program_size,
            program_regions: self.regions,
            attachments: self.attachments,
        }
    }
}

} // verus!
