//! The page-granular, permission-tagged memory image: pages, regions, and
//! the loaded program memory with its relocation and slicing entry points.

use vstd::prelude::*;

use crate::module::ModuleType;
use crate::PAGE_SIZE;

verus! {

/// Round an offset down to the enclosing page boundary.
pub open spec fn spec_align_down(x: int) -> int {
    (x / 0x1000) * 0x1000
}

/// Round an offset up to the next page boundary.
pub open spec fn spec_align_up(x: int) -> int {
    if x % 0x1000 == 0 {
        x
    } else {
        (x / 0x1000) * 0x1000 + 0x1000
    }
}

/// Round an offset down to the enclosing page boundary.
pub fn align_down(x: u32) -> (r: u32)
    ensures
        r == spec_align_down(x as int),
{
    x / PAGE_SIZE * PAGE_SIZE
}

/// Round an offset up to the next page boundary.
pub fn align_up(x: u32) -> (r: u32)
    requires
        x <= 0xFFFF_F000,
    ensures
        r == spec_align_up(x as int),
{
    if x % PAGE_SIZE == 0 {
        x
    } else {
        x / PAGE_SIZE * PAGE_SIZE + PAGE_SIZE
    }
}

/// One page of memory: exactly 0x1000 bytes.
pub struct Page {
    /// the page's bytes; always exactly 0x1000 of them
    pub data: Vec<u8>,
}

impl View for Page {
    type V = Seq<u8>;

    open spec fn view(&self) -> Seq<u8> {
        self.data@
    }
}

/// The contents of the page at index `i` of a region whose backing data
/// is `data`: bytes past the end of `data` are zero (`.bss` semantics).
pub open spec fn spec_page_from(data: Seq<u8>, i: int) -> Seq<u8> {
    Seq::new(0x1000, |j: int| if i * 0x1000 + j < data.len() {
        data[i * 0x1000 + j]
    } else {
        0u8
    })
}

/// The pages of a region of `num` pages backed by `data`, zero-padded.
pub open spec fn spec_pages_from(data: Seq<u8>, num: int) -> Seq<Seq<u8>> {
    Seq::new(num as nat, |i: int| spec_page_from(data, i))
}

impl Page {
    /// The page holds exactly 0x1000 bytes.
    pub open spec fn wf(self) -> bool {
        self@.len() == 0x1000
    }

    /// Create a page by copying the range starting at `from` out of a
    /// slice. Parts of the page that the slice does not cover are zero.
    pub fn copy(data: &[u8], from: usize) -> (r: Page)
        requires
            from % 0x1000 == 0,
        ensures
            r.wf(),
            r@ == spec_page_from(data@, from as int / 0x1000),
    {
        let mut page: Vec<u8> = Vec::new();
        let mut j: usize = 0;
        while j < 0x1000
            invariant
                j <= 0x1000,
                page@.len() == j,
                forall|k: int|
                    0 <= k < j ==> page@[k] == (if from + k < data@.len() {
                        data@[from + k]
                    } else {
                        0u8
                    }),
            decreases 0x1000 - j,
        {
            if from < data.len() && j < data.len() - from {
                let b = data[from + j];
                page.push(b);
            } else {
                page.push(0u8);
            }
            j += 1;
        }
        let r = Page { data: page };
        proof {
            let i = from as int / 0x1000;
            assert(i * 0x1000 == from as int);
            assert(r@ =~= spec_page_from(data@, i));
        }
        r
    }
}

/// The mathematical value of a region: its module tag, program-relative
/// start, permission bits, and page contents.
pub struct RegionV {
    pub module: ModuleType,
    pub rel_start: u32,
    pub permissions: u32,
    pub pages: Seq<Seq<u8>>,
}

impl RegionV {
    /// Number of bytes the region covers.
    pub open spec fn byte_len(self) -> int {
        self.pages.len() as int * 0x1000
    }

    /// One past the last program-relative offset the region covers.
    pub open spec fn end(self) -> int {
        self.rel_start + self.byte_len()
    }

    /// Page-aligned start, full pages, and an end that still fits in u32.
    pub open spec fn wf(self) -> bool {
        &&& self.rel_start % 0x1000 == 0
        &&& forall|i: int| 0 <= i < self.pages.len() ==> (#[trigger] self.pages[i]).len() == 0x1000
        &&& self.end() <= u32::MAX
    }

    /// The byte at program-relative offset `off`.
    pub open spec fn byte_at(self, off: int) -> u8 {
        self.pages[(off - self.rel_start) / 0x1000][(off - self.rel_start) % 0x1000]
    }

    /// The region contains program-relative offset `off`.
    pub open spec fn contains(self, off: int) -> bool {
        self.rel_start <= off < self.end()
    }
}

/// The pages of `r` after the eight bytes of `value`, least significant
/// first, are written at region-relative offset `rel`.
pub open spec fn spec_write8(pages: Seq<Seq<u8>>, rel: int, value: u64) -> Seq<Seq<u8>> {
    Seq::new(pages.len(), |i: int| Seq::new(pages[i].len(), |j: int|
        if rel <= i * 0x1000 + j < rel + 8 {
            vstd::bytes::spec_u64_to_le_bytes(value)[i * 0x1000 + j - rel]
        } else {
            pages[i][j]
        }))
}

/// A contiguous run of pages sharing one module tag and one set of
/// permission bits.
pub struct Region {
    /// the module the region was loaded from
    pub module: ModuleType,
    /// program-relative start of the region (page aligned)
    pub rel_start: u32,
    /// ELF `p_flags` permission bits, stored verbatim (1: X, 2: W, 4: R)
    pub permissions: u32,
    /// the region's pages, in order
    pub pages: Vec<Page>,
}

impl View for Region {
    type V = RegionV;

    open spec fn view(&self) -> RegionV {
        RegionV {
            module: self.module,
            rel_start: self.rel_start,
            permissions: self.permissions,
            pages: Seq::new(self.pages@.len(), |i: int| self.pages@[i]@),
        }
    }
}

impl Region {
    /// The region's pages are full pages and its span fits in u32.
    pub open spec fn wf(self) -> bool {
        self@.wf()
    }

    /// Allocate a new region: just enough pages for `mem_size` bytes,
    /// the first `data.len()` of them copied from `data`, the rest zero.
    pub fn allocate(
        module: ModuleType,
        start: u32,
        permissions: u32,
        data: &[u8],
        mem_size: u32,
    ) -> (r: Region)
        requires
            start % 0x1000 == 0,
            start + spec_round_up_pages(mem_size as int) * 0x1000 <= u32::MAX,
        ensures
            r.wf(),
            r@.module == module,
            r@.rel_start == start,
            r@.permissions == permissions,
            r@.pages == spec_pages_from(data@, spec_round_up_pages(mem_size as int)),
    {
        let num_pages: usize = (if mem_size % PAGE_SIZE == 0 {
            mem_size / PAGE_SIZE
        } else {
            mem_size / PAGE_SIZE + 1
        }) as usize;
        assert(num_pages == spec_round_up_pages(mem_size as int));
        let mut pages: Vec<Page> = Vec::new();
        let mut i: usize = 0;
        while i < num_pages
            invariant
                i <= num_pages,
                num_pages <= 0x100000,
                pages@.len() == i,
                forall|k: int| 0 <= k < i ==> (#[trigger] pages@[k])@ == spec_page_from(
                    data@,
                    k,
                ) && pages@[k].wf(),
            decreases num_pages - i,
        {
            let from = i * 0x1000;
            let p = Page::copy(data, from);
            proof {
                assert(from as int / 0x1000 == i as int);
            }
            pages.push(p);
            i += 1;
        }
        let r = Region { module, rel_start: start, permissions, pages };
        proof {
            assert(r@.pages =~~= spec_pages_from(data@, num_pages as int));
        }
        r
    }

    /// Number of pages in this region.
    pub fn get_num_pages(&self) -> (r: u32)
        requires
            self.wf(),
        ensures
            r == self@.pages.len(),
    {
        self.pages.len() as u32
    }

    /// Size of the region in bytes.
    pub fn get_byte_len(&self) -> (r: u32)
        requires
            self.wf(),
        ensures
            r == self@.byte_len(),
    {
        self.get_num_pages() * PAGE_SIZE
    }

    /// Overwrite the eight bytes at program-relative offset `offset` with
    /// `value`, least significant byte first. The write must lie wholly
    /// inside the region; no other byte changes.
    pub fn write(&mut self, offset: u32, value: u64)
        requires
            old(self).wf(),
            old(self)@.rel_start <= offset,
            offset + 8 <= old(self)@.end(),
        ensures
            final(self).wf(),
            final(self)@.module == old(self)@.module,
            final(self)@.rel_start == old(self)@.rel_start,
            final(self)@.permissions == old(self)@.permissions,
            final(self)@.pages == spec_write8(
                old(self)@.pages,
                offset - old(self)@.rel_start,
                value,
            ),
    {
        let bytes = vstd::bytes::u64_to_le_bytes(value);
        proof {
            vstd::bytes::lemma_auto_spec_u64_to_from_le_bytes();
        }
        let rel: usize = (offset - self.rel_start) as usize;
        let mut k: usize = 0;
        while k < 8
            invariant
                k <= 8,
                bytes@ == vstd::bytes::spec_u64_to_le_bytes(value),
                bytes@.len() == 8,
                rel == offset - self.rel_start,
                self.module == old(self).module,
                self.rel_start == old(self).rel_start,
                self.permissions == old(self).permissions,
                old(self).wf(),
                rel + 8 <= self@.byte_len(),
                self@.pages.len() == old(self)@.pages.len(),
                forall|i: int| 0 <= i < self@.pages.len() ==> (#[trigger] self@.pages[i]).len()
                    == 0x1000,
                forall|i: int, j: int|
                    0 <= i < self@.pages.len() && 0 <= j < 0x1000 ==> (#[trigger] self@.pages[i][j])
                        == (if rel <= i * 0x1000 + j < rel + k {
                        bytes@[i * 0x1000 + j - rel]
                    } else {
                        old(self)@.pages[i][j]
                    }),
            decreases 8 - k,
        {
            let idx = (rel + k) / 0x1000;
            let off = (rel + k) % 0x1000;
            let b = bytes[k];
            proof {
                assert(idx * 0x1000 + off == rel + k);
                assert(idx < self@.pages.len()) by {
                    assert(rel + k < self@.byte_len());
                    assert(idx * 0x1000 <= rel + k < self@.pages.len() * 0x1000);
                };
                assert(self.pages@[idx as int]@ == self@.pages[idx as int]);
            }
            let ghost before = self@.pages;
            let page = &mut self.pages[idx];
            page.data[off] = b;
            proof {
                assert(self@.pages[idx as int] == before[idx as int].update(off as int, b));
                assert(forall|i2: int|
                    0 <= i2 < before.len() && i2 != idx ==> self@.pages[i2] == before[i2]);
                assert(self@.pages.len() == before.len());
                assert forall|i2: int| 0 <= i2 < self@.pages.len() implies (
                #[trigger] self@.pages[i2]).len() == 0x1000 by {
                    assert(before[i2].len() == 0x1000);
                    if i2 == idx {
                        assert(self@.pages[i2].len() == before[i2].len());
                    } else {
                        assert(self@.pages[i2] == before[i2]);
                    }
                }
                assert forall|i2: int, j2: int|
                    0 <= i2 < self@.pages.len() && 0 <= j2 < 0x1000 implies (
                #[trigger] self@.pages[i2][j2]) == (if rel <= i2 * 0x1000 + j2 < rel + (k + 1) {
                    bytes@[i2 * 0x1000 + j2 - rel]
                } else {
                    old(self)@.pages[i2][j2]
                }) by {
                    if i2 == idx && j2 == off {
                        assert(self@.pages[i2][j2] == b);
                        assert(i2 * 0x1000 + j2 == rel + k);
                    } else if i2 == idx {
                        assert(self@.pages[i2][j2] == before[i2][j2]);
                        assert(i2 * 0x1000 + j2 != rel + k);
                    } else {
                        assert(self@.pages[i2][j2] == before[i2][j2]);
                        assert(i2 * 0x1000 + j2 != rel + k) by {
                            assert((rel + k) / 0x1000 == idx);
                            assert(i2 * 0x1000 <= i2 * 0x1000 + j2 < (i2 + 1) * 0x1000);
                            assert((i2 * 0x1000 + j2) / 0x1000 == i2) by (nonlinear_arith)
                                requires
                                    0 <= j2 < 0x1000,
                                    0 <= i2,
                            ;
                        };
                    }
                }
            }
            k += 1;
        }
        proof {
            assert(self@.pages =~~= spec_write8(
                old(self)@.pages,
                offset - old(self)@.rel_start,
                value,
            ));
        }
    }

    /// The part of this region that overlaps the page range starting at
    /// `rel_start` and `num_pages` long: the overlap's program-relative
    /// start and a copy of its bytes, or `None` if they do not meet.
    pub fn get_overlapped(&self, rel_start: u32, num_pages: u32) -> (r: Option<(u32, Vec<u8>)>)
        requires
            self.wf(),
            rel_start % 0x1000 == 0,
            rel_start + num_pages * 0x1000 <= u32::MAX,
        ensures
            ({
                let qend = rel_start + num_pages * 0x1000;
                match r {
                    Option::None => qend <= self@.rel_start || rel_start >= self@.end(),
                    Option::Some((start, bytes)) => {
                        let end = if qend < self@.end() {
                            qend
                        } else {
                            self@.end()
                        };
                        &&& qend > self@.rel_start
                        &&& rel_start < self@.end()
                        &&& start == (if rel_start > self@.rel_start {
                            rel_start as int
                        } else {
                            self@.rel_start as int
                        })
                        &&& start % 0x1000 == 0
                        &&& bytes@.len() == end - start
                        &&& forall|b: int|
                            start <= b < end ==> bytes@[b - start] == self@.byte_at(b)
                    },
                }
            }),
    {
        let rel_end = rel_start + num_pages * PAGE_SIZE;
        if rel_end <= self.rel_start {
            // input range is before this region
            return Option::None;
        }
        let self_rel_end = self.rel_start + self.get_num_pages() * PAGE_SIZE;
        if rel_start >= self_rel_end {
            // input range is after this region
            return Option::None;
        }
        let start = if rel_start > self.rel_start {
            rel_start
        } else {
            self.rel_start
        };
        let end = if rel_end < self_rel_end {
            rel_end
        } else {
            self_rel_end
        };
        let page_start_idx = ((start - self.rel_start) / PAGE_SIZE) as usize;
        let page_end_idx = ((end - self.rel_start) / PAGE_SIZE) as usize;
        let mut out: Vec<u8> = Vec::new();
        let mut i = page_start_idx;
        proof {
            assert(page_start_idx * 0x1000 == start - self@.rel_start);
            assert(page_end_idx * 0x1000 == end - self@.rel_start);
        }
        while i < page_end_idx
            invariant
                page_start_idx <= i <= page_end_idx,
                page_end_idx <= self@.pages.len(),
                self.wf(),
                page_start_idx * 0x1000 == start - self@.rel_start,
                out@.len() == (i - page_start_idx) * 0x1000,
                start as int % 0x1000 == 0,
                forall|b: int|
                    start <= b < start + out@.len() ==> out@[b - start] == self@.byte_at(b),
            decreases page_end_idx - i,
        {
            let mut j: usize = 0;
            while j < 0x1000
                invariant
                    j <= 0x1000,
                    page_start_idx <= i < page_end_idx,
                    page_end_idx <= self@.pages.len(),
                    self.wf(),
                    page_start_idx * 0x1000 == start - self@.rel_start,
                    out@.len() == (i - page_start_idx) * 0x1000 + j,
                    start as int % 0x1000 == 0,
                    forall|b: int|
                        start <= b < start + out@.len() ==> out@[b - start] == self@.byte_at(b),
                decreases 0x1000 - j,
            {
                proof {
                    assert(self.pages@[i as int]@ == self@.pages[i as int]);
                    assert(self@.pages[i as int].len() == 0x1000);
                }
                let b = self.pages[i].data[j];
                proof {
                    let boff = start + out@.len();
                    assert((boff - self@.rel_start) == i * 0x1000 + j);
                    assert((boff - self@.rel_start) / 0x1000 == i && (boff - self@.rel_start)
                        % 0x1000 == j) by (nonlinear_arith)
                        requires
                            (boff - self@.rel_start) == i * 0x1000 + j,
                            0 <= j < 0x1000,
                            0 <= i,
                    ;
                }
                out.push(b);
                j += 1;
            }
            i += 1;
        }
        Option::Some((start, out))
    }
}

/// Number of whole pages needed to hold `size` bytes.
pub open spec fn spec_round_up_pages(size: int) -> int {
    (size + 0xFFF) / 0x1000
}

/// The mathematical values of a sequence of regions.
pub open spec fn region_views(s: Seq<Region>) -> Seq<RegionV> {
    Seq::new(s.len(), |i: int| s[i]@)
}

/// Placing the PT_LOAD segments of one module, starting at
/// program-relative position `pos`: the regions they become and the
/// position after the last one, or `None` where a segment contradicts
/// the expected layout. Each segment must sit exactly where the previous
/// one ended (relative to the module's start), and a segment with RX
/// permissions must end exactly at the module's `text_end`.
pub open spec fn spec_load_segs(
    segs: Seq<crate::elf_image::SegV>,
    module: ModuleType,
    info: crate::module::ModuleInfo,
    pos: int,
) -> Option<(Seq<RegionV>, int)>
    decreases segs.len(),
{
    if segs.len() == 0 {
        Some((Seq::empty(), pos))
    } else {
        let s = segs[0];
        let rest = segs.drop_first();
        if s.p_type != crate::elf_image::PT_LOAD {
            spec_load_segs(rest, module, info, pos)
        } else if s.p_vaddr != s.p_paddr {
            None
        } else if s.p_vaddr as int != pos - info.start {
            None
        } else {
            let num = spec_round_up_pages(s.p_memsz as int);
            let newpos = pos + num * 0x1000;
            if newpos > info.end {
                None
            } else if s.p_flags == 5 && newpos != info.text_end {
                None
            } else {
                match spec_load_segs(rest, module, info, newpos) {
                    None => None,
                    Some((rs, end)) => Some(
                        (
                            seq![
                                RegionV {
                                    module,
                                    rel_start: pos as u32,
                                    permissions: s.p_flags,
                                    pages: spec_pages_from(s.data, num),
                                },
                            ] + rs,
                            end,
                        ),
                    ),
                }
            }
        }
    }
}

/// Prefixing the regions of a partial load with regions already emitted.
pub open spec fn spec_load_continue(
    pre: Seq<RegionV>,
    r: Option<(Seq<RegionV>, int)>,
) -> Option<(Seq<RegionV>, int)> {
    match r {
        None => None,
        Some((rs, e)) => Some((pre + rs, e)),
    }
}

/// Emitted prefixes of a partial load compose.
pub proof fn lemma_load_continue_assoc(
    pre: Seq<RegionV>,
    one: Seq<RegionV>,
    r: Option<(Seq<RegionV>, int)>,
)
    ensures
        spec_load_continue(pre, spec_load_continue(one, r)) == spec_load_continue(pre + one, r),
{
    match r {
        None => {},
        Some((rs, e)) => {
            assert(pre + (one + rs) =~= (pre + one) + rs);
        },
    }
}

/// The module carries at least one PT_LOAD segment.
pub open spec fn spec_has_pt_load(segs: Seq<crate::elf_image::SegV>) -> bool {
    exists|i: int|
        0 <= i < segs.len() && (#[trigger] segs[i]).p_type == crate::elf_image::PT_LOAD
}

/// What loading one module yields: its regions in load order and the
/// final position, which must be exactly the module's end. `None` where
/// the layout is rejected.
pub open spec fn spec_load_module(
    segs: Seq<crate::elf_image::SegV>,
    module: ModuleType,
    info: crate::module::ModuleInfo,
) -> Option<Seq<RegionV>> {
    if !spec_has_pt_load(segs) {
        None
    } else {
        match spec_load_segs(segs, module, info, info.start as int) {
            None => None,
            Some((rs, end)) => if end == info.end {
                Some(rs)
            } else {
                None
            },
        }
    }
}

/// The first region at or after index `k` that ends after `off`, or
/// `rs.len()` if none does. Regions are laid out in ascending order, so
/// this is the only region that can contain `off`.
pub open spec fn spec_find_region(rs: Seq<RegionV>, k: int, off: int) -> int
    decreases rs.len() - k,
{
    if k < 0 || k >= rs.len() {
        rs.len() as int
    } else if rs[k].end() > off {
        k
    } else {
        spec_find_region(rs, k + 1, off)
    }
}

/// The regions after the eight bytes of `value` are written at
/// program-relative offset `off`: the containing region is patched, all
/// others keep their bytes. `None` where `off` lies in a hole between
/// regions or the write would cross its region's end.
pub open spec fn spec_write_reloc(rs: Seq<RegionV>, off: int, value: u64) -> Option<
    Seq<RegionV>,
> {
    let k = spec_find_region(rs, 0, off);
    if k == rs.len() {
        None
    } else if rs[k].rel_start > off {
        None
    } else if off + 8 > rs[k].end() {
        None
    } else {
        Some(
            rs.update(
                k,
                RegionV {
                    module: rs[k].module,
                    rel_start: rs[k].rel_start,
                    permissions: rs[k].permissions,
                    pages: spec_write8(rs[k].pages, off - rs[k].rel_start, value),
                },
            ),
        )
    }
}

/// The loaded program memory: the regions of all four modules, anchored
/// at physical base address `start`.
pub struct Memory {
    /// the expected layout the modules were verified against
    pub info: crate::module::Modules,
    /// the caller-chosen physical base address of the image
    pub start: u64,
    /// the loaded regions, in load order
    pub regions: Vec<Region>,
    /// program-relative end of what has been loaded so far
    pub loaded_size: u32,
}

impl Memory {
    /// All regions are well formed, laid out in ascending order without
    /// overlap, and inside the loaded span.
    pub open spec fn wf(self) -> bool {
        &&& forall|i: int| 0 <= i < self.regions.len() ==> (#[trigger] self.regions[i])@.wf()
        &&& forall|i: int, j: int|
            0 <= i < j < self.regions.len() ==> (#[trigger] self.regions[i])@.end() <= (
            #[trigger] self.regions[j])@.rel_start
        &&& forall|i: int|
            0 <= i < self.regions.len() ==> (#[trigger] self.regions[i])@.end()
                <= self.loaded_size
    }

    /// Size of the loaded program in bytes.
    pub fn get_program_size(&self) -> (r: u32)
        ensures
            r == self.loaded_size,
    {
        self.loaded_size
    }

    /// Overwrite eight bytes at program-relative offset `offset` with
    /// `value`, in whichever region contains the offset. An offset in a
    /// hole between regions, or too close to its region's end for the
    /// full write, is fatal.
    pub fn write_relocation(&mut self, offset: u32, value: u64) -> (r: Result<
        (),
        crate::error::Error,
    >)
        requires
            old(self).wf(),
        ensures
            final(self).wf(),
            final(self).info == old(self).info,
            final(self).start == old(self).start,
            final(self).loaded_size == old(self).loaded_size,
            r is Ok <==> spec_write_reloc(
                region_views(old(self).regions@),
                offset as int,
                value,
            ) is Some,
            r is Ok ==> region_views(final(self).regions@) == spec_write_reloc(
                region_views(old(self).regions@),
                offset as int,
                value,
            ).unwrap(),
            r matches Err(e) ==> final(self).regions@ == old(self).regions@ && (e matches
                crate::error::Error::OffsetOutsideRegions(o) && o == offset as u64),
    {
        let ghost rs = region_views(self.regions@);
        let n = self.regions.len();
        let mut k: usize = 0;
        while k < n
            invariant
                k <= n,
                n == self.regions@.len(),
                self == old(self),
                old(self).wf(),
                rs == region_views(self.regions@),
                spec_find_region(rs, 0, offset as int) == spec_find_region(
                    rs,
                    k as int,
                    offset as int,
                ),
                forall|j: int| 0 <= j < k ==> (#[trigger] rs[j]).end() <= offset,
            decreases n - k,
        {
            let bl = self.regions[k].get_byte_len();
            if self.regions[k].rel_start + bl <= offset {
                // the offset is after this region
                k += 1;
                continue;
            }
            if self.regions[k].rel_start > offset {
                // the offset is before this region: it lies in a hole
                return Result::Err(crate::error::Error::OffsetOutsideRegions(offset as u64));
            }
            if offset - self.regions[k].rel_start > bl - 8 {
                // the eight bytes would cross the region's end
                return Result::Err(crate::error::Error::OffsetOutsideRegions(offset as u64));
            }
            let ghost pre = self.regions@;
            let region = &mut self.regions[k];
            region.write(offset, value);
            proof {
                assert(self.regions@ == pre.update(k as int, self.regions@[k as int]));
                assert forall|q: int| 0 <= q < self.regions.len() implies (
                #[trigger] self.regions[q])@.wf() && self.regions[q]@.end()
                    <= self.loaded_size by {
                    if q != k {
                        assert(self.regions@[q] == pre[q]);
                    } else {
                        assert(self.regions[q]@.pages.len() == pre[q]@.pages.len());
                    }
                }
                assert forall|a: int, b: int|
                    0 <= a < b < self.regions.len() implies (#[trigger] self.regions[a])@.end()
                    <= (#[trigger] self.regions[b])@.rel_start by {
                    if a != k {
                        assert(self.regions@[a] == pre[a]);
                    }
                    if b != k {
                        assert(self.regions@[b] == pre[b]);
                    }
                    assert(self.regions[a]@.end() == pre[a]@.end());
                    assert(self.regions[b]@.rel_start == pre[b]@.rel_start);
                }
                assert(region_views(self.regions@) =~= rs.update(
                    k as int,
                    RegionV {
                        module: rs[k as int].module,
                        rel_start: rs[k as int].rel_start,
                        permissions: rs[k as int].permissions,
                        pages: spec_write8(
                            rs[k as int].pages,
                            offset - rs[k as int].rel_start,
                            value,
                        ),
                    },
                ));
            }
            return Result::Ok(());
        }
        Result::Err(crate::error::Error::OffsetOutsideRegions(offset as u64))
    }

    /// Place the PT_LOAD segments of one module into memory, without
    /// relocation, verifying its layout against the expected table. The
    /// module must begin exactly where loading last stopped.
    pub fn load_module(
        &mut self,
        module: ModuleType,
        elf: &crate::elf_image::ElfImage,
        info: &crate::module::ModuleInfo,
    ) -> (r: Result<(), crate::error::Error>)
        requires
            old(self).wf(),
            info.wf(),
        ensures
            final(self).wf(),
            final(self).info == old(self).info,
            final(self).start == old(self).start,
            r is Ok <==> (old(self).loaded_size == info.start && spec_load_module(
                elf@.segments,
                module,
                *info,
            ) is Some),
            r is Ok ==> region_views(final(self).regions@) == region_views(old(self).regions@)
                + spec_load_module(elf@.segments, module, *info).unwrap(),
            r is Ok ==> final(self).loaded_size == info.end,
            r matches Err(e) ==> (e is LayoutMismatch || e is BadProgramHeader
                || e is MissingSegments),
    {
        if self.loaded_size != info.start {
            return Result::Err(crate::error::Error::LayoutMismatch {
                module,
                expected: info.start as u64,
                actual: self.loaded_size as u64,
            });
        }
        let ghost old_views = region_views(self.regions@);
        let mut segment_start: u32 = info.start;
        let mut seen_load = false;
        let mut i: usize = 0;
        let n = elf.segments.len();
        let ghost mut emitted: Seq<RegionV> = Seq::empty();
        proof {
            assert(elf@.segments.skip(0) =~= elf@.segments);
        }
        while i < n
            invariant
                i <= n,
                n == elf@.segments.len(),
                info.wf(),
                self.info == old(self).info,
                self.start == old(self).start,
                self.loaded_size == segment_start,
                info.start <= segment_start <= info.end,
                segment_start % 0x1000 == 0,
                self.wf(),
                seen_load == spec_has_pt_load(elf@.segments.take(i as int)),
                region_views(self.regions@) =~= old_views + emitted,
                old_views == region_views(old(self).regions@),
                spec_load_segs(elf@.segments, module, *info, info.start as int)
                    == spec_load_continue(
                    emitted,
                    spec_load_segs(
                        elf@.segments.skip(i as int),
                        module,
                        *info,
                        segment_start as int,
                    ),
                ),
            decreases n - i,
        {
            let ghost pre_rest = elf@.segments.skip(i as int);
            proof {
                assert(pre_rest[0] == elf@.segments[i as int]);
                assert(pre_rest.drop_first() =~= elf@.segments.skip(i as int + 1));
                assert(elf@.segments.take(i as int + 1).drop_last() =~= elf@.segments.take(
                    i as int,
                ));
            }
            let seg = &elf.segments[i];
            let ghost pos0 = segment_start as int;
            if seg.p_type == crate::elf_image::PT_LOAD {
                seen_load = true;
                proof {
                    assert(elf@.segments.take(i as int + 1)[i as int].p_type
                        == crate::elf_image::PT_LOAD);
                }
                if seg.p_vaddr != seg.p_paddr {
                    proof {
                        assert(spec_load_segs(pre_rest, module, *info, pos0) is None);
                    }
                    return Result::Err(crate::error::Error::BadProgramHeader);
                }
                if seg.p_vaddr != (segment_start - info.start) as u64 {
                    proof {
                        assert(spec_load_segs(pre_rest, module, *info, pos0) is None);
                    }
                    return Result::Err(crate::error::Error::LayoutMismatch {
                        module,
                        expected: (segment_start - info.start) as u64,
                        actual: seg.p_vaddr,
                    });
                }
                // the page-rounded segment must fit inside the module
                let avail: u64 = (info.end - segment_start) as u64;
                if seg.p_memsz > avail {
                    proof {
                        let m = seg@.p_memsz as int;
                        assert(((m + 0xFFF) / 0x1000) * 0x1000 >= m) by (nonlinear_arith)
                            requires
                                m >= 0,
                        ;
                        assert(spec_round_up_pages(m) * 0x1000 >= m);
                        assert(spec_load_segs(pre_rest, module, *info, pos0) is None);
                    }
                    return Result::Err(crate::error::Error::LayoutMismatch {
                        module,
                        expected: info.end as u64,
                        actual: seg.p_memsz,
                    });
                }
                let mem_size: u32 = seg.p_memsz as u32;
                let num_pages: u32 = if mem_size % PAGE_SIZE == 0 {
                    mem_size / PAGE_SIZE
                } else {
                    mem_size / PAGE_SIZE + 1
                };
                proof {
                    let m = mem_size as int;
                    assert((if m % 0x1000 == 0 {
                        m / 0x1000
                    } else {
                        m / 0x1000 + 1
                    }) == (m + 0xFFF) / 0x1000) by (nonlinear_arith)
                        requires
                            0 <= m,
                    ;
                    assert(num_pages == spec_round_up_pages(seg@.p_memsz as int));
                }
                if num_pages > (info.end - segment_start) / PAGE_SIZE {
                    proof {
                        let d = (info.end - segment_start) as int;
                        assert(d % 0x1000 == 0) by (nonlinear_arith)
                            requires
                                d == info.end - segment_start,
                                info.end % 0x1000 == 0,
                                segment_start % 0x1000 == 0,
                        ;
                        assert(num_pages * 0x1000 > d) by (nonlinear_arith)
                            requires
                                num_pages > d / 0x1000,
                                d % 0x1000 == 0,
                                d >= 0,
                        ;
                        assert(spec_load_segs(pre_rest, module, *info, pos0) is None);
                    }
                    return Result::Err(crate::error::Error::LayoutMismatch {
                        module,
                        expected: info.end as u64,
                        actual: segment_start as u64 + num_pages as u64 * 0x1000,
                    });
                }
                proof {
                    assert(num_pages * 0x1000 <= ((info.end - segment_start) as int / 0x1000)
                        * 0x1000 <= info.end - segment_start) by (nonlinear_arith)
                        requires
                            num_pages <= (info.end - segment_start) as int / 0x1000,
                            info.end >= segment_start,
                    ;
                }
                let region = Region::allocate(
                    module,
                    segment_start,
                    seg.p_flags,
                    seg.data.as_slice(),
                    mem_size,
                );
                let size = region.get_byte_len();
                let ghost rv = region@;
                let ghost newpos = pos0 + num_pages as int * 0x1000;
                let ghost pre_regions = self.regions@;
                proof {
                    assert(rv == RegionV {
                        module,
                        rel_start: pos0 as u32,
                        permissions: seg@.p_flags,
                        pages: spec_pages_from(seg@.data, spec_round_up_pages(seg@.p_memsz as int)),
                    });
                    assert(rv.byte_len() == num_pages * 0x1000);
                }
                self.regions.push(region);
                segment_start = segment_start + size;
                self.loaded_size = segment_start;
                proof {
                    assert(segment_start as int == newpos);
                    assert(self.regions@ =~= pre_regions.push(self.regions@.last()));
                    assert(self.regions@.last()@ == rv);
                    assert forall|q: int| 0 <= q < self.regions.len() implies (
                    #[trigger] self.regions[q])@.wf() by {
                        if q < pre_regions.len() {
                            assert(self.regions@[q] == pre_regions[q]);
                        }
                    }
                    assert forall|a: int, b: int|
                        0 <= a < b < self.regions.len() implies (#[trigger] self.regions[a])@.end()
                        <= (#[trigger] self.regions[b])@.rel_start by {
                        if b < pre_regions.len() {
                            assert(self.regions@[a] == pre_regions[a]);
                            assert(self.regions@[b] == pre_regions[b]);
                        } else {
                            assert(self.regions@[a] == pre_regions[a]);
                            assert(pre_regions[a]@.end() <= pos0);
                            assert(self.regions@[b]@.rel_start == pos0);
                        }
                    }
                    assert forall|q: int| 0 <= q < self.regions.len() implies (
                    #[trigger] self.regions[q])@.end() <= self.loaded_size by {
                        if q < pre_regions.len() {
                            assert(self.regions@[q] == pre_regions[q]);
                            assert(pre_regions[q]@.end() <= pos0);
                        } else {
                            assert(self.regions@[q]@.end() == newpos);
                        }
                    }
                }
                if seg.p_flags == 5 {
                    // RX segment: its end must be the module's text end
                    if segment_start != info.text_end {
                        proof {
                            assert(spec_load_segs(pre_rest, module, *info, pos0) is None);
                        }
                        return Result::Err(crate::error::Error::LayoutMismatch {
                            module,
                            expected: info.text_end as u64,
                            actual: segment_start as u64,
                        });
                    }
                }
                proof {
                    assert(spec_load_segs(pre_rest, module, *info, pos0) == spec_load_continue(
                        seq![rv],
                        spec_load_segs(
                            elf@.segments.skip(i as int + 1),
                            module,
                            *info,
                            newpos,
                        ),
                    )) by {
                        match spec_load_segs(elf@.segments.skip(i as int + 1), module, *info, newpos) {
                            None => {},
                            Some((rs, e)) => {
                                assert(seq![rv] + rs =~= seq![rv] + rs);
                            },
                        }
                    };
                    lemma_load_continue_assoc(
                        emitted,
                        seq![rv],
                        spec_load_segs(elf@.segments.skip(i as int + 1), module, *info, newpos),
                    );
                    let emitted_pre = emitted;
                    emitted = emitted + seq![rv];
                    assert(region_views(pre_regions) == old_views + emitted_pre);
                    assert forall|q: int|
                        0 <= q < region_views(self.regions@).len() implies region_views(
                        self.regions@,
                    )[q] == ((old_views + emitted_pre) + seq![rv])[q] by {
                        if q < pre_regions.len() {
                            assert(region_views(self.regions@)[q] == pre_regions[q]@);
                            assert((old_views + emitted_pre)[q] == pre_regions[q]@);
                        } else {
                            assert(region_views(self.regions@)[q] == rv);
                        }
                    }
                    assert(region_views(self.regions@) =~= (old_views + emitted_pre) + seq![rv]);
                    assert((old_views + emitted_pre) + seq![rv] =~= old_views + (emitted_pre
                        + seq![rv]));
                    assert(region_views(self.regions@) =~= old_views + emitted);
                }
            } else {
                proof {
                    assert(spec_has_pt_load(elf@.segments.take(i as int + 1)) == spec_has_pt_load(
                        elf@.segments.take(i as int),
                    )) by {
                        if spec_has_pt_load(elf@.segments.take(i as int)) {
                            let w = choose|w: int|
                                0 <= w < elf@.segments.take(i as int).len() && (#[trigger] elf@.segments.take(
                                    i as int,
                                )[w]).p_type == crate::elf_image::PT_LOAD;
                            assert(elf@.segments.take(i as int + 1)[w].p_type
                                == crate::elf_image::PT_LOAD);
                        }
                        if spec_has_pt_load(elf@.segments.take(i as int + 1)) {
                            let w = choose|w: int|
                                0 <= w < elf@.segments.take(i as int + 1).len() && (#[trigger] elf@.segments.take(
                                    i as int + 1,
                                )[w]).p_type == crate::elf_image::PT_LOAD;
                            assert(w < i as int + 1);
                            assert(elf@.segments.take(i as int + 1)[i as int].p_type != crate::elf_image::PT_LOAD);
                            assert(w < i as int);
                            assert(elf@.segments.take(i as int)[w].p_type
                                == crate::elf_image::PT_LOAD);
                        }
                    };
                }
            }
            i += 1;
        }
        proof {
            assert(elf@.segments.take(n as int) =~= elf@.segments);
            assert(elf@.segments.skip(n as int) =~= Seq::<crate::elf_image::SegV>::empty());
            assert(emitted + Seq::<RegionV>::empty() =~= emitted);
        }
        if !seen_load {
            return Result::Err(crate::error::Error::MissingSegments);
        }
        if segment_start != info.end {
            return Result::Err(crate::error::Error::LayoutMismatch {
                module,
                expected: info.end as u64,
                actual: segment_start as u64,
            });
        }
        Result::Ok(())
    }
}

/// The search for a region never steps backward and never runs past the
/// list.
proof fn lemma_find_region_range(rs: Seq<RegionV>, k: int, off: int)
    requires
        0 <= k <= rs.len(),
    ensures
        k <= spec_find_region(rs, k, off) <= rs.len(),
    decreases rs.len() - k,
{
    if k < rs.len() && !(rs[k].end() > off) {
        lemma_find_region_range(rs, k + 1, off);
    }
}

/// A relocation write preserves region boundaries: where it succeeds,
/// the target region holds the offset with all eight bytes inside its
/// span, and every other region keeps its bytes.
pub proof fn lemma_relocation_preserves_region_boundaries(rs: Seq<RegionV>, off: int, value: u64)
    requires
        spec_write_reloc(rs, off, value) is Some,
    ensures
        ({
            let k = spec_find_region(rs, 0, off);
            &&& 0 <= k < rs.len()
            &&& rs[k].rel_start <= off
            &&& off + 8 <= rs[k].rel_start + rs[k].byte_len()
            &&& forall|i: int|
                0 <= i < rs.len() && i != k ==> spec_write_reloc(rs, off, value)->Some_0[i]
                    == rs[i]
        }),
{
    lemma_find_region_range(rs, 0, off);
}

/// The human-readable permission string of ELF permission bits:
/// `r`, `w` and `x`, each replaced by `-` where its bit is clear.
pub open spec fn spec_perm_str(permission: u32) -> Seq<char> {
    (if permission & 4 != 0 {
        "r"@
    } else {
        "-"@
    }) + (if permission & 2 != 0 {
        "w"@
    } else {
        "-"@
    }) + (if permission & 1 != 0 {
        "x"@
    } else {
        "-"@
    })
}

/// Render ELF permission bits as `rwx`, with `-` for each clear bit.
pub fn perm_str(permission: u32) -> (r: String)
    ensures
        r@ == spec_perm_str(permission),
{
    let mut s = String::new();
    if permission & 4 != 0 {
        s.append("r");
    } else {
        s.append("-");
    }
    if permission & 2 != 0 {
        s.append("w");
    } else {
        s.append("-");
    }
    if permission & 1 != 0 {
        s.append("x");
    } else {
        s.append("-");
    }
    s
}

} // verus!

