//! The region slicer: select pages of the loaded image by a user filter
//! and copy them out as page-aligned extracted segments.

use vstd::prelude::*;

use crate::cli::RegionArg;
use crate::memory::{region_views, spec_align_down, spec_align_up, Memory, RegionV};
use crate::module::Modules;
use crate::program::{spec_section_perm, ProgramRegionV, SegmentsBuilder};
use crate::PAGE_SIZE;

verus! {

/// One filter argument selects page `p`: the argument's ends are mapped
/// to program-relative offsets, aligned outward, and `p` lies between
/// them.
pub open spec fn spec_arg_selects(info: Modules, a: RegionArg, p: int) -> bool {
    spec_align_down(info.spec_to_program_offset(a.module, a.start) as int) / 0x1000 <= p
        < spec_align_up(info.spec_to_program_offset(a.module, a.end) as int) / 0x1000
}

/// Some filter argument selects page `p`.
pub open spec fn spec_page_selected(info: Modules, filter: Seq<RegionArg>, p: int) -> bool {
    exists|k: int| 0 <= k < filter.len() && spec_arg_selects(info, #[trigger] filter[k], p)
}

/// The permissions and contents of page `p` of the loaded image, if a
/// region holds it.
pub open spec fn spec_mem_page_at(rs: Seq<RegionV>, p: int) -> Option<(u32, Seq<u8>)>
    decreases rs.len(),
{
    if rs.len() == 0 {
        None
    } else if rs.last().rel_start / 0x1000 <= p < rs.last().rel_start / 0x1000
        + rs.last().pages.len() {
        Some((rs.last().permissions, rs.last().pages[p - rs.last().rel_start / 0x1000]))
    } else {
        spec_mem_page_at(rs.drop_last(), p)
    }
}

/// The permissions and contents of page `p` among extracted segments,
/// if one holds it.
pub open spec fn spec_out_page_at(rs: Seq<ProgramRegionV>, p: int) -> Option<(u32, Seq<u8>)>
    decreases rs.len(),
{
    if rs.len() == 0 {
        None
    } else if rs.last().rel_start / 0x1000 <= p < rs.last().rel_start / 0x1000
        + rs.last().data.len() / 0x1000 {
        Some(
            (
                rs.last().permissions,
                rs.last().data.subrange(
                    (p - rs.last().rel_start / 0x1000) * 0x1000,
                    (p - rs.last().rel_start / 0x1000) * 0x1000 + 0x1000,
                ),
            ),
        )
    } else {
        spec_out_page_at(rs.drop_last(), p)
    }
}

/// Page `p` is kept: every page named by the filter, or every loaded
/// page where the filter is empty.
pub open spec fn spec_page_kept(
    info: Modules,
    filter: Seq<RegionArg>,
    rs: Seq<RegionV>,
    p: int,
) -> bool {
    if filter.len() == 0 {
        spec_mem_page_at(rs, p) is Some
    } else {
        spec_page_selected(info, filter, p)
    }
}

/// Page `p` lies in one of the collected runs.
pub open spec fn spec_in_runs(runs: Seq<(u32, u32)>, p: int) -> bool {
    exists|k: int|
        0 <= k < runs.len() && (#[trigger] runs[k]).0 / 0x1000 <= p < runs[k].0 / 0x1000
            + runs[k].1
}

/// For a section list mirroring a sorted, disjoint region list, the
/// permission lookup of an offset inside a region yields that region's
/// permission bits.
proof fn lemma_section_perm_of_regions(rs: Seq<RegionV>, sections: Seq<(u32, u32)>, i: int, x: u32)
    requires
        sections.len() == rs.len(),
        forall|q: int|
            0 <= q < rs.len() ==> (#[trigger] sections[q]) == (rs[q].rel_start, rs[q].permissions),
        forall|a: int, b: int| 0 <= a < b < rs.len() ==> (#[trigger] rs[a]).end() <= (
        #[trigger] rs[b]).rel_start,
        0 <= i < rs.len(),
        rs[i].rel_start <= x < rs[i].end(),
    ensures
        spec_section_perm(sections, x) == Some(rs[i].permissions),
    decreases rs.len(),
{
    let last = rs.len() - 1;
    if i == last {
        assert(sections.last() == (rs[last].rel_start, rs[last].permissions));
    } else {
        assert(rs[i].end() <= rs[last].rel_start);
        assert(sections.last().0 > x);
        assert(sections.drop_last().len() == rs.drop_last().len());
        assert(forall|q: int|
            0 <= q < rs.drop_last().len() ==> (#[trigger] sections.drop_last()[q]) == (
            rs.drop_last()[q].rel_start, rs.drop_last()[q].permissions));
        assert(forall|a: int, b: int|
            0 <= a < b < rs.drop_last().len() ==> (#[trigger] rs.drop_last()[a]).end() <= (
            #[trigger] rs.drop_last()[b]).rel_start);
        lemma_section_perm_of_regions(rs.drop_last(), sections.drop_last(), i, x);
    }
}

impl Memory {
    /// Does some filter entry select page `p`?
    fn page_selected(&self, filter: &Vec<RegionArg>, p: u32) -> (r: bool)
        requires
            self.info.wf(),
        ensures
            r == spec_page_selected(self.info, filter@, p as int),
    {
        let n = filter.len();
        let mut k: usize = 0;
        while k < n
            invariant
                k <= n,
                n == filter@.len(),
                self.info.wf(),
                forall|q: int|
                    0 <= q < k ==> !spec_arg_selects(self.info, #[trigger] filter@[q], p as int),
            decreases n - k,
        {
            let a = filter[k];
            let lo = crate::memory::align_down(self.info.to_program_offset(a.module, a.start));
            let hi_off = self.info.to_program_offset(a.module, a.end);
            proof {
                assert(hi_off <= self.info.spec_info_of(a.module).end);
                assert(self.info.spec_info_of(a.module).end % 0x1000 == 0);
                let e = self.info.spec_info_of(a.module).end as int;
                assert(e <= 0xFFFF_F000) by (nonlinear_arith)
                    requires
                        e % 0x1000 == 0,
                        0 <= e <= 0xFFFF_FFFF,
                ;
            }
            let hi = crate::memory::align_up(hi_off);
            if lo / PAGE_SIZE <= p && p < hi / PAGE_SIZE {
                return true;
            }
            k += 1;
        }
        false
    }

    /// Does some loaded region hold page `p`?
    fn page_present(&self, p: u32) -> (r: bool)
        requires
            self.wf(),
        ensures
            r == (spec_mem_page_at(region_views(self.regions@), p as int) is Some),
    {
        let n = self.regions.len();
        let mut j: usize = n;
        proof {
            assert(region_views(self.regions@).take(n as int) =~= region_views(self.regions@));
        }
        while j > 0
            invariant
                j <= n,
                n == self.regions@.len(),
                self.wf(),
                spec_mem_page_at(region_views(self.regions@), p as int) == spec_mem_page_at(
                    region_views(self.regions@).take(j as int),
                    p as int,
                ),
            decreases j,
        {
            proof {
                assert(region_views(self.regions@).take(j as int).last() == self.regions@[j as int
                    - 1]@);
                assert(region_views(self.regions@).take(j as int).drop_last() =~= region_views(
                    self.regions@,
                ).take(j as int - 1));
            }
            let reg = &self.regions[j - 1];
            let np = reg.get_num_pages();
            if reg.rel_start / PAGE_SIZE <= p && p < reg.rel_start / PAGE_SIZE + np {
                return true;
            }
            j -= 1;
        }
        proof {
            assert(region_views(self.regions@).take(0) =~= Seq::<RegionV>::empty());
        }
        false
    }

    /// Is page `p` kept by the filter?
    fn page_kept(&self, filter: &Vec<RegionArg>, p: u32) -> (r: bool)
        requires
            self.wf(),
            self.info.wf(),
        ensures
            r == spec_page_kept(self.info, filter@, region_views(self.regions@), p as int),
    {
        if filter.len() == 0 {
            self.page_present(p)
        } else {
            self.page_selected(filter, p)
        }
    }

    /// Collect the kept pages into maximal runs of consecutive pages:
    /// each run is `(program-relative start byte, number of pages)`.
    #[verifier::loop_isolation(false)]
    fn collect_runs(&self, filter: &Vec<RegionArg>) -> (runs: Vec<(u32, u32)>)
        requires
            self.wf(),
            self.info.wf(),
            self.loaded_size % 0x1000 == 0,
        ensures
            forall|q: int|
                spec_in_runs(runs@, q) <==> (0 <= q < self.loaded_size as int / 0x1000
                    && spec_page_kept(self.info, filter@, region_views(self.regions@), q)),
            forall|k: int|
                0 <= k < runs@.len() ==> (#[trigger] runs@[k]).0 % 0x1000 == 0 && runs@[k].1 >= 1
                    && runs@[k].0 / 0x1000 + runs@[k].1 <= self.loaded_size as int / 0x1000,
            forall|k1: int, k2: int|
                0 <= k1 < k2 < runs@.len() ==> (#[trigger] runs@[k1]).0 / 0x1000 + runs@[k1].1
                    <= (#[trigger] runs@[k2]).0 / 0x1000,
    {
        let total = self.loaded_size / PAGE_SIZE;
        let mut runs: Vec<(u32, u32)> = Vec::new();
        let mut cur_start: u32 = 0;
        let mut cur_len: u32 = 0;
        let mut p: u32 = 0;
        while p < total
            invariant
                p <= total,
                cur_len <= p,
                cur_len > 0 ==> cur_start + cur_len == p && (forall|q: int|
                    cur_start <= q < p ==> spec_page_kept(
                        self.info,
                        filter@,
                        region_views(self.regions@),
                        q,
                    )),
                forall|q: int|
                    spec_in_runs(runs@, q) <==> (0 <= q < (if cur_len > 0 {
                        cur_start as int
                    } else {
                        p as int
                    }) && spec_page_kept(self.info, filter@, region_views(self.regions@), q)),
                forall|k: int|
                    0 <= k < runs@.len() ==> (#[trigger] runs@[k]).0 % 0x1000 == 0 && runs@[k].1
                        >= 1 && runs@[k].0 / 0x1000 + runs@[k].1 <= (if cur_len > 0 {
                        cur_start as int
                    } else {
                        p as int
                    }),
                forall|k1: int, k2: int|
                    0 <= k1 < k2 < runs@.len() ==> (#[trigger] runs@[k1]).0 / 0x1000 + runs@[k1].1
                        <= (#[trigger] runs@[k2]).0 / 0x1000,
            decreases total - p,
        {
            let ghost pre_runs = runs@;
            let ghost pre_start = cur_start;
            let ghost pre_len = cur_len;
            let ghost bound0: int = if cur_len > 0 {
                cur_start as int
            } else {
                p as int
            };
            let kept = self.page_kept(filter, p);
            if kept {
                if cur_len == 0 {
                    cur_start = p;
                    cur_len = 1;
                } else {
                    cur_len = cur_len + 1;
                }
            } else {
                if cur_len > 0 {
                    proof {
                        assert(cur_start < 0x100000) by (nonlinear_arith)
                            requires
                                cur_start < self.loaded_size as int / 0x1000,
                                self.loaded_size <= 0xFFFF_FFFF,
                                self.loaded_size as int % 0x1000 == 0,
                        ;
                        assert(cur_start * 0x1000 <= 0xFFFF_FFFF) by (nonlinear_arith)
                            requires
                                cur_start < 0x100000,
                        ;
                    }
                    runs.push((cur_start * PAGE_SIZE, cur_len));
                    proof {
                        assert((cur_start * PAGE_SIZE) as int / 0x1000 == cur_start as int)
                            by (nonlinear_arith)
                            requires
                                (cur_start * PAGE_SIZE) as int == cur_start as int * 0x1000,
                        ;
                        assert((cur_start * PAGE_SIZE) as int % 0x1000 == 0) by (nonlinear_arith)
                            requires
                                (cur_start * PAGE_SIZE) as int == cur_start as int * 0x1000,
                        ;
                    }
                    cur_len = 0;
                }
            }
            p = p + 1;
            proof {
                let iv = self.info;
                let fv = filter@;
                let rv = region_views(self.regions@);
                let bound1: int = if cur_len > 0 {
                    cur_start as int
                } else {
                    p as int
                };
                let newlen = runs@.len() as int;
                assert forall|q: int| spec_in_runs(runs@, q) implies (0 <= q < bound1
                    && spec_page_kept(iv, fv, rv, q)) by {
                    let w = choose|w: int|
                        0 <= w < runs@.len() && (#[trigger] runs@[w]).0 / 0x1000 <= q < runs@[w].0
                            / 0x1000 + runs@[w].1;
                    if w < pre_runs.len() {
                        assert(runs@[w] == pre_runs[w]);
                        assert(spec_in_runs(pre_runs, q));
                        assert(0 <= q < bound0 && spec_page_kept(iv, fv, rv, q));
                    } else {
                        assert(pre_len > 0 && !kept);
                        assert(runs@[w] == ((pre_start * PAGE_SIZE) as u32, pre_len));
                        assert(pre_start <= q < pre_start + pre_len);
                        assert(spec_page_kept(iv, fv, rv, q));
                    }
                }
                assert forall|q: int| 0 <= q < bound1 && spec_page_kept(iv, fv, rv, q) implies
                    spec_in_runs(runs@, q) by {
                    if q < bound0 {
                        assert(spec_in_runs(pre_runs, q));
                        let w = choose|w: int|
                            0 <= w < pre_runs.len() && (#[trigger] pre_runs[w]).0 / 0x1000 <= q
                                < pre_runs[w].0 / 0x1000 + pre_runs[w].1;
                        assert(runs@[w] == pre_runs[w]);
                        assert(spec_in_runs(runs@, q));
                    } else {
                        // q lies at or past the old boundary
                        if pre_len > 0 && !kept {
                            // the open run was just flushed as the last entry
                            assert(pre_start <= q < p - 1 || q == p - 1);
                            assert(q < p - 1 || q == p - 1);
                            if q == p - 1 {
                                assert(!spec_page_kept(iv, fv, rv, q));
                            } else {
                                assert(runs@[newlen - 1].0 / 0x1000 <= q < runs@[newlen - 1].0
                                    / 0x1000 + runs@[newlen - 1].1);
                                assert(spec_in_runs(runs@, q));
                            }
                        } else if pre_len > 0 && kept {
                            // boundary unchanged: nothing new to show
                            assert(bound1 == bound0);
                        } else if pre_len == 0 && kept {
                            assert(bound1 == pre_start as int || bound1 == cur_start as int);
                            assert(bound1 <= bound0);
                        } else {
                            assert(q == p - 1);
                            assert(!spec_page_kept(iv, fv, rv, q));
                        }
                    }
                }
            }
        }
        if cur_len > 0 {
            let ghost pre = runs@;
            proof {
                assert(cur_start < 0x100000) by (nonlinear_arith)
                    requires
                        cur_start < self.loaded_size as int / 0x1000,
                        self.loaded_size <= 0xFFFF_FFFF,
                ;
                assert(cur_start * 0x1000 <= 0xFFFF_FFFF) by (nonlinear_arith)
                    requires
                        cur_start < 0x100000,
                ;
            }
            runs.push((cur_start * PAGE_SIZE, cur_len));
            proof {
                assert((cur_start * PAGE_SIZE) as int / 0x1000 == cur_start as int)
                    by (nonlinear_arith)
                    requires
                        (cur_start * PAGE_SIZE) as int == cur_start as int * 0x1000,
                ;
                assert((cur_start * PAGE_SIZE) as int % 0x1000 == 0) by (nonlinear_arith)
                    requires
                        (cur_start * PAGE_SIZE) as int == cur_start as int * 0x1000,
                ;
                        assert forall|q: int|
                            spec_in_runs(runs@, q) <==> spec_in_runs(pre, q) || (cur_start <= q
                                < total) by {
                            let kk = pre.len() as int;
                            if cur_start <= q < total {
                                assert(runs@[kk].0 / 0x1000 <= q < runs@[kk].0 / 0x1000
                                    + runs@[kk].1);
                                assert(spec_in_runs(runs@, q));
                            }
                            if spec_in_runs(pre, q) {
                                let w = choose|w: int|
                                    0 <= w < pre.len() && (#[trigger] pre[w]).0 / 0x1000 <= q
                                        < pre[w].0 / 0x1000 + pre[w].1;
                                assert(runs@[w] == pre[w]);
                                assert(spec_in_runs(runs@, q));
                            }
                            if spec_in_runs(runs@, q) {
                                let w = choose|w: int|
                                    0 <= w < runs@.len() && (#[trigger] runs@[w]).0 / 0x1000 <= q
                                        < runs@[w].0 / 0x1000 + runs@[w].1;
                                if w < pre.len() {
                                    assert(pre[w] == runs@[w]);
                                    assert(spec_in_runs(pre, q));
                                } else {
                                    assert(w == kk);
                                }
                            }
                        };
                assert forall|k: int| 0 <= k < runs@.len() implies (#[trigger] runs@[k]).0
                    / 0x1000 + runs@[k].1 <= total as int by {
                    if k < pre.len() {
                        assert(runs@[k] == pre[k]);
                    } else {
                        assert(runs@[k] == ((cur_start * PAGE_SIZE) as u32, cur_len));
                        assert(cur_start + cur_len == total);
                    }
                }
                let iv = self.info;
                let fv = filter@;
                let rv = region_views(self.regions@);
                assert forall|q: int| spec_in_runs(runs@, q) implies (0 <= q < total as int
                    && spec_page_kept(iv, fv, rv, q)) by {
                    if spec_in_runs(pre, q) {
                        assert(0 <= q < cur_start as int && spec_page_kept(iv, fv, rv, q));
                    } else {
                        assert(cur_start <= q < total);
                        assert(spec_page_kept(iv, fv, rv, q));
                    }
                }
                assert forall|q: int| 0 <= q < total as int && spec_page_kept(iv, fv, rv, q)
                    implies spec_in_runs(runs@, q) by {
                    if q < cur_start as int {
                        assert(spec_in_runs(pre, q));
                    } else {
                        assert(cur_start <= q < total);
                    }
                }
            }
        }
        runs
    }
}

/// No region holds a page at or past the end of the loaded span.
proof fn lemma_mem_page_beyond(rs: Seq<RegionV>, bound: int, p: int)
    requires
        forall|i: int| 0 <= i < rs.len() ==> (#[trigger] rs[i]).end() <= bound * 0x1000,
        p >= bound,
    ensures
        spec_mem_page_at(rs, p) is None,
    decreases rs.len(),
{
    if rs.len() > 0 {
        assert(rs.last().end() <= bound * 0x1000);
        assert(rs.last().rel_start / 0x1000 + rs.last().pages.len() <= bound) by (nonlinear_arith)
            requires
                rs.last().rel_start + rs.last().pages.len() * 0x1000 <= bound * 0x1000,
                rs.last().rel_start >= 0,
                rs.last().pages.len() >= 0,
        ;
        assert(forall|i: int|
            0 <= i < rs.drop_last().len() ==> (#[trigger] rs.drop_last()[i]).end() <= bound
                * 0x1000);
        lemma_mem_page_beyond(rs.drop_last(), bound, p);
    }
}

/// Looking a page up among concatenated segment lists prefers the later
/// list and falls back to the earlier one.
proof fn lemma_out_page_concat(a: Seq<ProgramRegionV>, b: Seq<ProgramRegionV>, q: int)
    ensures
        spec_out_page_at(a + b, q) == (match spec_out_page_at(b, q) {
            Some(v) => Some(v),
            None => spec_out_page_at(a, q),
        }),
    decreases b.len(),
{
    if b.len() == 0 {
        assert(a + b =~= a);
    } else {
        assert((a + b).last() == b.last());
        assert((a + b).drop_last() =~= a + b.drop_last());
        lemma_out_page_concat(a, b.drop_last(), q);
    }
}

impl Memory {
    /// Copy the parts of the loaded image that overlap one page run
    /// into the builder, one extracted segment per overlapped region,
    /// in region order.
    #[verifier::loop_isolation(false)]
    #[verifier::rlimit(100)]
    pub fn add_segments_in(
        &self,
        rel_start: u32,
        num_pages: u32,
        builder: SegmentsBuilder,
    ) -> (r: SegmentsBuilder)
        requires
            self.wf(),
            rel_start % 0x1000 == 0,
            num_pages >= 1,
            rel_start + num_pages * 0x1000 <= u32::MAX,
            builder.spec_sections().len() == self.regions@.len(),
            forall|q: int|
                0 <= q < self.regions@.len() ==> (#[trigger] builder.spec_sections()[q]) == (
                region_views(self.regions@)[q].rel_start,
                region_views(self.regions@)[q].permissions,
            ),
        ensures
            r.env == builder.env,
            r.program_start == builder.program_start,
            r.program_size == builder.program_size,
            r.singletons == builder.singletons,
            r.sections == builder.sections,
            r.spec_regions().len() >= builder.spec_regions().len(),
            r.spec_regions().take(builder.spec_regions().len() as int) == builder.spec_regions(),
            forall|q: int|
                spec_out_page_at(
                    r.spec_regions().skip(builder.spec_regions().len() as int),
                    q,
                ) == (if rel_start as int / 0x1000 <= q < rel_start as int / 0x1000
                    + num_pages as int {
                    spec_mem_page_at(region_views(self.regions@), q)
                } else {
                    None
                }),
    {
        let ghost rs = region_views(self.regions@);
        let ghost base = builder.spec_regions().len() as int;
        let ghost q_lo = rel_start as int / 0x1000;
        let ghost q_hi = rel_start as int / 0x1000 + num_pages as int;
        let mut b = builder;
        let n = self.regions.len();
        let mut j: usize = 0;
        proof {
            assert(b.spec_regions().take(base) =~= builder.spec_regions());
            assert(b.spec_regions().skip(base) =~= Seq::<ProgramRegionV>::empty());
            assert(rs.take(0) =~= Seq::<RegionV>::empty());
        }
        while j < n
            invariant
                j <= n,
                n == self.regions@.len(),
                b.env == builder.env,
                b.program_start == builder.program_start,
                b.program_size == builder.program_size,
                b.singletons == builder.singletons,
                b.sections == builder.sections,
                b.spec_regions().len() >= base,
                b.spec_regions().take(base) == builder.spec_regions(),
                forall|q: int|
                    spec_out_page_at(b.spec_regions().skip(base), q) == (if q_lo <= q < q_hi {
                        spec_mem_page_at(rs.take(j as int), q)
                    } else {
                        None
                    }),
            decreases n - j,
        {
            proof {
                assert(rs.take(j as int + 1).last() == rs[j as int]);
                assert(rs.take(j as int + 1).drop_last() =~= rs.take(j as int));
                assert(self.regions@[j as int]@ == rs[j as int]);
            }
            let ghost reg = rs[j as int];
            let overlap = self.regions[j].get_overlapped(rel_start, num_pages);
            match overlap {
                None => {
                    proof {
                        let qend = rel_start as int + num_pages as int * 0x1000;
                        assert forall|q: int|
                            spec_out_page_at(b.spec_regions().skip(base), q) == (if q_lo <= q
                                < q_hi {
                                spec_mem_page_at(rs.take(j as int + 1), q)
                            } else {
                                None
                            }) by {
                            if q_lo <= q < q_hi {
                            if qend <= reg.rel_start {
                                assert(q < q_hi);
                                assert(q_hi * 0x1000 <= qend) by (nonlinear_arith)
                                    requires
                                        q_hi == rel_start as int / 0x1000 + num_pages as int,
                                        rel_start as int % 0x1000 == 0,
                                        qend == rel_start as int + num_pages as int * 0x1000,
                                ;
                                assert(q * 0x1000 < qend);
                                assert(q < reg.rel_start / 0x1000) by (nonlinear_arith)
                                    requires
                                        q * 0x1000 < reg.rel_start,
                                        reg.rel_start % 0x1000 == 0,
                                ;
                            } else {
                                assert(rel_start >= reg.end());
                                assert(q >= q_lo);
                                assert(q_lo >= reg.end() / 0x1000) by (nonlinear_arith)
                                    requires
                                        q_lo == rel_start as int / 0x1000,
                                        rel_start as int >= reg.end(),
                                        reg.end() >= 0,
                                ;
                                assert(reg.end() / 0x1000 == reg.rel_start / 0x1000
                                    + reg.pages.len()) by (nonlinear_arith)
                                    requires
                                        reg.end() == reg.rel_start + reg.pages.len() * 0x1000,
                                        reg.rel_start % 0x1000 == 0,
                                        reg.rel_start >= 0,
                                        reg.pages.len() >= 0,
                                ;
                            }
                            assert(!(reg.rel_start / 0x1000 <= q < reg.rel_start / 0x1000
                                + reg.pages.len()));
                            assert(spec_mem_page_at(rs.take(j as int + 1), q)
                                == spec_mem_page_at(rs.take(j as int), q));
                            }
                        }
                    }
                },
                Some((ostart, data)) => {
                    if data.len() > 0 {
                        let ghost em_pre = b.spec_regions().skip(base);
                        let ghost qend = rel_start as int + num_pages as int * 0x1000;
                        let ghost oend = ostart as int + data@.len();
                        proof {
                            // the overlap lies inside region j
                            assert(reg.rel_start <= ostart);
                            assert(oend <= reg.end());
                            assert(ostart < reg.end());
                            lemma_section_perm_of_regions(
                                rs,
                                builder.spec_sections(),
                                j as int,
                                ostart,
                            );
                            assert(data@.len() % 0x1000 == 0) by (nonlinear_arith)
                                requires
                                    data@.len() == (if qend < reg.end() {
                                        qend
                                    } else {
                                        reg.end()
                                    }) - ostart,
                                    qend % 0x1000 == 0,
                                    reg.end() % 0x1000 == 0,
                                    ostart as int % 0x1000 == 0,
                            ;
                            assert(qend % 0x1000 == 0) by (nonlinear_arith)
                                requires
                                    rel_start as int % 0x1000 == 0,
                                    qend == rel_start as int + num_pages as int * 0x1000,
                            ;
                            assert(reg.end() % 0x1000 == 0) by (nonlinear_arith)
                                requires
                                    reg.rel_start % 0x1000 == 0,
                                    reg.end() == reg.rel_start + reg.pages.len() * 0x1000,
                            ;
                        }
                        b = b.add_segment(ostart, data);
                        proof {
                            let perm = spec_section_perm(builder.spec_sections(), ostart)->Some_0;
                            let newreg = b.spec_regions().last();
                            assert(newreg.rel_start == ostart && newreg.permissions
                                == reg.permissions);
                            assert(b.spec_regions().take(base) =~= builder.spec_regions());
                            assert(b.spec_regions().skip(base) =~= em_pre.push(newreg));
                            let o_pg = ostart as int / 0x1000;
                            let o_np = newreg.data.len() / 0x1000;
                            assert(o_pg * 0x1000 == ostart) by (nonlinear_arith)
                                requires
                                    o_pg == ostart as int / 0x1000,
                                    ostart as int % 0x1000 == 0,
                                    ostart >= 0,
                            ;
                            assert(o_np * 0x1000 == newreg.data.len()) by (nonlinear_arith)
                                requires
                                    o_np == newreg.data.len() / 0x1000,
                                    newreg.data.len() % 0x1000 == 0,
                                    newreg.data.len() >= 0,
                            ;
                            let r_pg = reg.rel_start as int / 0x1000;
                            assert(r_pg * 0x1000 == reg.rel_start) by (nonlinear_arith)
                                requires
                                    r_pg == reg.rel_start as int / 0x1000,
                                    reg.rel_start as int % 0x1000 == 0,
                                    reg.rel_start >= 0,
                            ;
                            assert(q_lo * 0x1000 == rel_start as int) by (nonlinear_arith)
                                requires
                                    q_lo == rel_start as int / 0x1000,
                                    rel_start as int % 0x1000 == 0,
                                    rel_start >= 0,
                            ;
                            assert(em_pre.push(newreg).last() == newreg);
                            assert(em_pre.push(newreg).drop_last() =~= em_pre);
                            assert forall|q: int|
                                spec_out_page_at(b.spec_regions().skip(base), q) == (if q_lo <= q
                                    < q_hi {
                                    spec_mem_page_at(rs.take(j as int + 1), q)
                                } else {
                                    None
                                }) by {
                                let covers_new = o_pg <= q < o_pg + o_np;
                                let covers_reg = r_pg <= q < r_pg + reg.pages.len();
                                assert(spec_out_page_at(em_pre.push(newreg), q) == (if covers_new {
                                    Some(
                                        (
                                            newreg.permissions,
                                            newreg.data.subrange(
                                                (q - o_pg) * 0x1000,
                                                (q - o_pg) * 0x1000 + 0x1000,
                                            ),
                                        ),
                                    )
                                } else {
                                    spec_out_page_at(em_pre, q)
                                }));
                                if covers_new {
                                    // pages of the new segment are exactly the run's
                                    // pages inside region j
                                    assert(ostart <= q * 0x1000 < oend) by (nonlinear_arith)
                                        requires
                                            o_pg <= q < o_pg + o_np,
                                            o_pg * 0x1000 == ostart,
                                            o_np * 0x1000 == newreg.data.len(),
                                            oend == ostart + newreg.data.len(),
                                    ;
                                    assert(q_lo <= q < q_hi) by (nonlinear_arith)
                                        requires
                                            ostart <= q * 0x1000 < oend,
                                            rel_start <= ostart,
                                            oend <= qend,
                                            q_lo * 0x1000 == rel_start as int,
                                            q_hi == q_lo + num_pages as int,
                                            qend == rel_start as int + num_pages as int * 0x1000,
                                    ;
                                    assert(reg.rel_start <= q * 0x1000 < reg.end());
                                    assert(r_pg <= q < r_pg + reg.pages.len())
                                        by (nonlinear_arith)
                                        requires
                                            reg.rel_start <= q * 0x1000 < reg.end(),
                                            r_pg * 0x1000 == reg.rel_start,
                                            reg.end() == reg.rel_start + reg.pages.len() * 0x1000,
                                    ;
                                    assert(covers_reg);
                                    let page_new = newreg.data.subrange(
                                        (q - o_pg) * 0x1000,
                                        (q - o_pg) * 0x1000 + 0x1000,
                                    );
                                    let page_mem = reg.pages[q - r_pg];
                                    assert forall|w: int| 0 <= w < 0x1000 implies page_new[w]
                                        == page_mem[w] by {
                                        let gb = q * 0x1000 + w;
                                        assert(page_new[w] == newreg.data[(q - o_pg) * 0x1000
                                            + w]);
                                        assert((q - o_pg) * 0x1000 + w == gb - ostart)
                                            by (nonlinear_arith)
                                            requires
                                                o_pg * 0x1000 == ostart,
                                                gb == q * 0x1000 + w,
                                        ;
                                        assert(ostart <= gb < oend) by (nonlinear_arith)
                                            requires
                                                ostart <= q * 0x1000,
                                                q * 0x1000 + newreg.data.len() >= oend ==> true,
                                                o_pg <= q < o_pg + o_np,
                                                o_pg * 0x1000 == ostart,
                                                o_np * 0x1000 == newreg.data.len(),
                                                oend == ostart + newreg.data.len(),
                                                0 <= w < 0x1000,
                                                gb == q * 0x1000 + w,
                                        ;
                                        assert(newreg.data[gb - ostart] == reg.byte_at(gb));
                                        assert((gb - reg.rel_start) / 0x1000 == q - r_pg && (gb
                                            - reg.rel_start) % 0x1000 == w) by (nonlinear_arith)
                                            requires
                                                gb == q * 0x1000 + w,
                                                0 <= w < 0x1000,
                                                r_pg * 0x1000 == reg.rel_start,
                                                q >= r_pg,
                                        ;
                                        assert(page_mem[w] == reg.pages[q - r_pg][w]);
                                    }
                                    assert(page_new =~= page_mem);
                                    assert(spec_mem_page_at(rs.take(j as int + 1), q) == Some(
                                        (reg.permissions, page_mem),
                                    ));
                                } else {
                                    if q_lo <= q < q_hi && covers_reg {
                                        // a run page of region j is always covered by
                                        // the new segment
                                        assert(ostart <= q * 0x1000 < oend) by (nonlinear_arith)
                                            requires
                                                q_lo <= q < q_hi,
                                                r_pg <= q < r_pg + reg.pages.len(),
                                                q_lo * 0x1000 == rel_start as int,
                                                r_pg * 0x1000 == reg.rel_start,
                                                qend == rel_start as int + num_pages as int
                                                    * 0x1000,
                                                q_hi == q_lo + num_pages as int,
                                                reg.end() == reg.rel_start + reg.pages.len()
                                                    * 0x1000,
                                                ostart as int == (if rel_start
                                                    > reg.rel_start {
                                                    rel_start as int
                                                } else {
                                                    reg.rel_start as int
                                                }),
                                                oend == (if qend < reg.end() {
                                                    qend
                                                } else {
                                                    reg.end()
                                                }),
                                        ;
                                        assert(o_pg <= q < o_pg + o_np) by (nonlinear_arith)
                                            requires
                                                ostart <= q * 0x1000 < oend,
                                                o_pg * 0x1000 == ostart,
                                                o_np * 0x1000 == newreg.data.len(),
                                                oend == ostart + newreg.data.len(),
                                        ;
                                        assert(covers_new);
                                        assert(false);
                                    }
                                }
                            }
                        }
                    } else {
                        proof {
                            // an empty overlap covers no page of the run
                            let qend = rel_start as int + num_pages as int * 0x1000;
                            let oend = (if qend < reg.end() {
                                qend
                            } else {
                                reg.end()
                            });
                            assert forall|q: int|
                                spec_out_page_at(b.spec_regions().skip(base), q) == (if q_lo <= q
                                    < q_hi {
                                    spec_mem_page_at(rs.take(j as int + 1), q)
                                } else {
                                    None
                                }) by {
                                if q_lo <= q < q_hi && reg.rel_start / 0x1000 <= q
                                    < reg.rel_start / 0x1000 + reg.pages.len() {
                                    assert(reg.rel_start <= q * 0x1000 < reg.end())
                                        by (nonlinear_arith)
                                        requires
                                            reg.rel_start / 0x1000 <= q < reg.rel_start / 0x1000
                                                + reg.pages.len(),
                                            reg.rel_start % 0x1000 == 0,
                                            reg.end() == reg.rel_start + reg.pages.len() * 0x1000,
                                            reg.rel_start >= 0,
                                    ;
                                    assert(rel_start <= q * 0x1000 < qend) by (nonlinear_arith)
                                        requires
                                            q_lo <= q < q_hi,
                                            q_lo == rel_start as int / 0x1000,
                                            rel_start as int % 0x1000 == 0,
                                            q_hi == q_lo + num_pages as int,
                                            qend == rel_start as int + num_pages as int * 0x1000,
                                            rel_start >= 0,
                                    ;
                                    assert(false);
                                }
                                if q_lo <= q < q_hi {
                                    assert(spec_mem_page_at(rs.take(j as int + 1), q)
                                        == spec_mem_page_at(rs.take(j as int), q));
                                }
                            }
                        }
                    }
                },
            }
            j += 1;
        }
        proof {
            assert(rs.take(n as int) =~= rs);
        }
        b
    }
}

impl Memory {
    /// Slice the loaded image by the user's region filter: compute the
    /// kept pages, coalesce them into maximal runs, and copy every
    /// overlap of a run with a loaded region into the builder as one
    /// extracted segment. An empty filter keeps every loaded region
    /// whole. The extracted segments hold exactly the kept pages of the
    /// image, with their bytes and permissions.
    #[verifier::loop_isolation(false)]
    pub fn add_program_segments(
        &self,
        regions: &Vec<RegionArg>,
        builder: SegmentsBuilder,
    ) -> (r: SegmentsBuilder)
        requires
            self.wf(),
            self.info.wf(),
            self.loaded_size % 0x1000 == 0,
            builder.spec_sections().len() == self.regions@.len(),
            forall|q: int|
                0 <= q < self.regions@.len() ==> (#[trigger] builder.spec_sections()[q]) == (
                region_views(self.regions@)[q].rel_start,
                region_views(self.regions@)[q].permissions,
            ),
        ensures
            r.env == builder.env,
            r.program_start == builder.program_start,
            r.program_size == builder.program_size,
            r.singletons == builder.singletons,
            r.sections == builder.sections,
            r.spec_regions().len() >= builder.spec_regions().len(),
            r.spec_regions().take(builder.spec_regions().len() as int) == builder.spec_regions(),
            forall|q: int|
                spec_out_page_at(
                    r.spec_regions().skip(builder.spec_regions().len() as int),
                    q,
                ) == (if spec_page_kept(self.info, regions@, region_views(self.regions@), q) {
                    spec_mem_page_at(region_views(self.regions@), q)
                } else {
                    None
                }),
    {
        let ghost rs = region_views(self.regions@);
        let ghost base = builder.spec_regions().len() as int;
        let ghost total = self.loaded_size as int / 0x1000;
        let runs = self.collect_runs(regions);
        let mut b = builder;
        let nr = runs.len();
        let mut t: usize = 0;
        proof {
            assert(b.spec_regions().take(base) =~= builder.spec_regions());
            assert(b.spec_regions().skip(base) =~= Seq::<ProgramRegionV>::empty());
        }
        while t < nr
            invariant
                t <= nr,
                nr == runs@.len(),
                b.env == builder.env,
                b.program_start == builder.program_start,
                b.program_size == builder.program_size,
                b.singletons == builder.singletons,
                b.sections == builder.sections,
                b.spec_regions().len() >= base,
                b.spec_regions().take(base) == builder.spec_regions(),
                forall|q: int|
                    spec_out_page_at(b.spec_regions().skip(base), q) == (if spec_in_runs(
                        runs@.take(t as int),
                        q,
                    ) {
                        spec_mem_page_at(rs, q)
                    } else {
                        None
                    }),
            decreases nr - t,
        {
            let run = runs[t];
            let ghost em_old = b.spec_regions().skip(base);
            let ghost mid = b.spec_regions().len() as int;
            proof {
                let e = run.0 as int / 0x1000 + run.1 as int;
                assert(run.0 + run.1 * 0x1000 <= total * 0x1000) by (nonlinear_arith)
                    requires
                        run.0 as int / 0x1000 + run.1 as int <= total,
                        run.0 as int % 0x1000 == 0,
                        run.0 >= 0,
                        run.1 >= 0,
                ;
                assert(total * 0x1000 == self.loaded_size) by (nonlinear_arith)
                    requires
                        total == self.loaded_size as int / 0x1000,
                        self.loaded_size as int % 0x1000 == 0,
                        self.loaded_size >= 0,
                ;
            }
            let b2 = self.add_segments_in(run.0, run.1, b);
            proof {
                assert(b2.spec_regions().take(base) =~= builder.spec_regions());
                assert(b2.spec_regions().skip(base) =~= em_old + b2.spec_regions().skip(mid));
            }
            b = b2;
            proof {
                let em_run = b.spec_regions().skip(mid);
                let q_lo = run.0 as int / 0x1000;
                let q_hi = run.0 as int / 0x1000 + run.1 as int;
                assert forall|q: int|
                    spec_out_page_at(b.spec_regions().skip(base), q) == (if spec_in_runs(
                        runs@.take(t as int + 1),
                        q,
                    ) {
                        spec_mem_page_at(rs, q)
                    } else {
                        None
                    }) by {
                    lemma_out_page_concat(em_old, em_run, q);
                    assert(runs@.take(t as int + 1)[t as int] == runs@[t as int]);
                    if q_lo <= q < q_hi {
                        // q lies in run t, which earlier runs do not reach
                        assert(spec_in_runs(runs@.take(t as int + 1), q));
                        if spec_in_runs(runs@.take(t as int), q) {
                            let w = choose|w: int|
                                0 <= w < runs@.take(t as int).len() && (#[trigger] runs@.take(
                                    t as int,
                                )[w]).0 / 0x1000 <= q < runs@.take(t as int)[w].0 / 0x1000
                                    + runs@.take(t as int)[w].1;
                            assert(runs@[w] == runs@.take(t as int)[w]);
                            assert(runs@[w].0 / 0x1000 + runs@[w].1 <= runs@[t as int].0 / 0x1000);
                            assert(false);
                        }
                        match spec_mem_page_at(rs, q) {
                            Some(v) => {},
                            None => {},
                        }
                    } else {
                        assert(spec_out_page_at(em_run, q) is None);
                        if spec_in_runs(runs@.take(t as int + 1), q) {
                            let w = choose|w: int|
                                0 <= w < runs@.take(t as int + 1).len() && (#[trigger] runs@.take(
                                    t as int + 1,
                                )[w]).0 / 0x1000 <= q < runs@.take(t as int + 1)[w].0 / 0x1000
                                    + runs@.take(t as int + 1)[w].1;
                            assert(runs@.take(t as int + 1)[w] == runs@[w]);
                            if w < t as int {
                                assert(runs@.take(t as int)[w] == runs@[w]);
                                assert(spec_in_runs(runs@.take(t as int), q));
                            } else {
                                assert(w == t as int);
                                assert(false);
                            }
                        }
                        if spec_in_runs(runs@.take(t as int), q) {
                            let w = choose|w: int|
                                0 <= w < runs@.take(t as int).len() && (#[trigger] runs@.take(
                                    t as int,
                                )[w]).0 / 0x1000 <= q < runs@.take(t as int)[w].0 / 0x1000
                                    + runs@.take(t as int)[w].1;
                            assert(runs@.take(t as int + 1)[w] == runs@.take(t as int)[w]);
                            assert(spec_in_runs(runs@.take(t as int + 1), q));
                        }
                    }
                }
            }
            t += 1;
        }
        proof {
            assert(runs@.take(nr as int) =~= runs@);
            assert(total * 0x1000 == self.loaded_size) by (nonlinear_arith)
                requires
                    total == self.loaded_size as int / 0x1000,
                    self.loaded_size as int % 0x1000 == 0,
                    self.loaded_size >= 0,
            ;
            assert forall|q: int|
                spec_out_page_at(b.spec_regions().skip(base), q) == (if spec_page_kept(
                    self.info,
                    regions@,
                    rs,
                    q,
                ) {
                    spec_mem_page_at(rs, q)
                } else {
                    None
                }) by {
                if !(0 <= q < total) {
                    assert(!spec_in_runs(runs@, q));
                    if q >= total {
                        lemma_mem_page_beyond(rs, total, q);
                    } else {
                        assert(spec_mem_page_at(rs, q) is None) by {
                            lemma_mem_page_negative(rs, q);
                        };
                        if regions@.len() > 0 && spec_page_selected(self.info, regions@, q) {
                            let k = choose|k: int|
                                0 <= k < regions@.len() && spec_arg_selects(
                                    self.info,
                                    #[trigger] regions@[k],
                                    q,
                                );
                            assert(false);
                        }
                    }
                }
            }
        }
        b
    }
}

/// No region holds a page at a negative index.
proof fn lemma_mem_page_negative(rs: Seq<RegionV>, p: int)
    requires
        p < 0,
    ensures
        spec_mem_page_at(rs, p) is None,
    decreases rs.len(),
{
    if rs.len() > 0 {
        lemma_mem_page_negative(rs.drop_last(), p);
    }
}

/// Slicing is idempotent at the page level: slicing the sliced image
/// again, with the same filter and module layout, keeps the bytes and
/// permissions of every page unchanged.
pub proof fn lemma_slicer_idempotent(
    info: Modules,
    filter: Seq<RegionArg>,
    rs1: Seq<RegionV>,
    out1: Seq<ProgramRegionV>,
    rs2: Seq<RegionV>,
    out2: Seq<ProgramRegionV>,
)
    requires
        forall|q: int|
            spec_out_page_at(out1, q) == (if spec_page_kept(info, filter, rs1, q) {
                spec_mem_page_at(rs1, q)
            } else {
                None
            }),
        forall|q: int| spec_mem_page_at(rs2, q) == spec_out_page_at(out1, q),
        forall|q: int|
            spec_out_page_at(out2, q) == (if spec_page_kept(info, filter, rs2, q) {
                spec_mem_page_at(rs2, q)
            } else {
                None
            }),
    ensures
        forall|q: int| spec_out_page_at(out2, q) == spec_out_page_at(out1, q),
{
    assert forall|q: int| spec_out_page_at(out2, q) == spec_out_page_at(out1, q) by {
        assert(spec_mem_page_at(rs2, q) == spec_out_page_at(out1, q));
        if filter.len() == 0 {
        } else {
            if spec_page_selected(info, filter, q) {
            } else {
            }
        }
    }
}

/// Slicing is monotone: where filter `a` names only entries that filter
/// `b` also names, every page the `a`-slice keeps is kept by the
/// `b`-slice with identical bytes and permissions.
pub proof fn lemma_slicer_monotone(
    info: Modules,
    fa: Seq<RegionArg>,
    fb: Seq<RegionArg>,
    rs: Seq<RegionV>,
    out_a: Seq<ProgramRegionV>,
    out_b: Seq<ProgramRegionV>,
)
    requires
        fa.len() > 0,
        fb.len() > 0,
        forall|k: int|
            0 <= k < fa.len() ==> exists|j: int| 0 <= j < fb.len() && fb[j] == #[trigger] fa[k],
        forall|q: int|
            spec_out_page_at(out_a, q) == (if spec_page_kept(info, fa, rs, q) {
                spec_mem_page_at(rs, q)
            } else {
                None
            }),
        forall|q: int|
            spec_out_page_at(out_b, q) == (if spec_page_kept(info, fb, rs, q) {
                spec_mem_page_at(rs, q)
            } else {
                None
            }),
    ensures
        forall|q: int|
            spec_out_page_at(out_a, q) is Some ==> spec_out_page_at(out_b, q)
                == spec_out_page_at(out_a, q),
{
    assert forall|q: int|
        spec_out_page_at(out_a, q) is Some implies spec_out_page_at(out_b, q)
        == spec_out_page_at(out_a, q) by {
        assert(spec_page_kept(info, fa, rs, q));
        let k = choose|k: int|
            0 <= k < fa.len() && spec_arg_selects(info, #[trigger] fa[k], q);
        let j = choose|j: int| 0 <= j < fb.len() && fb[j] == fa[k];
        assert(spec_arg_selects(info, fb[j], q));
        assert(spec_page_selected(info, fb, q));
    }
}

} // verus!
