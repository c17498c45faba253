//! The relocation engine: walking `.rela.dyn` and `.rela.plt` of each
//! module, arbitrating the four supported AArch64 relocation types, and
//! patching the loaded regions.

use vstd::prelude::*;

use crate::elf_image::{ElfImage, ModuleData, RelaV, R_AARCH64_ABS64, R_AARCH64_GLOB_DAT,
    R_AARCH64_JUMP_SLOT, R_AARCH64_RELATIVE};
use crate::error::Error;
use crate::memory::{region_views, spec_load_module, spec_write_reloc, Memory, RegionV};
use crate::module::{ModuleInfo, ModuleType};
use crate::symbols::{spec_load_syms, spec_resolve, DynamicSymbolTables, ResolveFailure,
    TablesV};

verus! {

/// The mask a program base address must satisfy: 1 MiB-aligned within a
/// 40-bit address window.
pub const PROGRAM_START_MASK: u64 = 0xFFFFFF00_000FFFFF;

/// Why one relocation entry is rejected.
pub enum RelaErr {
    /// a relocation type outside the supported four
    Unexpected,
    /// a prohibited addend or symbol reference
    Malformed,
    /// a symbol reference whose name the string table does not give
    MissingName,
    /// a name that must resolve did not
    Resolution(ResolveFailure),
    /// a write target in no region, or crossing its region's end
    Outside,
}

/// The views of a sequence of strings.
pub open spec fn string_views(s: Seq<String>) -> Seq<Seq<char>> {
    Seq::new(s.len(), |i: int| s[i]@)
}

/// A warning as a sequence: empty for none.
pub open spec fn opt_to_seq(w: Option<Seq<char>>) -> Seq<Seq<char>> {
    match w {
        None => Seq::empty(),
        Some(n) => seq![n],
    }
}

/// Writing `value` at module-relative offset `r_offset`: `Ok` with the
/// patched regions and the warning to record, or `Outside` where the
/// target does not fit the loaded image.
pub open spec fn spec_write_outcome(
    rs: Seq<RegionV>,
    mstart: u32,
    r_offset: u64,
    value: u64,
    warn: Option<Seq<char>>,
) -> Result<(Seq<RegionV>, Option<Seq<char>>), RelaErr> {
    if r_offset + mstart > u32::MAX {
        Err(RelaErr::Outside)
    } else {
        match spec_write_reloc(rs, r_offset + mstart, value) {
            None => Err(RelaErr::Outside),
            Some(rs2) => Ok((rs2, warn)),
        }
    }
}

/// What one relocation entry does to the loaded regions.
///
/// In `.rela.plt` only `R_AARCH64_JUMP_SLOT` with a zero addend is
/// legal; in `.rela.dyn` only `R_AARCH64_ABS64`, `R_AARCH64_GLOB_DAT`
/// and `R_AARCH64_RELATIVE` are. A failed resolution is fatal for
/// `ABS64`, and writes zero with a warning for `GLOB_DAT` and
/// `JUMP_SLOT`.
pub open spec fn spec_apply_rela(
    rs: Seq<RegionV>,
    mstart: u32,
    base: u64,
    t: TablesV,
    rela: RelaV,
    is_plt: bool,
) -> Result<(Seq<RegionV>, Option<Seq<char>>), RelaErr> {
    if is_plt && rela.r_addend != 0 {
        Err(RelaErr::Malformed)
    } else if is_plt && rela.r_type != R_AARCH64_JUMP_SLOT {
        Err(RelaErr::Unexpected)
    } else if !is_plt && rela.r_type != R_AARCH64_ABS64 && rela.r_type != R_AARCH64_GLOB_DAT
        && rela.r_type != R_AARCH64_RELATIVE {
        Err(RelaErr::Unexpected)
    } else if !is_plt && rela.r_type == R_AARCH64_RELATIVE {
        if rela.r_sym != 0 {
            Err(RelaErr::Malformed)
        } else if rela.r_addend < 0 {
            Err(RelaErr::Malformed)
        } else {
            let value = (mstart + rela.r_addend + base) as u64;
            spec_write_outcome(rs, mstart, rela.r_offset, value, None)
        }
    } else {
        if rela.r_sym == 0 {
            Err(RelaErr::Malformed)
        } else if rela.r_type == R_AARCH64_ABS64 && rela.r_addend < 0 {
            Err(RelaErr::Malformed)
        } else if rela.r_type != R_AARCH64_ABS64 && rela.r_addend != 0 {
            Err(RelaErr::Malformed)
        } else {
            match rela.name {
                None => Err(RelaErr::MissingName),
                Some(nm) => match spec_resolve(t, nm) {
                    Ok(addr) => {
                        let value = if rela.r_type == R_AARCH64_ABS64 {
                            vstd::wrapping::u64_specs::wrapping_add(addr, rela.r_addend as u64)
                        } else {
                            addr
                        };
                        spec_write_outcome(rs, mstart, rela.r_offset, value, None)
                    },
                    Err(e) => if rela.r_type == R_AARCH64_ABS64 {
                        Err(RelaErr::Resolution(e))
                    } else {
                        spec_write_outcome(rs, mstart, rela.r_offset, 0, Some(nm))
                    },
                },
            }
        }
    }
}

/// Applying one relocation table in file order, collecting the warnings
/// of unresolved soft entries.
pub open spec fn spec_relocate_list(
    rs: Seq<RegionV>,
    mstart: u32,
    base: u64,
    t: TablesV,
    relas: Seq<RelaV>,
    is_plt: bool,
) -> Result<(Seq<RegionV>, Seq<Seq<char>>), RelaErr>
    decreases relas.len(),
{
    if relas.len() == 0 {
        Ok((rs, Seq::empty()))
    } else {
        match spec_apply_rela(rs, mstart, base, t, relas[0], is_plt) {
            Err(e) => Err(e),
            Ok((rs2, w)) => match spec_relocate_list(
                rs2,
                mstart,
                base,
                t,
                relas.drop_first(),
                is_plt,
            ) {
                Err(e) => Err(e),
                Ok((rs3, ws)) => Ok((rs3, opt_to_seq(w) + ws)),
            },
        }
    }
}

/// Applying one module's `.rela.dyn` and then its `.rela.plt`.
pub open spec fn spec_relocate_module(
    rs: Seq<RegionV>,
    mstart: u32,
    base: u64,
    t: TablesV,
    rela_dyn: Seq<RelaV>,
    rela_plt: Seq<RelaV>,
) -> Result<(Seq<RegionV>, Seq<Seq<char>>), RelaErr> {
    match spec_relocate_list(rs, mstart, base, t, rela_dyn, false) {
        Err(e) => Err(e),
        Ok((rs1, w1)) => match spec_relocate_list(rs1, mstart, base, t, rela_plt, true) {
            Err(e) => Err(e),
            Ok((rs2, w2)) => Ok((rs2, w1 + w2)),
        },
    }
}

/// Prefixing already collected warnings onto a partial relocation.
pub open spec fn spec_rl_continue(
    w: Seq<Seq<char>>,
    r: Result<(Seq<RegionV>, Seq<Seq<char>>), RelaErr>,
) -> Result<(Seq<RegionV>, Seq<Seq<char>>), RelaErr> {
    match r {
        Err(e) => Err(e),
        Ok((rs, ws)) => Ok((rs, w + ws)),
    }
}

/// Collected warning prefixes compose.
pub proof fn lemma_rl_continue_assoc(
    a: Seq<Seq<char>>,
    b: Seq<Seq<char>>,
    r: Result<(Seq<RegionV>, Seq<Seq<char>>), RelaErr>,
)
    ensures
        spec_rl_continue(a, spec_rl_continue(b, r)) == spec_rl_continue(a + b, r),
{
    match r {
        Err(_) => {},
        Ok((rs, ws)) => {
            assert(a + (b + ws) =~= (a + b) + ws);
        },
    }
}

/// The exec error raised for one rejected relocation carries the kind
/// the entry was rejected for.
pub open spec fn err_matches(e: Error, k: RelaErr) -> bool {
    match k {
        RelaErr::Unexpected => e is UnexpectedRelocation,
        RelaErr::Malformed => e is MalformedRelocation,
        RelaErr::MissingName => e is BadElf,
        RelaErr::Resolution(f) => match f {
            ResolveFailure::Unresolved => e is UnresolvedSymbol,
            ResolveFailure::Ambiguous => e is AmbiguousSymbol,
        },
        RelaErr::Outside => e is OffsetOutsideRegions,
    }
}

impl Memory {
    /// Apply one relocation entry: patch the target, or return the
    /// warning of a tolerated soft failure.
    fn apply_rela(
        &mut self,
        module: ModuleType,
        mstart: u32,
        dynamic: &DynamicSymbolTables,
        rela: &crate::elf_image::RelaEntry,
        is_plt: bool,
    ) -> (r: Result<Option<String>, Error>)
        requires
            old(self).wf(),
            old(self).start & 0xFFFFFF00_000FFFFF == 0,
        ensures
            final(self).wf(),
            final(self).info == old(self).info,
            final(self).start == old(self).start,
            final(self).loaded_size == old(self).loaded_size,
            r is Ok <==> spec_apply_rela(
                region_views(old(self).regions@),
                mstart,
                old(self).start,
                dynamic@,
                rela@,
                is_plt,
            ) is Ok,
            r matches Ok(w) ==> {
                let s = spec_apply_rela(
                    region_views(old(self).regions@),
                    mstart,
                    old(self).start,
                    dynamic@,
                    rela@,
                    is_plt,
                )->Ok_0;
                region_views(final(self).regions@) == s.0 && (match w {
                    Some(n) => s.1 == Some(n@),
                    None => s.1 is None,
                })
            },
            r matches Err(e) ==> final(self).regions@ == old(self).regions@ && err_matches(
                e,
                spec_apply_rela(
                    region_views(old(self).regions@),
                    mstart,
                    old(self).start,
                    dynamic@,
                    rela@,
                    is_plt,
                )->Err_0,
            ),
    {
        if is_plt && rela.r_addend != 0 {
            return Err(Error::MalformedRelocation("unexpected addend in .rela.plt".to_owned()));
        }
        if is_plt && rela.r_type != R_AARCH64_JUMP_SLOT {
            return Err(Error::UnexpectedRelocation(rela.r_type));
        }
        if !is_plt && rela.r_type != R_AARCH64_ABS64 && rela.r_type != R_AARCH64_GLOB_DAT
            && rela.r_type != R_AARCH64_RELATIVE {
            return Err(Error::UnexpectedRelocation(rela.r_type));
        }
        let value: u64;
        let warn: Option<String>;
        if !is_plt && rela.r_type == R_AARCH64_RELATIVE {
            if rela.r_sym != 0 {
                return Err(
                    Error::MalformedRelocation("unexpected symbol on RELATIVE".to_owned()),
                );
            }
            if rela.r_addend < 0 {
                return Err(
                    Error::MalformedRelocation("negative addend on RELATIVE".to_owned()),
                );
            }
            proof {
                let b = self.start;
                assert(b < 0x100_0000_0000) by (bit_vector)
                    requires
                        b & 0xFFFFFF00_000FFFFFu64 == 0,
                ;
            }
            value = mstart as u64 + rela.r_addend as u64 + self.start;
            warn = None;
        } else {
            if rela.r_sym == 0 {
                return Err(Error::MalformedRelocation("missing symbol reference".to_owned()));
            }
            if rela.r_type == R_AARCH64_ABS64 && rela.r_addend < 0 {
                return Err(Error::MalformedRelocation("negative addend on ABS64".to_owned()));
            }
            if rela.r_type != R_AARCH64_ABS64 && rela.r_addend != 0 {
                return Err(Error::MalformedRelocation("unexpected addend on GOT entry".to_owned()));
            }
            let name = match &rela.name {
                Some(n) => n,
                None => {
                    return Err(Error::BadElf("symbol name missing from string table".to_owned()));
                },
            };
            match dynamic.resolve(module, name) {
                Ok(addr) => {
                    value = if rela.r_type == R_AARCH64_ABS64 {
                        addr.wrapping_add(rela.r_addend as u64)
                    } else {
                        addr
                    };
                    warn = None;
                },
                Err(e) => {
                    if rela.r_type == R_AARCH64_ABS64 {
                        return Err(e);
                    }
                    value = 0;
                    warn = Some(name.clone());
                },
            }
        }
        if rela.r_offset > (u32::MAX - mstart) as u64 {
            return Err(Error::OffsetOutsideRegions(rela.r_offset));
        }
        let off = rela.r_offset as u32 + mstart;
        match self.write_relocation(off, value) {
            Ok(()) => Ok(warn),
            Err(e) => Err(e),
        }
    }

    /// Apply one module's relocations, `.rela.dyn` then `.rela.plt`,
    /// appending the names of tolerated unresolved GOT and PLT entries
    /// to `warnings`. Returns how many relocations were applied.
    #[verifier::loop_isolation(false)]
    pub fn relocate(
        &mut self,
        module: ModuleType,
        elf: &ElfImage,
        info: &ModuleInfo,
        dynamic: &DynamicSymbolTables,
        warnings: &mut Vec<String>,
    ) -> (r: Result<u32, Error>)
        requires
            old(self).wf(),
            old(self).start & 0xFFFFFF00_000FFFFF == 0,
            elf.rela_dyn@.len() + elf.rela_plt@.len() <= u32::MAX,
        ensures
            final(self).wf(),
            final(self).info == old(self).info,
            final(self).start == old(self).start,
            final(self).loaded_size == old(self).loaded_size,
            r is Ok <==> spec_relocate_module(
                region_views(old(self).regions@),
                info.start,
                old(self).start,
                dynamic@,
                elf@.rela_dyn,
                elf@.rela_plt,
            ) is Ok,
            r matches Ok(c) ==> {
                let s = spec_relocate_module(
                    region_views(old(self).regions@),
                    info.start,
                    old(self).start,
                    dynamic@,
                    elf@.rela_dyn,
                    elf@.rela_plt,
                )->Ok_0;
                region_views(final(self).regions@) == s.0 && string_views(final(warnings)@)
                    == string_views(old(warnings)@) + s.1 && c == elf@.rela_dyn.len()
                    + elf@.rela_plt.len()
            },
            r matches Err(e) ==> err_matches(
                e,
                spec_relocate_module(
                    region_views(old(self).regions@),
                    info.start,
                    old(self).start,
                    dynamic@,
                    elf@.rela_dyn,
                    elf@.rela_plt,
                )->Err_0,
            ),
    {
        let ghost rs0 = region_views(self.regions@);
        let ghost w0 = string_views(warnings@);
        let mstart = info.start;
        let mut count: u32 = 0;
        let nd = elf.rela_dyn.len();
        let mut i: usize = 0;
        let ghost mut emitted_w: Seq<Seq<char>> = Seq::empty();
        proof {
            assert(elf@.rela_dyn.skip(0) =~= elf@.rela_dyn);
            assert(Seq::<Seq<char>>::empty() + string_views(warnings@) =~= string_views(
                warnings@,
            ));
        }
        while i < nd
            invariant
                i <= nd,
                nd == elf@.rela_dyn.len(),
                elf@.rela_dyn.len() + elf@.rela_plt.len() <= u32::MAX,
                count == i,
                self.wf(),
                self.info == old(self).info,
                self.start == old(self).start,
                self.loaded_size == old(self).loaded_size,
                old(self).start & 0xFFFFFF00_000FFFFF == 0,
                rs0 == region_views(old(self).regions@),
                w0 == string_views(old(warnings)@),
                string_views(warnings@) =~= w0 + emitted_w,
                spec_relocate_module(rs0, mstart, self.start, dynamic@, elf@.rela_dyn, elf@.rela_plt)
                    == spec_rl_continue(
                    emitted_w,
                    spec_relocate_module(
                        region_views(self.regions@),
                        mstart,
                        self.start,
                        dynamic@,
                        elf@.rela_dyn.skip(i as int),
                        elf@.rela_plt,
                    ),
                ),
            decreases nd - i,
        {
            let ghost rest = elf@.rela_dyn.skip(i as int);
            let ghost cur_rs = region_views(self.regions@);
            proof {
                assert(rest[0] == elf@.rela_dyn[i as int]);
                assert(rest.drop_first() =~= elf@.rela_dyn.skip(i as int + 1));
            }
            let rela = &elf.rela_dyn[i];
            match self.apply_rela(module, mstart, dynamic, rela, false) {
                Err(e) => {
                    proof {
                        let k = spec_apply_rela(
                            cur_rs,
                            mstart,
                            self.start,
                            dynamic@,
                            rela@,
                            false,
                        )->Err_0;
                        assert(spec_relocate_list(cur_rs, mstart, self.start, dynamic@, rest, false)
                            == Err::<(Seq<RegionV>, Seq<Seq<char>>), RelaErr>(k));
                        assert(spec_relocate_module(
                            cur_rs,
                            mstart,
                            self.start,
                            dynamic@,
                            rest,
                            elf@.rela_plt,
                        ) == Err::<(Seq<RegionV>, Seq<Seq<char>>), RelaErr>(k));
                        assert(spec_relocate_module(
                            rs0,
                            mstart,
                            self.start,
                            dynamic@,
                            elf@.rela_dyn,
                            elf@.rela_plt,
                        ) == Err::<(Seq<RegionV>, Seq<Seq<char>>), RelaErr>(k));
                        assert(err_matches(e, k));
                    }
                    return Err(e);
                },
                Ok(w) => {
                    let ghost sw = spec_apply_rela(
                        cur_rs,
                        mstart,
                        self.start,
                        dynamic@,
                        rela@,
                        false,
                    )->Ok_0.1;
                    match w {
                        Some(n) => {
                            proof {
                                assert(sw == Some(n@));
                            }
                            warnings.push(n);
                            proof {
                                assert(string_views(warnings@) =~= (w0 + emitted_w) + opt_to_seq(
                                    sw,
                                ));
                                assert((w0 + emitted_w) + opt_to_seq(sw) =~= w0 + (emitted_w
                                    + opt_to_seq(sw)));
                            }
                        },
                        None => {
                            proof {
                                assert(opt_to_seq(sw) =~= Seq::<Seq<char>>::empty());
                                assert(emitted_w + opt_to_seq(sw) =~= emitted_w);
                                assert(string_views(warnings@) =~= w0 + (emitted_w + opt_to_seq(
                                    sw,
                                )));
                            }
                        },
                    }
                    proof {
                        let after = spec_relocate_module(
                            region_views(self.regions@),
                            mstart,
                            self.start,
                            dynamic@,
                            elf@.rela_dyn.skip(i as int + 1),
                            elf@.rela_plt,
                        );
                        assert(spec_relocate_module(
                            cur_rs,
                            mstart,
                            self.start,
                            dynamic@,
                            rest,
                            elf@.rela_plt,
                        ) == spec_rl_continue(opt_to_seq(sw), after)) by {
                            lemma_step_relocate_module(
                                cur_rs,
                                mstart,
                                self.start,
                                dynamic@,
                                rest,
                                elf@.rela_plt,
                                region_views(self.regions@),
                                sw,
                            );
                        };
                        lemma_rl_continue_assoc(emitted_w, opt_to_seq(sw), after);
                        emitted_w = emitted_w + opt_to_seq(sw);
                    }
                },
            }
            count = count + 1;
            i += 1;
        }
        proof {
            assert(elf@.rela_dyn.skip(nd as int) =~= Seq::<RelaV>::empty());
        }
        let np = elf.rela_plt.len();
        let mut j: usize = 0;
        proof {
            assert(elf@.rela_plt.skip(0) =~= elf@.rela_plt);
        }
        while j < np
            invariant
                j <= np,
                np == elf@.rela_plt.len(),
                nd == elf@.rela_dyn.len(),
                elf@.rela_dyn.len() + elf@.rela_plt.len() <= u32::MAX,
                count == nd + j,
                self.wf(),
                self.info == old(self).info,
                self.start == old(self).start,
                self.loaded_size == old(self).loaded_size,
                old(self).start & 0xFFFFFF00_000FFFFF == 0,
                rs0 == region_views(old(self).regions@),
                w0 == string_views(old(warnings)@),
                string_views(warnings@) =~= w0 + emitted_w,
                spec_relocate_module(rs0, mstart, self.start, dynamic@, elf@.rela_dyn, elf@.rela_plt)
                    == spec_rl_continue(
                    emitted_w,
                    spec_relocate_list(
                        region_views(self.regions@),
                        mstart,
                        self.start,
                        dynamic@,
                        elf@.rela_plt.skip(j as int),
                        true,
                    ),
                ),
            decreases np - j,
        {
            let ghost rest = elf@.rela_plt.skip(j as int);
            let ghost cur_rs = region_views(self.regions@);
            proof {
                assert(rest[0] == elf@.rela_plt[j as int]);
                assert(rest.drop_first() =~= elf@.rela_plt.skip(j as int + 1));
            }
            let rela = &elf.rela_plt[j];
            match self.apply_rela(module, mstart, dynamic, rela, true) {
                Err(e) => {
                    proof {
                        let k = spec_apply_rela(
                            cur_rs,
                            mstart,
                            self.start,
                            dynamic@,
                            rela@,
                            true,
                        )->Err_0;
                        assert(spec_relocate_list(cur_rs, mstart, self.start, dynamic@, rest, true)
                            == Err::<(Seq<RegionV>, Seq<Seq<char>>), RelaErr>(k));
                    }
                    return Err(e);
                },
                Ok(w) => {
                    let ghost sw = spec_apply_rela(
                        cur_rs,
                        mstart,
                        self.start,
                        dynamic@,
                        rela@,
                        true,
                    )->Ok_0.1;
                    match w {
                        Some(n) => {
                            proof {
                                assert(sw == Some(n@));
                            }
                            warnings.push(n);
                            proof {
                                assert(string_views(warnings@) =~= (w0 + emitted_w) + opt_to_seq(
                                    sw,
                                ));
                                assert((w0 + emitted_w) + opt_to_seq(sw) =~= w0 + (emitted_w
                                    + opt_to_seq(sw)));
                            }
                        },
                        None => {
                            proof {
                                assert(opt_to_seq(sw) =~= Seq::<Seq<char>>::empty());
                                assert(emitted_w + opt_to_seq(sw) =~= emitted_w);
                                assert(string_views(warnings@) =~= w0 + (emitted_w + opt_to_seq(
                                    sw,
                                )));
                            }
                        },
                    }
                    proof {
                        let after = spec_relocate_list(
                            region_views(self.regions@),
                            mstart,
                            self.start,
                            dynamic@,
                            elf@.rela_plt.skip(j as int + 1),
                            true,
                        );
                        assert(spec_relocate_list(cur_rs, mstart, self.start, dynamic@, rest, true)
                            == spec_rl_continue(opt_to_seq(sw), after)) by {
                            match after {
                                Err(_) => {},
                                Ok((rs3, ws)) => {
                                    assert(opt_to_seq(sw) + ws =~= opt_to_seq(sw) + ws);
                                },
                            }
                        };
                        lemma_rl_continue_assoc(emitted_w, opt_to_seq(sw), after);
                        emitted_w = emitted_w + opt_to_seq(sw);
                    }
                },
            }
            count = count + 1;
            j += 1;
        }
        proof {
            assert(elf@.rela_plt.skip(np as int) =~= Seq::<RelaV>::empty());
            assert(emitted_w + Seq::<Seq<char>>::empty() =~= emitted_w);
        }
        Ok(count)
    }
}

/// The whole linking pipeline on parsed modules: place the PT_LOAD
/// segments of the four modules in load order, gather their dynamic
/// symbols, then apply each module's relocations in the same order. The
/// result is the final region contents and the warnings of tolerated
/// unresolved references, or an error wherever a stage rejects its
/// input.
pub open spec fn spec_load_pipeline(start: u64, md: crate::elf_image::ModuleDataV) -> Result<
    (Seq<RegionV>, Seq<Seq<char>>),
    (),
> {
    let info = md.info;
    match spec_load_module(md.rtld.segments, ModuleType::Rtld, info.rtld) {
        None => Err(()),
        Some(r0) => match spec_load_module(md.main.segments, ModuleType::Main, info.main) {
            None => Err(()),
            Some(r1) => match spec_load_module(
                md.subsdk0.segments,
                ModuleType::Subsdk0,
                info.subsdk0,
            ) {
                None => Err(()),
                Some(r2) => match spec_load_module(md.sdk.segments, ModuleType::Sdk, info.sdk) {
                    None => Err(()),
                    Some(r3) => {
                        let rs = r0 + r1 + r2 + r3;
                        match spec_load_syms(
                            Seq::empty(),
                            md.rtld.dyn_symbols,
                            (start + info.rtld.start) as u64,
                        ) {
                            Err(_) => Err(()),
                            Ok((t0, _)) => match spec_load_syms(
                                Seq::empty(),
                                md.main.dyn_symbols,
                                (start + info.main.start) as u64,
                            ) {
                                Err(_) => Err(()),
                                Ok((t1, _)) => match spec_load_syms(
                                    Seq::empty(),
                                    md.subsdk0.dyn_symbols,
                                    (start + info.subsdk0.start) as u64,
                                ) {
                                    Err(_) => Err(()),
                                    Ok((t2, _)) => match spec_load_syms(
                                        Seq::empty(),
                                        md.sdk.dyn_symbols,
                                        (start + info.sdk.start) as u64,
                                    ) {
                                        Err(_) => Err(()),
                                        Ok((t3, _)) => {
                                            let t = TablesV {
                                                rtld: t0,
                                                main: t1,
                                                subsdk0: t2,
                                                sdk: t3,
                                                magic: crate::symbols::spec_magic_table(
                                                    start,
                                                    info.sdk.end,
                                                ),
                                            };
                                            match spec_relocate_module(
                                                rs,
                                                info.rtld.start,
                                                start,
                                                t,
                                                md.rtld.rela_dyn,
                                                md.rtld.rela_plt,
                                            ) {
                                                Err(_) => Err(()),
                                                Ok((rs1, w1)) => match spec_relocate_module(
                                                    rs1,
                                                    info.main.start,
                                                    start,
                                                    t,
                                                    md.main.rela_dyn,
                                                    md.main.rela_plt,
                                                ) {
                                                    Err(_) => Err(()),
                                                    Ok((rs2, w2)) => match spec_relocate_module(
                                                        rs2,
                                                        info.subsdk0.start,
                                                        start,
                                                        t,
                                                        md.subsdk0.rela_dyn,
                                                        md.subsdk0.rela_plt,
                                                    ) {
                                                        Err(_) => Err(()),
                                                        Ok((rs3, w3)) => match spec_relocate_module(
                                                            rs3,
                                                            info.sdk.start,
                                                            start,
                                                            t,
                                                            md.sdk.rela_dyn,
                                                            md.sdk.rela_plt,
                                                        ) {
                                                            Err(_) => Err(()),
                                                            Ok((rs4, w4)) => Ok(
                                                                (rs4, w1 + w2 + w3 + w4),
                                                            ),
                                                        },
                                                    },
                                                },
                                            }
                                        },
                                    },
                                },
                            },
                        }
                    },
                },
            },
        },
    }
}

impl Memory {
    /// Load the four modules into memory and perform relocation and
    /// dynamic linking: the loaded image and the names of unresolved
    /// soft references, or the first fatal error.
    #[verifier::loop_isolation(false)]
    pub fn load(start: u64, module_data: &ModuleData) -> (r: Result<(Memory, Vec<String>), Error>)
        requires
            start & 0xFFFFFF00_000FFFFF == 0,
            module_data.info.wf(),
            module_data.rtld.dyn_symbols@.len() <= u32::MAX,
            module_data.main.dyn_symbols@.len() <= u32::MAX,
            module_data.subsdk0.dyn_symbols@.len() <= u32::MAX,
            module_data.sdk.dyn_symbols@.len() <= u32::MAX,
            module_data.rtld.rela_dyn@.len() + module_data.rtld.rela_plt@.len() <= u32::MAX,
            module_data.main.rela_dyn@.len() + module_data.main.rela_plt@.len() <= u32::MAX,
            module_data.subsdk0.rela_dyn@.len() + module_data.subsdk0.rela_plt@.len() <= u32::MAX,
            module_data.sdk.rela_dyn@.len() + module_data.sdk.rela_plt@.len() <= u32::MAX,
        ensures
            r is Ok <==> spec_load_pipeline(start, module_data@) is Ok,
            r matches Ok(p) ==> {
                let s = spec_load_pipeline(start, module_data@)->Ok_0;
                &&& region_views(p.0.regions@) == s.0
                &&& string_views(p.1@) == s.1
                &&& p.0.wf()
                &&& p.0.start == start
                &&& p.0.info == module_data.info
                &&& p.0.loaded_size == module_data.info.sdk.end
            },
    {
        let info = &module_data.info;
        let mut mem = Memory { info: *info, start, regions: Vec::new(), loaded_size: 0 };
        proof {
            assert(region_views(mem.regions@) =~= Seq::<RegionV>::empty());
        }
        match mem.load_module(ModuleType::Rtld, &module_data.rtld, &info.rtld) {
            Ok(()) => {},
            Err(e) => {
                return Err(e);
            },
        }
        let ghost r0 = spec_load_module(module_data@.rtld.segments, ModuleType::Rtld, info.rtld)
            ->Some_0;
        proof {
            assert(Seq::<RegionV>::empty() + r0 =~= r0);
            assert(region_views(mem.regions@) == r0);
        }
        match mem.load_module(ModuleType::Main, &module_data.main, &info.main) {
            Ok(()) => {},
            Err(e) => {
                return Err(e);
            },
        }
        let ghost r1 = spec_load_module(module_data@.main.segments, ModuleType::Main, info.main)
            ->Some_0;
        match mem.load_module(ModuleType::Subsdk0, &module_data.subsdk0, &info.subsdk0) {
            Ok(()) => {},
            Err(e) => {
                return Err(e);
            },
        }
        let ghost r2 = spec_load_module(
            module_data@.subsdk0.segments,
            ModuleType::Subsdk0,
            info.subsdk0,
        )->Some_0;
        match mem.load_module(ModuleType::Sdk, &module_data.sdk, &info.sdk) {
            Ok(()) => {},
            Err(e) => {
                return Err(e);
            },
        }
        let ghost r3 = spec_load_module(module_data@.sdk.segments, ModuleType::Sdk, info.sdk)
            ->Some_0;
        proof {
            assert(region_views(mem.regions@) == ((r0 + r1) + r2) + r3);
            assert(((r0 + r1) + r2) + r3 =~= r0 + r1 + r2 + r3);
        }
        mem.loaded_size = info.sdk.end;
        proof {
            let b = start;
            assert(b < 0x100_0000_0000) by (bit_vector)
                requires
                    b & 0xFFFFFF00_000FFFFFu64 == 0,
            ;
        }
        let mut dynamic = DynamicSymbolTables::new(start, mem.get_program_size());
        match module_data.rtld.load_dynamic_symbols(
            ModuleType::Rtld,
            start + info.rtld.start as u64,
            &mut dynamic.rtld,
        ) {
            Ok(_) => {},
            Err(e) => {
                return Err(e);
            },
        }
        match module_data.main.load_dynamic_symbols(
            ModuleType::Main,
            start + info.main.start as u64,
            &mut dynamic.main,
        ) {
            Ok(_) => {},
            Err(e) => {
                return Err(e);
            },
        }
        match module_data.subsdk0.load_dynamic_symbols(
            ModuleType::Subsdk0,
            start + info.subsdk0.start as u64,
            &mut dynamic.subsdk0,
        ) {
            Ok(_) => {},
            Err(e) => {
                return Err(e);
            },
        }
        match module_data.sdk.load_dynamic_symbols(
            ModuleType::Sdk,
            start + info.sdk.start as u64,
            &mut dynamic.sdk,
        ) {
            Ok(_) => {},
            Err(e) => {
                return Err(e);
            },
        }
        let mut warnings: Vec<String> = Vec::new();
        proof {
            assert(string_views(warnings@) =~= Seq::<Seq<char>>::empty());
        }
        match mem.relocate(ModuleType::Rtld, &module_data.rtld, &info.rtld, &dynamic, &mut warnings)
        {
            Ok(_) => {},
            Err(e) => {
                return Err(e);
            },
        }
        let ghost w1 = string_views(warnings@);
        proof {
            assert(Seq::<Seq<char>>::empty() + w1 =~= w1);
        }
        match mem.relocate(ModuleType::Main, &module_data.main, &info.main, &dynamic, &mut warnings)
        {
            Ok(_) => {},
            Err(e) => {
                return Err(e);
            },
        }
        match mem.relocate(
            ModuleType::Subsdk0,
            &module_data.subsdk0,
            &info.subsdk0,
            &dynamic,
            &mut warnings,
        ) {
            Ok(_) => {},
            Err(e) => {
                return Err(e);
            },
        }
        match mem.relocate(ModuleType::Sdk, &module_data.sdk, &info.sdk, &dynamic, &mut warnings) {
            Ok(_) => {},
            Err(e) => {
                return Err(e);
            },
        }
        Ok((mem, warnings))
    }
}

/// One step of a module's relocation: applying the first entry of the
/// remaining `.rela.dyn` table commutes with the rest of the module.
proof fn lemma_step_relocate_module(
    rs: Seq<RegionV>,
    mstart: u32,
    base: u64,
    t: TablesV,
    rela_dyn: Seq<RelaV>,
    rela_plt: Seq<RelaV>,
    rs2: Seq<RegionV>,
    w: Option<Seq<char>>,
)
    requires
        rela_dyn.len() > 0,
        spec_apply_rela(rs, mstart, base, t, rela_dyn[0], false) == Ok::<_, RelaErr>((rs2, w)),
    ensures
        spec_relocate_module(rs, mstart, base, t, rela_dyn, rela_plt) == spec_rl_continue(
            opt_to_seq(w),
            spec_relocate_module(rs2, mstart, base, t, rela_dyn.drop_first(), rela_plt),
        ),
{
    let inner = spec_relocate_list(rs2, mstart, base, t, rela_dyn.drop_first(), false);
    match inner {
        Err(_) => {},
        Ok((rs3, ws)) => {
            match spec_relocate_list(rs3, mstart, base, t, rela_plt, true) {
                Err(_) => {},
                Ok((rs4, wp)) => {
                    assert((opt_to_seq(w) + ws) + wp =~= opt_to_seq(w) + (ws + wp));
                },
            }
        },
    }
}

} // verus!
