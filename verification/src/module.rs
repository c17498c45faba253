//! The four modules of the executable bundle and their expected load
//! layout, selected by the version fingerprint embedded in the `sdk`
//! module.

use vstd::prelude::*;

use crate::error::Error;
use crate::search::{find_first, spec_contains};
use vstd::string::StringSliceAdditionalSpecFns;
use crate::PAGE_SIZE;

verus! {

/// One of the four statically linked modules that form the program, in
/// their canonical load order.
#[derive(Debug, Clone, Copy, PartialEq, Eq, Structural)]
pub enum ModuleType {
    /// the dynamic loader stub, placed at the program start
    Rtld,
    /// main module aka uking
    Main,
    /// subsdk0 aka multimedia
    Subsdk0,
    /// sdk aka nnSdk
    Sdk,
}

impl ModuleType {
    /// The module's name, as printed in reports and parsed on the
    /// command line.
    pub fn name(&self) -> (r: &'static str)
        ensures
            r@ == self.spec_name(),
    {
        match self {
            ModuleType::Rtld => "rtld",
            ModuleType::Main => "main",
            ModuleType::Subsdk0 => "subsdk0",
            ModuleType::Sdk => "sdk",
        }
    }

    /// The module's canonical name.
    pub open spec fn spec_name(self) -> Seq<char> {
        match self {
            ModuleType::Rtld => "rtld"@,
            ModuleType::Main => "main"@,
            ModuleType::Subsdk0 => "subsdk0"@,
            ModuleType::Sdk => "sdk"@,
        }
    }
}

/// Expected load layout of one module, relative to the program start.
/// All three offsets are page multiples.
#[derive(Debug, Clone, Copy, PartialEq, Eq, Structural)]
pub struct ModuleInfo {
    /// load offset of the module (page aligned)
    pub start: u32,
    /// end offset of the module's `.text` section (page aligned); checked
    /// after the RX segment is loaded
    pub text_end: u32,
    /// end offset of the module (page aligned)
    pub end: u32,
}

impl ModuleInfo {
    /// The offsets are ordered and page aligned.
    pub open spec fn wf(self) -> bool {
        &&& self.start % (PAGE_SIZE as u32) == 0
        &&& self.text_end % (PAGE_SIZE as u32) == 0
        &&& self.end % (PAGE_SIZE as u32) == 0
        &&& self.start <= self.text_end <= self.end
    }
}

/// Expected layout of all four modules for one build of the game.
#[derive(Debug, Clone, Copy, PartialEq, Eq, Structural)]
pub struct Modules {
    /// whether this layout belongs to the 1.6.0 build
    pub is_1_6_0: bool,
    pub rtld: ModuleInfo,
    pub main: ModuleInfo,
    pub subsdk0: ModuleInfo,
    pub sdk: ModuleInfo,
}

/// The version string embedded in the 1.5.0 build's sdk module.
pub open spec fn version_needle_150() -> Seq<char> {
    "sdk_version: 4.4.0"@
}

/// The version string embedded in the 1.6.0 build's sdk module.
pub open spec fn version_needle_160() -> Seq<char> {
    "sdk_version: 7.3.2"@
}

impl Modules {
    /// The four modules are laid out adjacently in load order, starting
    /// at the program start.
    pub open spec fn wf(self) -> bool {
        &&& self.rtld.wf()
        &&& self.main.wf()
        &&& self.subsdk0.wf()
        &&& self.sdk.wf()
        &&& self.rtld.start == 0
        &&& self.rtld.end == self.main.start
        &&& self.main.end == self.subsdk0.start
        &&& self.subsdk0.end == self.sdk.start
    }

    /// The expected `ModuleInfo` of the given module kind.
    pub open spec fn spec_info_of(self, module: ModuleType) -> ModuleInfo {
        match module {
            ModuleType::Rtld => self.rtld,
            ModuleType::Main => self.main,
            ModuleType::Subsdk0 => self.subsdk0,
            ModuleType::Sdk => self.sdk,
        }
    }

    /// Look up the expected layout of one module kind.
    pub fn info_of(&self, module: ModuleType) -> (r: &ModuleInfo)
        ensures
            *r == self.spec_info_of(module),
    {
        match module {
            ModuleType::Rtld => &self.rtld,
            ModuleType::Main => &self.main,
            ModuleType::Subsdk0 => &self.subsdk0,
            ModuleType::Sdk => &self.sdk,
        }
    }

    /// The canonical layout of the 1.5.0 build.
    pub fn new_1_5_0() -> (r: Self)
        ensures
            r == Self::spec_1_5_0(),
    {
        Self {
            is_1_6_0: false,
            rtld: ModuleInfo { start: 0x0, text_end: 0x2000, end: 0x4000 },
            main: ModuleInfo { start: 0x4000, text_end: 0x1807000, end: 0x26af000 },
            subsdk0: ModuleInfo { start: 0x26af000, text_end: 0x29ba000, end: 0x2d95000 },
            sdk: ModuleInfo { start: 0x2d95000, text_end: 0x31a4000, end: 0x381e000 },
        }
    }

    /// The canonical layout of the 1.6.0 build.
    pub fn new_1_6_0() -> (r: Self)
        ensures
            r == Self::spec_1_6_0(),
    {
        Self {
            is_1_6_0: true,
            rtld: ModuleInfo { start: 0x0, text_end: 0x2000, end: 0x4000 },
            main: ModuleInfo { start: 0x4000, text_end: 0x212e000, end: 0x2d6a000 },
            subsdk0: ModuleInfo { start: 0x2d6a000, text_end: 0x30de000, end: 0x3487000 },
            sdk: ModuleInfo { start: 0x3487000, text_end: 0x39b5000, end: 0x415b000 },
        }
    }

    /// The layout of the 1.5.0 build, as a value.
    pub open spec fn spec_1_5_0() -> Modules {
        Modules {
            is_1_6_0: false,
            rtld: ModuleInfo { start: 0x0, text_end: 0x2000, end: 0x4000 },
            main: ModuleInfo { start: 0x4000, text_end: 0x1807000, end: 0x26af000 },
            subsdk0: ModuleInfo { start: 0x26af000, text_end: 0x29ba000, end: 0x2d95000 },
            sdk: ModuleInfo { start: 0x2d95000, text_end: 0x31a4000, end: 0x381e000 },
        }
    }

    /// The layout of the 1.6.0 build, as a value.
    pub open spec fn spec_1_6_0() -> Modules {
        Modules {
            is_1_6_0: true,
            rtld: ModuleInfo { start: 0x0, text_end: 0x2000, end: 0x4000 },
            main: ModuleInfo { start: 0x4000, text_end: 0x212e000, end: 0x2d6a000 },
            subsdk0: ModuleInfo { start: 0x2d6a000, text_end: 0x30de000, end: 0x3487000 },
            sdk: ModuleInfo { start: 0x3487000, text_end: 0x39b5000, end: 0x415b000 },
        }
    }

    /// Both canonical layouts are well formed.
    pub proof fn lemma_canonical_layouts_wf()
        ensures
            Self::spec_1_5_0().wf(),
            Self::spec_1_6_0().wf(),
    {
        let m5 = Self::spec_1_5_0();
        let m6 = Self::spec_1_6_0();
        assert(m5.rtld.start == 0 && m5.rtld.text_end == 0x2000 && m5.rtld.end == 0x4000);
        assert(m5.rtld.wf() && m5.main.wf() && m5.subsdk0.wf() && m5.sdk.wf());
        assert(m6.rtld.wf() && m6.main.wf() && m6.subsdk0.wf() && m6.sdk.wf());
    }

    /// Detect which build produced the bundle, from the raw bytes of the
    /// `sdk` module: exactly one of the two known version strings must be
    /// embedded in it.
    ///
    /// File digests are unreliable because distribution methods differ,
    /// so the embedded version string is used as the fingerprint.
    pub fn detect(sdk_data: &[u8]) -> (r: Result<Self, Error>)
        ensures
            ({
                let has_150 = spec_contains(
                    sdk_data@,
                    version_needle_150().map_values(|c: char| c as u8),
                );
                let has_160 = spec_contains(
                    sdk_data@,
                    version_needle_160().map_values(|c: char| c as u8),
                );
                match r {
                    Ok(m) => {
                        &&& has_150 != has_160
                        &&& m == (if has_150 {
                            Self::spec_1_5_0()
                        } else {
                            Self::spec_1_6_0()
                        })
                    },
                    Err(e) => (has_150 == has_160) && e == Error::UnrecognizedVersion,
                }
            }),
    {
        let needle_150: &str = "sdk_version: 4.4.0";
        let needle_160: &str = "sdk_version: 7.3.2";
        proof {
            reveal_strlit("sdk_version: 4.4.0");
            reveal_strlit("sdk_version: 7.3.2");
        }
        let has_150 = find_first(sdk_data, needle_150.as_bytes()).is_some();
        let has_160 = find_first(sdk_data, needle_160.as_bytes()).is_some();
        proof {
            assert(vstd::utf8::is_ascii_chars(needle_150@));
            assert(vstd::utf8::is_ascii_chars(needle_160@));
            vstd::utf8::is_ascii_chars_encode_utf8(needle_150@);
            vstd::utf8::is_ascii_chars_encode_utf8(needle_160@);
            assert(needle_150.spec_bytes() =~= version_needle_150().map_values(
                |c: char| c as u8,
            ));
            assert(needle_160.spec_bytes() =~= version_needle_160().map_values(
                |c: char| c as u8,
            ));
        }
        match (has_150, has_160) {
            (true, false) => Ok(Self::new_1_5_0()),
            (false, true) => Ok(Self::new_1_6_0()),
            _ => Err(Error::UnrecognizedVersion),
        }
    }

    /// Map an offset relative to a module's start to an offset relative
    /// to the program start, clamped to the module's end.
    pub fn to_program_offset(&self, module: ModuleType, offset: u32) -> (r: u32)
        requires
            self.wf(),
        ensures
            r == self.spec_to_program_offset(module, offset),
    {
        let info = self.info_of(module);
        if offset < info.end - info.start {
            info.start + offset
        } else {
            info.end
        }
    }

    /// The program-relative offset: `start + offset`, clamped to `end`.
    pub open spec fn spec_to_program_offset(self, module: ModuleType, offset: u32) -> u32 {
        let info = self.spec_info_of(module);
        if info.start + offset < info.end {
            (info.start + offset) as u32
        } else {
            info.end
        }
    }
}

} // verus!
