//! Parsing of the region filter arguments: hexadecimal numbers and the
//! `([module]:)?HEX-HEX` region grammar.

use vstd::prelude::*;

use vstd::string::StrSliceExecFns;

use crate::error::Error;
use crate::memory::{spec_align_down, spec_align_up};
use crate::module::ModuleType;

verus! {

/// A region of memory to keep in the program image, in module-relative
/// byte offsets. The end is exclusive; both ends are page aligned.
#[derive(Debug, Clone, Copy, PartialEq, Eq, Structural)]
pub struct RegionArg {
    /// The module that the start and end are relative to
    pub module: ModuleType,
    /// The start offset
    pub start: u32,
    /// The end offset
    pub end: u32,
}

/// The numeric value of one hex digit.
pub open spec fn spec_hex_val(c: char) -> Option<int> {
    if '0' <= c <= '9' {
        Some(c as int - '0' as int)
    } else if 'a' <= c <= 'f' {
        Some(c as int - 'a' as int + 10)
    } else if 'A' <= c <= 'F' {
        Some(c as int - 'A' as int + 10)
    } else {
        None
    }
}

/// The value of a hex digit string, most significant digit first, or
/// `None` where a character is no hex digit.
pub open spec fn spec_hex_fold(s: Seq<char>) -> Option<int>
    decreases s.len(),
{
    if s.len() == 0 {
        Some(0)
    } else {
        match spec_hex_fold(s.drop_last()) {
            None => None,
            Some(v) => match spec_hex_val(s.last()) {
                None => None,
                Some(d) => Some(v * 16 + d),
            },
        }
    }
}

/// The string with every leading `0`, `x` and `X` removed.
pub open spec fn spec_trim_0x(s: Seq<char>) -> Seq<char>
    decreases s.len(),
{
    if s.len() > 0 && (s[0] == '0' || s[0] == 'x' || s[0] == 'X') {
        spec_trim_0x(s.drop_first())
    } else {
        s
    }
}

/// What parsing a hex argument yields: the leading `0x` (and any extra
/// zeros or `x`s) is ignored, the empty remainder is zero, and a value
/// over `max` or a stray character is rejected.
pub open spec fn spec_parse_hex(s: Seq<char>, max: int) -> Option<int> {
    match spec_hex_fold(spec_trim_0x(s)) {
        None => None,
        Some(v) => if v <= max {
            Some(v)
        } else {
            None
        },
    }
}

/// Parse a hexadecimal `u32`. Leading `0`, `x` and `X` characters are
/// stripped; an empty remainder parses as zero.
#[verifier::loop_isolation(false)]
pub fn parse_u32(arg: &str) -> (r: Result<u32, Error>)
    ensures
        r matches Ok(v) ==> spec_parse_hex(arg@, u32::MAX as int) == Some(v as int),
        r is Err <==> spec_parse_hex(arg@, u32::MAX as int) is None,
        r matches Err(e) ==> e is InvalidRegionArgument,
{
    let n = arg.unicode_len();
    let mut i: usize = 0;
    proof {
        assert(arg@.skip(0) =~= arg@);
    }
    while i < n && (arg.get_char(i) == '0' || arg.get_char(i) == 'x' || arg.get_char(i) == 'X')
        invariant
            i <= n,
            n == arg@.len(),
            spec_trim_0x(arg@) == spec_trim_0x(arg@.skip(i as int)),
        decreases n - i,
    {
        proof {
            assert(arg@.skip(i as int)[0] == arg@[i as int]);
            assert(arg@.skip(i as int).drop_first() =~= arg@.skip(i as int + 1));
        }
        i += 1;
    }
    proof {
        if i < n {
            assert(arg@.skip(i as int)[0] == arg@[i as int]);
        }
        assert(spec_trim_0x(arg@.skip(i as int)) == arg@.skip(i as int));
    }
    let ghost digits = arg@.skip(i as int);
    let start = i;
    proof {
        assert(digits.take(0) =~= Seq::<char>::empty());
    }
    let mut value: u32 = 0;
    while i < n
        invariant
            start <= i <= n,
            n == arg@.len(),
            digits == arg@.skip(start as int),
            spec_hex_fold(digits.take(i - start)) == Some(value as int),
        decreases n - i,
    {
        let c = arg.get_char(i);
        let d: u32 = if '0' <= c && c <= '9' {
            (c as u32) - ('0' as u32)
        } else if 'a' <= c && c <= 'f' {
            (c as u32) - ('a' as u32) + 10
        } else if 'A' <= c && c <= 'F' {
            (c as u32) - ('A' as u32) + 10
        } else {
            proof {
                assert(digits.take(i - start + 1).last() == c);
                assert(spec_hex_val(c) is None);
                lemma_hex_fold_extend_none(digits, i - start + 1);
            }
            return Err(Error::InvalidRegionArgument("invalid hex digit".to_owned()));
        };
        proof {
            assert(spec_hex_val(c) == Some(d as int));
            assert(digits.take(i - start + 1).drop_last() =~= digits.take(i - start));
            assert(digits.take(i - start + 1).last() == c);
        }
        if value > (u32::MAX - d) / 16 {
            proof {
                let v = value as int;
                let m = u32::MAX - d;
                assert(v * 16 > m) by (nonlinear_arith)
                    requires
                        v > m / 16,
                        m >= 0,
                        v >= 0,
                ;
                lemma_hex_fold_overflow(digits, i - start + 1, u32::MAX as int);
            }
            return Err(Error::InvalidRegionArgument("hex value out of range".to_owned()));
        }
        proof {
            let v = value as int;
            let m = (u32::MAX - d) as int;
            assert(v * 16 <= m) by (nonlinear_arith)
                requires
                    v <= m / 16,
                    m >= 0,
                    v >= 0,
            ;
        }
        value = value * 16 + d;
        i += 1;
    }
    proof {
        assert(digits.take(n - start) =~= digits);
    }
    Ok(value)
}

/// A fold that steps onto a non-digit yields nothing, for the whole
/// string too.
proof fn lemma_hex_fold_extend_none(s: Seq<char>, k: int)
    requires
        0 < k <= s.len(),
        spec_hex_val(s.take(k).last()) is None || spec_hex_fold(s.take(k).drop_last()) is None,
    ensures
        spec_hex_fold(s) is None,
    decreases s.len() - k,
{
    if k == s.len() {
        assert(s.take(k) =~= s);
    } else {
        assert(s.take(k + 1).drop_last() =~= s.take(k));
        lemma_hex_fold_extend_none(s, k + 1);
    }
}

/// A fold that has exceeded `max` can only grow: the whole string's
/// value, if any, exceeds `max` too.
proof fn lemma_hex_fold_overflow(s: Seq<char>, k: int, max: int)
    requires
        0 <= k <= s.len(),
        max >= 0,
        spec_hex_fold(s.take(k)) matches Some(v) && v > max || spec_hex_fold(s.take(k)) is None,
    ensures
        spec_hex_fold(s) matches Some(v) ==> v > max,
    decreases s.len() - k,
{
    if k == s.len() {
        assert(s.take(k) =~= s);
    } else {
        assert(s.take(k + 1).drop_last() =~= s.take(k));
        match spec_hex_fold(s.take(k)) {
            None => {},
            Some(v) => {
                match spec_hex_val(s.take(k + 1).last()) {
                    None => {},
                    Some(d) => {
                        assert(v * 16 + d > max) by (nonlinear_arith)
                            requires
                                v > max,
                                max >= 0,
                                d >= 0,
                        ;
                    },
                }
            },
        }
        lemma_hex_fold_overflow(s, k + 1, max);
    }
}

/// Parse a hexadecimal `u64`. Leading `0`, `x` and `X` characters are
/// stripped; an empty remainder parses as zero.
#[verifier::loop_isolation(false)]
pub fn parse_u64(arg: &str) -> (r: Result<u64, Error>)
    ensures
        r matches Ok(v) ==> spec_parse_hex(arg@, u64::MAX as int) == Some(v as int),
        r is Err <==> spec_parse_hex(arg@, u64::MAX as int) is None,
        r matches Err(e) ==> e is InvalidRegionArgument,
{
    let n = arg.unicode_len();
    let mut i: usize = 0;
    proof {
        assert(arg@.skip(0) =~= arg@);
    }
    while i < n && (arg.get_char(i) == '0' || arg.get_char(i) == 'x' || arg.get_char(i) == 'X')
        invariant
            i <= n,
            n == arg@.len(),
            spec_trim_0x(arg@) == spec_trim_0x(arg@.skip(i as int)),
        decreases n - i,
    {
        proof {
            assert(arg@.skip(i as int)[0] == arg@[i as int]);
            assert(arg@.skip(i as int).drop_first() =~= arg@.skip(i as int + 1));
        }
        i += 1;
    }
    proof {
        if i < n {
            assert(arg@.skip(i as int)[0] == arg@[i as int]);
        }
        assert(spec_trim_0x(arg@.skip(i as int)) == arg@.skip(i as int));
    }
    let ghost digits = arg@.skip(i as int);
    let start = i;
    proof {
        assert(digits.take(0) =~= Seq::<char>::empty());
    }
    let mut value: u64 = 0;
    while i < n
        invariant
            start <= i <= n,
            n == arg@.len(),
            digits == arg@.skip(start as int),
            spec_hex_fold(digits.take(i - start)) == Some(value as int),
        decreases n - i,
    {
        let c = arg.get_char(i);
        let d: u64 = if '0' <= c && c <= '9' {
            (c as u64) - ('0' as u64)
        } else if 'a' <= c && c <= 'f' {
            (c as u64) - ('a' as u64) + 10
        } else if 'A' <= c && c <= 'F' {
            (c as u64) - ('A' as u64) + 10
        } else {
            proof {
                assert(digits.take(i - start + 1).last() == c);
                assert(spec_hex_val(c) is None);
                lemma_hex_fold_extend_none(digits, i - start + 1);
            }
            return Err(Error::InvalidRegionArgument("invalid hex digit".to_owned()));
        };
        proof {
            assert(spec_hex_val(c) == Some(d as int));
            assert(digits.take(i - start + 1).drop_last() =~= digits.take(i - start));
            assert(digits.take(i - start + 1).last() == c);
        }
        if value > (u64::MAX - d) / 16 {
            proof {
                let v = value as int;
                let m = u64::MAX - d;
                assert(v * 16 > m) by (nonlinear_arith)
                    requires
                        v > m / 16,
                        m >= 0,
                        v >= 0,
                ;
                lemma_hex_fold_overflow(digits, i - start + 1, u64::MAX as int);
            }
            return Err(Error::InvalidRegionArgument("hex value out of range".to_owned()));
        }
        proof {
            let v = value as int;
            let m = (u64::MAX - d) as int;
            assert(v * 16 <= m) by (nonlinear_arith)
                requires
                    v <= m / 16,
                    m >= 0,
                    v >= 0,
            ;
        }
        value = value * 16 + d;
        i += 1;
    }
    proof {
        assert(digits.take(n - start) =~= digits);
    }
    Ok(value)
}

/// An ASCII whitespace character, as trimmed from filter tokens.
pub open spec fn spec_is_ws(c: char) -> bool {
    c == ' ' || c == '\t' || c == '\n' || c == '\r'
}

/// The string with leading whitespace removed.
pub open spec fn spec_trim_start(s: Seq<char>) -> Seq<char>
    decreases s.len(),
{
    if s.len() > 0 && spec_is_ws(s[0]) {
        spec_trim_start(s.drop_first())
    } else {
        s
    }
}

/// The string with trailing whitespace removed.
pub open spec fn spec_trim_end(s: Seq<char>) -> Seq<char>
    decreases s.len(),
{
    if s.len() > 0 && spec_is_ws(s.last()) {
        spec_trim_end(s.drop_last())
    } else {
        s
    }
}

/// The string with whitespace removed from both ends.
pub open spec fn spec_trim(s: Seq<char>) -> Seq<char> {
    spec_trim_end(spec_trim_start(s))
}

/// Index of the first occurrence of the two-character separator `ab`.
pub open spec fn spec_find2(s: Seq<char>, a: char, b: char) -> Option<int>
    decreases s.len(),
{
    if s.len() < 2 {
        None
    } else if s[0] == a && s[1] == b {
        Some(0)
    } else {
        match spec_find2(s.drop_first(), a, b) {
            None => None,
            Some(k) => Some(k + 1),
        }
    }
}

/// Index of the first occurrence of `c`.
pub open spec fn spec_find1(s: Seq<char>, c: char) -> Option<int>
    decreases s.len(),
{
    if s.len() == 0 {
        None
    } else if s[0] == c {
        Some(0)
    } else {
        match spec_find1(s.drop_first(), c) {
            None => None,
            Some(k) => Some(k + 1),
        }
    }
}

/// `c` matches `d` ignoring ASCII case, where `d` is already lower case.
pub open spec fn spec_lower_eq(c: char, d: char) -> bool {
    c == d || ('A' <= c <= 'Z' && c as int + 32 == d as int)
}

/// The token equals the lower-case alias, ignoring ASCII case.
pub open spec fn spec_eq_lower(s: Seq<char>, t: Seq<char>) -> bool {
    s.len() == t.len() && forall|i: int| 0 <= i < s.len() ==> spec_lower_eq(#[trigger] s[i], t[i])
}

/// The token with a literal `.nss` suffix removed.
pub open spec fn spec_strip_nss(s: Seq<char>) -> Seq<char> {
    if s.len() >= 4 && s.subrange(s.len() - 4, s.len() as int) == ".nss"@ {
        s.take(s.len() - 4)
    } else {
        s
    }
}

/// The module kind a filter token names, after trimming an optional
/// `.nss` suffix and folding ASCII case.
pub open spec fn spec_module_of(tok: Seq<char>) -> Option<ModuleType> {
    let t = spec_strip_nss(tok);
    if spec_eq_lower(t, "rtld"@) || spec_eq_lower(t, "nnrtld"@) {
        Some(ModuleType::Rtld)
    } else if spec_eq_lower(t, "main"@) || spec_eq_lower(t, "uking"@) || spec_eq_lower(
        t,
        "u-king"@,
    ) {
        Some(ModuleType::Main)
    } else if spec_eq_lower(t, "subsdk0"@) || spec_eq_lower(t, "multimedia"@) {
        Some(ModuleType::Subsdk0)
    } else if spec_eq_lower(t, "sdk"@) || spec_eq_lower(t, "nnsdk"@) {
        Some(ModuleType::Sdk)
    } else {
        None
    }
}

/// What parsing `HEX-HEX` yields: both ends parsed as hex, the start
/// aligned down and the end aligned up to page boundaries, and the
/// start required to lie below the end.
pub open spec fn spec_parse_range(t: Seq<char>) -> Option<(u32, u32)> {
    match spec_find1(t, '-') {
        None => None,
        Some(k) => {
            let s1 = spec_trim(t.take(k));
            let s2 = spec_trim(t.skip(k + 1));
            match spec_parse_hex(s1, u32::MAX as int) {
                None => None,
                Some(v1) => match spec_parse_hex(s2, u32::MAX as int) {
                    None => None,
                    Some(v2) => {
                        let start = spec_align_down(v1);
                        if v2 % 0x1000 != 0 && v2 > 0xFFFF_F000 {
                            None
                        } else {
                            let end = spec_align_up(v2);
                            if start >= end {
                                None
                            } else {
                                Some((start as u32, end as u32))
                            }
                        }
                    },
                },
            }
        },
    }
}

/// What parsing a full region filter argument yields: an optional
/// bracketed module token, then the page-aligned range.
pub open spec fn spec_parse_region(s: Seq<char>) -> Option<RegionArg> {
    if s.len() > 0 && s[0] == '[' {
        let rest = spec_trim_start(s.drop_first());
        match spec_find2(rest, ']', ':') {
            None => None,
            Some(k) => {
                let module_str = spec_trim(rest.take(k));
                let tail = rest.skip(k + 2);
                match spec_module_of(module_str) {
                    None => None,
                    Some(m) => match spec_parse_range(tail) {
                        None => None,
                        Some((a, b)) => Some(RegionArg { module: m, start: a, end: b }),
                    },
                }
            },
        }
    } else {
        match spec_parse_range(s) {
            None => None,
            Some((a, b)) => Some(RegionArg { module: ModuleType::Rtld, start: a, end: b }),
        }
    }
}

/// Remove leading whitespace.
#[verifier::loop_isolation(false)]
fn trim_start(s: &str) -> (r: &str)
    ensures
        r@ == spec_trim_start(s@),
{
    let n = s.unicode_len();
    let mut i: usize = 0;
    proof {
        assert(s@.skip(0) =~= s@);
    }
    while i < n && (s.get_char(i) == ' ' || s.get_char(i) == '\t' || s.get_char(i) == '\n'
        || s.get_char(i) == '\r')
        invariant
            i <= n,
            n == s@.len(),
            spec_trim_start(s@) == spec_trim_start(s@.skip(i as int)),
        decreases n - i,
    {
        proof {
            assert(s@.skip(i as int)[0] == s@[i as int]);
            assert(s@.skip(i as int).drop_first() =~= s@.skip(i as int + 1));
        }
        i += 1;
    }
    proof {
        if i < n {
            assert(s@.skip(i as int)[0] == s@[i as int]);
        }
        assert(spec_trim_start(s@.skip(i as int)) == s@.skip(i as int));
        assert(s@.subrange(i as int, n as int) =~= s@.skip(i as int));
    }
    s.substring_char(i, n)
}

/// Remove trailing whitespace.
#[verifier::loop_isolation(false)]
fn trim_end(s: &str) -> (r: &str)
    ensures
        r@ == spec_trim_end(s@),
{
    let n = s.unicode_len();
    let mut b: usize = n;
    proof {
        assert(s@.take(n as int) =~= s@);
    }
    while b > 0 && (s.get_char(b - 1) == ' ' || s.get_char(b - 1) == '\t' || s.get_char(b - 1)
        == '\n' || s.get_char(b - 1) == '\r')
        invariant
            b <= n,
            n == s@.len(),
            spec_trim_end(s@) == spec_trim_end(s@.take(b as int)),
        decreases b,
    {
        proof {
            assert(s@.take(b as int).last() == s@[b as int - 1]);
            assert(s@.take(b as int).drop_last() =~= s@.take(b as int - 1));
        }
        b -= 1;
    }
    proof {
        if b > 0 {
            assert(s@.take(b as int).last() == s@[b as int - 1]);
        }
        assert(spec_trim_end(s@.take(b as int)) == s@.take(b as int));
        assert(s@.subrange(0, b as int) =~= s@.take(b as int));
    }
    s.substring_char(0, b)
}

/// Remove whitespace from both ends.
fn trim(s: &str) -> (r: &str)
    ensures
        r@ == spec_trim(s@),
{
    trim_end(trim_start(s))
}

/// Index of the first occurrence of the pair `ab`, if any.
#[verifier::loop_isolation(false)]
fn find_pair(s: &str, a: char, b: char) -> (r: Option<usize>)
    ensures
        match r {
            Some(k) => spec_find2(s@, a, b) == Some(k as int) && k + 1 < s@.len(),
            None => spec_find2(s@, a, b) is None,
        },
{
    let n = s.unicode_len();
    if n < 2 {
        return None;
    }
    let mut i: usize = 0;
    proof {
        assert(s@.skip(0) =~= s@);
    }
    while i < n - 1
        invariant
            i <= n,
            n == s@.len(),
            ({
                match spec_find2(s@.skip(i as int), a, b) {
                    Some(k) => spec_find2(s@, a, b) == Some(k + i),
                    None => spec_find2(s@, a, b) is None,
                }
            }),
        decreases n - i,
    {
        proof {
            assert(s@.skip(i as int)[0] == s@[i as int]);
            assert(s@.skip(i as int)[1] == s@[i as int + 1]);
            assert(s@.skip(i as int).drop_first() =~= s@.skip(i as int + 1));
        }
        if s.get_char(i) == a && s.get_char(i + 1) == b {
            return Some(i);
        }
        i += 1;
    }
    proof {
        assert(s@.skip(i as int).len() < 2);
    }
    None
}

/// Index of the first occurrence of `c`, if any.
#[verifier::loop_isolation(false)]
fn find_char(s: &str, c: char) -> (r: Option<usize>)
    ensures
        match r {
            Some(k) => spec_find1(s@, c) == Some(k as int) && k < s@.len(),
            None => spec_find1(s@, c) is None,
        },
{
    let n = s.unicode_len();
    let mut i: usize = 0;
    proof {
        assert(s@.skip(0) =~= s@);
    }
    while i < n
        invariant
            i <= n,
            n == s@.len(),
            ({
                match spec_find1(s@.skip(i as int), c) {
                    Some(k) => spec_find1(s@, c) == Some(k + i),
                    None => spec_find1(s@, c) is None,
                }
            }),
        decreases n - i,
    {
        proof {
            assert(s@.skip(i as int)[0] == s@[i as int]);
            assert(s@.skip(i as int).drop_first() =~= s@.skip(i as int + 1));
        }
        if s.get_char(i) == c {
            return Some(i);
        }
        i += 1;
    }
    None
}

/// The token equals the lower-case alias, ignoring ASCII case.
#[verifier::loop_isolation(false)]
fn eq_lower(s: &str, t: &str) -> (r: bool)
    ensures
        r == spec_eq_lower(s@, t@),
{
    let n = s.unicode_len();
    if n != t.unicode_len() {
        return false;
    }
    let mut i: usize = 0;
    while i < n
        invariant
            i <= n,
            n == s@.len() == t@.len(),
            forall|j: int| 0 <= j < i ==> spec_lower_eq(#[trigger] s@[j], t@[j]),
        decreases n - i,
    {
        let c = s.get_char(i);
        let d = t.get_char(i);
        let m = c == d || ('A' <= c && c <= 'Z' && (c as u32) + 32 == (d as u32));
        if !m {
            proof {
                assert(!spec_lower_eq(s@[i as int], t@[i as int]));
            }
            return false;
        }
        i += 1;
    }
    true
}

/// The module kind a filter token names.
fn module_of(token: &str) -> (r: Option<ModuleType>)
    ensures
        r == spec_module_of(token@),
{
    let n = token.unicode_len();
    let stripped: &str = if n >= 4 && token.get_char(n - 4) == '.' && token.get_char(n - 3) == 'n'
        && token.get_char(n - 2) == 's' && token.get_char(n - 1) == 's' {
        proof {
            reveal_strlit(".nss");
            assert(token@.subrange(n - 4, n as int) =~= ".nss"@);
        }
        token.substring_char(0, n - 4)
    } else {
        proof {
            reveal_strlit(".nss");
            if token@.len() >= 4 && token@.subrange(n - 4, n as int) == ".nss"@ {
                let sub = token@.subrange(n - 4, n as int);
                assert(sub[0] == token@[n - 4] && sub[1] == token@[n - 3] && sub[2] == token@[n
                    - 2] && sub[3] == token@[n - 1]);
                assert(sub[0] == '.' && sub[1] == 'n' && sub[2] == 's' && sub[3] == 's');
            }
        }
        token
    };
    proof {
        assert(stripped@ == spec_strip_nss(token@));
    }
    if eq_lower(stripped, "rtld") || eq_lower(stripped, "nnrtld") {
        Some(ModuleType::Rtld)
    } else if eq_lower(stripped, "main") || eq_lower(stripped, "uking") || eq_lower(
        stripped,
        "u-king",
    ) {
        Some(ModuleType::Main)
    } else if eq_lower(stripped, "subsdk0") || eq_lower(stripped, "multimedia") {
        Some(ModuleType::Subsdk0)
    } else if eq_lower(stripped, "sdk") || eq_lower(stripped, "nnsdk") {
        Some(ModuleType::Sdk)
    } else {
        None
    }
}

/// Parse the `HEX-HEX` range half of a filter argument.
fn parse_range(t: &str) -> (r: Result<(u32, u32), Error>)
    ensures
        r matches Ok(v) ==> spec_parse_range(t@) == Some(v),
        r is Err <==> spec_parse_range(t@) is None,
        r matches Err(e) ==> e is InvalidRegionArgument,
{
    let n = t.unicode_len();
    let k = match find_char(t, '-') {
        Some(k) => k,
        None => {
            return Err(
                Error::InvalidRegionArgument("missing end address in region".to_owned()),
            );
        },
    };
    let first = t.substring_char(0, k);
    let second = t.substring_char(k + 1, n);
    proof {
        assert(first@ =~= t@.take(k as int));
        assert(second@ =~= t@.skip(k as int + 1));
    }
    let s1 = trim(first);
    let s2 = trim(second);
    let v1 = match parse_u32(s1) {
        Ok(v) => v,
        Err(e) => {
            return Err(e);
        },
    };
    let v2 = match parse_u32(s2) {
        Ok(v) => v,
        Err(e) => {
            return Err(e);
        },
    };
    let start = crate::memory::align_down(v1);
    if v2 % crate::PAGE_SIZE != 0 && v2 > 0xFFFF_F000 {
        return Err(Error::InvalidRegionArgument("region end out of range".to_owned()));
    }
    proof {
        let x = v2 as int;
        if x % 0x1000 == 0 {
            assert(x <= 0xFFFF_F000) by (nonlinear_arith)
                requires
                    x % 0x1000 == 0,
                    0 <= x <= 0xFFFF_FFFF,
            ;
        }
    }
    let end = crate::memory::align_up(v2);
    if start >= end {
        return Err(
            Error::InvalidRegionArgument("region start must lie below its end".to_owned()),
        );
    }
    Ok((start, end))
}

/// Parse one region filter argument: `([module]:)?HEX-HEX`. The module
/// token may carry a `.nss` suffix and any ASCII case; an absent module
/// means `rtld`. The start is aligned down and the end up to page
/// boundaries, and the start must lie below the end.
pub fn parse_region(arg: &str) -> (r: Result<RegionArg, Error>)
    ensures
        r matches Ok(ra) ==> spec_parse_region(arg@) == Some(ra),
        r is Err <==> spec_parse_region(arg@) is None,
        r matches Err(e) ==> e is InvalidRegionArgument,
{
    let n = arg.unicode_len();
    if n > 0 && arg.get_char(0) == '[' {
        let after = arg.substring_char(1, n);
        proof {
            assert(after@ =~= arg@.drop_first());
        }
        let rest = trim_start(after);
        let rn = rest.unicode_len();
        let k = match find_pair(rest, ']', ':') {
            Some(k) => k,
            None => {
                return Err(
                    Error::InvalidRegionArgument(
                        "missing address range after module".to_owned(),
                    ),
                );
            },
        };
        let module_part = rest.substring_char(0, k);
        let tail = rest.substring_char(k + 2, rn);
        proof {
            assert(module_part@ =~= rest@.take(k as int));
            assert(tail@ =~= rest@.skip(k as int + 2));
        }
        let module_str = trim(module_part);
        let m = match module_of(module_str) {
            Some(m) => m,
            None => {
                return Err(Error::InvalidRegionArgument("invalid module name".to_owned()));
            },
        };
        match parse_range(tail) {
            Ok((a, b)) => Ok(RegionArg { module: m, start: a, end: b }),
            Err(e) => Err(e),
        }
    } else {
        match parse_range(arg) {
            Ok((a, b)) => Ok(RegionArg { module: ModuleType::Rtld, start: a, end: b }),
            Err(e) => Err(e),
        }
    }
}

} // verus!
