//! Length-prefixed binary serialization of the program image, and the
//! inverse parser. Packing then unpacking reproduces the image bit for
//! bit; the parser validates every length prefix against the remaining
//! input and every image invariant before accepting.

use vstd::prelude::*;

use vstd::bytes::{spec_u32_from_le_bytes, spec_u32_to_le_bytes, spec_u64_from_le_bytes,
    spec_u64_to_le_bytes};

use crate::env::Env;
use crate::error::Error;
use crate::program::{DataAttachmentV, DataId, Program, ProgramRegion, ProgramRegionV, ProgramV,
    DataAttachment};
use crate::singleton::{CreateByteCode, Singleton, SingletonInfo, SingletonInfoV};

verus! {

/// One creation byte-code step: a tag byte, then a u32 payload where the
/// step carries one.
pub open spec fn spec_pack_bytecode(b: CreateByteCode) -> Seq<u8> {
    match b {
        CreateByteCode::Enter(x) => seq![0x01u8] + spec_u32_to_le_bytes(x),
        CreateByteCode::ExecuteUntil(x) => seq![0x02u8] + spec_u32_to_le_bytes(x),
        CreateByteCode::Allocate => seq![0x03u8],
        CreateByteCode::Jump(x) => seq![0x04u8] + spec_u32_to_le_bytes(x),
        CreateByteCode::ExecuteToReturn => seq![0x05u8],
        CreateByteCode::Return => seq![0x06u8],
    }
}

/// A byte-code list, in order, without a count (the count stands in the
/// enclosing singleton).
pub open spec fn spec_pack_bytecodes(s: Seq<CreateByteCode>) -> Seq<u8>
    decreases s.len(),
{
    if s.len() == 0 {
        Seq::empty()
    } else {
        spec_pack_bytecode(s[0]) + spec_pack_bytecodes(s.drop_first())
    }
}

/// One singleton: id tag, allocation start and size, then the prefixed
/// byte code.
pub open spec fn spec_pack_singleton(s: SingletonInfoV) -> Seq<u8> {
    seq![s.id.spec_tag()] + spec_u32_to_le_bytes(s.rel_start) + spec_u32_to_le_bytes(s.size)
        + spec_u32_to_le_bytes(s.bytecode.len() as u32) + spec_pack_bytecodes(s.bytecode)
}

/// A singleton list, in order.
pub open spec fn spec_pack_singletons(s: Seq<SingletonInfoV>) -> Seq<u8>
    decreases s.len(),
{
    if s.len() == 0 {
        Seq::empty()
    } else {
        spec_pack_singleton(s[0]) + spec_pack_singletons(s.drop_first())
    }
}

/// One region: start, permissions, then its prefixed bytes.
pub open spec fn spec_pack_region(r: ProgramRegionV) -> Seq<u8> {
    spec_u32_to_le_bytes(r.rel_start) + spec_u32_to_le_bytes(r.permissions)
        + spec_u32_to_le_bytes(r.data.len() as u32) + r.data
}

/// A region list, in order.
pub open spec fn spec_pack_regions(s: Seq<ProgramRegionV>) -> Seq<u8>
    decreases s.len(),
{
    if s.len() == 0 {
        Seq::empty()
    } else {
        spec_pack_region(s[0]) + spec_pack_regions(s.drop_first())
    }
}

/// One attachment: id tag, then its prefixed bytes.
pub open spec fn spec_pack_attachment(a: DataAttachmentV) -> Seq<u8> {
    seq![a.id.spec_tag()] + spec_u32_to_le_bytes(a.data.len() as u32) + a.data
}

/// The attachments, in order, running to the end of the container.
pub open spec fn spec_pack_attachments(s: Seq<DataAttachmentV>) -> Seq<u8>
    decreases s.len(),
{
    if s.len() == 0 {
        Seq::empty()
    } else {
        spec_pack_attachment(s[0]) + spec_pack_attachments(s.drop_first())
    }
}

/// The whole container: environment tag, prefixed singletons, base
/// address, image size, prefixed regions, then the attachments.
pub open spec fn spec_pack(p: ProgramV) -> Seq<u8> {
    seq![p.env.spec_tag()] + spec_u32_to_le_bytes(p.singletons.len() as u32)
        + spec_pack_singletons(p.singletons) + spec_u64_to_le_bytes(p.program_start)
        + spec_u32_to_le_bytes(p.program_size) + spec_u32_to_le_bytes(
        p.program_regions.len() as u32,
    ) + spec_pack_regions(p.program_regions) + spec_pack_attachments(p.attachments)
}

/// Take one byte off the front.
pub open spec fn spec_take_u8(s: Seq<u8>) -> Option<(u8, Seq<u8>)> {
    if s.len() >= 1 {
        Some((s[0], s.drop_first()))
    } else {
        None
    }
}

/// Take a little-endian u32 off the front.
pub open spec fn spec_take_u32(s: Seq<u8>) -> Option<(u32, Seq<u8>)> {
    if s.len() >= 4 {
        Some((spec_u32_from_le_bytes(s.subrange(0, 4)), s.skip(4)))
    } else {
        None
    }
}

/// Take a little-endian u64 off the front.
pub open spec fn spec_take_u64(s: Seq<u8>) -> Option<(u64, Seq<u8>)> {
    if s.len() >= 8 {
        Some((spec_u64_from_le_bytes(s.subrange(0, 8)), s.skip(8)))
    } else {
        None
    }
}

/// Take `n` raw bytes off the front.
pub open spec fn spec_take_bytes(s: Seq<u8>, n: int) -> Option<(Seq<u8>, Seq<u8>)> {
    if 0 <= n <= s.len() {
        Some((s.subrange(0, n), s.skip(n)))
    } else {
        None
    }
}

/// Parse one byte-code step.
pub open spec fn spec_parse_bytecode(s: Seq<u8>) -> Option<(CreateByteCode, Seq<u8>)> {
    match spec_take_u8(s) {
        None => None,
        Some((t, r)) => if t == 0x01 {
            match spec_take_u32(r) {
                None => None,
                Some((x, r2)) => Some((CreateByteCode::Enter(x), r2)),
            }
        } else if t == 0x02 {
            match spec_take_u32(r) {
                None => None,
                Some((x, r2)) => Some((CreateByteCode::ExecuteUntil(x), r2)),
            }
        } else if t == 0x03 {
            Some((CreateByteCode::Allocate, r))
        } else if t == 0x04 {
            match spec_take_u32(r) {
                None => None,
                Some((x, r2)) => Some((CreateByteCode::Jump(x), r2)),
            }
        } else if t == 0x05 {
            Some((CreateByteCode::ExecuteToReturn, r))
        } else if t == 0x06 {
            Some((CreateByteCode::Return, r))
        } else {
            None
        },
    }
}

/// Parse exactly `n` byte-code steps.
pub open spec fn spec_parse_bytecodes(n: nat, s: Seq<u8>) -> Option<
    (Seq<CreateByteCode>, Seq<u8>),
>
    decreases n,
{
    if n == 0 {
        Some((Seq::empty(), s))
    } else {
        match spec_parse_bytecode(s) {
            None => None,
            Some((b, r)) => match spec_parse_bytecodes((n - 1) as nat, r) {
                None => None,
                Some((bs, r2)) => Some((seq![b] + bs, r2)),
            },
        }
    }
}

/// Parse one singleton.
pub open spec fn spec_parse_singleton(s: Seq<u8>) -> Option<(SingletonInfoV, Seq<u8>)> {
    match spec_take_u8(s) {
        None => None,
        Some((t, r)) => match Singleton::spec_from_tag(t) {
            None => None,
            Some(id) => match spec_take_u32(r) {
                None => None,
                Some((rel_start, r2)) => match spec_take_u32(r2) {
                    None => None,
                    Some((size, r3)) => match spec_take_u32(r3) {
                        None => None,
                        Some((n, r4)) => match spec_parse_bytecodes(n as nat, r4) {
                            None => None,
                            Some((bc, r5)) => Some(
                                (SingletonInfoV { id, rel_start, size, bytecode: bc }, r5),
                            ),
                        },
                    },
                },
            },
        },
    }
}

/// Parse exactly `n` singletons.
pub open spec fn spec_parse_singletons(n: nat, s: Seq<u8>) -> Option<
    (Seq<SingletonInfoV>, Seq<u8>),
>
    decreases n,
{
    if n == 0 {
        Some((Seq::empty(), s))
    } else {
        match spec_parse_singleton(s) {
            None => None,
            Some((v, r)) => match spec_parse_singletons((n - 1) as nat, r) {
                None => None,
                Some((vs, r2)) => Some((seq![v] + vs, r2)),
            },
        }
    }
}

/// Parse one region.
pub open spec fn spec_parse_region(s: Seq<u8>) -> Option<(ProgramRegionV, Seq<u8>)> {
    match spec_take_u32(s) {
        None => None,
        Some((rel_start, r)) => match spec_take_u32(r) {
            None => None,
            Some((permissions, r2)) => match spec_take_u32(r2) {
                None => None,
                Some((n, r3)) => match spec_take_bytes(r3, n as int) {
                    None => None,
                    Some((data, r4)) => Some((ProgramRegionV { rel_start, permissions, data }, r4)),
                },
            },
        },
    }
}

/// Parse exactly `n` regions.
pub open spec fn spec_parse_regions(n: nat, s: Seq<u8>) -> Option<(Seq<ProgramRegionV>, Seq<u8>)>
    decreases n,
{
    if n == 0 {
        Some((Seq::empty(), s))
    } else {
        match spec_parse_region(s) {
            None => None,
            Some((v, r)) => match spec_parse_regions((n - 1) as nat, r) {
                None => None,
                Some((vs, r2)) => Some((seq![v] + vs, r2)),
            },
        }
    }
}

/// Parse one attachment.
pub open spec fn spec_parse_attachment(s: Seq<u8>) -> Option<(DataAttachmentV, Seq<u8>)> {
    match spec_take_u8(s) {
        None => None,
        Some((t, r)) => match DataId::spec_from_tag(t) {
            None => None,
            Some(id) => match spec_take_u32(r) {
                None => None,
                Some((n, r2)) => match spec_take_bytes(r2, n as int) {
                    None => None,
                    Some((data, r3)) => Some((DataAttachmentV { id, data }, r3)),
                },
            },
        },
    }
}

/// Parse attachments until the input runs out.
pub open spec fn spec_parse_attachments(s: Seq<u8>) -> Option<Seq<DataAttachmentV>>
    decreases s.len(),
{
    if s.len() == 0 {
        Some(Seq::empty())
    } else {
        match spec_parse_attachment(s) {
            None => None,
            Some((a, r)) => if r.len() < s.len() {
                match spec_parse_attachments(r) {
                    None => None,
                    Some(rest) => Some(seq![a] + rest),
                }
            } else {
                None
            },
        }
    }
}

/// The inverse of `spec_pack`: the parsed image, provided every length
/// prefix fits and all image invariants hold of the result.
pub open spec fn spec_unpack(s: Seq<u8>) -> Option<ProgramV> {
    match spec_take_u8(s) {
        None => None,
        Some((t, r)) => match Env::spec_from_tag(t) {
            None => None,
            Some(env) => match spec_take_u32(r) {
                None => None,
                Some((n_sing, r2)) => match spec_parse_singletons(n_sing as nat, r2) {
                    None => None,
                    Some((singletons, r3)) => match spec_take_u64(r3) {
                        None => None,
                        Some((program_start, r4)) => match spec_take_u32(r4) {
                            None => None,
                            Some((program_size, r5)) => match spec_take_u32(r5) {
                                None => None,
                                Some((n_reg, r6)) => match spec_parse_regions(n_reg as nat, r6) {
                                    None => None,
                                    Some((program_regions, r7)) => match spec_parse_attachments(
                                        r7,
                                    ) {
                                        None => None,
                                        Some(attachments) => {
                                            let p = ProgramV {
                                                env,
                                                singletons,
                                                program_start,
                                                program_size,
                                                program_regions,
                                                attachments,
                                            };
                                            if p.wf() {
                                                Some(p)
                                            } else {
                                                None
                                            }
                                        },
                                    },
                                },
                            },
                        },
                    },
                },
            },
        },
    }
}

/// Taking a byte off a packed byte gives it back.
proof fn lemma_take_u8_inv(b: u8, rest: Seq<u8>)
    ensures
        spec_take_u8(seq![b] + rest) == Some((b, rest)),
{
    let s = seq![b] + rest;
    assert(s[0] == b);
    assert(s.drop_first() =~= rest);
}

/// Taking a u32 off its own encoding gives it back.
proof fn lemma_take_u32_inv(x: u32, rest: Seq<u8>)
    ensures
        spec_take_u32(spec_u32_to_le_bytes(x) + rest) == Some((x, rest)),
{
    vstd::bytes::lemma_auto_spec_u32_to_from_le_bytes();
    let s = spec_u32_to_le_bytes(x) + rest;
    assert(s.subrange(0, 4) =~= spec_u32_to_le_bytes(x));
    assert(s.skip(4) =~= rest);
}

/// Taking a u64 off its own encoding gives it back.
proof fn lemma_take_u64_inv(x: u64, rest: Seq<u8>)
    ensures
        spec_take_u64(spec_u64_to_le_bytes(x) + rest) == Some((x, rest)),
{
    vstd::bytes::lemma_auto_spec_u64_to_from_le_bytes();
    let s = spec_u64_to_le_bytes(x) + rest;
    assert(s.subrange(0, 8) =~= spec_u64_to_le_bytes(x));
    assert(s.skip(8) =~= rest);
}

/// Taking a blob's own length off it gives it back.
proof fn lemma_take_bytes_inv(data: Seq<u8>, rest: Seq<u8>)
    ensures
        spec_take_bytes(data + rest, data.len() as int) == Some((data, rest)),
{
    let s = data + rest;
    assert(s.subrange(0, data.len() as int) =~= data);
    assert(s.skip(data.len() as int) =~= rest);
}

/// Parsing a packed byte-code step gives it back.
proof fn lemma_parse_bytecode_inv(b: CreateByteCode, rest: Seq<u8>)
    ensures
        spec_parse_bytecode(spec_pack_bytecode(b) + rest) == Some((b, rest)),
{
    match b {
        CreateByteCode::Enter(x) => {
            assert(spec_pack_bytecode(b) + rest =~= seq![0x01u8] + (spec_u32_to_le_bytes(x)
                + rest));
            lemma_take_u8_inv(0x01, spec_u32_to_le_bytes(x) + rest);
            lemma_take_u32_inv(x, rest);
        },
        CreateByteCode::ExecuteUntil(x) => {
            assert(spec_pack_bytecode(b) + rest =~= seq![0x02u8] + (spec_u32_to_le_bytes(x)
                + rest));
            lemma_take_u8_inv(0x02, spec_u32_to_le_bytes(x) + rest);
            lemma_take_u32_inv(x, rest);
        },
        CreateByteCode::Allocate => {
            lemma_take_u8_inv(0x03, rest);
        },
        CreateByteCode::Jump(x) => {
            assert(spec_pack_bytecode(b) + rest =~= seq![0x04u8] + (spec_u32_to_le_bytes(x)
                + rest));
            lemma_take_u8_inv(0x04, spec_u32_to_le_bytes(x) + rest);
            lemma_take_u32_inv(x, rest);
        },
        CreateByteCode::ExecuteToReturn => {
            lemma_take_u8_inv(0x05, rest);
        },
        CreateByteCode::Return => {
            lemma_take_u8_inv(0x06, rest);
        },
    }
}

/// Parsing a packed byte-code list gives it back.
proof fn lemma_parse_bytecodes_inv(s: Seq<CreateByteCode>, rest: Seq<u8>)
    ensures
        spec_parse_bytecodes(s.len(), spec_pack_bytecodes(s) + rest) == Some((s, rest)),
    decreases s.len(),
{
    if s.len() == 0 {
        assert(spec_pack_bytecodes(s) + rest =~= rest);
        assert(Seq::<CreateByteCode>::empty() =~= s);
    } else {
        assert(spec_pack_bytecodes(s) + rest =~= spec_pack_bytecode(s[0]) + (spec_pack_bytecodes(
            s.drop_first(),
        ) + rest));
        lemma_parse_bytecode_inv(s[0], spec_pack_bytecodes(s.drop_first()) + rest);
        lemma_parse_bytecodes_inv(s.drop_first(), rest);
        assert(seq![s[0]] + s.drop_first() =~= s);
    }
}

/// Parsing a packed singleton gives it back.
proof fn lemma_parse_singleton_inv(s: SingletonInfoV, rest: Seq<u8>)
    requires
        s.bytecode.len() <= u32::MAX,
    ensures
        spec_parse_singleton(spec_pack_singleton(s) + rest) == Some((s, rest)),
{
    let n32 = s.bytecode.len() as u32;
    let tail1 = spec_u32_to_le_bytes(s.rel_start) + (spec_u32_to_le_bytes(s.size) + (
    spec_u32_to_le_bytes(n32) + (spec_pack_bytecodes(s.bytecode) + rest)));
    assert(spec_pack_singleton(s) + rest =~= seq![s.id.spec_tag()] + tail1);
    lemma_take_u8_inv(s.id.spec_tag(), tail1);
    assert(Singleton::spec_from_tag(s.id.spec_tag()) == Some(s.id));
    lemma_take_u32_inv(
        s.rel_start,
        spec_u32_to_le_bytes(s.size) + (spec_u32_to_le_bytes(n32) + (spec_pack_bytecodes(
            s.bytecode,
        ) + rest)),
    );
    lemma_take_u32_inv(
        s.size,
        spec_u32_to_le_bytes(n32) + (spec_pack_bytecodes(s.bytecode) + rest),
    );
    lemma_take_u32_inv(n32, spec_pack_bytecodes(s.bytecode) + rest);
    lemma_parse_bytecodes_inv(s.bytecode, rest);
    assert(n32 as nat == s.bytecode.len());
}

/// Parsing a packed singleton list gives it back.
proof fn lemma_parse_singletons_inv(s: Seq<SingletonInfoV>, rest: Seq<u8>)
    requires
        forall|i: int| 0 <= i < s.len() ==> (#[trigger] s[i]).bytecode.len() <= u32::MAX,
    ensures
        spec_parse_singletons(s.len(), spec_pack_singletons(s) + rest) == Some((s, rest)),
    decreases s.len(),
{
    if s.len() == 0 {
        assert(spec_pack_singletons(s) + rest =~= rest);
        assert(Seq::<SingletonInfoV>::empty() =~= s);
    } else {
        assert(spec_pack_singletons(s) + rest =~= spec_pack_singleton(s[0]) + (
        spec_pack_singletons(s.drop_first()) + rest));
        lemma_parse_singleton_inv(s[0], spec_pack_singletons(s.drop_first()) + rest);
        lemma_parse_singletons_inv(s.drop_first(), rest);
        assert(seq![s[0]] + s.drop_first() =~= s);
    }
}

/// Parsing a packed region gives it back.
proof fn lemma_parse_region_inv(r: ProgramRegionV, rest: Seq<u8>)
    requires
        r.data.len() <= u32::MAX,
    ensures
        spec_parse_region(spec_pack_region(r) + rest) == Some((r, rest)),
{
    let n32 = r.data.len() as u32;
    assert(spec_pack_region(r) + rest =~= spec_u32_to_le_bytes(r.rel_start) + (
    spec_u32_to_le_bytes(r.permissions) + (spec_u32_to_le_bytes(n32) + (r.data + rest))));
    lemma_take_u32_inv(
        r.rel_start,
        spec_u32_to_le_bytes(r.permissions) + (spec_u32_to_le_bytes(n32) + (r.data + rest)),
    );
    lemma_take_u32_inv(r.permissions, spec_u32_to_le_bytes(n32) + (r.data + rest));
    lemma_take_u32_inv(n32, r.data + rest);
    lemma_take_bytes_inv(r.data, rest);
}

/// Parsing a packed region list gives it back.
proof fn lemma_parse_regions_inv(s: Seq<ProgramRegionV>, rest: Seq<u8>)
    requires
        forall|i: int| 0 <= i < s.len() ==> (#[trigger] s[i]).data.len() <= u32::MAX,
    ensures
        spec_parse_regions(s.len(), spec_pack_regions(s) + rest) == Some((s, rest)),
    decreases s.len(),
{
    if s.len() == 0 {
        assert(spec_pack_regions(s) + rest =~= rest);
        assert(Seq::<ProgramRegionV>::empty() =~= s);
    } else {
        assert(spec_pack_regions(s) + rest =~= spec_pack_region(s[0]) + (spec_pack_regions(
            s.drop_first(),
        ) + rest));
        lemma_parse_region_inv(s[0], spec_pack_regions(s.drop_first()) + rest);
        lemma_parse_regions_inv(s.drop_first(), rest);
        assert(seq![s[0]] + s.drop_first() =~= s);
    }
}

/// Parsing a packed attachment gives it back.
proof fn lemma_parse_attachment_inv(a: DataAttachmentV, rest: Seq<u8>)
    requires
        a.data.len() <= u32::MAX,
    ensures
        spec_parse_attachment(spec_pack_attachment(a) + rest) == Some((a, rest)),
        spec_pack_attachment(a).len() >= 5,
{
    let n32 = a.data.len() as u32;
    vstd::bytes::lemma_auto_spec_u32_to_from_le_bytes();
    assert(spec_pack_attachment(a) + rest =~= seq![a.id.spec_tag()] + (spec_u32_to_le_bytes(n32)
        + (a.data + rest)));
    lemma_take_u8_inv(a.id.spec_tag(), spec_u32_to_le_bytes(n32) + (a.data + rest));
    assert(DataId::spec_from_tag(a.id.spec_tag()) == Some(a.id));
    lemma_take_u32_inv(n32, a.data + rest);
    lemma_take_bytes_inv(a.data, rest);
}

/// Parsing a packed attachment list gives it back.
proof fn lemma_parse_attachments_inv(s: Seq<DataAttachmentV>)
    requires
        forall|i: int| 0 <= i < s.len() ==> (#[trigger] s[i]).data.len() <= u32::MAX,
    ensures
        spec_parse_attachments(spec_pack_attachments(s)) == Some(s),
    decreases s.len(),
{
    if s.len() == 0 {
        assert(spec_pack_attachments(s) =~= Seq::<u8>::empty());
        assert(Seq::<DataAttachmentV>::empty() =~= s);
    } else {
        let packed = spec_pack_attachments(s);
        let rest = spec_pack_attachments(s.drop_first());
        assert(packed =~= spec_pack_attachment(s[0]) + rest);
        lemma_parse_attachment_inv(s[0], rest);
        lemma_parse_attachments_inv(s.drop_first());
        assert(packed.len() >= 5 + rest.len());
        assert(seq![s[0]] + s.drop_first() =~= s);
    }
}

/// Packing a well-formed program and parsing the bytes back gives the
/// program, bit for bit in every field: the container format round
/// trips.
/// Concatenation of byte sequences associates.
proof fn lemma_add_assoc(a: Seq<u8>, b: Seq<u8>, c: Seq<u8>)
    ensures
        (a + b) + c == a + (b + c),
{
    assert((a + b) + c =~= a + (b + c));
}

#[verifier::rlimit(80)]
pub proof fn lemma_pack_roundtrip(p: ProgramV)
    requires
        p.wf(),
    ensures
        spec_unpack(spec_pack(p)) == Some(p),
{
    let ns = p.singletons.len() as u32;
    let nr = p.program_regions.len() as u32;
    let pa = seq![p.env.spec_tag()];
    let pb = spec_u32_to_le_bytes(ns);
    let pc = spec_pack_singletons(p.singletons);
    let pd = spec_u64_to_le_bytes(p.program_start);
    let pe = spec_u32_to_le_bytes(p.program_size);
    let pf = spec_u32_to_le_bytes(nr);
    let pg = spec_pack_regions(p.program_regions);
    let ph = spec_pack_attachments(p.attachments);
    let t_reg = pg + ph;
    let t_nreg = pf + t_reg;
    let t_size = pe + t_nreg;
    let t_start = pd + t_size;
    let t_sing = pc + t_start;
    let t_nsing = pb + t_sing;
    assert(spec_pack(p) == ((((((pa + pb) + pc) + pd) + pe) + pf) + pg) + ph);
    lemma_add_assoc((((((pa + pb) + pc) + pd) + pe) + pf), pg, ph);
    lemma_add_assoc(((((pa + pb) + pc) + pd) + pe), pf, t_reg);
    lemma_add_assoc((((pa + pb) + pc) + pd), pe, t_nreg);
    lemma_add_assoc(((pa + pb) + pc), pd, t_size);
    lemma_add_assoc((pa + pb), pc, t_start);
    lemma_add_assoc(pa, pb, t_sing);
    assert(spec_pack(p) == pa + t_nsing);
    lemma_take_u8_inv(p.env.spec_tag(), t_nsing);
    assert(spec_take_u8(spec_pack(p)) == Some((p.env.spec_tag(), t_nsing)));
    assert(Env::spec_from_tag(p.env.spec_tag()) == Some(p.env));
    lemma_take_u32_inv(ns, t_sing);
    lemma_parse_singletons_inv(p.singletons, t_start);
    assert(ns as nat == p.singletons.len());
    assert(spec_parse_singletons(ns as nat, t_sing) == Some((p.singletons, t_start)));
    lemma_take_u64_inv(p.program_start, t_size);
    lemma_take_u32_inv(p.program_size, t_nreg);
    lemma_take_u32_inv(nr, t_reg);
    lemma_parse_regions_inv(p.program_regions, ph);
    assert(nr as nat == p.program_regions.len());
    assert(spec_parse_regions(nr as nat, t_reg) == Some((p.program_regions, ph)));
    lemma_parse_attachments_inv(p.attachments);
}

/// Packing one more step extends the packed list at its end.
proof fn lemma_pack_bytecodes_snoc(s: Seq<CreateByteCode>, b: CreateByteCode)
    ensures
        spec_pack_bytecodes(s.push(b)) == spec_pack_bytecodes(s) + spec_pack_bytecode(b),
    decreases s.len(),
{
    assert(s.push(b).len() == s.len() + 1);
    assert(spec_pack_bytecodes(s.push(b)) == spec_pack_bytecode(s.push(b)[0])
        + spec_pack_bytecodes(s.push(b).drop_first()));
    if s.len() == 0 {
        assert(s.push(b)[0] == b);
        assert(s.push(b).drop_first() =~= Seq::<CreateByteCode>::empty());
        assert(spec_pack_bytecodes(s.push(b).drop_first()) == Seq::<u8>::empty());
        assert(spec_pack_bytecode(b) + Seq::<u8>::empty() =~= spec_pack_bytecode(b));
        assert(Seq::<u8>::empty() + spec_pack_bytecode(b) =~= spec_pack_bytecode(b));
    } else {
        assert(s.push(b)[0] == s[0]);
        assert(s.push(b).drop_first() =~= s.drop_first().push(b));
        lemma_pack_bytecodes_snoc(s.drop_first(), b);
        assert(spec_pack_bytecodes(s) == spec_pack_bytecode(s[0]) + spec_pack_bytecodes(
            s.drop_first(),
        ));
        assert(spec_pack_bytecode(s[0]) + (spec_pack_bytecodes(s.drop_first())
            + spec_pack_bytecode(b)) =~= (spec_pack_bytecode(s[0]) + spec_pack_bytecodes(
            s.drop_first(),
        )) + spec_pack_bytecode(b));
    }
}

/// Packing one more singleton extends the packed list at its end.
proof fn lemma_pack_singletons_snoc(s: Seq<SingletonInfoV>, v: SingletonInfoV)
    ensures
        spec_pack_singletons(s.push(v)) == spec_pack_singletons(s) + spec_pack_singleton(v),
    decreases s.len(),
{
    assert(s.push(v).len() == s.len() + 1);
    assert(spec_pack_singletons(s.push(v)) == spec_pack_singleton(s.push(v)[0]) + spec_pack_singletons(s.push(v).drop_first()));
    if s.len() == 0 {
        assert(s.push(v)[0] == v);
        assert(s.push(v).drop_first() =~= Seq::<SingletonInfoV>::empty());
        assert(spec_pack_singletons(s.push(v).drop_first()) == Seq::<u8>::empty());
        assert(spec_pack_singleton(v) + Seq::<u8>::empty() =~= spec_pack_singleton(v));
        assert(Seq::<u8>::empty() + spec_pack_singleton(v) =~= spec_pack_singleton(v));
    } else {
        assert(s.push(v)[0] == s[0]);
        assert(s.push(v).drop_first() =~= s.drop_first().push(v));
        lemma_pack_singletons_snoc(s.drop_first(), v);
        assert(spec_pack_singletons(s) == spec_pack_singleton(s[0]) + spec_pack_singletons(s.drop_first()));
        assert(spec_pack_singleton(s[0]) + (spec_pack_singletons(s.drop_first())
            + spec_pack_singleton(v)) =~= (spec_pack_singleton(s[0]) + spec_pack_singletons(
            s.drop_first(),
        )) + spec_pack_singleton(v));
    }
}

/// Packing one more region extends the packed list at its end.
proof fn lemma_pack_regions_snoc(s: Seq<ProgramRegionV>, v: ProgramRegionV)
    ensures
        spec_pack_regions(s.push(v)) == spec_pack_regions(s) + spec_pack_region(v),
    decreases s.len(),
{
    assert(s.push(v).len() == s.len() + 1);
    assert(spec_pack_regions(s.push(v)) == spec_pack_region(s.push(v)[0]) + spec_pack_regions(s.push(v).drop_first()));
    if s.len() == 0 {
        assert(s.push(v)[0] == v);
        assert(s.push(v).drop_first() =~= Seq::<ProgramRegionV>::empty());
        assert(spec_pack_regions(s.push(v).drop_first()) == Seq::<u8>::empty());
        assert(spec_pack_region(v) + Seq::<u8>::empty() =~= spec_pack_region(v));
        assert(Seq::<u8>::empty() + spec_pack_region(v) =~= spec_pack_region(v));
    } else {
        assert(s.push(v)[0] == s[0]);
        assert(s.push(v).drop_first() =~= s.drop_first().push(v));
        lemma_pack_regions_snoc(s.drop_first(), v);
        assert(spec_pack_regions(s) == spec_pack_region(s[0]) + spec_pack_regions(s.drop_first()));
        assert(spec_pack_region(s[0]) + (spec_pack_regions(s.drop_first()) + spec_pack_region(v))
            =~= (spec_pack_region(s[0]) + spec_pack_regions(s.drop_first())) + spec_pack_region(
            v,
        ));
    }
}

/// Packing one more attachment extends the packed list at its end.
proof fn lemma_pack_attachments_snoc(s: Seq<DataAttachmentV>, v: DataAttachmentV)
    ensures
        spec_pack_attachments(s.push(v)) == spec_pack_attachments(s) + spec_pack_attachment(v),
    decreases s.len(),
{
    assert(s.push(v).len() == s.len() + 1);
    assert(spec_pack_attachments(s.push(v)) == spec_pack_attachment(s.push(v)[0]) + spec_pack_attachments(s.push(v).drop_first()));
    if s.len() == 0 {
        assert(s.push(v)[0] == v);
        assert(s.push(v).drop_first() =~= Seq::<DataAttachmentV>::empty());
        assert(spec_pack_attachments(s.push(v).drop_first()) == Seq::<u8>::empty());
        assert(spec_pack_attachment(v) + Seq::<u8>::empty() =~= spec_pack_attachment(v));
        assert(Seq::<u8>::empty() + spec_pack_attachment(v) =~= spec_pack_attachment(v));
    } else {
        assert(s.push(v)[0] == s[0]);
        assert(s.push(v).drop_first() =~= s.drop_first().push(v));
        lemma_pack_attachments_snoc(s.drop_first(), v);
        assert(spec_pack_attachments(s) == spec_pack_attachment(s[0]) + spec_pack_attachments(s.drop_first()));
        assert(spec_pack_attachment(s[0]) + (spec_pack_attachments(s.drop_first())
            + spec_pack_attachment(v)) =~= (spec_pack_attachment(s[0]) + spec_pack_attachments(
            s.drop_first(),
        )) + spec_pack_attachment(v));
    }
}

/// Append a slice's bytes to the output.
fn push_bytes(out: &mut Vec<u8>, data: &[u8])
    ensures
        final(out)@ == old(out)@ + data@,
{
    let n = data.len();
    let mut i: usize = 0;
    while i < n
        invariant
            i <= n,
            n == data@.len(),
            out@ == old(out)@ + data@.take(i as int),
        decreases n - i,
    {
        let b = data[i];
        out.push(b);
        proof {
            assert(old(out)@ + data@.take(i as int + 1) =~= (old(out)@ + data@.take(
                i as int,
            )).push(data@[i as int]));
        }
        i += 1;
    }
    proof {
        assert(data@.take(n as int) =~= data@);
    }
}

/// Append a little-endian u32.
fn push_u32(out: &mut Vec<u8>, x: u32)
    ensures
        final(out)@ == old(out)@ + spec_u32_to_le_bytes(x),
{
    let b = vstd::bytes::u32_to_le_bytes(x);
    push_bytes(out, b.as_slice());
}

/// Append a little-endian u64.
fn push_u64(out: &mut Vec<u8>, x: u64)
    ensures
        final(out)@ == old(out)@ + spec_u64_to_le_bytes(x),
{
    let b = vstd::bytes::u64_to_le_bytes(x);
    push_bytes(out, b.as_slice());
}

/// Append the encoding of one byte-code step.
fn pack_bytecode(out: &mut Vec<u8>, b: &CreateByteCode)
    ensures
        final(out)@ == old(out)@ + spec_pack_bytecode(*b),
{
    match b {
        CreateByteCode::Enter(x) => {
            out.push(0x01);
            push_u32(out, *x);
            proof {
                assert(old(out)@ + (seq![0x01u8] + spec_u32_to_le_bytes(*x)) =~= (old(
                    out,
                )@.push(0x01u8)) + spec_u32_to_le_bytes(*x));
            }
        },
        CreateByteCode::ExecuteUntil(x) => {
            out.push(0x02);
            push_u32(out, *x);
            proof {
                assert(old(out)@ + (seq![0x02u8] + spec_u32_to_le_bytes(*x)) =~= (old(
                    out,
                )@.push(0x02u8)) + spec_u32_to_le_bytes(*x));
            }
        },
        CreateByteCode::Allocate => {
            out.push(0x03);
            proof {
                assert(old(out)@ + seq![0x03u8] =~= old(out)@.push(0x03u8));
            }
        },
        CreateByteCode::Jump(x) => {
            out.push(0x04);
            push_u32(out, *x);
            proof {
                assert(old(out)@ + (seq![0x04u8] + spec_u32_to_le_bytes(*x)) =~= (old(
                    out,
                )@.push(0x04u8)) + spec_u32_to_le_bytes(*x));
            }
        },
        CreateByteCode::ExecuteToReturn => {
            out.push(0x05);
            proof {
                assert(old(out)@ + seq![0x05u8] =~= old(out)@.push(0x05u8));
            }
        },
        CreateByteCode::Return => {
            out.push(0x06);
            proof {
                assert(old(out)@ + seq![0x06u8] =~= old(out)@.push(0x06u8));
            }
        },
    }
}

/// Append the encoding of one singleton.
#[verifier::loop_isolation(false)]
fn pack_singleton(out: &mut Vec<u8>, s: &SingletonInfo)
    requires
        s@.bytecode.len() <= u32::MAX,
    ensures
        final(out)@ == old(out)@ + spec_pack_singleton(s@),
{
    out.push(s.id.tag());
    proof {
        assert(out@ =~= old(out)@ + seq![s@.id.spec_tag()]);
    }
    push_u32(out, s.rel_start);
    push_u32(out, s.size);
    push_u32(out, s.create_bytecode.len() as u32);
    let ghost base = out@;
    let n = s.create_bytecode.len();
    let mut i: usize = 0;
    proof {
        assert(s@.bytecode.take(0) =~= Seq::<CreateByteCode>::empty());
        assert(base + Seq::<u8>::empty() =~= base);
    }
    while i < n
        invariant
            i <= n,
            n == s.create_bytecode@.len(),
            out@ == base + spec_pack_bytecodes(s@.bytecode.take(i as int)),
        decreases n - i,
    {
        let b = &s.create_bytecode[i];
        pack_bytecode(out, b);
        proof {
            assert(s@.bytecode.take(i as int + 1) =~= s@.bytecode.take(i as int).push(
                s@.bytecode[i as int],
            ));
            lemma_pack_bytecodes_snoc(s@.bytecode.take(i as int), s@.bytecode[i as int]);
            assert((base + spec_pack_bytecodes(s@.bytecode.take(i as int))) + spec_pack_bytecode(
                s@.bytecode[i as int],
            ) =~= base + (spec_pack_bytecodes(s@.bytecode.take(i as int)) + spec_pack_bytecode(
                s@.bytecode[i as int],
            )));
        }
        i += 1;
    }
    proof {
        assert(s@.bytecode.take(n as int) =~= s@.bytecode);
        assert(old(out)@ + spec_pack_singleton(s@) =~= (((old(out)@ + seq![s@.id.spec_tag()])
            + spec_u32_to_le_bytes(s@.rel_start) + spec_u32_to_le_bytes(s@.size)
            + spec_u32_to_le_bytes(s@.bytecode.len() as u32)) + spec_pack_bytecodes(s@.bytecode)));
    }
}

/// Append the encoding of one region.
fn pack_region(out: &mut Vec<u8>, r: &ProgramRegion)
    requires
        r@.data.len() <= u32::MAX,
    ensures
        final(out)@ == old(out)@ + spec_pack_region(r@),
{
    push_u32(out, r.rel_start);
    push_u32(out, r.permissions);
    push_u32(out, r.data.len() as u32);
    push_bytes(out, r.data.as_slice());
    proof {
        assert(old(out)@ + spec_pack_region(r@) =~= (((old(out)@ + spec_u32_to_le_bytes(
            r@.rel_start,
        )) + spec_u32_to_le_bytes(r@.permissions)) + spec_u32_to_le_bytes(r@.data.len() as u32))
            + r@.data);
    }
}

/// Append the encoding of one attachment.
fn pack_attachment(out: &mut Vec<u8>, a: &DataAttachment)
    requires
        a@.data.len() <= u32::MAX,
    ensures
        final(out)@ == old(out)@ + spec_pack_attachment(a@),
{
    out.push(a.id.tag());
    proof {
        assert(out@ =~= old(out)@ + seq![a@.id.spec_tag()]);
    }
    push_u32(out, a.data.len() as u32);
    push_bytes(out, a.data.as_slice());
    proof {
        assert(old(out)@ + spec_pack_attachment(a@) =~= ((old(out)@ + seq![a@.id.spec_tag()])
            + spec_u32_to_le_bytes(a@.data.len() as u32)) + a@.data);
    }
}

/// Serialize a program image into its length-prefixed container bytes.
#[verifier::loop_isolation(false)]
pub fn pack(p: &Program) -> (r: Vec<u8>)
    requires
        p@.wf(),
    ensures
        r@ == spec_pack(p@),
{
    let mut out: Vec<u8> = Vec::new();
    out.push(p.env.tag());
    proof {
        assert(out@ =~= Seq::<u8>::empty() + seq![p@.env.spec_tag()]);
        assert(Seq::<u8>::empty() + seq![p@.env.spec_tag()] =~= seq![p@.env.spec_tag()]);
    }
    push_u32(&mut out, p.singletons.len() as u32);
    let ghost base_sing = out@;
    let ns = p.singletons.len();
    let mut i: usize = 0;
    proof {
        assert(p@.singletons.take(0) =~= Seq::<SingletonInfoV>::empty());
        assert(base_sing + Seq::<u8>::empty() =~= base_sing);
    }
    while i < ns
        invariant
            i <= ns,
            ns == p.singletons@.len(),
            out@ == base_sing + spec_pack_singletons(p@.singletons.take(i as int)),
        decreases ns - i,
    {
        proof {
            assert(p@.singletons[i as int] == p.singletons@[i as int]@);
            assert(p@.singletons[i as int].bytecode.len() <= u32::MAX);
        }
        pack_singleton(&mut out, &p.singletons[i]);
        proof {
            assert(p@.singletons.take(i as int + 1) =~= p@.singletons.take(i as int).push(
                p@.singletons[i as int],
            ));
            lemma_pack_singletons_snoc(p@.singletons.take(i as int), p@.singletons[i as int]);
            assert((base_sing + spec_pack_singletons(p@.singletons.take(i as int)))
                + spec_pack_singleton(p@.singletons[i as int]) =~= base_sing + (
            spec_pack_singletons(p@.singletons.take(i as int)) + spec_pack_singleton(
                p@.singletons[i as int],
            )));
        }
        i += 1;
    }
    proof {
        assert(p@.singletons.take(ns as int) =~= p@.singletons);
    }
    push_u64(&mut out, p.program_start);
    push_u32(&mut out, p.program_size);
    push_u32(&mut out, p.program_regions.len() as u32);
    let ghost base_reg = out@;
    let nr = p.program_regions.len();
    let mut j: usize = 0;
    proof {
        assert(p@.program_regions.take(0) =~= Seq::<ProgramRegionV>::empty());
        assert(base_reg + Seq::<u8>::empty() =~= base_reg);
    }
    while j < nr
        invariant
            j <= nr,
            nr == p.program_regions@.len(),
            out@ == base_reg + spec_pack_regions(p@.program_regions.take(j as int)),
        decreases nr - j,
    {
        proof {
            assert(p@.program_regions[j as int] == p.program_regions@[j as int]@);
            assert(p@.program_regions[j as int].wf());
        }
        pack_region(&mut out, &p.program_regions[j]);
        proof {
            assert(p@.program_regions.take(j as int + 1) =~= p@.program_regions.take(
                j as int,
            ).push(p@.program_regions[j as int]));
            lemma_pack_regions_snoc(
                p@.program_regions.take(j as int),
                p@.program_regions[j as int],
            );
            assert((base_reg + spec_pack_regions(p@.program_regions.take(j as int)))
                + spec_pack_region(p@.program_regions[j as int]) =~= base_reg + (spec_pack_regions(
                p@.program_regions.take(j as int),
            ) + spec_pack_region(p@.program_regions[j as int])));
        }
        j += 1;
    }
    proof {
        assert(p@.program_regions.take(nr as int) =~= p@.program_regions);
    }
    let ghost base_att = out@;
    let na = p.attachments.len();
    let mut k: usize = 0;
    proof {
        assert(p@.attachments.take(0) =~= Seq::<DataAttachmentV>::empty());
        assert(base_att + Seq::<u8>::empty() =~= base_att);
    }
    while k < na
        invariant
            k <= na,
            na == p.attachments@.len(),
            out@ == base_att + spec_pack_attachments(p@.attachments.take(k as int)),
        decreases na - k,
    {
        proof {
            assert(p@.attachments[k as int] == p.attachments@[k as int]@);
            assert(p@.attachments[k as int].data.len() <= u32::MAX);
        }
        pack_attachment(&mut out, &p.attachments[k]);
        proof {
            assert(p@.attachments.take(k as int + 1) =~= p@.attachments.take(k as int).push(
                p@.attachments[k as int],
            ));
            lemma_pack_attachments_snoc(p@.attachments.take(k as int), p@.attachments[k as int]);
            assert((base_att + spec_pack_attachments(p@.attachments.take(k as int)))
                + spec_pack_attachment(p@.attachments[k as int]) =~= base_att + (
            spec_pack_attachments(p@.attachments.take(k as int)) + spec_pack_attachment(
                p@.attachments[k as int],
            )));
        }
        k += 1;
    }
    proof {
        assert(p@.attachments.take(na as int) =~= p@.attachments);
        assert(out@ =~= spec_pack(p@));
    }
    out
}

/// Read one byte at `pos`.
fn read_u8(bytes: &[u8], pos: usize) -> (r: Option<(u8, usize)>)
    requires
        pos <= bytes@.len(),
    ensures
        match r {
            Some(t) => spec_take_u8(bytes@.skip(pos as int)) == Some((t.0, bytes@.skip(t.1 as int)))
                && pos < t.1 <= bytes@.len(),
            None => spec_take_u8(bytes@.skip(pos as int)) is None,
        },
{
    if pos < bytes.len() {
        let b = bytes[pos];
        proof {
            assert(bytes@.skip(pos as int)[0] == b);
            assert(bytes@.skip(pos as int).drop_first() =~= bytes@.skip(pos as int + 1));
        }
        Some((b, pos + 1))
    } else {
        None
    }
}

/// Read a little-endian u32 at `pos`.
fn read_u32(bytes: &[u8], pos: usize) -> (r: Option<(u32, usize)>)
    requires
        pos <= bytes@.len(),
    ensures
        match r {
            Some(t) => spec_take_u32(bytes@.skip(pos as int)) == Some(
                (t.0, bytes@.skip(t.1 as int)),
            ) && pos < t.1 <= bytes@.len(),
            None => spec_take_u32(bytes@.skip(pos as int)) is None,
        },
{
    if bytes.len() - pos >= 4 {
        let s = vstd::slice::slice_subrange(bytes, pos, pos + 4);
        let x = vstd::bytes::u32_from_le_bytes(s);
        proof {
            assert(s@ =~= bytes@.skip(pos as int).subrange(0, 4));
            assert(bytes@.skip(pos as int).skip(4) =~= bytes@.skip(pos as int + 4));
        }
        Some((x, pos + 4))
    } else {
        None
    }
}

/// Read a little-endian u64 at `pos`.
fn read_u64(bytes: &[u8], pos: usize) -> (r: Option<(u64, usize)>)
    requires
        pos <= bytes@.len(),
    ensures
        match r {
            Some(t) => spec_take_u64(bytes@.skip(pos as int)) == Some(
                (t.0, bytes@.skip(t.1 as int)),
            ) && pos < t.1 <= bytes@.len(),
            None => spec_take_u64(bytes@.skip(pos as int)) is None,
        },
{
    if bytes.len() - pos >= 8 {
        let s = vstd::slice::slice_subrange(bytes, pos, pos + 8);
        let x = vstd::bytes::u64_from_le_bytes(s);
        proof {
            assert(s@ =~= bytes@.skip(pos as int).subrange(0, 8));
            assert(bytes@.skip(pos as int).skip(8) =~= bytes@.skip(pos as int + 8));
        }
        Some((x, pos + 8))
    } else {
        None
    }
}

/// Copy `n` raw bytes out at `pos`.
fn read_vec(bytes: &[u8], pos: usize, n: usize) -> (r: Option<(Vec<u8>, usize)>)
    requires
        pos <= bytes@.len(),
    ensures
        match r {
            Some(t) => spec_take_bytes(bytes@.skip(pos as int), n as int) == Some(
                (t.0@, bytes@.skip(t.1 as int)),
            ) && pos <= t.1 <= bytes@.len() && t.1 == pos + n,
            None => spec_take_bytes(bytes@.skip(pos as int), n as int) is None,
        },
{
    if bytes.len() - pos >= n {
        let s = vstd::slice::slice_subrange(bytes, pos, pos + n);
        let v = vstd::slice::slice_to_vec(s);
        proof {
            assert(s@ =~= bytes@.skip(pos as int).subrange(0, n as int));
            assert(bytes@.skip(pos as int).skip(n as int) =~= bytes@.skip(pos as int + n));
        }
        Some((v, pos + n))
    } else {
        None
    }
}

/// Parse one byte-code step at `pos`.
fn read_bytecode(bytes: &[u8], pos: usize) -> (r: Option<(CreateByteCode, usize)>)
    requires
        pos <= bytes@.len(),
    ensures
        match r {
            Some(t) => spec_parse_bytecode(bytes@.skip(pos as int)) == Some(
                (t.0, bytes@.skip(t.1 as int)),
            ) && pos < t.1 <= bytes@.len(),
            None => spec_parse_bytecode(bytes@.skip(pos as int)) is None,
        },
{
    let (tag, p1) = match read_u8(bytes, pos) {
        Some(t) => t,
        None => {
            return None;
        },
    };
    if tag == 0x01 {
        match read_u32(bytes, p1) {
            Some((x, p2)) => Some((CreateByteCode::Enter(x), p2)),
            None => None,
        }
    } else if tag == 0x02 {
        match read_u32(bytes, p1) {
            Some((x, p2)) => Some((CreateByteCode::ExecuteUntil(x), p2)),
            None => None,
        }
    } else if tag == 0x03 {
        Some((CreateByteCode::Allocate, p1))
    } else if tag == 0x04 {
        match read_u32(bytes, p1) {
            Some((x, p2)) => Some((CreateByteCode::Jump(x), p2)),
            None => None,
        }
    } else if tag == 0x05 {
        Some((CreateByteCode::ExecuteToReturn, p1))
    } else if tag == 0x06 {
        Some((CreateByteCode::Return, p1))
    } else {
        None
    }
}

/// Parse one singleton at `pos`.
#[verifier::loop_isolation(false)]
fn read_singleton(bytes: &[u8], pos: usize) -> (r: Option<(SingletonInfo, usize)>)
    requires
        pos <= bytes@.len(),
    ensures
        match r {
            Some(t) => spec_parse_singleton(bytes@.skip(pos as int)) == Some(
                (t.0@, bytes@.skip(t.1 as int)),
            ) && pos < t.1 <= bytes@.len(),
            None => spec_parse_singleton(bytes@.skip(pos as int)) is None,
        },
{
    let (tag, p1) = match read_u8(bytes, pos) {
        Some(t) => t,
        None => {
            return None;
        },
    };
    let id = match Singleton::from_tag(tag) {
        Some(id) => id,
        None => {
            return None;
        },
    };
    let (rel_start, p2) = match read_u32(bytes, p1) {
        Some(t) => t,
        None => {
            return None;
        },
    };
    let (size, p3) = match read_u32(bytes, p2) {
        Some(t) => t,
        None => {
            return None;
        },
    };
    let (n, p4) = match read_u32(bytes, p3) {
        Some(t) => t,
        None => {
            return None;
        },
    };
    let mut bc: Vec<CreateByteCode> = Vec::new();
    let mut i: u32 = 0;
    let mut cur = p4;
    proof {
        assert(bc@ + Seq::<CreateByteCode>::empty() =~= bc@);
    }
    while i < n
        invariant
            i <= n,
            p4 <= cur <= bytes@.len(),
            bc@.len() == i,
            ({
                let full = spec_parse_bytecodes(n as nat, bytes@.skip(p4 as int));
                match spec_parse_bytecodes((n - i) as nat, bytes@.skip(cur as int)) {
                    Some((v, rest)) => full == Some((bc@ + v, rest)),
                    None => full is None,
                }
            }),
        decreases n - i,
    {
        match read_bytecode(bytes, cur) {
            None => {
                return None;
            },
            Some((b, p5)) => {
                proof {
                    let v_after = spec_parse_bytecodes(
                        (n - i - 1) as nat,
                        bytes@.skip(p5 as int),
                    );
                    match v_after {
                        Some((v, rest)) => {
                            assert(bc@ + (seq![b] + v) =~= (bc@.push(b)) + v);
                        },
                        None => {},
                    }
                }
                bc.push(b);
                cur = p5;
                i = i + 1;
            },
        }
    }
    proof {
        assert(spec_parse_bytecodes(0, bytes@.skip(cur as int)) == Some(
            (Seq::<CreateByteCode>::empty(), bytes@.skip(cur as int)),
        ));
        assert(bc@ + Seq::<CreateByteCode>::empty() =~= bc@);
        assert(spec_parse_bytecodes(n as nat, bytes@.skip(p4 as int)) == Some(
            (bc@, bytes@.skip(cur as int)),
        ));
        assert(spec_parse_singleton(bytes@.skip(pos as int)) == Some(
            (SingletonInfoV { id, rel_start, size, bytecode: bc@ }, bytes@.skip(cur as int)),
        ));
    }
    Some((SingletonInfo { id, rel_start, size, create_bytecode: bc }, cur))
}

/// Parse one region at `pos`.
fn read_region(bytes: &[u8], pos: usize) -> (r: Option<(ProgramRegion, usize)>)
    requires
        pos <= bytes@.len(),
    ensures
        match r {
            Some(t) => spec_parse_region(bytes@.skip(pos as int)) == Some(
                (t.0@, bytes@.skip(t.1 as int)),
            ) && pos < t.1 <= bytes@.len(),
            None => spec_parse_region(bytes@.skip(pos as int)) is None,
        },
{
    let (rel_start, p1) = match read_u32(bytes, pos) {
        Some(t) => t,
        None => {
            return None;
        },
    };
    let (permissions, p2) = match read_u32(bytes, p1) {
        Some(t) => t,
        None => {
            return None;
        },
    };
    let (n, p3) = match read_u32(bytes, p2) {
        Some(t) => t,
        None => {
            return None;
        },
    };
    let (data, p4) = match read_vec(bytes, p3, n as usize) {
        Some(t) => t,
        None => {
            return None;
        },
    };
    Some((ProgramRegion { rel_start, permissions, data }, p4))
}

/// Parse one attachment at `pos`.
fn read_attachment(bytes: &[u8], pos: usize) -> (r: Option<(DataAttachment, usize)>)
    requires
        pos <= bytes@.len(),
    ensures
        match r {
            Some(t) => spec_parse_attachment(bytes@.skip(pos as int)) == Some(
                (t.0@, bytes@.skip(t.1 as int)),
            ) && pos < t.1 <= bytes@.len(),
            None => spec_parse_attachment(bytes@.skip(pos as int)) is None,
        },
{
    let (tag, p1) = match read_u8(bytes, pos) {
        Some(t) => t,
        None => {
            return None;
        },
    };
    let id = match DataId::from_tag(tag) {
        Some(id) => id,
        None => {
            return None;
        },
    };
    let (n, p2) = match read_u32(bytes, p1) {
        Some(t) => t,
        None => {
            return None;
        },
    };
    let (data, p3) = match read_vec(bytes, p2, n as usize) {
        Some(t) => t,
        None => {
            return None;
        },
    };
    Some((DataAttachment { id, data }, p3))
}

/// Parse a packed container back into a program image, validating every
/// length prefix against the remaining input and every image invariant
/// of the result. The exact inverse of `pack`.
#[verifier::loop_isolation(false)]
#[verifier::rlimit(100)]
pub fn unpack(bytes: &[u8]) -> (r: Result<Program, Error>)
    ensures
        r is Ok <==> spec_unpack(bytes@) is Some,
        r matches Ok(p) ==> p@ == spec_unpack(bytes@)->Some_0 && p@.wf(),
        r matches Err(e) ==> e is CorruptImage,
{
    proof {
        assert(bytes@.skip(0) =~= bytes@);
    }
    let (env_tag, p1) = match read_u8(bytes, 0) {
        Some(t) => t,
        None => {
            return Err(Error::CorruptImage("missing environment tag".to_owned()));
        },
    };
    let env = match Env::from_tag(env_tag) {
        Some(env) => env,
        None => {
            return Err(Error::CorruptImage("unknown environment tag".to_owned()));
        },
    };
    let (n_sing, p2) = match read_u32(bytes, p1) {
        Some(t) => t,
        None => {
            return Err(Error::CorruptImage("missing singleton count".to_owned()));
        },
    };
    let mut singletons: Vec<SingletonInfo> = Vec::new();
    let mut i: u32 = 0;
    let mut cur = p2;
    proof {
        assert(crate::program::singleton_views(singletons@) =~= Seq::<SingletonInfoV>::empty());
    }
    while i < n_sing
        invariant
            i <= n_sing,
            cur <= bytes@.len(),
            singletons@.len() == i,
            ({
                let full = spec_parse_singletons(n_sing as nat, bytes@.skip(p2 as int));
                match spec_parse_singletons((n_sing - i) as nat, bytes@.skip(cur as int)) {
                    Some((v, rest)) => full == Some(
                        (crate::program::singleton_views(singletons@) + v, rest),
                    ),
                    None => full is None,
                }
            }),
        decreases n_sing - i,
    {
        match read_singleton(bytes, cur) {
            None => {
                return Err(Error::CorruptImage("truncated singleton".to_owned()));
            },
            Some((s, p3)) => {
                proof {
                    let v_after = spec_parse_singletons(
                        (n_sing - i - 1) as nat,
                        bytes@.skip(p3 as int),
                    );
                    match v_after {
                        Some((v, rest)) => {
                            assert(crate::program::singleton_views(singletons@) + (seq![s@] + v)
                                =~= crate::program::singleton_views(singletons@.push(s)) + v);
                        },
                        None => {},
                    }
                }
                singletons.push(s);
                cur = p3;
                i = i + 1;
            },
        }
    }
    proof {
        assert(spec_parse_singletons(0, bytes@.skip(cur as int)) == Some(
            (Seq::<SingletonInfoV>::empty(), bytes@.skip(cur as int)),
        ));
        assert(crate::program::singleton_views(singletons@) + Seq::<SingletonInfoV>::empty()
            =~= crate::program::singleton_views(singletons@));
    }
    let (program_start, p4) = match read_u64(bytes, cur) {
        Some(t) => t,
        None => {
            return Err(Error::CorruptImage("missing program start".to_owned()));
        },
    };
    let (program_size, p5) = match read_u32(bytes, p4) {
        Some(t) => t,
        None => {
            return Err(Error::CorruptImage("missing program size".to_owned()));
        },
    };
    let (n_reg, p6) = match read_u32(bytes, p5) {
        Some(t) => t,
        None => {
            return Err(Error::CorruptImage("missing region count".to_owned()));
        },
    };
    let mut regions: Vec<ProgramRegion> = Vec::new();
    let mut j: u32 = 0;
    let mut cur2 = p6;
    proof {
        assert(crate::program::program_region_views(regions@) =~= Seq::<ProgramRegionV>::empty());
    }
    while j < n_reg
        invariant
            j <= n_reg,
            cur2 <= bytes@.len(),
            regions@.len() == j,
            ({
                let full = spec_parse_regions(n_reg as nat, bytes@.skip(p6 as int));
                match spec_parse_regions((n_reg - j) as nat, bytes@.skip(cur2 as int)) {
                    Some((v, rest)) => full == Some(
                        (crate::program::program_region_views(regions@) + v, rest),
                    ),
                    None => full is None,
                }
            }),
        decreases n_reg - j,
    {
        match read_region(bytes, cur2) {
            None => {
                return Err(Error::CorruptImage("truncated region".to_owned()));
            },
            Some((g, p7)) => {
                proof {
                    let v_after = spec_parse_regions(
                        (n_reg - j - 1) as nat,
                        bytes@.skip(p7 as int),
                    );
                    match v_after {
                        Some((v, rest)) => {
                            assert(crate::program::program_region_views(regions@) + (seq![g@] + v)
                                =~= crate::program::program_region_views(regions@.push(g)) + v);
                        },
                        None => {},
                    }
                }
                regions.push(g);
                cur2 = p7;
                j = j + 1;
            },
        }
    }
    proof {
        assert(spec_parse_regions(0, bytes@.skip(cur2 as int)) == Some(
            (Seq::<ProgramRegionV>::empty(), bytes@.skip(cur2 as int)),
        ));
        assert(crate::program::program_region_views(regions@) + Seq::<ProgramRegionV>::empty()
            =~= crate::program::program_region_views(regions@));
    }
    let mut attachments: Vec<DataAttachment> = Vec::new();
    let mut cur3 = cur2;
    proof {
        assert(crate::program::attachment_views(attachments@) =~= Seq::<DataAttachmentV>::empty());
    }
    while cur3 < bytes.len()
        invariant
            cur3 <= bytes@.len(),
            ({
                let full = spec_parse_attachments(bytes@.skip(cur2 as int));
                match spec_parse_attachments(bytes@.skip(cur3 as int)) {
                    Some(v) => full == Some(crate::program::attachment_views(attachments@) + v),
                    None => full is None,
                }
            }),
        decreases bytes@.len() - cur3,
    {
        match read_attachment(bytes, cur3) {
            None => {
                return Err(Error::CorruptImage("truncated attachment".to_owned()));
            },
            Some((a, p8)) => {
                proof {
                    let v_after = spec_parse_attachments(bytes@.skip(p8 as int));
                    match v_after {
                        Some(v) => {
                            assert(crate::program::attachment_views(attachments@) + (seq![a@] + v)
                                =~= crate::program::attachment_views(attachments@.push(a)) + v);
                        },
                        None => {},
                    }
                }
                attachments.push(a);
                cur3 = p8;
            },
        }
    }
    proof {
        assert(bytes@.skip(cur3 as int) =~= Seq::<u8>::empty());
        assert(spec_parse_attachments(bytes@.skip(cur3 as int)) == Some(
            Seq::<DataAttachmentV>::empty(),
        ));
        assert(crate::program::attachment_views(attachments@) + Seq::<DataAttachmentV>::empty()
            =~= crate::program::attachment_views(attachments@));
    }
    // every parsed length already fits its u32 prefix; check the image
    // invariants that the bytes themselves must satisfy
    if program_start & crate::reloc::PROGRAM_START_MASK != 0 {
        return Err(Error::CorruptImage("misaligned program start".to_owned()));
    }
    if program_size % crate::PAGE_SIZE != 0 {
        return Err(Error::CorruptImage("program size not page aligned".to_owned()));
    }
    let nr = regions.len();
    let mut q: usize = 0;
    while q < nr
        invariant
            q <= nr,
            nr == regions@.len(),
            forall|w: int|
                0 <= w < q ==> (#[trigger] crate::program::program_region_views(regions@)[w]).wf(),
        decreases nr - q,
    {
        proof {
            assert(crate::program::program_region_views(regions@)[q as int] == regions@[
                q as int]@);
        }
        if regions[q].rel_start % crate::PAGE_SIZE != 0 {
            return Err(Error::CorruptImage("region start not page aligned".to_owned()));
        }
        let dl = regions[q].data.len();
        if dl % 0x1000 != 0 {
            return Err(Error::CorruptImage("region length not page aligned".to_owned()));
        }
        if dl > u32::MAX as usize {
            return Err(Error::CorruptImage("region too long for its prefix".to_owned()));
        }
        q += 1;
    }
    let nsv = singletons.len();
    let mut w: usize = 0;
    while w < nsv
        invariant
            w <= nsv,
            nsv == singletons@.len(),
            forall|t: int|
                0 <= t < w ==> (#[trigger] crate::program::singleton_views(
                    singletons@,
                )[t]).bytecode.len() <= u32::MAX,
        decreases nsv - w,
    {
        proof {
            assert(crate::program::singleton_views(singletons@)[w as int] == singletons@[
                w as int]@);
        }
        if singletons[w].create_bytecode.len() > u32::MAX as usize {
            return Err(Error::CorruptImage("byte code too long for its prefix".to_owned()));
        }
        w += 1;
    }
    let nav = attachments.len();
    let mut v: usize = 0;
    while v < nav
        invariant
            v <= nav,
            nav == attachments@.len(),
            forall|t: int|
                0 <= t < v ==> (#[trigger] crate::program::attachment_views(
                    attachments@,
                )[t]).data.len() <= u32::MAX,
        decreases nav - v,
    {
        proof {
            assert(crate::program::attachment_views(attachments@)[v as int] == attachments@[
                v as int]@);
        }
        if attachments[v].data.len() > u32::MAX as usize {
            return Err(Error::CorruptImage("attachment too long for its prefix".to_owned()));
        }
        v += 1;
    }
    let p = Program {
        env,
        singletons,
        program_start,
        program_size,
        program_regions: regions,
        attachments,
    };
    proof {
        assert(p@.singletons.len() <= u32::MAX);
        assert(p@.program_regions.len() <= u32::MAX);
        assert(p@.wf());
    }
    Ok(p)
}

} // verus!
