//! The engine's laws: properties that hold of every schema and value, proved
//! from the encode and decode specifications.

use vstd::prelude::*;

use crate::dec::{fixed_width, spec_dec, spec_dec_elems, spec_dec_fields, spec_dec_payload};
use crate::enc::{spec_enc, spec_enc_fields, spec_enc_list, spec_enc_payload, spec_enc_variant};
use crate::errors::SpecErr;
use crate::hooks::SchemaHooks;
use crate::value::{gate_open, vv_matches, zero_fields, FieldDecl, Shape, Value, ValueV, VariantDecl};
use crate::version::{version_num, Version};
use vstd::bytes::{
    spec_u16_to_le_bytes, spec_u32_to_le_bytes, spec_u64_to_le_bytes,
    lemma_auto_spec_u16_to_from_le_bytes, lemma_auto_spec_u32_to_from_le_bytes,
    lemma_auto_spec_u64_to_from_le_bytes,
};

verus! {

/// Decoding is a mathematical function of the bytes and the source version:
/// two results that both satisfy the decoder's contract for the same bytes
/// and version have the same image (and hooks are themselves functions, by
/// the hook protocol's contracts).
pub proof fn lemma_decode_deterministic<H: SchemaHooks>(
    h: &H,
    s: Shape,
    bytes: Seq<u8>,
    source: Version,
    r1: Value,
    r2: Value,
    p1: int,
    p2: int,
)
    requires
        spec_dec(h, s, bytes, 0, source) == Ok::<(ValueV, int), SpecErr>((r1.deep_view(), p1)),
        spec_dec(h, s, bytes, 0, source) == Ok::<(ValueV, int), SpecErr>((r2.deep_view(), p2)),
    ensures
        r1.deep_view() == r2.deep_view(),
        p1 == p2,
{
}

/// None of the declarations in the list carries a pre-encode hook.
pub open spec fn no_pre_hooks(decls: Seq<FieldDecl>) -> bool {
    forall|i: int| 0 <= i < decls.len() ==> (#[trigger] decls[i].pre_id) is None
}

/// Field-presence monotonicity, omission half: when a field's version gate
/// is closed at the target, nothing of that field reaches the wire — two
/// records that differ only in that field encode to the same bytes (and
/// fail alike), for hook-free declarations.
pub proof fn lemma_absent_field_contributes_nothing<H: SchemaHooks>(
    h: &H,
    decls: Seq<FieldDecl>,
    fs1: Seq<ValueV>,
    fs2: Seq<ValueV>,
    target: Version,
    i: int,
    k: int,
)
    requires
        no_pre_hooks(decls),
        0 <= i < decls.len(),
        fs1.len() == decls.len(),
        fs2.len() == decls.len(),
        !gate_open(decls[i].start, decls[i].end, target),
        forall|j: int| 0 <= j < decls.len() && j != i ==> fs1[j] == fs2[j],
        0 <= k <= decls.len(),
    ensures
        match (spec_enc_fields(h, decls, fs1, target, k), spec_enc_fields(
            h,
            decls,
            fs2,
            target,
            k,
        )) {
            (Ok((b1, f1)), Ok((b2, f2))) => b1 == b2,
            (Err(e1), Err(e2)) => e1 == e2,
            _ => false,
        },
    decreases decls.len() - k,
{
    if k < decls.len() {
        lemma_absent_field_contributes_nothing(h, decls, fs1, fs2, target, i, k + 1);
        if k != i && gate_open(decls[k].start, decls[k].end, target) {
            assert(fs1[k] == fs2[k]);
        }
    }
}

/// Field-presence monotonicity, inclusion half: when a field's gate is open
/// at the target, the wire holds exactly that field's own encoding between
/// the fields before and after it, for hook-free declarations.
pub proof fn lemma_present_field_bytes<H: SchemaHooks>(
    h: &H,
    decls: Seq<FieldDecl>,
    fs: Seq<ValueV>,
    target: Version,
    i: int,
)
    requires
        no_pre_hooks(decls),
        0 <= i < decls.len(),
        fs.len() == decls.len(),
        gate_open(decls[i].start, decls[i].end, target),
    ensures
        spec_enc_fields(h, decls, fs, target, i) == (match spec_enc(
            h,
            fs[i],
            decls[i].shape,
            target,
        ) {
            Ok(own) => match spec_enc_fields(h, decls, fs, target, i + 1) {
                Ok((rest, fin)) => Ok::<(Seq<u8>, Seq<ValueV>), SpecErr>((own + rest, fin)),
                Err(e) => Err(e),
            },
            Err(e) => Err(e),
        }),
{
}

/// Hook ordering: for two fields declared in order, each with a pre-encode
/// hook, the first field's bytes come from the original record, its hook
/// then rewrites the whole record, the second field's bytes come from that
/// rewritten record, and the second hook observes everything the first hook
/// wrote — including the first hook's changes to the second field.
pub proof fn lemma_pre_hook_order<H: SchemaHooks>(
    h: &H,
    a: FieldDecl,
    b: FieldDecl,
    fs: Seq<ValueV>,
    target: Version,
    ia: u32,
    ib: u32,
)
    requires
        fs.len() == 2,
        a.pre_id == Some(ia),
        b.pre_id == Some(ib),
        gate_open(a.start, a.end, target),
        gate_open(b.start, b.end, target),
    ensures
        spec_enc_fields(h, seq![a, b], fs, target, 0) == (match spec_enc(h, fs[0], a.shape, target) {
            Err(e) => Err::<(Seq<u8>, Seq<ValueV>), SpecErr>(e),
            Ok(ba) => match h.spec_pre(ia, fs, target) {
                Err(m) => Err(SpecErr::Semantic(m)),
                Ok(fs1) => if fs1.len() != 2 {
                    Err(SpecErr::BadValue)
                } else {
                    match spec_enc(h, fs1[1], b.shape, target) {
                        Err(e) => Err(e),
                        Ok(bb) => match h.spec_pre(ib, fs1, target) {
                            Err(m) => Err(SpecErr::Semantic(m)),
                            Ok(fs2) => Ok((ba + bb, fs2)),
                        },
                    }
                },
            },
        }),
{
    let decls = seq![a, b];
    assert(decls[0] == a);
    assert(decls[1] == b);
    if let Ok(ba) = spec_enc(h, fs[0], a.shape, target) {
        if let Ok(fs1) = h.spec_pre(ia, fs, target) {
            if fs1.len() == 2 {
                if let Ok(bb) = spec_enc(h, fs1[1], b.shape, target) {
                    if let Ok(fs2) = h.spec_pre(ib, fs1, target) {
                        assert(spec_enc_fields(h, decls, fs2, target, 2) == Ok::<
                            (Seq<u8>, Seq<ValueV>),
                            SpecErr,
                        >((Seq::empty(), fs2)));
                        assert(bb + Seq::<u8>::empty() =~= bb);
                        assert(ba + (bb + Seq::<u8>::empty()) =~= ba + bb);
                    }
                }
            } else {
                assert(spec_enc_fields(h, decls, fs1, target, 1) == Err::<
                    (Seq<u8>, Seq<ValueV>),
                    SpecErr,
                >(SpecErr::BadValue));
            }
        }
    }
}

/// The index names a variant of the list whose gate is open at the version.
pub open spec fn variant_gate_open(decls: Seq<VariantDecl>, d: int, v: Version) -> bool {
    0 <= d < decls.len() && gate_open(decls[d].start, decls[d].end, v)
}

/// Enum fallback, soundness half: the enum engine never emits a discriminant
/// that is invalid for the target version — whatever bytes an encode
/// produces begin with the 4-byte index of a variant whose gate is open.
pub proof fn lemma_enum_never_emits_invalid_discriminant<H: SchemaHooks>(
    h: &H,
    decls: Seq<VariantDecl>,
    idx: u32,
    pl: Seq<ValueV>,
    target: Version,
)
    ensures
        match spec_enc_variant(h, decls, idx, pl, target) {
            Ok(bytes) => exists|d: u32|
                bytes.subrange(0, 4) == spec_u32_to_le_bytes(d) && #[trigger] variant_gate_open(
                    decls,
                    d as int,
                    target,
                ),
            Err(_) => true,
        },
{
    vstd::bytes::lemma_auto_spec_u32_to_from_le_bytes();
    if let Ok(bytes) = spec_enc_variant(h, decls, idx, pl, target) {
        if idx < decls.len() && gate_open(decls[idx as int].start, decls[idx as int].end, target) {
            if let Ok(b) = spec_enc_payload(h, pl, decls[idx as int].payload@, target, 0) {
                assert((spec_u32_to_le_bytes(idx) + b).subrange(0, 4) =~= spec_u32_to_le_bytes(
                    idx,
                ));
                assert(variant_gate_open(decls, idx as int, target));
            }
        } else {
            if idx < decls.len() {
                if let Some(id) = decls[idx as int].fallback_id {
                    if let Ok(repl) = h.spec_fallback(id, ValueV::Variant(idx, pl), target) {
                        if let ValueV::Variant(idx2, pl2) = repl {
                            if idx2 < decls.len() && gate_open(
                                decls[idx2 as int].start,
                                decls[idx2 as int].end,
                                target,
                            ) {
                                if let Ok(b) = spec_enc_payload(
                                    h,
                                    pl2,
                                    decls[idx2 as int].payload@,
                                    target,
                                    0,
                                ) {
                                    assert((spec_u32_to_le_bytes(idx2) + b).subrange(0, 4)
                                        =~= spec_u32_to_le_bytes(idx2));
                                    assert(variant_gate_open(decls, idx2 as int, target));
                                }
                            }
                        }
                    }
                }
            }
        }
    }
}

/// Enum fallback, invocation half: encoding a variant whose gate is closed
/// at the target invokes its declared fallback.  A fallback that reports no
/// valid mapping makes the whole encode fail with exactly that semantic
/// message; a replacement that fails the version gate makes it fail too,
/// and the engine never loops.
pub proof fn lemma_enum_fallback_invoked<H: SchemaHooks>(
    h: &H,
    decls: Seq<VariantDecl>,
    idx: u32,
    pl: Seq<ValueV>,
    target: Version,
)
    requires
        idx < decls.len(),
        !gate_open(decls[idx as int].start, decls[idx as int].end, target),
    ensures
        decls[idx as int].fallback_id is None ==> spec_enc_variant(h, decls, idx, pl, target)
            == Err::<Seq<u8>, SpecErr>(SpecErr::NoFallback),
        decls[idx as int].fallback_id matches Some(id) ==> spec_enc_variant(
            h,
            decls,
            idx,
            pl,
            target,
        ) == (match h.spec_fallback(id, ValueV::Variant(idx, pl), target) {
            Err(m) => Err::<Seq<u8>, SpecErr>(SpecErr::Semantic(m)),
            Ok(repl) => match repl {
                ValueV::Variant(idx2, pl2) => if idx2 < decls.len() && gate_open(
                    decls[idx2 as int].start,
                    decls[idx2 as int].end,
                    target,
                ) {
                    match spec_enc_payload(h, pl2, decls[idx2 as int].payload@, target, 0) {
                        Err(e) => Err(e),
                        Ok(b) => Ok(spec_u32_to_le_bytes(idx2) + b),
                    }
                } else {
                    Err(SpecErr::FallbackInvalid)
                },
                _ => Err(SpecErr::FallbackInvalid),
            },
        }),
{
}

/// A shape with no version-gated parts and no hooks: every field and
/// variant is present from the least version on and forever, and no
/// semantic hook or default-synthesis function is declared anywhere in it.
pub open spec fn stable_shape(s: Shape) -> bool
    decreases s, 0nat,
{
    match s {
        Shape::Opt(t) => stable_shape(*t),
        Shape::List(t) => stable_shape(*t),
        Shape::Array(t, n) => stable_shape(*t),
        Shape::Record(decls) => stable_fields(decls@),
        Shape::Choice(decls) => stable_variants(decls@),
        Shape::Fam { header, count_idx, capacity, elem } => stable_fields(header@)
            && stable_shape(*elem),
        _ => true,
    }
}

/// Every field is ungated and hook-free, with a stable shape.
pub open spec fn stable_fields(decls: Seq<FieldDecl>) -> bool
    decreases decls, 1nat,
{
    if decls.len() == 0 {
        true
    } else {
        let d = decls[decls.len() - 1];
        stable_fields(decls.subrange(0, decls.len() - 1)) && d.start == (Version {
            major: 0u16,
            minor: 0u16,
            patch: 0u16,
        }) && d.end is None && d.pre_id is None && d.post_id is None && stable_shape(d.shape)
    }
}

/// Every variant is ungated, with stable payload shapes.
pub open spec fn stable_variants(decls: Seq<VariantDecl>) -> bool
    decreases decls, 1nat,
{
    if decls.len() == 0 {
        true
    } else {
        let d = decls[decls.len() - 1];
        stable_variants(decls.subrange(0, decls.len() - 1)) && d.start == (Version {
            major: 0u16,
            minor: 0u16,
            patch: 0u16,
        }) && d.end is None && stable_shapes(d.payload@)
    }
}

/// Every shape of the list is stable.
pub open spec fn stable_shapes(ss: Seq<Shape>) -> bool
    decreases ss, 1nat,
{
    if ss.len() == 0 {
        true
    } else {
        stable_shapes(ss.subrange(0, ss.len() - 1)) && stable_shape(ss[ss.len() - 1])
    }
}

/// The element-wise reading of [`stable_fields`].
pub proof fn lemma_stable_fields(decls: Seq<FieldDecl>)
    requires
        stable_fields(decls),
    ensures
        forall|i: int|
            0 <= i < decls.len() ==> (#[trigger] decls[i].start) == (Version {
                major: 0u16,
                minor: 0u16,
                patch: 0u16,
            }) && decls[i].end is None && decls[i].pre_id is None && decls[i].post_id is None
                && stable_shape(decls[i].shape),
    decreases decls.len(),
{
    if decls.len() > 0 {
        let sub = decls.subrange(0, decls.len() - 1);
        lemma_stable_fields(sub);
        assert forall|i: int|
            0 <= i < decls.len() implies (#[trigger] decls[i].start) == (Version {
                major: 0u16,
                minor: 0u16,
                patch: 0u16,
            }) && decls[i].end is None && decls[i].pre_id is None && decls[i].post_id is None
            && stable_shape(decls[i].shape) by {
            if i < decls.len() - 1 {
                assert(sub[i] == decls[i]);
            }
        }
    }
}

/// The element-wise reading of [`stable_variants`].
pub proof fn lemma_stable_variants(decls: Seq<VariantDecl>)
    requires
        stable_variants(decls),
    ensures
        forall|i: int|
            0 <= i < decls.len() ==> (#[trigger] decls[i].start) == (Version {
                major: 0u16,
                minor: 0u16,
                patch: 0u16,
            }) && decls[i].end is None && stable_shapes(decls[i].payload@),
    decreases decls.len(),
{
    if decls.len() > 0 {
        let sub = decls.subrange(0, decls.len() - 1);
        lemma_stable_variants(sub);
        assert forall|i: int|
            0 <= i < decls.len() implies (#[trigger] decls[i].start) == (Version {
                major: 0u16,
                minor: 0u16,
                patch: 0u16,
            }) && decls[i].end is None && stable_shapes(decls[i].payload@) by {
            if i < decls.len() - 1 {
                assert(sub[i] == decls[i]);
            }
        }
    }
}

/// The element-wise reading of [`stable_shapes`].
pub proof fn lemma_stable_shapes(ss: Seq<Shape>)
    requires
        stable_shapes(ss),
    ensures
        forall|i: int| 0 <= i < ss.len() ==> stable_shape(#[trigger] ss[i]),
    decreases ss.len(),
{
    if ss.len() > 0 {
        let sub = ss.subrange(0, ss.len() - 1);
        lemma_stable_shapes(sub);
        assert forall|i: int| 0 <= i < ss.len() implies stable_shape(#[trigger] ss[i]) by {
            if i < ss.len() - 1 {
                assert(sub[i] == ss[i]);
            }
        }
    }
}

/// An ungated descriptor is present at every version.
pub proof fn lemma_zero_gate_open(v: Version)
    ensures
        gate_open(Version { major: 0u16, minor: 0u16, patch: 0u16 }, None, v),
{
    assert(version_num(Version { major: 0u16, minor: 0u16, patch: 0u16 }) == 0);
    assert(version_num(v) >= 0);
}

/// Cutting a piece out of an established sub-slice: the piece stands at its
/// offset in the stream.
proof fn lemma_slice_sub(bytes: Seq<u8>, pos: int, b: Seq<u8>, off: int, len: int)
    requires
        0 <= pos,
        pos + b.len() <= bytes.len(),
        bytes.subrange(pos, pos + b.len()) == b,
        0 <= off,
        0 <= len,
        off + len <= b.len(),
    ensures
        bytes.subrange(pos + off, pos + off + len) == b.subrange(off, off + len),
{
    assert forall|k: int| 0 <= k < len implies #[trigger] bytes.subrange(pos + off, pos + off + len)[k]
        == b.subrange(off, off + len)[k] by {
        assert(bytes.subrange(pos + off, pos + off + len)[k] == bytes[pos + off + k]);
        assert(b.subrange(off, off + len)[k] == b[off + k]);
        assert(b[off + k] == bytes.subrange(pos, pos + b.len() as int)[off + k]);
        assert(bytes.subrange(pos, pos + b.len() as int)[off + k] == bytes[pos + off + k]);
    }
    assert(bytes.subrange(pos + off, pos + off + len) =~= b.subrange(off, off + len));
}

/// A hook-free field list leaves the record exactly as given.
proof fn lemma_stable_fields_final<H: SchemaHooks>(
    h: &H,
    decls: Seq<FieldDecl>,
    fs: Seq<ValueV>,
    ver: Version,
    i: int,
)
    requires
        stable_fields(decls),
        0 <= i <= decls.len(),
    ensures
        match spec_enc_fields(h, decls, fs, ver, i) {
            Ok((bb, ff)) => ff == fs,
            Err(_) => true,
        },
    decreases decls.len() - i,
{
    lemma_stable_fields(decls);
    if i < decls.len() {
        lemma_stable_fields_final(h, decls, fs, ver, i + 1);
    }
}


/// A fixed-width shape's encoding has exactly that width, for any value of
/// the shape.
#[verifier::rlimit(100)]
proof fn lemma_fixed_width_enc<H: SchemaHooks>(h: &H, v: ValueV, t: Shape, ver: Version)
    requires
        vv_matches(v, t),
    ensures
        match fixed_width(t) {
            Option::Some(w) => spec_enc(h, v, t, ver) matches Ok(bb) && bb.len() == w,
            Option::None => true,
        },
    decreases t, 0nat,
{
    lemma_auto_spec_u16_to_from_le_bytes();
    lemma_auto_spec_u32_to_from_le_bytes();
    lemma_auto_spec_u64_to_from_le_bytes();
    match t {
        Shape::U8 => {
            assert(v matches ValueV::U8(_));
            if let ValueV::U8(x) = v {
                assert(spec_enc(h, v, t, ver) == Ok::<Seq<u8>, SpecErr>(seq![x]));
            }
        },
        Shape::U16 => {
            assert(v matches ValueV::U16(_));
            if let ValueV::U16(x) = v {
                assert(spec_enc(h, v, t, ver) == Ok::<Seq<u8>, SpecErr>(spec_u16_to_le_bytes(x)));
            }
        },
        Shape::U32 => {
            assert(v matches ValueV::U32(_));
            if let ValueV::U32(x) = v {
                assert(spec_enc(h, v, t, ver) == Ok::<Seq<u8>, SpecErr>(spec_u32_to_le_bytes(x)));
            }
        },
        Shape::U64 => {
            assert(v matches ValueV::U64(_));
            if let ValueV::U64(x) = v {
                assert(spec_enc(h, v, t, ver) == Ok::<Seq<u8>, SpecErr>(spec_u64_to_le_bytes(x)));
            }
        },
        Shape::Usize => {
            assert(v matches ValueV::Usize(_));
            if let ValueV::Usize(x) = v {
                assert(spec_enc(h, v, t, ver) == Ok::<Seq<u8>, SpecErr>(spec_u64_to_le_bytes(x)));
            }
        },
        Shape::I8 => {
            assert(v matches ValueV::I8(_));
            if let ValueV::I8(x) = v {
                assert(spec_enc(h, v, t, ver) == Ok::<Seq<u8>, SpecErr>(seq![crate::wire::i8_to_bits(x)]));
            }
        },
        Shape::I16 => {
            assert(v matches ValueV::I16(_));
            if let ValueV::I16(x) = v {
                assert(spec_enc(h, v, t, ver) == Ok::<Seq<u8>, SpecErr>(spec_u16_to_le_bytes(crate::wire::i16_to_bits(x))));
            }
        },
        Shape::I32 => {
            assert(v matches ValueV::I32(_));
            if let ValueV::I32(x) = v {
                assert(spec_enc(h, v, t, ver) == Ok::<Seq<u8>, SpecErr>(spec_u32_to_le_bytes(crate::wire::i32_to_bits(x))));
            }
        },
        Shape::I64 => {
            assert(v matches ValueV::I64(_));
            if let ValueV::I64(x) = v {
                assert(spec_enc(h, v, t, ver) == Ok::<Seq<u8>, SpecErr>(spec_u64_to_le_bytes(crate::wire::i64_to_bits(x))));
            }
        },
        Shape::Isize => {
            assert(v matches ValueV::Isize(_));
            if let ValueV::Isize(x) = v {
                assert(spec_enc(h, v, t, ver) == Ok::<Seq<u8>, SpecErr>(spec_u64_to_le_bytes(crate::wire::i64_to_bits(x))));
            }
        },
        Shape::Bool => {
            assert(v matches ValueV::Bool(_));
            if let ValueV::Bool(x) = v {
                assert(spec_enc(h, v, t, ver) == Ok::<Seq<u8>, SpecErr>(seq![if x { 1u8 } else { 0u8 }]));
            }
        },
        Shape::Char => {
            assert(v matches ValueV::Char(_));
            if let ValueV::Char(x) = v {
                assert(spec_enc(h, v, t, ver) == Ok::<Seq<u8>, SpecErr>(seq![(x as u8)]));
            }
        },
        Shape::F32 => {
            assert(v matches ValueV::F32Bits(_));
            if let ValueV::F32Bits(x) = v {
                assert(spec_enc(h, v, t, ver) == Ok::<Seq<u8>, SpecErr>(spec_u32_to_le_bytes(x)));
            }
        },
        Shape::F64 => {
            assert(v matches ValueV::F64Bits(_));
            if let ValueV::F64Bits(x) = v {
                assert(spec_enc(h, v, t, ver) == Ok::<Seq<u8>, SpecErr>(spec_u64_to_le_bytes(x)));
            }
        },
        Shape::Array(t2, n) => {
            assert(v matches ValueV::List(_));
            if let ValueV::List(es) = v {
                lemma_fixed_width_enc_list(h, es, *t2, ver, 0);
                if let Option::Some(w2) = fixed_width(*t2) {
                    if w2 * n <= 0xFFFF_FFFF_FFFF_FFFF {
                        assert(fixed_width(t) == Some(w2 * n));
                        if let Ok(bb) = spec_enc_list(h, es, *t2, ver, 0) {
                            assert(bb.len() == (es.len() - 0) * w2);
                            assert(es.len() == n);
                            assert(spec_enc(h, v, t, ver) == Ok::<Seq<u8>, SpecErr>(bb));
                            assert(n * w2 == w2 * n) by (nonlinear_arith);
                            assert(bb.len() == w2 * n);
                        }
                    } else {
                        assert(fixed_width(t) is None);
                    }
                } else {
                    assert(fixed_width(t) is None);
                }
            }
        },
        _ => {},
    }
}

/// A run of fixed-width elements encodes to the element count times the
/// width.
proof fn lemma_fixed_width_enc_list<H: SchemaHooks>(
    h: &H,
    es: Seq<ValueV>,
    t: Shape,
    ver: Version,
    i: int,
)
    requires
        forall|j: int| 0 <= j < es.len() ==> vv_matches(#[trigger] es[j], t),
        0 <= i <= es.len(),
    ensures
        match fixed_width(t) {
            Option::Some(w) => spec_enc_list(h, es, t, ver, i) matches Ok(bb) && bb.len() == (
            es.len() - i) * w,
            Option::None => true,
        },
    decreases t, es.len() - i + 1,
{
    if let Option::Some(w) = fixed_width(t) {
        if i < es.len() {
            lemma_fixed_width_enc(h, es[i], t, ver);
            lemma_fixed_width_enc_list(h, es, t, ver, i + 1);
            assert(w + (es.len() - i - 1) * w == (es.len() - i) * w) by (nonlinear_arith);
        } else {
            assert((es.len() - i) * w == 0) by (nonlinear_arith)
                requires
                    i == es.len(),
            ;
        }
    }
}

/// The header-plus-array decode guards: a claimed count larger than the
/// bytes available for elements is rejected with a mismatch error naming
/// both counts, and one within the bytes but beyond the capacity is
/// rejected with a capacity error naming the claim and the capacity.
pub proof fn lemma_fam_count_guards<H: SchemaHooks>(
    h: &H,
    header: Vec<FieldDecl>,
    count_idx: usize,
    capacity: usize,
    elem: Box<Shape>,
    bytes: Seq<u8>,
    pos: int,
    source: Version,
    hs: Seq<ValueV>,
    p1: int,
    c: u32,
    w: int,
)
    requires
        0 <= pos,
        spec_dec_fields(h, header@, bytes, pos, source, 0, zero_fields(header@)) == Ok::<
            (Seq<ValueV>, int),
            SpecErr,
        >((hs, p1)),
        0 <= count_idx < hs.len(),
        hs[count_idx as int] == ValueV::U32(c),
        fixed_width(*elem) == Some(w),
        w > 0,
    ensures
        ({
            let shape = Shape::Fam { header, count_idx, capacity, elem };
            let avail = (bytes.len() - p1) / w;
            &&& (c > avail ==> spec_dec(h, shape, bytes, pos, source) == Err::<
                (ValueV, int),
                SpecErr,
            >(SpecErr::FamSize { declared: c as int, actual: avail }))
            &&& (c <= avail && c > capacity ==> spec_dec(h, shape, bytes, pos, source) == Err::<
                (ValueV, int),
                SpecErr,
            >(SpecErr::FamCapacity { declared: c as int, capacity: capacity as int }))
        }),
{
}

/// Round-trip at a stable version, value half: for a value of a type with
/// no version-gated parts and no hooks, decoding its encoding — wherever it
/// stands inside a larger byte stream — yields exactly the value and stops
/// exactly after its bytes, at any version.
pub proof fn lemma_round_trip_at<H: SchemaHooks>(
    h: &H,
    v: ValueV,
    s: Shape,
    ver: Version,
    b: Seq<u8>,
    bytes: Seq<u8>,
    pos: int,
)
    requires
        vv_matches(v, s),
        stable_shape(s),
        spec_enc(h, v, s, ver) == Ok::<Seq<u8>, SpecErr>(b),
        0 <= pos,
        pos + b.len() <= bytes.len(),
        bytes.subrange(pos, pos + b.len()) == b,
    ensures
        spec_dec(h, s, bytes, pos, ver) == Ok::<(ValueV, int), SpecErr>((v, pos + b.len())),
    decreases s, 0nat,
{
    lemma_auto_spec_u16_to_from_le_bytes();
    lemma_auto_spec_u32_to_from_le_bytes();
    lemma_auto_spec_u64_to_from_le_bytes();
    crate::wire::lemma_signed_bits_roundtrip();
    match (v, s) {
        (ValueV::U8(x), Shape::U8) => {
            assert(bytes[pos] == b[0]);
        },
        (ValueV::U16(x), Shape::U16) => {
            assert(bytes.subrange(pos, pos + 2) =~= b);
        },
        (ValueV::U32(x), Shape::U32) => {
            assert(bytes.subrange(pos, pos + 4) =~= b);
        },
        (ValueV::U64(x), Shape::U64) => {
            assert(bytes.subrange(pos, pos + 8) =~= b);
        },
        (ValueV::Usize(x), Shape::Usize) => {
            assert(bytes.subrange(pos, pos + 8) =~= b);
        },
        (ValueV::I8(x), Shape::I8) => {
            assert(bytes[pos] == b[0]);
        },
        (ValueV::I16(x), Shape::I16) => {
            assert(bytes.subrange(pos, pos + 2) =~= b);
        },
        (ValueV::I32(x), Shape::I32) => {
            assert(bytes.subrange(pos, pos + 4) =~= b);
        },
        (ValueV::I64(x), Shape::I64) => {
            assert(bytes.subrange(pos, pos + 8) =~= b);
        },
        (ValueV::Isize(x), Shape::Isize) => {
            assert(bytes.subrange(pos, pos + 8) =~= b);
        },
        (ValueV::Bool(x), Shape::Bool) => {
            assert(bytes[pos] == b[0]);
        },
        (ValueV::Char(c), Shape::Char) => {
            assert(bytes[pos] == b[0]);
            assert(b[0] == c as u8);
            assert((c as u8) as char == c);
        },
        (ValueV::F32Bits(x), Shape::F32) => {
            assert(bytes.subrange(pos, pos + 4) =~= b);
        },
        (ValueV::F64Bits(x), Shape::F64) => {
            assert(bytes.subrange(pos, pos + 8) =~= b);
        },
        (ValueV::Str(bs), Shape::Str) => {
            lemma_slice_sub(bytes, pos, b, 0, 8);
            assert(b.subrange(0, 8) =~= spec_u64_to_le_bytes(bs.len() as u64));
            lemma_slice_sub(bytes, pos, b, 8, bs.len() as int);
            assert(b.subrange(8, b.len() as int) =~= bs);
        },
        (ValueV::Opt(o), Shape::Opt(t)) => {
            match o {
                Option::None => {
                    assert(bytes[pos] == b[0]);
                },
                Option::Some(inner) => {
                    assert(bytes[pos] == b[0]);
                    if let Ok(ib) = spec_enc(h, *inner, *t, ver) {
                        assert(b =~= seq![1u8] + ib);
                        lemma_slice_sub(bytes, pos, b, 1, ib.len() as int);
                        assert(b.subrange(1, 1 + ib.len() as int) =~= ib);
                        lemma_round_trip_at(h, *inner, *t, ver, ib, bytes, pos + 1);
                    }
                },
            }
        },
        (ValueV::List(es), Shape::List(t)) => {
            if let Ok(eb) = spec_enc_list(h, es, *t, ver, 0) {
                assert(b =~= spec_u64_to_le_bytes(es.len() as u64) + eb);
                lemma_slice_sub(bytes, pos, b, 0, 8);
                assert(b.subrange(0, 8) =~= spec_u64_to_le_bytes(es.len() as u64));
                lemma_slice_sub(bytes, pos, b, 8, eb.len() as int);
                assert(b.subrange(8, 8 + eb.len() as int) =~= eb);
                lemma_round_trip_list(h, es, *t, ver, eb, bytes, pos + 8, 0);
                assert(es.subrange(0, es.len() as int) =~= es);
            }
        },
        (ValueV::List(es), Shape::Array(t, n)) => {
            lemma_round_trip_list(h, es, *t, ver, b, bytes, pos, 0);
            assert(es.subrange(0, es.len() as int) =~= es);
        },
        (ValueV::Record(fs), Shape::Record(decls)) => {
            lemma_stable_fields(decls@);
            if let Ok((fb, fin)) = spec_enc_fields(h, decls@, fs, ver, 0) {
                crate::value::lemma_zero_fields(decls@);
                lemma_stable_fields_final(h, decls@, fs, ver, 0);
                lemma_round_trip_fields(h, decls@, fs, ver, fb, bytes, pos, 0, zero_fields(decls@));
                let done = Seq::new(
                    decls@.len(),
                    |j: int|
                        if j < 0 {
                            zero_fields(decls@)[j]
                        } else {
                            fs[j]
                        },
                );
                assert(done =~= fs);
            }
        },
        (ValueV::Variant(d, pl), Shape::Choice(decls)) => {
            lemma_stable_variants(decls@);
            lemma_zero_gate_open(ver);
            assert(gate_open(decls@[d as int].start, decls@[d as int].end, ver));
            if let Ok(pb) = spec_enc_payload(h, pl, decls@[d as int].payload@, ver, 0) {
                assert(spec_enc_variant(h, decls@, d, pl, ver) == Ok::<Seq<u8>, SpecErr>(
                    spec_u32_to_le_bytes(d) + pb,
                ));
                assert(b =~= spec_u32_to_le_bytes(d) + pb);
                lemma_slice_sub(bytes, pos, b, 0, 4);
                assert(b.subrange(0, 4) =~= spec_u32_to_le_bytes(d));
                lemma_slice_sub(bytes, pos, b, 4, pb.len() as int);
                assert(b.subrange(4, 4 + pb.len() as int) =~= pb);
                lemma_stable_shapes(decls@[d as int].payload@);
                lemma_round_trip_payload(
                    h,
                    pl,
                    decls@[d as int].payload@,
                    ver,
                    pb,
                    bytes,
                    pos + 4,
                    0,
                );
                assert(pl.subrange(0, pl.len() as int) =~= pl);
            }
        },
        (ValueV::Fam(hs, es), Shape::Fam { header, count_idx, capacity, elem }) => {
            lemma_stable_fields(header@);
            crate::value::lemma_zero_fields(header@);
            if let Ok((hb, fin)) = spec_enc_fields(h, header@, hs, ver, 0) {
                if let Ok(eb) = spec_enc_list(h, es, *elem, ver, 0) {
                    assert(b =~= hb + eb);
                    lemma_stable_fields_final(h, header@, hs, ver, 0);
                    lemma_slice_sub(bytes, pos, b, 0, hb.len() as int);
                    assert(b.subrange(0, hb.len() as int) =~= hb);
                    lemma_round_trip_fields(
                        h,
                        header@,
                        hs,
                        ver,
                        hb,
                        bytes,
                        pos,
                        0,
                        zero_fields(header@),
                    );
                    assert(Seq::new(
                        header@.len(),
                        |j: int|
                            if j < 0 {
                                zero_fields(header@)[j]
                            } else {
                                hs[j]
                            },
                    ) =~= hs);
                    let p1 = pos + hb.len();
                    assert(hs[count_idx as int] == ValueV::U32(es.len() as u32));
                    let claimed = es.len() as int;
                    if let Option::Some(w) = fixed_width(*elem) {
                        if w > 0 {
                            lemma_fixed_width_enc_list(h, es, *elem, ver, 0);
                            assert(eb.len() == es.len() * w);
                            vstd::arithmetic::div_mod::lemma_div_multiples_vanish(claimed, w);
                            vstd::arithmetic::div_mod::lemma_div_is_ordered(
                                claimed * w,
                                bytes.len() - p1,
                                w,
                            );
                            assert((bytes.len() - p1) / w >= claimed);
                        }
                    }
                    lemma_slice_sub(bytes, pos, b, hb.len() as int, eb.len() as int);
                    assert(b.subrange(hb.len() as int, hb.len() + eb.len() as int) =~= eb);
                    lemma_round_trip_list(h, es, *elem, ver, eb, bytes, p1, 0);
                    assert(es.subrange(0, es.len() as int) =~= es);
                }
            }
        },
        _ => {},
    }
}

/// Round-trip for a homogeneous element run, from element `i` on.
pub proof fn lemma_round_trip_list<H: SchemaHooks>(
    h: &H,
    es: Seq<ValueV>,
    t: Shape,
    ver: Version,
    b: Seq<u8>,
    bytes: Seq<u8>,
    pos: int,
    i: int,
)
    requires
        forall|j: int| 0 <= j < es.len() ==> vv_matches(#[trigger] es[j], t),
        stable_shape(t),
        0 <= i <= es.len(),
        spec_enc_list(h, es, t, ver, i) == Ok::<Seq<u8>, SpecErr>(b),
        0 <= pos,
        pos + b.len() <= bytes.len(),
        bytes.subrange(pos, pos + b.len()) == b,
    ensures
        spec_dec_elems(h, t, bytes, pos, es.len() - i, ver) == Ok::<(Seq<ValueV>, int), SpecErr>(
            (es.subrange(i, es.len() as int), pos + b.len()),
        ),
    decreases t, es.len() - i + 1,
{
    if i == es.len() {
        assert(es.subrange(i, es.len() as int) =~= Seq::<ValueV>::empty());
    } else {
        if let Ok(b0) = spec_enc(h, es[i], t, ver) {
            if let Ok(rest) = spec_enc_list(h, es, t, ver, i + 1) {
                assert(b =~= b0 + rest);
                lemma_slice_sub(bytes, pos, b, 0, b0.len() as int);
                assert(b.subrange(0, b0.len() as int) =~= b0);
                lemma_round_trip_at(h, es[i], t, ver, b0, bytes, pos);
                lemma_slice_sub(bytes, pos, b, b0.len() as int, rest.len() as int);
                assert(b.subrange(b0.len() as int, b0.len() + rest.len() as int) =~= rest);
                lemma_round_trip_list(h, es, t, ver, rest, bytes, pos + b0.len(), i + 1);
                assert(seq![es[i]] + es.subrange(i + 1, es.len() as int) =~= es.subrange(
                    i,
                    es.len() as int,
                ));
            }
        }
    }
}

/// Round-trip for a positional payload, from shape `i` on.
pub proof fn lemma_round_trip_payload<H: SchemaHooks>(
    h: &H,
    pl: Seq<ValueV>,
    shapes: Seq<Shape>,
    ver: Version,
    b: Seq<u8>,
    bytes: Seq<u8>,
    pos: int,
    i: int,
)
    requires
        pl.len() == shapes.len(),
        forall|j: int| 0 <= j < pl.len() ==> vv_matches(#[trigger] pl[j], shapes[j]),
        forall|j: int| 0 <= j < shapes.len() ==> stable_shape(#[trigger] shapes[j]),
        0 <= i <= pl.len(),
        spec_enc_payload(h, pl, shapes, ver, i) == Ok::<Seq<u8>, SpecErr>(b),
        0 <= pos,
        pos + b.len() <= bytes.len(),
        bytes.subrange(pos, pos + b.len()) == b,
    ensures
        spec_dec_payload(h, shapes, bytes, pos, ver, i) == Ok::<(Seq<ValueV>, int), SpecErr>(
            (pl.subrange(i, pl.len() as int), pos + b.len()),
        ),
    decreases shapes, pl.len() - i + 1,
{
    if i == pl.len() {
        assert(pl.subrange(i, pl.len() as int) =~= Seq::<ValueV>::empty());
    } else {
        if let Ok(b0) = spec_enc(h, pl[i], shapes[i], ver) {
            if let Ok(rest) = spec_enc_payload(h, pl, shapes, ver, i + 1) {
                assert(b =~= b0 + rest);
                lemma_slice_sub(bytes, pos, b, 0, b0.len() as int);
                assert(b.subrange(0, b0.len() as int) =~= b0);
                lemma_round_trip_at(h, pl[i], shapes[i], ver, b0, bytes, pos);
                lemma_slice_sub(bytes, pos, b, b0.len() as int, rest.len() as int);
                assert(b.subrange(b0.len() as int, b0.len() + rest.len() as int) =~= rest);
                lemma_round_trip_payload(h, pl, shapes, ver, rest, bytes, pos + b0.len(), i + 1);
                assert(seq![pl[i]] + pl.subrange(i + 1, pl.len() as int) =~= pl.subrange(
                    i,
                    pl.len() as int,
                ));
            }
        }
    }
}

/// Round-trip for a record's fields, from field `i` on, over the in-progress
/// record `acc`.
pub proof fn lemma_round_trip_fields<H: SchemaHooks>(
    h: &H,
    decls: Seq<FieldDecl>,
    fs: Seq<ValueV>,
    ver: Version,
    b: Seq<u8>,
    bytes: Seq<u8>,
    pos: int,
    i: int,
    acc: Seq<ValueV>,
)
    requires
        stable_fields(decls),
        fs.len() == decls.len(),
        acc.len() == decls.len(),
        forall|j: int| 0 <= j < fs.len() ==> vv_matches(#[trigger] fs[j], decls[j].shape),
        0 <= i <= decls.len(),
        spec_enc_fields(h, decls, fs, ver, i) == Ok::<(Seq<u8>, Seq<ValueV>), SpecErr>((b, fs)),
        0 <= pos,
        pos + b.len() <= bytes.len(),
        bytes.subrange(pos, pos + b.len()) == b,
    ensures
        spec_dec_fields(h, decls, bytes, pos, ver, i, acc) == Ok::<(Seq<ValueV>, int), SpecErr>(
            (
                Seq::new(
                    decls.len(),
                    |j: int|
                        if j < i {
                            acc[j]
                        } else {
                            fs[j]
                        },
                ),
                pos + b.len(),
            ),
        ),
    decreases decls, decls.len() - i + 1,
{
    lemma_stable_fields(decls);
    lemma_zero_gate_open(ver);
    if i == decls.len() {
        assert(Seq::new(
            decls.len(),
            |j: int|
                if j < i {
                    acc[j]
                } else {
                    fs[j]
                },
        ) =~= acc);
    } else {
        assert(gate_open(decls[i].start, decls[i].end, ver));
        if let Ok(b0) = spec_enc(h, fs[i], decls[i].shape, ver) {
            if let Ok((rest, fin)) = spec_enc_fields(h, decls, fs, ver, i + 1) {
                assert(spec_enc_fields(h, decls, fs, ver, i) == Ok::<
                    (Seq<u8>, Seq<ValueV>),
                    SpecErr,
                >((b0 + rest, fin)));
                assert(b == b0 + rest);
                lemma_slice_sub(bytes, pos, b, 0, b0.len() as int);
                assert(b.subrange(0, b0.len() as int) =~= b0);
                lemma_round_trip_at(h, fs[i], decls[i].shape, ver, b0, bytes, pos);
                lemma_slice_sub(bytes, pos, b, b0.len() as int, rest.len() as int);
                assert(b.subrange(b0.len() as int, b0.len() + rest.len() as int) =~= rest);
                let acc2 = acc.update(i, fs[i]);
                lemma_round_trip_fields(h, decls, fs, ver, rest, bytes, pos + b0.len(), i + 1, acc2);
                assert(Seq::new(
                    decls.len(),
                    |j: int|
                        if j < i + 1 {
                            acc2[j]
                        } else {
                            fs[j]
                        },
                ) =~= Seq::new(
                    decls.len(),
                    |j: int|
                        if j < i {
                            acc[j]
                        } else {
                            fs[j]
                        },
                ));
            }
        }
    }
}


/// Encoding is owed success for a well-typed value of a stable shape: no
/// gate can close, no hook can object, and every length fits its prefix.
#[verifier::rlimit(100)]
pub proof fn lemma_enc_total<H: SchemaHooks>(h: &H, v: ValueV, s: Shape, ver: Version)
    requires
        vv_matches(v, s),
        stable_shape(s),
    ensures
        spec_enc(h, v, s, ver) is Ok,
    decreases s, 0nat,
{
    match (v, s) {
        (ValueV::U8(x), Shape::U8) => {
            assert(spec_enc(h, v, s, ver) == Ok::<Seq<u8>, SpecErr>(seq![x]));
        },
        (ValueV::U16(x), Shape::U16) => {
            assert(spec_enc(h, v, s, ver) == Ok::<Seq<u8>, SpecErr>(spec_u16_to_le_bytes(x)));
        },
        (ValueV::U32(x), Shape::U32) => {
            assert(spec_enc(h, v, s, ver) == Ok::<Seq<u8>, SpecErr>(spec_u32_to_le_bytes(x)));
        },
        (ValueV::U64(x), Shape::U64) => {
            assert(spec_enc(h, v, s, ver) == Ok::<Seq<u8>, SpecErr>(spec_u64_to_le_bytes(x)));
        },
        (ValueV::Usize(x), Shape::Usize) => {
            assert(spec_enc(h, v, s, ver) == Ok::<Seq<u8>, SpecErr>(spec_u64_to_le_bytes(x)));
        },
        (ValueV::I8(x), Shape::I8) => {
            assert(spec_enc(h, v, s, ver) == Ok::<Seq<u8>, SpecErr>(seq![crate::wire::i8_to_bits(x)]));
        },
        (ValueV::I16(x), Shape::I16) => {
            assert(spec_enc(h, v, s, ver) == Ok::<Seq<u8>, SpecErr>(spec_u16_to_le_bytes(crate::wire::i16_to_bits(x))));
        },
        (ValueV::I32(x), Shape::I32) => {
            assert(spec_enc(h, v, s, ver) == Ok::<Seq<u8>, SpecErr>(spec_u32_to_le_bytes(crate::wire::i32_to_bits(x))));
        },
        (ValueV::I64(x), Shape::I64) => {
            assert(spec_enc(h, v, s, ver) == Ok::<Seq<u8>, SpecErr>(spec_u64_to_le_bytes(crate::wire::i64_to_bits(x))));
        },
        (ValueV::Isize(x), Shape::Isize) => {
            assert(spec_enc(h, v, s, ver) == Ok::<Seq<u8>, SpecErr>(spec_u64_to_le_bytes(crate::wire::i64_to_bits(x))));
        },
        (ValueV::Bool(x), Shape::Bool) => {
            assert(spec_enc(h, v, s, ver) == Ok::<Seq<u8>, SpecErr>(seq![if x { 1u8 } else { 0u8 }]));
        },
        (ValueV::Char(x), Shape::Char) => {
            assert(spec_enc(h, v, s, ver) == Ok::<Seq<u8>, SpecErr>(seq![(x as u8)]));
        },
        (ValueV::F32Bits(x), Shape::F32) => {
            assert(spec_enc(h, v, s, ver) == Ok::<Seq<u8>, SpecErr>(spec_u32_to_le_bytes(x)));
        },
        (ValueV::F64Bits(x), Shape::F64) => {
            assert(spec_enc(h, v, s, ver) == Ok::<Seq<u8>, SpecErr>(spec_u64_to_le_bytes(x)));
        },
        (ValueV::Str(bs), Shape::Str) => {
            assert(spec_enc(h, v, s, ver) is Ok);
        },
        (ValueV::Opt(o), Shape::Opt(t)) => {
            if let Option::Some(inner) = o {
                lemma_enc_total(h, *inner, *t, ver);
            }
            assert(spec_enc(h, v, s, ver) is Ok);
        },
        (ValueV::List(es), Shape::List(t)) => {
            lemma_enc_total_list(h, es, *t, ver, 0);
            assert(spec_enc(h, v, s, ver) is Ok);
        },
        (ValueV::List(es), Shape::Array(t, n)) => {
            lemma_enc_total_list(h, es, *t, ver, 0);
            assert(spec_enc(h, v, s, ver) is Ok);
        },
        (ValueV::Record(fs), Shape::Record(decls)) => {
            lemma_enc_total_fields(h, decls@, fs, ver, 0);
            assert(spec_enc(h, v, s, ver) is Ok);
        },
        (ValueV::Variant(d, pl), Shape::Choice(decls)) => {
            lemma_stable_variants(decls@);
            lemma_zero_gate_open(ver);
            assert(gate_open(decls@[d as int].start, decls@[d as int].end, ver));
            lemma_stable_shapes(decls@[d as int].payload@);
            lemma_enc_total_payload(h, pl, decls@[d as int].payload@, ver, 0);
            if let Ok(pb) = spec_enc_payload(h, pl, decls@[d as int].payload@, ver, 0) {
                assert(spec_enc_variant(h, decls@, d, pl, ver) == Ok::<Seq<u8>, SpecErr>(
                    spec_u32_to_le_bytes(d) + pb,
                ));
            }
        },
        (ValueV::Fam(hs, es), Shape::Fam { header, count_idx, capacity, elem }) => {
            lemma_enc_total_fields(h, header@, hs, ver, 0);
            lemma_enc_total_list(h, es, *elem, ver, 0);
            assert(spec_enc(h, v, s, ver) is Ok);
        },
        _ => {},
    }
}

/// Encoding a run of well-typed elements of a stable shape succeeds.
proof fn lemma_enc_total_list<H: SchemaHooks>(
    h: &H,
    es: Seq<ValueV>,
    t: Shape,
    ver: Version,
    i: int,
)
    requires
        forall|j: int| 0 <= j < es.len() ==> vv_matches(#[trigger] es[j], t),
        stable_shape(t),
        0 <= i <= es.len(),
    ensures
        spec_enc_list(h, es, t, ver, i) is Ok,
    decreases t, es.len() - i + 1,
{
    if i < es.len() {
        lemma_enc_total(h, es[i], t, ver);
        lemma_enc_total_list(h, es, t, ver, i + 1);
    }
}

/// Encoding a well-typed payload under stable shapes succeeds.
proof fn lemma_enc_total_payload<H: SchemaHooks>(
    h: &H,
    pl: Seq<ValueV>,
    shapes: Seq<Shape>,
    ver: Version,
    i: int,
)
    requires
        pl.len() == shapes.len(),
        forall|j: int| 0 <= j < pl.len() ==> vv_matches(#[trigger] pl[j], shapes[j]),
        forall|j: int| 0 <= j < shapes.len() ==> stable_shape(#[trigger] shapes[j]),
        0 <= i <= pl.len(),
    ensures
        spec_enc_payload(h, pl, shapes, ver, i) is Ok,
    decreases shapes, pl.len() - i + 1,
{
    if i < pl.len() {
        lemma_enc_total(h, pl[i], shapes[i], ver);
        lemma_enc_total_payload(h, pl, shapes, ver, i + 1);
    }
}

/// Encoding the well-typed fields of a stable record succeeds.
proof fn lemma_enc_total_fields<H: SchemaHooks>(
    h: &H,
    decls: Seq<FieldDecl>,
    fs: Seq<ValueV>,
    ver: Version,
    i: int,
)
    requires
        stable_fields(decls),
        fs.len() == decls.len(),
        forall|j: int| 0 <= j < fs.len() ==> vv_matches(#[trigger] fs[j], decls[j].shape),
        0 <= i <= decls.len(),
    ensures
        spec_enc_fields(h, decls, fs, ver, i) is Ok,
    decreases decls, decls.len() - i + 1,
{
    lemma_stable_fields(decls);
    lemma_zero_gate_open(ver);
    if i < decls.len() {
        lemma_enc_total(h, fs[i], decls[i].shape, ver);
        lemma_enc_total_fields(h, decls, fs, ver, i + 1);
    }
}

/// Round-trip at a stable version, top level: encoding a value of a type
/// with no version-gated parts and no hooks and decoding the result at the
/// same (indeed any) version yields the value back, consuming exactly its
/// bytes.
pub proof fn lemma_round_trip<H: SchemaHooks>(h: &H, v: ValueV, s: Shape, ver: Version)
    requires
        vv_matches(v, s),
        stable_shape(s),
    ensures
        spec_enc(h, v, s, ver) is Ok,
        ({
            let b = spec_enc(h, v, s, ver)->Ok_0;
            spec_dec(h, s, b, 0, ver) == Ok::<(ValueV, int), SpecErr>((v, b.len() as int))
        }),
{
    lemma_enc_total(h, v, s, ver);
    let b = spec_enc(h, v, s, ver)->Ok_0;
    assert(b.subrange(0, b.len() as int) =~= b);
    lemma_round_trip_at(h, v, s, ver, b, b, 0);
}

} // verus!
