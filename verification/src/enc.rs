//! The encoder: what bytes one value produces for a target version.
//!
//! The spec functions here define the canonical wire form exactly — the
//! per-field version gate, the pre-encode hook protocol (a field's hook runs
//! after that field's own bytes are committed and before the next field
//! begins), the enum fallback, and the header-plus-array layout.  The
//! executable encoder is verified to produce exactly these bytes, or exactly
//! the failure the spec functions compute.

use vstd::bytes::{spec_u16_to_le_bytes, spec_u32_to_le_bytes, spec_u64_to_le_bytes};
use vstd::prelude::*;

use crate::errors::{
    err_bad_value, err_fallback_invalid, err_matches, err_no_fallback, SpecErr, VersionizeError,
};
use crate::hooks::SchemaHooks;
use crate::value::{
    deep_view_seq, duplicate_vec, gate_open, gate_open_at, lemma_deep_view_seq, FieldDecl, Shape,
    Value, ValueV, VariantDecl,
};
use crate::version::Version;
use crate::wire::{
    i16_bits, i16_to_bits, i32_bits, i32_to_bits, i64_bits, i64_to_bits, i8_bits, i8_to_bits,
    push_bytes, push_u16, push_u32, push_u64,
};

verus! {

/// The bytes one value contributes for a target version, or the failure that
/// stops the whole encode.
pub open spec fn spec_enc<H: SchemaHooks>(h: &H, v: ValueV, s: Shape, target: Version) -> Result<
    Seq<u8>,
    SpecErr,
>
    decreases s, 0nat,
{
    match (v, s) {
        (ValueV::U8(x), Shape::U8) => Ok(seq![x]),
        (ValueV::U16(x), Shape::U16) => Ok(spec_u16_to_le_bytes(x)),
        (ValueV::U32(x), Shape::U32) => Ok(spec_u32_to_le_bytes(x)),
        (ValueV::U64(x), Shape::U64) => Ok(spec_u64_to_le_bytes(x)),
        (ValueV::Usize(x), Shape::Usize) => Ok(spec_u64_to_le_bytes(x)),
        (ValueV::I8(x), Shape::I8) => Ok(seq![i8_to_bits(x)]),
        (ValueV::I16(x), Shape::I16) => Ok(spec_u16_to_le_bytes(i16_to_bits(x))),
        (ValueV::I32(x), Shape::I32) => Ok(spec_u32_to_le_bytes(i32_to_bits(x))),
        (ValueV::I64(x), Shape::I64) => Ok(spec_u64_to_le_bytes(i64_to_bits(x))),
        (ValueV::Isize(x), Shape::Isize) => Ok(spec_u64_to_le_bytes(i64_to_bits(x))),
        (ValueV::Bool(b), Shape::Bool) => Ok(seq![if b { 1u8 } else { 0u8 }]),
        (ValueV::Char(c), Shape::Char) => if c as int <= 0xFF {
            Ok(seq![c as u8])
        } else {
            Err(SpecErr::BadValue)
        },
        (ValueV::F32Bits(x), Shape::F32) => Ok(spec_u32_to_le_bytes(x)),
        (ValueV::F64Bits(x), Shape::F64) => Ok(spec_u64_to_le_bytes(x)),
        (ValueV::Str(bs), Shape::Str) => if bs.len() < 0x1_0000_0000_0000_0000 {
            Ok(spec_u64_to_le_bytes(bs.len() as u64) + bs)
        } else {
            Err(SpecErr::BadValue)
        },
        (ValueV::Opt(o), Shape::Opt(t)) => match o {
            Option::None => Ok(seq![0u8]),
            Option::Some(b) => match spec_enc(h, *b, *t, target) {
                Ok(bs) => Ok(seq![1u8] + bs),
                Err(e) => Err(e),
            },
        },
        (ValueV::List(es), Shape::List(t)) => if es.len() < 0x1_0000_0000_0000_0000 {
            match spec_enc_list(h, es, *t, target, 0) {
                Ok(bs) => Ok(spec_u64_to_le_bytes(es.len() as u64) + bs),
                Err(e) => Err(e),
            }
        } else {
            Err(SpecErr::BadValue)
        },
        (ValueV::List(es), Shape::Array(t, n)) => if es.len() == n {
            spec_enc_list(h, es, *t, target, 0)
        } else {
            Err(SpecErr::BadValue)
        },
        (ValueV::Record(fs), Shape::Record(decls)) => match spec_enc_fields(
            h,
            decls@,
            fs,
            target,
            0,
        ) {
            Ok((bs, fin)) => Ok(bs),
            Err(e) => Err(e),
        },
        (ValueV::Variant(d, pl), Shape::Choice(decls)) => spec_enc_variant(h, decls@, d, pl, target),
        (ValueV::Fam(hs, es), Shape::Fam { header, count_idx, capacity, elem }) => match
            spec_enc_fields(h, header@, hs, target, 0) {
            Err(e) => Err(e),
            Ok((hb, fin)) => match spec_enc_list(h, es, *elem, target, 0) {
                Err(e) => Err(e),
                Ok(eb) => Ok(hb + eb),
            },
        },
        _ => Err(SpecErr::BadValue),
    }
}

/// The bytes of the elements from index `i` on, each encoded under the one
/// element shape.
pub open spec fn spec_enc_list<H: SchemaHooks>(
    h: &H,
    es: Seq<ValueV>,
    t: Shape,
    target: Version,
    i: int,
) -> Result<Seq<u8>, SpecErr>
    decreases t, es.len() - i + 1,
{
    if i < 0 || i >= es.len() {
        Ok(Seq::empty())
    } else {
        match spec_enc(h, es[i], t, target) {
            Err(e) => Err(e),
            Ok(b) => match spec_enc_list(h, es, t, target, i + 1) {
                Err(e) => Err(e),
                Ok(rest) => Ok(b + rest),
            },
        }
    }
}

/// The bytes of a variant payload from index `i` on, encoded positionally
/// under the declared payload shapes.
pub open spec fn spec_enc_payload<H: SchemaHooks>(
    h: &H,
    pl: Seq<ValueV>,
    shapes: Seq<Shape>,
    target: Version,
    i: int,
) -> Result<Seq<u8>, SpecErr>
    decreases shapes, pl.len() - i + 1,
{
    if pl.len() != shapes.len() {
        Err(SpecErr::BadValue)
    } else if i < 0 || i >= pl.len() {
        Ok(Seq::empty())
    } else {
        match spec_enc(h, pl[i], shapes[i], target) {
            Err(e) => Err(e),
            Ok(b) => match spec_enc_payload(h, pl, shapes, target, i + 1) {
                Err(e) => Err(e),
                Ok(rest) => Ok(b + rest),
            },
        }
    }
}

/// The struct engine's encode pass from field `i` on: a present field's bytes
/// are committed, then its pre-encode hook (if declared) may rewrite the
/// whole record — including fields not yet encoded — or abort; an absent
/// field contributes no bytes but its hook still runs.  Yields the bytes and
/// the record as the hooks left it.
pub open spec fn spec_enc_fields<H: SchemaHooks>(
    h: &H,
    decls: Seq<FieldDecl>,
    fs: Seq<ValueV>,
    target: Version,
    i: int,
) -> Result<(Seq<u8>, Seq<ValueV>), SpecErr>
    decreases decls, decls.len() - i + 1,
{
    if i < 0 || i >= decls.len() {
        Ok((Seq::empty(), fs))
    } else if fs.len() != decls.len() {
        Err(SpecErr::BadValue)
    } else {
        let own = if gate_open(decls[i].start, decls[i].end, target) {
            spec_enc(h, fs[i], decls[i].shape, target)
        } else {
            Ok(Seq::empty())
        };
        match own {
            Err(e) => Err(e),
            Ok(b) => {
                let hooked = match decls[i].pre_id {
                    Option::None => Ok(fs),
                    Option::Some(id) => h.spec_pre(id, fs, target),
                };
                match hooked {
                    Err(m) => Err(SpecErr::Semantic(m)),
                    Ok(fs2) => match spec_enc_fields(h, decls, fs2, target, i + 1) {
                        Err(e) => Err(e),
                        Ok((rest, fin)) => Ok((b + rest, fin)),
                    },
                }
            },
        }
    }
}

/// The enum engine's encode: a variant present at the target is written as
/// its 4-byte discriminant and payload; one that is absent is first
/// rewritten by its declared fallback, and the replacement must pass the
/// version gate, so no invalid discriminant ever reaches the wire.
pub open spec fn spec_enc_variant<H: SchemaHooks>(
    h: &H,
    decls: Seq<VariantDecl>,
    idx: u32,
    pl: Seq<ValueV>,
    target: Version,
) -> Result<Seq<u8>, SpecErr>
    decreases decls, decls.len() + 1,
{
    if idx >= decls.len() {
        Err(SpecErr::BadValue)
    } else if gate_open(decls[idx as int].start, decls[idx as int].end, target) {
        match spec_enc_payload(h, pl, decls[idx as int].payload@, target, 0) {
            Err(e) => Err(e),
            Ok(b) => Ok(spec_u32_to_le_bytes(idx) + b),
        }
    } else {
        match decls[idx as int].fallback_id {
            Option::None => Err(SpecErr::NoFallback),
            Option::Some(id) => match h.spec_fallback(id, ValueV::Variant(idx, pl), target) {
                Err(m) => Err(SpecErr::Semantic(m)),
                Ok(repl) => match repl {
                    ValueV::Variant(idx2, pl2) => if idx2 < decls.len() && gate_open(
                        decls[idx2 as int].start,
                        decls[idx2 as int].end,
                        target,
                    ) {
                        match spec_enc_payload(h, pl2, decls[idx2 as int].payload@, target, 0) {
                            Err(e) => Err(e),
                            Ok(b) => Ok(spec_u32_to_le_bytes(idx2) + b),
                        }
                    } else {
                        Err(SpecErr::FallbackInvalid)
                    },
                    _ => Err(SpecErr::FallbackInvalid),
                },
            },
        }
    }
}

/// Encodes one value for the target version, appending its bytes.
///
/// On success exactly the spec bytes were appended; on failure the error is
/// exactly the one the spec computes, and the sink may hold a partial prefix.
pub fn enc_value<H: SchemaHooks>(
    h: &H,
    v: &Value,
    s: &Shape,
    target: &Version,
    out: &mut Vec<u8>,
) -> (r: Result<(), VersionizeError>)
    ensures
        match spec_enc(h, v.deep_view(), *s, *target) {
            Ok(bytes) => r matches Ok(_) && final(out)@ == old(out)@ + bytes,
            Err(se) => r matches Err(e) && err_matches(e, se),
        },
    decreases s, 0nat,
{
    match (v, s) {
        (Value::U8(x), Shape::U8) => {
            out.push(*x);
            proof {
                assert(final(out)@ =~= old(out)@ + seq![*x]);
            }
            Ok(())
        },
        (Value::U16(x), Shape::U16) => {
            push_u16(out, *x);
            Ok(())
        },
        (Value::U32(x), Shape::U32) => {
            push_u32(out, *x);
            Ok(())
        },
        (Value::U64(x), Shape::U64) => {
            push_u64(out, *x);
            Ok(())
        },
        (Value::Usize(x), Shape::Usize) => {
            push_u64(out, *x);
            Ok(())
        },
        (Value::I8(x), Shape::I8) => {
            let b = i8_bits(*x);
            out.push(b);
            proof {
                assert(final(out)@ =~= old(out)@ + seq![i8_to_bits(*x)]);
            }
            Ok(())
        },
        (Value::I16(x), Shape::I16) => {
            push_u16(out, i16_bits(*x));
            Ok(())
        },
        (Value::I32(x), Shape::I32) => {
            push_u32(out, i32_bits(*x));
            Ok(())
        },
        (Value::I64(x), Shape::I64) => {
            push_u64(out, i64_bits(*x));
            Ok(())
        },
        (Value::Isize(x), Shape::Isize) => {
            push_u64(out, i64_bits(*x));
            Ok(())
        },
        (Value::Bool(b), Shape::Bool) => {
            out.push(if *b { 1u8 } else { 0u8 });
            proof {
                assert(final(out)@ =~= old(out)@ + seq![if *b { 1u8 } else { 0u8 }]);
            }
            Ok(())
        },
        (Value::Char(c), Shape::Char) => {
            let code = *c as u32;
            if code <= 0xFF {
                out.push(code as u8);
                proof {
                    assert(final(out)@ =~= old(out)@ + seq![(*c as u8)]);
                }
                Ok(())
            } else {
                Err(err_bad_value())
            }
        },
        (Value::F32Bits(x), Shape::F32) => {
            push_u32(out, *x);
            Ok(())
        },
        (Value::F64Bits(x), Shape::F64) => {
            push_u64(out, *x);
            Ok(())
        },
        (Value::Str(bs), Shape::Str) => {
            push_u64(out, bs.len() as u64);
            push_bytes(out, bs);
            Ok(())
        },
        (Value::Opt(o), Shape::Opt(t)) => {
            match o {
                Option::None => {
                    out.push(0u8);
                    proof {
                        assert(final(out)@ =~= old(out)@ + seq![0u8]);
                    }
                    Ok(())
                },
                Option::Some(b) => {
                    let ghost mid = out@.push(1u8);
                    out.push(1u8);
                    let r = enc_value(h, b, t, target, out);
                    proof {
                        if let Ok(bytes) = spec_enc(h, (**b).deep_view(), **t, *target) {
                            if r is Ok {
                                assert(final(out)@ =~= old(out)@ + (seq![1u8] + bytes));
                            }
                        }
                    }
                    r
                },
            }
        },
        (Value::List(es), Shape::List(t)) => {
            push_u64(out, es.len() as u64);
            let ghost mid = out@;
            let r = enc_list(h, es, t, target, out);
            proof {
                lemma_deep_view_seq(es@);
                if let Ok(bytes) = spec_enc_list(h, deep_view_seq(es@), **t, *target, 0) {
                    if r is Ok {
                        assert(final(out)@ =~= old(out)@ + (spec_u64_to_le_bytes(
                            es@.len() as u64,
                        ) + bytes));
                    }
                }
            }
            r
        },
        (Value::List(es), Shape::Array(t, n)) => {
            proof {
                lemma_deep_view_seq(es@);
            }
            if es.len() == *n {
                enc_list(h, es, t, target, out)
            } else {
                Err(err_bad_value())
            }
        },
        (Value::Record(fs), Shape::Record(decls)) => {
            let mut work = duplicate_vec(fs);
            proof {
                lemma_deep_view_seq(fs@);
                lemma_deep_view_seq(work@);
                assert(deep_view_seq(work@) =~= deep_view_seq(fs@));
            }
            enc_fields(h, decls, &mut work, target, out)
        },
        (Value::Variant(d, pl), Shape::Choice(decls)) => enc_variant(h, decls, *d, pl, target, out),
        (Value::Fam(hs, es), Shape::Fam { header, count_idx, capacity, elem }) => {
            let mut work = duplicate_vec(hs);
            proof {
                lemma_deep_view_seq(hs@);
                lemma_deep_view_seq(work@);
                assert(deep_view_seq(work@) =~= deep_view_seq(hs@));
            }
            let ghost base = out@;
            let r = enc_fields(h, header, &mut work, target, out);
            match r {
                Err(e) => Err(e),
                Ok(_) => {
                    let ghost mid = out@;
                    let r2 = enc_list(h, es, elem, target, out);
                    proof {
                        lemma_deep_view_seq(es@);
                        if let Ok((hb, fin)) = spec_enc_fields(
                            h,
                            header@,
                            deep_view_seq(hs@),
                            *target,
                            0,
                        ) {
                            if let Ok(eb) = spec_enc_list(
                                h,
                                deep_view_seq(es@),
                                **elem,
                                *target,
                                0,
                            ) {
                                if r2 is Ok {
                                    assert(final(out)@ =~= base + (hb + eb));
                                }
                            }
                        }
                    }
                    r2
                },
            }
        },
        _ => Err(err_bad_value()),
    }
}

/// Encodes each element of a homogeneous sequence in order.
pub fn enc_list<H: SchemaHooks>(
    h: &H,
    es: &Vec<Value>,
    t: &Shape,
    target: &Version,
    out: &mut Vec<u8>,
) -> (r: Result<(), VersionizeError>)
    ensures
        match spec_enc_list(h, deep_view_seq(es@), *t, *target, 0) {
            Ok(bytes) => r matches Ok(_) && final(out)@ == old(out)@ + bytes,
            Err(se) => r matches Err(e) && err_matches(e, se),
        },
    decreases t, 1nat,
{
    let ghost dvs = deep_view_seq(es@);
    let ghost base = out@;
    let ghost full = spec_enc_list(h, dvs, *t, *target, 0);
    proof {
        lemma_deep_view_seq(es@);
        if let Ok(all) = full {
            assert(Seq::<u8>::empty() + all =~= all);
        }
    }
    let mut i: usize = 0;
    while i < es.len()
        invariant
            i <= es@.len(),
            dvs == deep_view_seq(es@),
            base.len() <= out@.len(),
            out@.subrange(0, base.len() as int) == base,
            full == spec_enc_list(h, dvs, *t, *target, 0),
            match spec_enc_list(h, dvs, *t, *target, i as int) {
                Ok(rest) => full matches Ok(all) && all == out@.subrange(
                    base.len() as int,
                    out@.len() as int,
                ) + rest,
                Err(e) => full == Err::<Seq<u8>, SpecErr>(e),
            },
        decreases es@.len() - i,
    {
        proof {
            lemma_deep_view_seq(es@);
        }
        let ghost pre = out@;
        let r = enc_value(h, &es[i], t, target, out);
        match r {
            Err(e) => {
                return Err(e);
            },
            Ok(_) => {},
        }
        proof {
            let ghost written = pre.subrange(base.len() as int, pre.len() as int);
            if let Ok(b) = spec_enc(h, dvs[i as int], *t, *target) {
                assert(out@ == pre + b);
                assert(out@.subrange(0, base.len() as int) =~= base);
                assert(out@.subrange(base.len() as int, out@.len() as int) =~= written + b);
                if let Ok(rest) = spec_enc_list(h, dvs, *t, *target, i + 1) {
                    assert((written + b) + rest =~= written + (b + rest));
                }
            }
        }
        i = i + 1;
    }
    proof {
        let ghost written = out@.subrange(base.len() as int, out@.len() as int);
        assert(written + Seq::<u8>::empty() =~= written);
        assert(out@ =~= base + written);
    }
    Ok(())
}

/// Encodes a variant payload positionally under the declared shapes.
pub fn enc_payload<H: SchemaHooks>(
    h: &H,
    pl: &Vec<Value>,
    shapes: &Vec<Shape>,
    target: &Version,
    out: &mut Vec<u8>,
) -> (r: Result<(), VersionizeError>)
    ensures
        match spec_enc_payload(h, deep_view_seq(pl@), shapes@, *target, 0) {
            Ok(bytes) => r matches Ok(_) && final(out)@ == old(out)@ + bytes,
            Err(se) => r matches Err(e) && err_matches(e, se),
        },
    decreases shapes, 1nat,
{
    let ghost dvs = deep_view_seq(pl@);
    let ghost base = out@;
    let ghost full = spec_enc_payload(h, dvs, shapes@, *target, 0);
    proof {
        lemma_deep_view_seq(pl@);
    }
    if pl.len() != shapes.len() {
        return Err(err_bad_value());
    }
    proof {
        if let Ok(all) = full {
            assert(Seq::<u8>::empty() + all =~= all);
        }
    }
    let mut i: usize = 0;
    while i < pl.len()
        invariant
            i <= pl@.len(),
            pl@.len() == shapes@.len(),
            dvs == deep_view_seq(pl@),
            base.len() <= out@.len(),
            out@.subrange(0, base.len() as int) == base,
            full == spec_enc_payload(h, dvs, shapes@, *target, 0),
            match spec_enc_payload(h, dvs, shapes@, *target, i as int) {
                Ok(rest) => full matches Ok(all) && all == out@.subrange(
                    base.len() as int,
                    out@.len() as int,
                ) + rest,
                Err(e) => full == Err::<Seq<u8>, SpecErr>(e),
            },
        decreases pl@.len() - i,
    {
        proof {
            lemma_deep_view_seq(pl@);
            assert(decreases_to!(shapes@ => shapes@[i as int]));
        }
        let ghost pre = out@;
        let r = enc_value(h, &pl[i], &shapes[i], target, out);
        match r {
            Err(e) => {
                return Err(e);
            },
            Ok(_) => {},
        }
        proof {
            let ghost written = pre.subrange(base.len() as int, pre.len() as int);
            if let Ok(b) = spec_enc(h, dvs[i as int], shapes@[i as int], *target) {
                assert(out@ == pre + b);
                assert(out@.subrange(0, base.len() as int) =~= base);
                assert(out@.subrange(base.len() as int, out@.len() as int) =~= written + b);
                if let Ok(rest) = spec_enc_payload(h, dvs, shapes@, *target, i + 1) {
                    assert((written + b) + rest =~= written + (b + rest));
                }
            }
        }
        i = i + 1;
    }
    proof {
        let ghost written = out@.subrange(base.len() as int, out@.len() as int);
        assert(written + Seq::<u8>::empty() =~= written);
        assert(out@ =~= base + written);
    }
    Ok(())
}

/// The struct engine's encode pass: per field in declaration order, commit
/// the present field's bytes, then run its pre-encode hook on the whole
/// record.
pub fn enc_fields<H: SchemaHooks>(
    h: &H,
    decls: &Vec<FieldDecl>,
    fields: &mut Vec<Value>,
    target: &Version,
    out: &mut Vec<u8>,
) -> (r: Result<(), VersionizeError>)
    ensures
        match spec_enc_fields(h, decls@, deep_view_seq(old(fields)@), *target, 0) {
            Ok((bytes, fin)) => r matches Ok(_) && final(out)@ == old(out)@ + bytes
                && deep_view_seq(final(fields)@) == fin,
            Err(se) => r matches Err(e) && err_matches(e, se),
        },
    decreases decls, 1nat,
{
    let ghost fs0 = deep_view_seq(fields@);
    let ghost base = out@;
    let ghost full = spec_enc_fields(h, decls@, fs0, *target, 0);
    proof {
        lemma_deep_view_seq(fields@);
        if let Ok((all, fin)) = full {
            assert(Seq::<u8>::empty() + all =~= all);
        }
    }
    let mut i: usize = 0;
    while i < decls.len()
        invariant
            i <= decls@.len(),
            base.len() <= out@.len(),
            out@.subrange(0, base.len() as int) == base,
            base == old(out)@,
            fs0 == deep_view_seq(old(fields)@),
            full == spec_enc_fields(h, decls@, fs0, *target, 0),
            match spec_enc_fields(h, decls@, deep_view_seq(fields@), *target, i as int) {
                Ok((rest, fin)) => full matches Ok(p) && p.0 == out@.subrange(
                    base.len() as int,
                    out@.len() as int,
                ) + rest && p.1 == fin,
                Err(e) => full == Err::<(Seq<u8>, Seq<ValueV>), SpecErr>(e),
            },
        decreases decls@.len() - i,
    {
        let ghost fs_cur = deep_view_seq(fields@);
        proof {
            lemma_deep_view_seq(fields@);
        }
        if fields.len() != decls.len() {
            proof {
                assert(spec_enc_fields(h, decls@, fs_cur, *target, i as int) == Err::<
                    (Seq<u8>, Seq<ValueV>),
                    SpecErr,
                >(SpecErr::BadValue));
            }
            return Err(err_bad_value());
        }
        let d = &decls[i];
        let ghost pre = out@;
        proof {
            assert(decreases_to!(decls@ => decls@[i as int]));
            assert(decreases_to!(decls@[i as int] => decls@[i as int].shape));
        }
        if gate_open_at(&d.start, &d.end, target) {
            let r = enc_value(h, &fields[i], &d.shape, target, out);
            match r {
                Err(e) => {
                    proof {
                        if let Err(se) = spec_enc(
                            h,
                            fs_cur[i as int],
                            decls@[i as int].shape,
                            *target,
                        ) {
                            assert(spec_enc_fields(h, decls@, fs_cur, *target, i as int) == Err::<
                                (Seq<u8>, Seq<ValueV>),
                                SpecErr,
                            >(se));
                        }
                    }
                    return Err(e);
                },
                Ok(_) => {},
            }
        }
        proof {
            let ghost written = pre.subrange(base.len() as int, pre.len() as int);
            let ghost own = if gate_open(decls@[i as int].start, decls@[i as int].end, *target) {
                spec_enc(h, fs_cur[i as int], decls@[i as int].shape, *target)
            } else {
                Ok(Seq::<u8>::empty())
            };
            if let Ok(b) = own {
                if !gate_open(decls@[i as int].start, decls@[i as int].end, *target) {
                    assert(pre + b =~= pre);
                }
                assert(out@ == pre + b);
                assert(out@.subrange(0, base.len() as int) =~= base);
                assert(out@.subrange(base.len() as int, out@.len() as int) =~= written + b);
            }
        }
        match d.pre_id {
            Option::None => {},
            Option::Some(id) => {
                let hr = h.run_pre(id, fields, target);
                match hr {
                    Err(e) => {
                        return Err(e);
                    },
                    Ok(_) => {},
                }
            },
        }
        proof {
            let ghost fs_next = deep_view_seq(fields@);
            let ghost written = out@.subrange(base.len() as int, out@.len() as int);
            let ghost own = if gate_open(decls@[i as int].start, decls@[i as int].end, *target) {
                spec_enc(h, fs_cur[i as int], decls@[i as int].shape, *target)
            } else {
                Ok(Seq::<u8>::empty())
            };
            if let Ok(b) = own {
                if let Ok((rest, fin)) = spec_enc_fields(h, decls@, fs_next, *target, i + 1) {
                    let ghost w_pre = pre.subrange(base.len() as int, pre.len() as int);
                    assert((w_pre + b) + rest =~= w_pre + (b + rest));
                }
            }
        }
        i = i + 1;
    }
    proof {
        let ghost written = out@.subrange(base.len() as int, out@.len() as int);
        assert(written + Seq::<u8>::empty() =~= written);
        assert(out@ =~= base + written);
    }
    Ok(())
}

/// The enum engine's encode: gate the variant, fall back if it is absent,
/// and emit discriminant plus payload.
pub fn enc_variant<H: SchemaHooks>(
    h: &H,
    decls: &Vec<VariantDecl>,
    idx: u32,
    pl: &Vec<Value>,
    target: &Version,
    out: &mut Vec<u8>,
) -> (r: Result<(), VersionizeError>)
    ensures
        match spec_enc_variant(h, decls@, idx, deep_view_seq(pl@), *target) {
            Ok(bytes) => r matches Ok(_) && final(out)@ == old(out)@ + bytes,
            Err(se) => r matches Err(e) && err_matches(e, se),
        },
    decreases decls, 2nat,
{
    let n = decls.len();
    if idx as usize >= n {
        return Err(err_bad_value());
    }
    let d = &decls[idx as usize];
    proof {
        assert(decreases_to!(decls@ => decls@[idx as int]));
        assert(decreases_to!(decls@[idx as int] => decls@[idx as int].payload));
    }
    if gate_open_at(&d.start, &d.end, target) {
        push_u32(out, idx);
        let ghost mid = out@;
        let r = enc_payload(h, pl, &d.payload, target, out);
        proof {
            if let Ok(b) = spec_enc_payload(
                h,
                deep_view_seq(pl@),
                decls@[idx as int].payload@,
                *target,
                0,
            ) {
                if r is Ok {
                    assert(final(out)@ =~= old(out)@ + (spec_u32_to_le_bytes(idx) + b));
                }
            }
        }
        r
    } else {
        match d.fallback_id {
            Option::None => Err(err_no_fallback()),
            Option::Some(id) => {
                let current = Value::Variant(idx, duplicate_vec(pl));
                proof {
                    lemma_deep_view_seq(pl@);
                    assert(current.deep_view() matches ValueV::Variant(di, dpl) && di == idx && dpl
                        =~= deep_view_seq(pl@));
                }
                let fr = h.run_fallback(id, &current, target);
                match fr {
                    Err(e) => Err(e),
                    Ok(repl) => {
                        match repl {
                            Value::Variant(idx2, pl2) => {
                                if (idx2 as usize) < decls.len() {
                                    let d2 = &decls[idx2 as usize];
                                    proof {
                                        assert(decreases_to!(decls@ => decls@[idx2 as int]));
                                        assert(decreases_to!(
                                            decls@[idx2 as int] => decls@[idx2 as int].payload));
                                    }
                                    if gate_open_at(&d2.start, &d2.end, target) {
                                        push_u32(out, idx2);
                                        let r = enc_payload(h, &pl2, &d2.payload, target, out);
                                        proof {
                                            lemma_deep_view_seq(pl2@);
                                            if let Ok(b) = spec_enc_payload(
                                                h,
                                                deep_view_seq(pl2@),
                                                decls@[idx2 as int].payload@,
                                                *target,
                                                0,
                                            ) {
                                                if r is Ok {
                                                    assert(final(out)@ =~= old(out)@ + (
                                                    spec_u32_to_le_bytes(idx2) + b));
                                                }
                                            }
                                        }
                                        r
                                    } else {
                                        Err(err_fallback_invalid())
                                    }
                                } else {
                                    Err(err_fallback_invalid())
                                }
                            },
                            _ => Err(err_fallback_invalid()),
                        }
                    },
                }
            },
        }
    }
}

} // verus!
