//! The decoder: how one value is reconstructed from a historical encoding.
//!
//! The Version used to decode is supplied externally — there is no embedded
//! version tag.  A field absent at the source version is not read but
//! synthesized (by its declared default hook, else the shape's zero value),
//! and each field's post-decode hook runs on the whole in-progress record
//! right after that field's value is settled.  The spec functions define the
//! result exactly; the executable decoder is verified to return it.

use vstd::bytes::{spec_u16_from_le_bytes, spec_u32_from_le_bytes, spec_u64_from_le_bytes};
use vstd::prelude::*;

use crate::errors::{
    err_bad_discriminant, err_bad_tag, err_bad_value, err_eof, err_fallback_invalid, err_matches,
    err_no_fallback,
    SpecErr, VersionizeError,
};
use crate::hooks::SchemaHooks;
use crate::value::{
    deep_view_seq, gate_open, gate_open_at, lemma_deep_view_seq, lemma_zero_fields, make_zero,
    make_zero_fields, zero_fields, zero_value, FieldDecl, Shape, Value, ValueV,
};
use crate::version::Version;
use crate::wire::{
    bits_to_i16, bits_to_i32, bits_to_i64, bits_to_i8, i16_of_bits, i32_of_bits, i64_of_bits,
    i8_of_bits, read_u16, read_u32, read_u64,
};

verus! {

/// The fixed byte width of a shape's encoding, where one exists.  Shapes with
/// length-dependent encodings have none.
pub open spec fn fixed_width(s: Shape) -> Option<int>
    decreases s,
{
    match s {
        Shape::U8 => Some(1),
        Shape::U16 => Some(2),
        Shape::U32 => Some(4),
        Shape::U64 => Some(8),
        Shape::Usize => Some(8),
        Shape::I8 => Some(1),
        Shape::I16 => Some(2),
        Shape::I32 => Some(4),
        Shape::I64 => Some(8),
        Shape::Isize => Some(8),
        Shape::Bool => Some(1),
        Shape::Char => Some(1),
        Shape::F32 => Some(4),
        Shape::F64 => Some(8),
        Shape::Array(t, n) => match fixed_width(*t) {
            Option::Some(w) => if w * n <= 0xFFFF_FFFF_FFFF_FFFF {
                Some(w * n)
            } else {
                None
            },
            Option::None => None,
        },
        _ => None,
    }
}

/// Decodes one value of the given shape at `pos`, for the source version;
/// yields the value and the position after its bytes.
pub open spec fn spec_dec<H: SchemaHooks>(
    h: &H,
    s: Shape,
    bytes: Seq<u8>,
    pos: int,
    source: Version,
) -> Result<(ValueV, int), SpecErr>
    decreases s, 0nat,
{
    if pos < 0 {
        Err(SpecErr::Eof)
    } else {
        match s {
            Shape::U8 => if pos + 1 <= bytes.len() {
                Ok((ValueV::U8(bytes[pos]), pos + 1))
            } else {
                Err(SpecErr::Eof)
            },
            Shape::U16 => if pos + 2 <= bytes.len() {
                Ok((ValueV::U16(spec_u16_from_le_bytes(bytes.subrange(pos, pos + 2))), pos + 2))
            } else {
                Err(SpecErr::Eof)
            },
            Shape::U32 => if pos + 4 <= bytes.len() {
                Ok((ValueV::U32(spec_u32_from_le_bytes(bytes.subrange(pos, pos + 4))), pos + 4))
            } else {
                Err(SpecErr::Eof)
            },
            Shape::U64 => if pos + 8 <= bytes.len() {
                Ok((ValueV::U64(spec_u64_from_le_bytes(bytes.subrange(pos, pos + 8))), pos + 8))
            } else {
                Err(SpecErr::Eof)
            },
            Shape::Usize => if pos + 8 <= bytes.len() {
                Ok((ValueV::Usize(spec_u64_from_le_bytes(bytes.subrange(pos, pos + 8))), pos + 8))
            } else {
                Err(SpecErr::Eof)
            },
            Shape::I8 => if pos + 1 <= bytes.len() {
                Ok((ValueV::I8(bits_to_i8(bytes[pos])), pos + 1))
            } else {
                Err(SpecErr::Eof)
            },
            Shape::I16 => if pos + 2 <= bytes.len() {
                Ok(
                    (
                        ValueV::I16(bits_to_i16(spec_u16_from_le_bytes(bytes.subrange(pos, pos + 2)))),
                        pos + 2,
                    ),
                )
            } else {
                Err(SpecErr::Eof)
            },
            Shape::I32 => if pos + 4 <= bytes.len() {
                Ok(
                    (
                        ValueV::I32(bits_to_i32(spec_u32_from_le_bytes(bytes.subrange(pos, pos + 4)))),
                        pos + 4,
                    ),
                )
            } else {
                Err(SpecErr::Eof)
            },
            Shape::I64 => if pos + 8 <= bytes.len() {
                Ok(
                    (
                        ValueV::I64(bits_to_i64(spec_u64_from_le_bytes(bytes.subrange(pos, pos + 8)))),
                        pos + 8,
                    ),
                )
            } else {
                Err(SpecErr::Eof)
            },
            Shape::Isize => if pos + 8 <= bytes.len() {
                Ok(
                    (
                        ValueV::Isize(
                            bits_to_i64(spec_u64_from_le_bytes(bytes.subrange(pos, pos + 8))),
                        ),
                        pos + 8,
                    ),
                )
            } else {
                Err(SpecErr::Eof)
            },
            Shape::Bool => if pos + 1 <= bytes.len() {
                if bytes[pos] == 0 {
                    Ok((ValueV::Bool(false), pos + 1))
                } else if bytes[pos] == 1 {
                    Ok((ValueV::Bool(true), pos + 1))
                } else {
                    Err(SpecErr::BadTag)
                }
            } else {
                Err(SpecErr::Eof)
            },
            Shape::Char => if pos + 1 <= bytes.len() {
                Ok((ValueV::Char(bytes[pos] as char), pos + 1))
            } else {
                Err(SpecErr::Eof)
            },
            Shape::F32 => if pos + 4 <= bytes.len() {
                Ok((ValueV::F32Bits(spec_u32_from_le_bytes(bytes.subrange(pos, pos + 4))), pos + 4))
            } else {
                Err(SpecErr::Eof)
            },
            Shape::F64 => if pos + 8 <= bytes.len() {
                Ok((ValueV::F64Bits(spec_u64_from_le_bytes(bytes.subrange(pos, pos + 8))), pos + 8))
            } else {
                Err(SpecErr::Eof)
            },
            Shape::Str => if pos + 8 <= bytes.len() {
                let n = spec_u64_from_le_bytes(bytes.subrange(pos, pos + 8)) as int;
                if pos + 8 + n <= bytes.len() {
                    Ok((ValueV::Str(bytes.subrange(pos + 8, pos + 8 + n)), pos + 8 + n))
                } else {
                    Err(SpecErr::Eof)
                }
            } else {
                Err(SpecErr::Eof)
            },
            Shape::Opt(t) => if pos + 1 <= bytes.len() {
                if bytes[pos] == 0 {
                    Ok((ValueV::Opt(None), pos + 1))
                } else if bytes[pos] == 1 {
                    match spec_dec(h, *t, bytes, pos + 1, source) {
                        Err(e) => Err(e),
                        Ok((v, p)) => Ok((ValueV::Opt(Some(Box::new(v))), p)),
                    }
                } else {
                    Err(SpecErr::BadTag)
                }
            } else {
                Err(SpecErr::Eof)
            },
            Shape::List(t) => if pos + 8 <= bytes.len() {
                let n = spec_u64_from_le_bytes(bytes.subrange(pos, pos + 8)) as int;
                match spec_dec_elems(h, *t, bytes, pos + 8, n, source) {
                    Err(e) => Err(e),
                    Ok((es, p)) => Ok((ValueV::List(es), p)),
                }
            } else {
                Err(SpecErr::Eof)
            },
            Shape::Array(t, n) => match spec_dec_elems(h, *t, bytes, pos, n as int, source) {
                Err(e) => Err(e),
                Ok((es, p)) => Ok((ValueV::List(es), p)),
            },
            Shape::Record(decls) => match spec_dec_fields(
                h,
                decls@,
                bytes,
                pos,
                source,
                0,
                zero_fields(decls@),
            ) {
                Err(e) => Err(e),
                Ok((fs, p)) => Ok((ValueV::Record(fs), p)),
            },
            Shape::Choice(decls) => if pos + 4 <= bytes.len() {
                let d = spec_u32_from_le_bytes(bytes.subrange(pos, pos + 4));
                if d >= decls@.len() {
                    Err(SpecErr::BadDiscriminant)
                } else if gate_open(decls@[d as int].start, decls@[d as int].end, source) {
                    match spec_dec_payload(h, decls@[d as int].payload@, bytes, pos + 4, source, 0) {
                        Err(e) => Err(e),
                        Ok((pl, p)) => Ok((ValueV::Variant(d, pl), p)),
                    }
                } else {
                    match decls@[d as int].fallback_id {
                        Option::None => Err(SpecErr::NoFallback),
                        Option::Some(id) => match h.spec_fallback(
                            id,
                            ValueV::Variant(d, Seq::empty()),
                            source,
                        ) {
                            Err(m) => Err(SpecErr::Semantic(m)),
                            Ok(repl) => match repl {
                                ValueV::Variant(d2, pl2) => if d2 < decls@.len() && gate_open(
                                    decls@[d2 as int].start,
                                    decls@[d2 as int].end,
                                    source,
                                ) {
                                    Ok((ValueV::Variant(d2, pl2), pos + 4))
                                } else {
                                    Err(SpecErr::FallbackInvalid)
                                },
                                _ => Err(SpecErr::FallbackInvalid),
                            },
                        },
                    }
                }
            } else {
                Err(SpecErr::Eof)
            },
            Shape::Fam { header, count_idx, capacity, elem } => match spec_dec_fields(
                h,
                header@,
                bytes,
                pos,
                source,
                0,
                zero_fields(header@),
            ) {
                Err(e) => Err(e),
                Ok((hs, p1)) => if count_idx >= hs.len() {
                    Err(SpecErr::BadValue)
                } else {
                    match hs[count_idx as int] {
                        ValueV::U32(c) => {
                            let claimed = c as int;
                            let avail = match fixed_width(*elem) {
                                Option::Some(w) => if w > 0 {
                                    (bytes.len() - p1) / w
                                } else {
                                    claimed
                                },
                                Option::None => claimed,
                            };
                            if claimed > avail {
                                Err(SpecErr::FamSize { declared: claimed, actual: avail })
                            } else if claimed > capacity {
                                Err(
                                    SpecErr::FamCapacity {
                                        declared: claimed,
                                        capacity: capacity as int,
                                    },
                                )
                            } else {
                                match spec_dec_elems(h, *elem, bytes, p1, claimed, source) {
                                    Err(e) => Err(e),
                                    Ok((es, p2)) => Ok((ValueV::Fam(hs, es), p2)),
                                }
                            }
                        },
                        _ => Err(SpecErr::BadValue),
                    }
                },
            },
        }
    }
}

/// Decodes `n` elements of one shape in order.
pub open spec fn spec_dec_elems<H: SchemaHooks>(
    h: &H,
    t: Shape,
    bytes: Seq<u8>,
    pos: int,
    n: int,
    source: Version,
) -> Result<(Seq<ValueV>, int), SpecErr>
    decreases t, n + 1,
{
    if n <= 0 {
        Ok((Seq::empty(), pos))
    } else {
        match spec_dec(h, t, bytes, pos, source) {
            Err(e) => Err(e),
            Ok((v, p)) => match spec_dec_elems(h, t, bytes, p, n - 1, source) {
                Err(e) => Err(e),
                Ok((es, p2)) => Ok((seq![v] + es, p2)),
            },
        }
    }
}

/// Decodes a variant payload positionally, from shape index `i` on.
pub open spec fn spec_dec_payload<H: SchemaHooks>(
    h: &H,
    shapes: Seq<Shape>,
    bytes: Seq<u8>,
    pos: int,
    source: Version,
    i: int,
) -> Result<(Seq<ValueV>, int), SpecErr>
    decreases shapes, shapes.len() - i + 1,
{
    if i < 0 || i >= shapes.len() {
        Ok((Seq::empty(), pos))
    } else {
        match spec_dec(h, shapes[i], bytes, pos, source) {
            Err(e) => Err(e),
            Ok((v, p)) => match spec_dec_payload(h, shapes, bytes, p, source, i + 1) {
                Err(e) => Err(e),
                Ok((vs, p2)) => Ok((seq![v] + vs, p2)),
            },
        }
    }
}

/// The struct engine's decode pass from field `i` on, over the full-arity
/// in-progress record `fs`: a present field is read from the bytes, an
/// absent one is synthesized (declared default hook, else the shape's zero),
/// and the field's post-decode hook then runs on the whole record.
pub open spec fn spec_dec_fields<H: SchemaHooks>(
    h: &H,
    decls: Seq<FieldDecl>,
    bytes: Seq<u8>,
    pos: int,
    source: Version,
    i: int,
    fs: Seq<ValueV>,
) -> Result<(Seq<ValueV>, int), SpecErr>
    decreases decls, decls.len() - i + 1,
{
    if i < 0 || i >= decls.len() {
        Ok((fs, pos))
    } else if fs.len() != decls.len() {
        Err(SpecErr::BadValue)
    } else {
        let settled = if gate_open(decls[i].start, decls[i].end, source) {
            spec_dec(h, decls[i].shape, bytes, pos, source)
        } else {
            match decls[i].default_id {
                Option::None => Ok((zero_value(decls[i].shape), pos)),
                Option::Some(id) => match h.spec_default(id, source) {
                    Err(m) => Err(SpecErr::Semantic(m)),
                    Ok(v) => Ok((v, pos)),
                },
            }
        };
        match settled {
            Err(e) => Err(e),
            Ok((v, p)) => {
                let fs2 = fs.update(i, v);
                let hooked = match decls[i].post_id {
                    Option::None => Ok(fs2),
                    Option::Some(id) => h.spec_post(id, fs2, source),
                };
                match hooked {
                    Err(m) => Err(SpecErr::Semantic(m)),
                    Ok(fs3) => spec_dec_fields(h, decls, bytes, p, source, i + 1, fs3),
                }
            },
        }
    }
}

/// The fixed byte width of a shape's encoding, where one exists.
pub fn fixed_width_of(s: &Shape) -> (w: Option<u64>)
    ensures
        match w {
            Option::Some(x) => fixed_width(*s) == Some(x as int),
            Option::None => fixed_width(*s) is None,
        },
    decreases s,
{
    match s {
        Shape::U8 => Some(1),
        Shape::U16 => Some(2),
        Shape::U32 => Some(4),
        Shape::U64 => Some(8),
        Shape::Usize => Some(8),
        Shape::I8 => Some(1),
        Shape::I16 => Some(2),
        Shape::I32 => Some(4),
        Shape::I64 => Some(8),
        Shape::Isize => Some(8),
        Shape::Bool => Some(1),
        Shape::Char => Some(1),
        Shape::F32 => Some(4),
        Shape::F64 => Some(8),
        Shape::Array(t, n) => {
            match fixed_width_of(t) {
                Option::None => None,
                Option::Some(wi) => {
                    proof {
                        assert((wi as int) * (*n as int) <= 0xFFFF_FFFF_FFFF_FFFF
                            * 0xFFFF_FFFF_FFFF_FFFF) by (nonlinear_arith)
                            requires
                                0 <= wi as int <= 0xFFFF_FFFF_FFFF_FFFF,
                                0 <= *n as int <= 0xFFFF_FFFF_FFFF_FFFF,
                        ;
                    }
                    let prod: u128 = (wi as u128) * (*n as u128);
                    if prod <= 0xFFFF_FFFF_FFFF_FFFFu128 {
                        Some(prod as u64)
                    } else {
                        None
                    }
                },
            }
        },
        _ => None,
    }
}

/// Decodes one value of the given shape, advancing the position.
#[verifier::rlimit(60)]
pub fn dec_value<H: SchemaHooks>(
    h: &H,
    s: &Shape,
    data: &Vec<u8>,
    pos: &mut usize,
    source: &Version,
) -> (r: Result<Value, VersionizeError>)
    requires
        *old(pos) <= data@.len(),
    ensures
        match spec_dec(h, *s, data@, *old(pos) as int, *source) {
            Ok((vv, p)) => r matches Ok(v) && v.deep_view() == vv && *final(pos) == p && p
                <= data@.len(),
            Err(se) => r matches Err(e) && err_matches(e, se),
        },
    decreases s, 0nat,
{
    let n = data.len();
    match s {
        Shape::U8 => {
            if n - *pos >= 1 {
                let b = data[*pos];
                *pos = *pos + 1;
                Ok(Value::U8(b))
            } else {
                Err(err_eof())
            }
        },
        Shape::U16 => {
            if n - *pos >= 2 {
                let x = read_u16(data, *pos);
                *pos = *pos + 2;
                Ok(Value::U16(x))
            } else {
                Err(err_eof())
            }
        },
        Shape::U32 => {
            if n - *pos >= 4 {
                let x = read_u32(data, *pos);
                *pos = *pos + 4;
                Ok(Value::U32(x))
            } else {
                Err(err_eof())
            }
        },
        Shape::U64 => {
            if n - *pos >= 8 {
                let x = read_u64(data, *pos);
                *pos = *pos + 8;
                Ok(Value::U64(x))
            } else {
                Err(err_eof())
            }
        },
        Shape::Usize => {
            if n - *pos >= 8 {
                let x = read_u64(data, *pos);
                *pos = *pos + 8;
                Ok(Value::Usize(x))
            } else {
                Err(err_eof())
            }
        },
        Shape::I8 => {
            if n - *pos >= 1 {
                let b = data[*pos];
                *pos = *pos + 1;
                Ok(Value::I8(i8_of_bits(b)))
            } else {
                Err(err_eof())
            }
        },
        Shape::I16 => {
            if n - *pos >= 2 {
                let x = read_u16(data, *pos);
                *pos = *pos + 2;
                Ok(Value::I16(i16_of_bits(x)))
            } else {
                Err(err_eof())
            }
        },
        Shape::I32 => {
            if n - *pos >= 4 {
                let x = read_u32(data, *pos);
                *pos = *pos + 4;
                Ok(Value::I32(i32_of_bits(x)))
            } else {
                Err(err_eof())
            }
        },
        Shape::I64 => {
            if n - *pos >= 8 {
                let x = read_u64(data, *pos);
                *pos = *pos + 8;
                Ok(Value::I64(i64_of_bits(x)))
            } else {
                Err(err_eof())
            }
        },
        Shape::Isize => {
            if n - *pos >= 8 {
                let x = read_u64(data, *pos);
                *pos = *pos + 8;
                Ok(Value::Isize(i64_of_bits(x)))
            } else {
                Err(err_eof())
            }
        },
        Shape::Bool => {
            if n - *pos >= 1 {
                let b = data[*pos];
                if b == 0 {
                    *pos = *pos + 1;
                    Ok(Value::Bool(false))
                } else if b == 1 {
                    *pos = *pos + 1;
                    Ok(Value::Bool(true))
                } else {
                    Err(err_bad_tag())
                }
            } else {
                Err(err_eof())
            }
        },
        Shape::Char => {
            if n - *pos >= 1 {
                let b = data[*pos];
                *pos = *pos + 1;
                Ok(Value::Char(b as char))
            } else {
                Err(err_eof())
            }
        },
        Shape::F32 => {
            if n - *pos >= 4 {
                let x = read_u32(data, *pos);
                *pos = *pos + 4;
                Ok(Value::F32Bits(x))
            } else {
                Err(err_eof())
            }
        },
        Shape::F64 => {
            if n - *pos >= 8 {
                let x = read_u64(data, *pos);
                *pos = *pos + 8;
                Ok(Value::F64Bits(x))
            } else {
                Err(err_eof())
            }
        },
        Shape::Str => {
            if n - *pos >= 8 {
                let claimed = read_u64(data, *pos);
                let start = *pos + 8;
                let rem = n - start;
                if claimed <= rem as u64 {
                    let cnt = claimed as usize;
                    let mut bs: Vec<u8> = Vec::new();
                    let mut k: usize = 0;
                    while k < cnt
                        invariant
                            k <= cnt,
                            start + cnt <= data@.len(),
                            data@.len() <= usize::MAX,
                            bs@ == data@.subrange(start as int, start + k),
                        decreases cnt - k,
                    {
                        bs.push(data[start + k]);
                        proof {
                            assert(data@.subrange(start as int, start + k + 1) =~= data@.subrange(
                                start as int,
                                start + k,
                            ).push(data@[start + k]));
                        }
                        k = k + 1;
                    }
                    *pos = start + cnt;
                    Ok(Value::Str(bs))
                } else {
                    Err(err_eof())
                }
            } else {
                Err(err_eof())
            }
        },
        Shape::Opt(t) => {
            if n - *pos >= 1 {
                let b = data[*pos];
                if b == 0 {
                    *pos = *pos + 1;
                    Ok(Value::Opt(None))
                } else if b == 1 {
                    *pos = *pos + 1;
                    match dec_value(h, t, data, pos, source) {
                        Err(e) => Err(e),
                        Ok(v) => Ok(Value::Opt(Some(Box::new(v)))),
                    }
                } else {
                    Err(err_bad_tag())
                }
            } else {
                Err(err_eof())
            }
        },
        Shape::List(t) => {
            if n - *pos >= 8 {
                let count = read_u64(data, *pos);
                *pos = *pos + 8;
                match dec_elems(h, t, data, pos, count, source) {
                    Err(e) => Err(e),
                    Ok(es) => Ok(Value::List(es)),
                }
            } else {
                Err(err_eof())
            }
        },
        Shape::Array(t, cnt) => {
            let count = *cnt as u64;
            match dec_elems(h, t, data, pos, count, source) {
                Err(e) => Err(e),
                Ok(es) => Ok(Value::List(es)),
            }
        },
        Shape::Record(decls) => {
            match dec_fields(h, decls, data, pos, source) {
                Err(e) => Err(e),
                Ok(fs) => Ok(Value::Record(fs)),
            }
        },
        Shape::Choice(decls) => {
            if n - *pos >= 4 {
                let d = read_u32(data, *pos);
                if d as usize >= decls.len() {
                    Err(err_bad_discriminant())
                } else {
                    let vd = &decls[d as usize];
                    proof {
                        assert(decreases_to!(decls@ => decls@[d as int]));
                        assert(decreases_to!(decls@[d as int] => decls@[d as int].payload));
                    }
                    if gate_open_at(&vd.start, &vd.end, source) {
                        *pos = *pos + 4;
                        match dec_payload(h, &vd.payload, data, pos, source) {
                            Err(e) => Err(e),
                            Ok(pl) => Ok(Value::Variant(d, pl)),
                        }
                    } else {
                        match vd.fallback_id {
                            Option::None => Err(err_no_fallback()),
                            Option::Some(id) => {
                                let empty_pl: Vec<Value> = Vec::new();
                                proof {
                                    assert(deep_view_seq(empty_pl@) =~= Seq::<ValueV>::empty());
                                }
                                let current = Value::Variant(d, empty_pl);
                                proof {
                                    assert(current.deep_view() == ValueV::Variant(
                                        d,
                                        Seq::<ValueV>::empty(),
                                    ));
                                }
                                match h.run_fallback(id, &current, source) {
                                    Err(e) => Err(e),
                                    Ok(repl) => {
                                        match repl {
                                            Value::Variant(d2, pl2) => {
                                                if (d2 as usize) < decls.len() {
                                                    let vd2 = &decls[d2 as usize];
                                                    if gate_open_at(&vd2.start, &vd2.end, source) {
                                                        *pos = *pos + 4;
                                                        Ok(Value::Variant(d2, pl2))
                                                    } else {
                                                        Err(err_fallback_invalid())
                                                    }
                                                } else {
                                                    Err(err_fallback_invalid())
                                                }
                                            },
                                            _ => Err(err_fallback_invalid()),
                                        }
                                    },
                                }
                            },
                        }
                    }
                }
            } else {
                Err(err_eof())
            }
        },
        Shape::Fam { header, count_idx, capacity, elem } => {
            match dec_fields(h, header, data, pos, source) {
                Err(e) => Err(e),
                Ok(fields) => {
                    proof {
                        lemma_deep_view_seq(fields@);
                    }
                    if *count_idx >= fields.len() {
                        Err(err_bad_value())
                    } else {
                        match &fields[*count_idx] {
                            Value::U32(c) => {
                                let claimed = *c as u64;
                                let avail: u64 = match fixed_width_of(elem) {
                                    Option::Some(w) => if w > 0 {
                                        ((n - *pos) as u64) / w
                                    } else {
                                        claimed
                                    },
                                    Option::None => claimed,
                                };
                                if claimed > avail {
                                    Err(
                                        VersionizeError::FamSizeMismatch {
                                            declared: claimed,
                                            actual: avail,
                                        },
                                    )
                                } else if claimed > *capacity as u64 {
                                    Err(
                                        VersionizeError::FamCapacityExceeded {
                                            declared: claimed,
                                            capacity: *capacity as u64,
                                        },
                                    )
                                } else {
                                    match dec_elems(h, elem, data, pos, claimed, source) {
                                        Err(e) => Err(e),
                                        Ok(es) => Ok(Value::Fam(fields, es)),
                                    }
                                }
                            },
                            _ => Err(err_bad_value()),
                        }
                    }
                },
            }
        },
    }
}

/// Decodes `count` elements of one shape in order.
pub fn dec_elems<H: SchemaHooks>(
    h: &H,
    t: &Shape,
    data: &Vec<u8>,
    pos: &mut usize,
    count: u64,
    source: &Version,
) -> (r: Result<Vec<Value>, VersionizeError>)
    requires
        *old(pos) <= data@.len(),
    ensures
        match spec_dec_elems(h, *t, data@, *old(pos) as int, count as int, *source) {
            Ok((es, p)) => r matches Ok(vs) && deep_view_seq(vs@) == es && *final(pos) == p && p
                <= data@.len(),
            Err(se) => r matches Err(e) && err_matches(e, se),
        },
    decreases t, 1nat,
{
    let ghost full = spec_dec_elems(h, *t, data@, *old(pos) as int, count as int, *source);
    let mut acc: Vec<Value> = Vec::new();
    proof {
        if let Ok((all, p)) = full {
            assert(deep_view_seq(acc@) =~= Seq::<ValueV>::empty());
            assert(Seq::<ValueV>::empty() + all =~= all);
        }
    }
    let mut k: u64 = 0;
    while k < count
        invariant
            k <= count,
            *pos <= data@.len(),
            full == spec_dec_elems(h, *t, data@, *old(pos) as int, count as int, *source),
            match spec_dec_elems(h, *t, data@, *pos as int, (count - k) as int, *source) {
                Ok((rest, p)) => full matches Ok(pr) && pr.0 == deep_view_seq(acc@) + rest && pr.1
                    == p,
                Err(e) => full == Err::<(Seq<ValueV>, int), SpecErr>(e),
            },
        decreases count - k,
    {
        let ghost acc_dv = deep_view_seq(acc@);
        let r = dec_value(h, t, data, pos, source);
        match r {
            Err(e) => {
                return Err(e);
            },
            Ok(v) => {
                proof {
                    let ghost vv = v.deep_view();
                    assert(acc@.push(v).subrange(0, acc@.len() as int) =~= acc@);
                    assert(deep_view_seq(acc@.push(v)) == acc_dv.push(vv));
                    if let Ok((rest2, p2)) = spec_dec_elems(
                        h,
                        *t,
                        data@,
                        *pos as int,
                        (count - k - 1) as int,
                        *source,
                    ) {
                        assert(acc_dv + (seq![vv] + rest2) =~= acc_dv.push(vv) + rest2);
                    }
                }
                acc.push(v);
            },
        }
        k = k + 1;
    }
    proof {
        assert(deep_view_seq(acc@) + Seq::<ValueV>::empty() =~= deep_view_seq(acc@));
    }
    Ok(acc)
}

/// Decodes a variant payload positionally under the declared shapes.
pub fn dec_payload<H: SchemaHooks>(
    h: &H,
    shapes: &Vec<Shape>,
    data: &Vec<u8>,
    pos: &mut usize,
    source: &Version,
) -> (r: Result<Vec<Value>, VersionizeError>)
    requires
        *old(pos) <= data@.len(),
    ensures
        match spec_dec_payload(h, shapes@, data@, *old(pos) as int, *source, 0) {
            Ok((es, p)) => r matches Ok(vs) && deep_view_seq(vs@) == es && *final(pos) == p && p
                <= data@.len(),
            Err(se) => r matches Err(e) && err_matches(e, se),
        },
    decreases shapes, 1nat,
{
    let ghost full = spec_dec_payload(h, shapes@, data@, *old(pos) as int, *source, 0);
    let mut acc: Vec<Value> = Vec::new();
    proof {
        if let Ok((all, p)) = full {
            assert(deep_view_seq(acc@) =~= Seq::<ValueV>::empty());
            assert(Seq::<ValueV>::empty() + all =~= all);
        }
    }
    let mut i: usize = 0;
    while i < shapes.len()
        invariant
            i <= shapes@.len(),
            *pos <= data@.len(),
            full == spec_dec_payload(h, shapes@, data@, *old(pos) as int, *source, 0),
            match spec_dec_payload(h, shapes@, data@, *pos as int, *source, i as int) {
                Ok((rest, p)) => full matches Ok(pr) && pr.0 == deep_view_seq(acc@) + rest && pr.1
                    == p,
                Err(e) => full == Err::<(Seq<ValueV>, int), SpecErr>(e),
            },
        decreases shapes@.len() - i,
    {
        let ghost acc_dv = deep_view_seq(acc@);
        proof {
            assert(decreases_to!(shapes@ => shapes@[i as int]));
        }
        let r = dec_value(h, &shapes[i], data, pos, source);
        match r {
            Err(e) => {
                return Err(e);
            },
            Ok(v) => {
                proof {
                    let ghost vv = v.deep_view();
                    assert(acc@.push(v).subrange(0, acc@.len() as int) =~= acc@);
                    assert(deep_view_seq(acc@.push(v)) == acc_dv.push(vv));
                    if let Ok((rest2, p2)) = spec_dec_payload(
                        h,
                        shapes@,
                        data@,
                        *pos as int,
                        *source,
                        i + 1,
                    ) {
                        assert(acc_dv + (seq![vv] + rest2) =~= acc_dv.push(vv) + rest2);
                    }
                }
                acc.push(v);
            },
        }
        i = i + 1;
    }
    proof {
        assert(deep_view_seq(acc@) + Seq::<ValueV>::empty() =~= deep_view_seq(acc@));
    }
    Ok(acc)
}

/// The struct engine's decode pass: start from the record's zero values, then
/// per field in declaration order read or synthesize the field and run its
/// post-decode hook on the whole record.
pub fn dec_fields<H: SchemaHooks>(
    h: &H,
    decls: &Vec<FieldDecl>,
    data: &Vec<u8>,
    pos: &mut usize,
    source: &Version,
) -> (r: Result<Vec<Value>, VersionizeError>)
    requires
        *old(pos) <= data@.len(),
    ensures
        match spec_dec_fields(
            h,
            decls@,
            data@,
            *old(pos) as int,
            *source,
            0,
            zero_fields(decls@),
        ) {
            Ok((fin, p)) => r matches Ok(vs) && deep_view_seq(vs@) == fin && *final(pos) == p && p
                <= data@.len(),
            Err(se) => r matches Err(e) && err_matches(e, se),
        },
    decreases decls, 1nat,
{
    let ghost full = spec_dec_fields(
        h,
        decls@,
        data@,
        *old(pos) as int,
        *source,
        0,
        zero_fields(decls@),
    );
    let mut fields = make_zero_fields(decls);
    proof {
        lemma_deep_view_seq(fields@);
        lemma_zero_fields(decls@);
        assert(deep_view_seq(fields@) =~= zero_fields(decls@));
    }
    let mut i: usize = 0;
    while i < decls.len()
        invariant
            i <= decls@.len(),
            *pos <= data@.len(),
            full == spec_dec_fields(
                h,
                decls@,
                data@,
                *old(pos) as int,
                *source,
                0,
                zero_fields(decls@),
            ),
            match spec_dec_fields(
                h,
                decls@,
                data@,
                *pos as int,
                *source,
                i as int,
                deep_view_seq(fields@),
            ) {
                Ok((fin, p)) => full matches Ok(pr) && pr.0 == fin && pr.1 == p,
                Err(e) => full == Err::<(Seq<ValueV>, int), SpecErr>(e),
            },
        decreases decls@.len() - i,
    {
        let ghost fs_cur = deep_view_seq(fields@);
        proof {
            lemma_deep_view_seq(fields@);
            assert(decreases_to!(decls@ => decls@[i as int]));
            assert(decreases_to!(decls@[i as int] => decls@[i as int].shape));
        }
        if fields.len() != decls.len() {
            proof {
                assert(spec_dec_fields(h, decls@, data@, *pos as int, *source, i as int, fs_cur)
                    == Err::<(Seq<ValueV>, int), SpecErr>(SpecErr::BadValue));
            }
            return Err(err_bad_value());
        }
        let d = &decls[i];
        let settled: Value;
        if gate_open_at(&d.start, &d.end, source) {
            match dec_value(h, &d.shape, data, pos, source) {
                Err(e) => {
                    return Err(e);
                },
                Ok(v) => {
                    settled = v;
                },
            }
        } else {
            match d.default_id {
                Option::None => {
                    settled = make_zero(&d.shape);
                },
                Option::Some(id) => {
                    match h.run_default(id, source) {
                        Err(e) => {
                            return Err(e);
                        },
                        Ok(v) => {
                            settled = v;
                        },
                    }
                },
            }
        }
        let ghost vv = settled.deep_view();
        fields[i] = settled;
        proof {
            lemma_deep_view_seq(fields@);
            assert(deep_view_seq(fields@) =~= fs_cur.update(i as int, vv));
        }
        match d.post_id {
            Option::None => {},
            Option::Some(id) => {
                match h.run_post(id, &mut fields, source) {
                    Err(e) => {
                        return Err(e);
                    },
                    Ok(_) => {},
                }
            },
        }
        i = i + 1;
    }
    Ok(fields)
}

} // verus!
