//! The data model: wire values, their spec-level mirror, and schemas.
//!
//! One logical record or enum type is described once by a [`Shape`] carrying
//! declarative per-field version metadata ([`FieldDecl`], [`VariantDecl`]),
//! instead of per-version duplicate type definitions.  A [`Value`] is one
//! in-memory value of such a type; [`ValueV`] is its mathematical image, over
//! which every contract of the engine speaks.

use vstd::prelude::*;

use crate::version::{version_le, version_lt, Version};

verus! {

/// An in-memory value of a schema-described type.
///
/// Integers of architecture-dependent width are carried as their fixed 8-byte
/// portable form (`Usize`, `Isize`).  IEEE-754 floats are carried as their raw
/// little-endian bit patterns, which is also exactly what the wire holds.
/// Text is carried as its UTF-8 bytes.  A modulo-arithmetic wrapper over an
/// integer and a single-value box are transparent on the wire, so no case
/// stands for them: the wrapped integer or pointee stands for itself.
#[derive(Debug, PartialEq)]
pub enum Value {
    U8(u8),
    U16(u16),
    U32(u32),
    U64(u64),
    /// An architecture-word unsigned integer, always 8 bytes on the wire.
    Usize(u64),
    I8(i8),
    I16(i16),
    I32(i32),
    I64(i64),
    /// An architecture-word signed integer, always 8 bytes on the wire.
    Isize(i64),
    Bool(bool),
    /// A character scalar; only the Latin-1 subset is representable.
    Char(char),
    /// The raw bits of an IEEE-754 single-precision float.
    F32Bits(u32),
    /// The raw bits of an IEEE-754 double-precision float.
    F64Bits(u64),
    /// Text, as its UTF-8 bytes.
    Str(Vec<u8>),
    /// An optional value.
    Opt(Option<Box<Value>>),
    /// A dynamic sequence or a fixed-size array of homogeneous elements.
    List(Vec<Value>),
    /// The field values of a product type, in declaration order.
    Record(Vec<Value>),
    /// A sum-type value: the variant's index in the full declaration-order
    /// variant list, and its positional payload.
    Variant(u32, Vec<Value>),
    /// A header-plus-trailing-array value: the header's field values and the
    /// element buffer.
    Fam(Vec<Value>, Vec<Value>),
}

/// The mathematical image of a [`Value`].
pub enum ValueV {
    U8(u8),
    U16(u16),
    U32(u32),
    U64(u64),
    Usize(u64),
    I8(i8),
    I16(i16),
    I32(i32),
    I64(i64),
    Isize(i64),
    Bool(bool),
    Char(char),
    F32Bits(u32),
    F64Bits(u64),
    Str(Seq<u8>),
    Opt(Option<Box<ValueV>>),
    List(Seq<ValueV>),
    Record(Seq<ValueV>),
    Variant(u32, Seq<ValueV>),
    Fam(Seq<ValueV>, Seq<ValueV>),
}

/// The mathematical images of a sequence of values, element by element.
pub open spec fn deep_view_seq(vs: Seq<Value>) -> Seq<ValueV>
    decreases vs,
{
    if vs.len() == 0 {
        Seq::empty()
    } else {
        deep_view_seq(vs.subrange(0, vs.len() - 1)).push(vs[vs.len() - 1].deep_view())
    }
}

impl DeepView for Value {
    type V = ValueV;

    open spec fn deep_view(&self) -> ValueV
        decreases self,
    {
        match self {
            Value::U8(x) => ValueV::U8(*x),
            Value::U16(x) => ValueV::U16(*x),
            Value::U32(x) => ValueV::U32(*x),
            Value::U64(x) => ValueV::U64(*x),
            Value::Usize(x) => ValueV::Usize(*x),
            Value::I8(x) => ValueV::I8(*x),
            Value::I16(x) => ValueV::I16(*x),
            Value::I32(x) => ValueV::I32(*x),
            Value::I64(x) => ValueV::I64(*x),
            Value::Isize(x) => ValueV::Isize(*x),
            Value::Bool(x) => ValueV::Bool(*x),
            Value::Char(x) => ValueV::Char(*x),
            Value::F32Bits(x) => ValueV::F32Bits(*x),
            Value::F64Bits(x) => ValueV::F64Bits(*x),
            Value::Str(bs) => ValueV::Str(bs@),
            Value::Opt(o) => match o {
                Option::None => ValueV::Opt(None),
                Option::Some(b) => ValueV::Opt(Some(Box::new((**b).deep_view()))),
            },
            Value::List(vs) => ValueV::List(deep_view_seq(vs@)),
            Value::Record(vs) => ValueV::Record(deep_view_seq(vs@)),
            Value::Variant(d, vs) => ValueV::Variant(*d, deep_view_seq(vs@)),
            Value::Fam(hs, es) => ValueV::Fam(deep_view_seq(hs@), deep_view_seq(es@)),
        }
    }
}

/// [`deep_view_seq`] is the element-wise image.
pub proof fn lemma_deep_view_seq(vs: Seq<Value>)
    ensures
        deep_view_seq(vs).len() == vs.len(),
        forall|i: int| 0 <= i < vs.len() ==> #[trigger] deep_view_seq(vs)[i] == vs[i].deep_view(),
    decreases vs.len(),
{
    if vs.len() > 0 {
        let sub = vs.subrange(0, vs.len() - 1);
        lemma_deep_view_seq(sub);
        assert(deep_view_seq(vs) == deep_view_seq(sub).push(vs[vs.len() - 1].deep_view()));
        assert forall|i: int| 0 <= i < vs.len() implies #[trigger] deep_view_seq(vs)[i]
            == vs[i].deep_view() by {
            if i < vs.len() - 1 {
                assert(deep_view_seq(vs)[i] == deep_view_seq(sub)[i]);
                assert(sub[i] == vs[i]);
            }
        }
    }
}

/// The compile-time description of one struct field: its wire shape, the
/// version range in which it is present, and its optional default-synthesis
/// and semantic-hook identifiers, resolved by the caller's hook set.
#[derive(Debug)]
pub struct FieldDecl {
    pub shape: Shape,
    /// First version (inclusive) at which the field is on the wire.
    pub start: Version,
    /// Version (exclusive) from which the field is gone; `None` means the
    /// field was never removed.
    pub end: Option<Version>,
    /// Default-synthesis hook run when the field is absent on decode; absent
    /// fields of a declaration without one take the shape's zero value.
    pub default_id: Option<u32>,
    /// Pre-encode hook, run after the field's own bytes are committed.
    pub pre_id: Option<u32>,
    /// Post-decode hook, run after the field's value is settled.
    pub post_id: Option<u32>,
}

/// The compile-time description of one enum variant: its positional payload
/// shapes, its version range, and its optional fallback identifier.
#[derive(Debug)]
pub struct VariantDecl {
    pub payload: Vec<Shape>,
    pub start: Version,
    pub end: Option<Version>,
    /// Default-synthesis hook producing a replacement variant when this one
    /// is not present at the governing version.
    pub fallback_id: Option<u32>,
}

/// The wire shape of a type: what the bytes of one value look like and, for
/// product and sum types, the per-field or per-variant version metadata.
#[derive(Debug)]
pub enum Shape {
    U8,
    U16,
    U32,
    U64,
    Usize,
    I8,
    I16,
    I32,
    I64,
    Isize,
    Bool,
    Char,
    F32,
    F64,
    /// 8-byte length prefix, then that many UTF-8 bytes.
    Str,
    /// One presence byte, then the value if present.
    Opt(Box<Shape>),
    /// 8-byte element count prefix, then the elements in order.
    List(Box<Shape>),
    /// Exactly this many elements, no prefix: the length is known to both
    /// ends at compile time.
    Array(Box<Shape>, usize),
    /// A product type: fields in declaration order, each version-gated.
    Record(Vec<FieldDecl>),
    /// A sum type: a 4-byte discriminant naming a variant of the full
    /// declaration-order list, then its payload positionally.
    Choice(Vec<VariantDecl>),
    /// A header record whose count field tracks a trailing element buffer of
    /// fixed-width elements, bounded by a construction-time capacity.
    Fam { header: Vec<FieldDecl>, count_idx: usize, capacity: usize, elem: Box<Shape> },
}

impl FieldDecl {
    /// A field of this shape present at every version, with no hooks.
    pub fn plain(shape: Shape) -> (d: FieldDecl)
        ensures
            d.shape == shape,
            d.start == (Version { major: 0u16, minor: 0u16, patch: 0u16 }),
            d.end is None,
            d.default_id is None,
            d.pre_id is None,
            d.post_id is None,
    {
        FieldDecl {
            shape,
            start: Version { major: 0, minor: 0, patch: 0 },
            end: None,
            default_id: None,
            pre_id: None,
            post_id: None,
        }
    }
}

/// The version gate: a descriptor with bounds `[start, end)` is present on
/// the wire at version `v` iff `start <= v < end`.
pub open spec fn gate_open(start: Version, end: Option<Version>, v: Version) -> bool {
    version_le(start, v) && match end {
        Option::None => true,
        Option::Some(e) => version_lt(v, e),
    }
}

/// Exec evaluation of the version gate.
pub fn gate_open_at(start: &Version, end: &Option<Version>, v: &Version) -> (r: bool)
    ensures
        r == gate_open(*start, *end, *v),
{
    start.le(v) && match end {
        Option::None => true,
        Option::Some(e) => v.lt(e),
    }
}

/// Whether a value is of the type a shape describes: the structure agrees,
/// characters are in the representable Latin-1 range, text and sequence
/// lengths fit the wire's 64-bit counts, fixed-size arrays have their
/// declared length, and a header-plus-array value's count field equals its
/// actual element count, which fits the 32-bit count field and is within
/// capacity.
pub open spec fn vv_matches(v: ValueV, s: Shape) -> bool
    decreases v,
{
    match (v, s) {
        (ValueV::U8(_), Shape::U8) => true,
        (ValueV::U16(_), Shape::U16) => true,
        (ValueV::U32(_), Shape::U32) => true,
        (ValueV::U64(_), Shape::U64) => true,
        (ValueV::Usize(_), Shape::Usize) => true,
        (ValueV::I8(_), Shape::I8) => true,
        (ValueV::I16(_), Shape::I16) => true,
        (ValueV::I32(_), Shape::I32) => true,
        (ValueV::I64(_), Shape::I64) => true,
        (ValueV::Isize(_), Shape::Isize) => true,
        (ValueV::Bool(_), Shape::Bool) => true,
        (ValueV::Char(c), Shape::Char) => c as int <= 0xFF,
        (ValueV::F32Bits(_), Shape::F32) => true,
        (ValueV::F64Bits(_), Shape::F64) => true,
        (ValueV::Str(bs), Shape::Str) => bs.len() < 0x1_0000_0000_0000_0000,
        (ValueV::Opt(o), Shape::Opt(t)) => match o {
            Option::None => true,
            Option::Some(b) => vv_matches(*b, *t),
        },
        (ValueV::List(es), Shape::List(t)) => es.len() < 0x1_0000_0000_0000_0000 && forall|i: int|
            0 <= i < es.len() ==> vv_matches(#[trigger] es[i], *t),
        (ValueV::List(es), Shape::Array(t, n)) => es.len() == n && forall|i: int|
            0 <= i < es.len() ==> vv_matches(#[trigger] es[i], *t),
        (ValueV::Record(fs), Shape::Record(decls)) => fs.len() == decls@.len() && forall|i: int|
            0 <= i < fs.len() ==> vv_matches(#[trigger] fs[i], decls@[i].shape),
        (ValueV::Variant(d, pl), Shape::Choice(decls)) => d < decls@.len() && pl.len()
            == decls@[d as int].payload@.len() && forall|i: int|
            0 <= i < pl.len() ==> vv_matches(#[trigger] pl[i], decls@[d as int].payload@[i]),
        (ValueV::Fam(hs, es), Shape::Fam { header, count_idx, capacity, elem }) => {
            &&& hs.len() == header@.len()
            &&& forall|i: int| 0 <= i < hs.len() ==> vv_matches(#[trigger] hs[i], header@[i].shape)
            &&& forall|i: int| 0 <= i < es.len() ==> vv_matches(#[trigger] es[i], *elem)
            &&& es.len() <= capacity
            &&& es.len() <= 0xFFFF_FFFF
            &&& count_idx < hs.len()
            &&& hs[count_idx as int] == ValueV::U32(es.len() as u32)
        },
        _ => false,
    }
}

/// The engine's built-in default: the zero value of a shape, used for a field
/// absent at the source version when no default-synthesis hook is declared.
/// For a sum type it is the first variant with an empty payload, so a sum
/// type whose first variant carries data should declare a default hook.
pub open spec fn zero_value(s: Shape) -> ValueV
    decreases s, 0nat,
{
    match s {
        Shape::U8 => ValueV::U8(0),
        Shape::U16 => ValueV::U16(0),
        Shape::U32 => ValueV::U32(0),
        Shape::U64 => ValueV::U64(0),
        Shape::Usize => ValueV::Usize(0),
        Shape::I8 => ValueV::I8(0),
        Shape::I16 => ValueV::I16(0),
        Shape::I32 => ValueV::I32(0),
        Shape::I64 => ValueV::I64(0),
        Shape::Isize => ValueV::Isize(0),
        Shape::Bool => ValueV::Bool(false),
        Shape::Char => ValueV::Char('\0'),
        Shape::F32 => ValueV::F32Bits(0),
        Shape::F64 => ValueV::F64Bits(0),
        Shape::Str => ValueV::Str(Seq::empty()),
        Shape::Opt(_) => ValueV::Opt(None),
        Shape::List(_) => ValueV::List(Seq::empty()),
        Shape::Array(t, n) => ValueV::List(Seq::new(n as nat, |i: int| zero_value(*t))),
        Shape::Record(decls) => ValueV::Record(zero_fields(decls@)),
        Shape::Choice(_) => ValueV::Variant(0, Seq::empty()),
        Shape::Fam { header, count_idx, capacity, elem } => ValueV::Fam(
            zero_fields(header@),
            Seq::empty(),
        ),
    }
}

/// The zero values of a field list, element by element.
pub open spec fn zero_fields(decls: Seq<FieldDecl>) -> Seq<ValueV>
    decreases decls, 1nat,
{
    if decls.len() == 0 {
        Seq::empty()
    } else {
        zero_fields(decls.subrange(0, decls.len() - 1)).push(
            zero_value(decls[decls.len() - 1].shape),
        )
    }
}

/// [`zero_fields`] is the element-wise zero.
pub proof fn lemma_zero_fields(decls: Seq<FieldDecl>)
    ensures
        zero_fields(decls).len() == decls.len(),
        forall|i: int|
            0 <= i < decls.len() ==> #[trigger] zero_fields(decls)[i] == zero_value(
                decls[i].shape,
            ),
    decreases decls.len(),
{
    if decls.len() > 0 {
        lemma_zero_fields(decls.subrange(0, decls.len() - 1));
    }
}

/// Builds the zero value of a shape.
pub fn make_zero(s: &Shape) -> (v: Value)
    ensures
        v.deep_view() == zero_value(*s),
    decreases s, 0nat,
{
    match s {
        Shape::U8 => Value::U8(0),
        Shape::U16 => Value::U16(0),
        Shape::U32 => Value::U32(0),
        Shape::U64 => Value::U64(0),
        Shape::Usize => Value::Usize(0),
        Shape::I8 => Value::I8(0),
        Shape::I16 => Value::I16(0),
        Shape::I32 => Value::I32(0),
        Shape::I64 => Value::I64(0),
        Shape::Isize => Value::Isize(0),
        Shape::Bool => Value::Bool(false),
        Shape::Char => Value::Char('\0'),
        Shape::F32 => Value::F32Bits(0),
        Shape::F64 => Value::F64Bits(0),
        Shape::Str => {
            let bs: Vec<u8> = Vec::new();
            proof {
                assert(bs@ =~= Seq::<u8>::empty());
            }
            Value::Str(bs)
        },
        Shape::Opt(_) => Value::Opt(None),
        Shape::List(_) => {
            let vs: Vec<Value> = Vec::new();
            proof {
                assert(deep_view_seq(vs@) =~= Seq::<ValueV>::empty());
            }
            Value::List(vs)
        },
        Shape::Array(t, n) => {
            let mut elems: Vec<Value> = Vec::new();
            let mut i: usize = 0;
            while i < *n
                invariant
                    i <= *n,
                    elems@.len() == i,
                    forall|j: int| 0 <= j < i ==> elems@[j].deep_view() == zero_value(**t),
                    decreases_to!(*s => **t),
                decreases *n - i,
            {
                elems.push(make_zero(t));
                i = i + 1;
            }
            proof {
                lemma_deep_view_seq(elems@);
                assert(deep_view_seq(elems@) =~= Seq::new(*n as nat, |i: int| zero_value(**t)));
            }
            Value::List(elems)
        },
        Shape::Record(decls) => {
            let fields = make_zero_fields(decls);
            proof {
                lemma_deep_view_seq(fields@);
                lemma_zero_fields(decls@);
                assert(deep_view_seq(fields@) =~= zero_fields(decls@));
            }
            Value::Record(fields)
        },
        Shape::Choice(_) => {
            let pl: Vec<Value> = Vec::new();
            proof {
                assert(deep_view_seq(pl@) =~= Seq::<ValueV>::empty());
            }
            Value::Variant(0, pl)
        },
        Shape::Fam { header, count_idx, capacity, elem } => {
            let fields = make_zero_fields(header);
            let es: Vec<Value> = Vec::new();
            proof {
                lemma_deep_view_seq(fields@);
                lemma_zero_fields(header@);
                assert(deep_view_seq(fields@) =~= zero_fields(header@));
                assert(deep_view_seq(es@) =~= Seq::<ValueV>::empty());
            }
            Value::Fam(fields, es)
        },
    }
}

/// Builds the zero value of each field of a list.
pub fn make_zero_fields(decls: &Vec<FieldDecl>) -> (vs: Vec<Value>)
    ensures
        vs@.len() == decls@.len(),
        forall|j: int| 0 <= j < decls@.len() ==> vs@[j].deep_view() == zero_value(decls@[j].shape),
    decreases decls, 1nat,
{
    let mut fields: Vec<Value> = Vec::new();
    let mut i: usize = 0;
    while i < decls.len()
        invariant
            i <= decls@.len(),
            fields@.len() == i,
            forall|j: int| 0 <= j < i ==> fields@[j].deep_view() == zero_value(decls@[j].shape),
        decreases decls@.len() - i,
    {
        proof {
            assert(decreases_to!(decls@ => decls@[i as int]));
            assert(decreases_to!(decls@[i as int] => decls@[i as int].shape));
        }
        fields.push(make_zero(&decls[i].shape));
        i = i + 1;
    }
    fields
}

/// Decides whether two values have the same mathematical image.
pub fn value_eq(a: &Value, b: &Value) -> (r: bool)
    ensures
        r == (a.deep_view() == b.deep_view()),
    decreases a, 0nat,
{
    match (a, b) {
        (Value::U8(x), Value::U8(y)) => x == y,
        (Value::U16(x), Value::U16(y)) => x == y,
        (Value::U32(x), Value::U32(y)) => x == y,
        (Value::U64(x), Value::U64(y)) => x == y,
        (Value::Usize(x), Value::Usize(y)) => x == y,
        (Value::I8(x), Value::I8(y)) => x == y,
        (Value::I16(x), Value::I16(y)) => x == y,
        (Value::I32(x), Value::I32(y)) => x == y,
        (Value::I64(x), Value::I64(y)) => x == y,
        (Value::Isize(x), Value::Isize(y)) => x == y,
        (Value::Bool(x), Value::Bool(y)) => x == y,
        (Value::Char(x), Value::Char(y)) => x == y,
        (Value::F32Bits(x), Value::F32Bits(y)) => x == y,
        (Value::F64Bits(x), Value::F64Bits(y)) => x == y,
        (Value::Str(x), Value::Str(y)) => {
            if x.len() != y.len() {
                return false;
            }
            let mut i: usize = 0;
            while i < x.len()
                invariant
                    i <= x@.len(),
                    x@.len() == y@.len(),
                    a.deep_view() == ValueV::Str(x@),
                    b.deep_view() == ValueV::Str(y@),
                    forall|j: int| 0 <= j < i ==> x@[j] == y@[j],
                decreases x@.len() - i,
            {
                if x[i] != y[i] {
                    proof {
                        assert(x@[i as int] != y@[i as int]);
                        assert(x@ != y@);
                        assert(a.deep_view() == ValueV::Str(x@));
                        assert(b.deep_view() == ValueV::Str(y@));
                    }
                    return false;
                }
                i = i + 1;
            }
            proof {
                assert(x@ =~= y@);
            }
            true
        },
        (Value::Opt(x), Value::Opt(y)) => match (x, y) {
            (Option::None, Option::None) => true,
            (Option::Some(bx), Option::Some(by)) => value_eq(bx, by),
            _ => false,
        },
        (Value::List(x), Value::List(y)) => value_vec_eq(x, y),
        (Value::Record(x), Value::Record(y)) => value_vec_eq(x, y),
        (Value::Variant(dx, x), Value::Variant(dy, y)) => *dx == *dy && value_vec_eq(x, y),
        (Value::Fam(hx, ex), Value::Fam(hy, ey)) => value_vec_eq(hx, hy) && value_vec_eq(ex, ey),
        _ => false,
    }
}

/// Decides whether two vectors of values have the same element images.
pub fn value_vec_eq(a: &Vec<Value>, b: &Vec<Value>) -> (r: bool)
    ensures
        r == (deep_view_seq(a@) == deep_view_seq(b@)),
    decreases a, 1nat,
{
    proof {
        lemma_deep_view_seq(a@);
        lemma_deep_view_seq(b@);
    }
    if a.len() != b.len() {
        proof {
            assert(deep_view_seq(a@).len() != deep_view_seq(b@).len());
        }
        return false;
    }
    let mut i: usize = 0;
    while i < a.len()
        invariant
            i <= a@.len(),
            a@.len() == b@.len(),
            forall|j: int| 0 <= j < i ==> a@[j].deep_view() == b@[j].deep_view(),
        decreases a@.len() - i,
    {
        proof {
            assert(decreases_to!(a@ => a@[i as int]));
        }
        if !value_eq(&a[i], &b[i]) {
            proof {
                lemma_deep_view_seq(a@);
                lemma_deep_view_seq(b@);
                assert(deep_view_seq(a@)[i as int] != deep_view_seq(b@)[i as int]);
            }
            return false;
        }
        i = i + 1;
    }
    proof {
        lemma_deep_view_seq(a@);
        lemma_deep_view_seq(b@);
        assert(deep_view_seq(a@) =~= deep_view_seq(b@));
    }
    true
}

/// Builds a value with the same mathematical image, so that hooks can work on
/// a private copy while the caller's value stays untouched.
pub fn duplicate(v: &Value) -> (r: Value)
    ensures
        r.deep_view() == v.deep_view(),
    decreases v, 0nat,
{
    match v {
        Value::U8(x) => Value::U8(*x),
        Value::U16(x) => Value::U16(*x),
        Value::U32(x) => Value::U32(*x),
        Value::U64(x) => Value::U64(*x),
        Value::Usize(x) => Value::Usize(*x),
        Value::I8(x) => Value::I8(*x),
        Value::I16(x) => Value::I16(*x),
        Value::I32(x) => Value::I32(*x),
        Value::I64(x) => Value::I64(*x),
        Value::Isize(x) => Value::Isize(*x),
        Value::Bool(x) => Value::Bool(*x),
        Value::Char(x) => Value::Char(*x),
        Value::F32Bits(x) => Value::F32Bits(*x),
        Value::F64Bits(x) => Value::F64Bits(*x),
        Value::Str(bs) => {
            let mut out: Vec<u8> = Vec::new();
            let mut i: usize = 0;
            while i < bs.len()
                invariant
                    i <= bs@.len(),
                    out@ == bs@.subrange(0, i as int),
                decreases bs@.len() - i,
            {
                out.push(bs[i]);
                proof {
                    assert(out@ =~= bs@.subrange(0, i + 1));
                }
                i = i + 1;
            }
            proof {
                assert(out@ =~= bs@);
            }
            Value::Str(out)
        },
        Value::Opt(o) => match o {
            Option::None => Value::Opt(None),
            Option::Some(b) => Value::Opt(Some(Box::new(duplicate(b)))),
        },
        Value::List(vs) => Value::List(duplicate_vec(vs)),
        Value::Record(vs) => Value::Record(duplicate_vec(vs)),
        Value::Variant(d, vs) => Value::Variant(*d, duplicate_vec(vs)),
        Value::Fam(hs, es) => Value::Fam(duplicate_vec(hs), duplicate_vec(es)),
    }
}

/// Builds a vector of values with the same mathematical image, element by
/// element.
pub fn duplicate_vec(vs: &Vec<Value>) -> (r: Vec<Value>)
    ensures
        r@.len() == vs@.len(),
        forall|j: int| 0 <= j < vs@.len() ==> r@[j].deep_view() == vs@[j].deep_view(),
        deep_view_seq(r@) == deep_view_seq(vs@),
    decreases vs, 1nat,
{
    let mut out: Vec<Value> = Vec::new();
    let mut i: usize = 0;
    while i < vs.len()
        invariant
            i <= vs@.len(),
            out@.len() == i,
            forall|j: int| 0 <= j < i ==> out@[j].deep_view() == vs@[j].deep_view(),
        decreases vs@.len() - i,
    {
        proof {
            assert(decreases_to!(vs@ => vs@[i as int]));
        }
        out.push(duplicate(&vs[i]));
        i = i + 1;
    }
    proof {
        lemma_deep_view_seq(out@);
        lemma_deep_view_seq(vs@);
        assert(deep_view_seq(out@) =~= deep_view_seq(vs@));
    }
    out
}

} // verus!
