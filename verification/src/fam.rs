//! The header-plus-trailing-array container: a header record whose count
//! field tracks an owned variable-length element buffer, with a
//! construction-time maximum capacity.
//!
//! Append and remove always update the header's count field, so the count a
//! snapshot carries always reflects the actual element buffer; decoding
//! enforces that consistency and the capacity (see the decoder's
//! header-plus-array rules).

use vstd::prelude::*;
use vstd::string::StringExecFns;

use crate::api::Sink;
use crate::dec::{dec_value, fixed_width, fixed_width_of, spec_dec};
use crate::enc::{enc_fields, enc_list, spec_enc, spec_enc_fields, spec_enc_list};
use crate::errors::{err_matches, SpecErr, VersionizeError};
use crate::hooks::SchemaHooks;
use crate::value::{
    deep_view_seq, duplicate_vec, lemma_deep_view_seq, lemma_zero_fields, make_zero_fields,
    zero_fields, FieldDecl, Shape, Value, ValueV, VariantDecl,
};
use crate::version_map::VersionMap;

verus! {

/// Whether a decoded header-plus-array value is consistent with its
/// declaration: full-arity header whose count field matches the element
/// count, which is within capacity.
pub open spec fn fam_consistent(vv: ValueV, decl_len: int, count_idx: int, capacity: int) -> bool {
    vv matches ValueV::Fam(hs, es) && hs.len() == decl_len && 0 <= count_idx < hs.len() && hs[
        count_idx
    ] == ValueV::U32(es.len() as u32) && es.len() <= capacity
}

/// A header record plus an owned element buffer, bounded by a capacity.
#[derive(Debug)]
pub struct FamStructWrapper {
    header_decls: Vec<FieldDecl>,
    count_idx: usize,
    capacity: usize,
    elem: Shape,
    header: Vec<Value>,
    entries: Vec<Value>,
}

impl FamStructWrapper {
    /// The container's well-formedness: the count field is a 32-bit unsigned
    /// header field that always equals the element count, which is within
    /// capacity, and elements have a fixed wire width.
    pub closed spec fn wf(&self) -> bool {
        &&& self.count_idx < self.header_decls@.len()
        &&& self.header@.len() == self.header_decls@.len()
        &&& self.header_decls@[self.count_idx as int].shape is U32
        &&& self.entries@.len() <= self.capacity
        &&& self.capacity <= 0xFFFF_FFFF
        &&& deep_view_seq(self.header@)[self.count_idx as int] == ValueV::U32(
            self.entries@.len() as u32,
        )
        &&& fixed_width(self.elem) is Some
    }

    /// The header field images.
    pub closed spec fn spec_header(&self) -> Seq<ValueV> {
        deep_view_seq(self.header@)
    }

    /// The element images.
    pub closed spec fn spec_entries(&self) -> Seq<ValueV> {
        deep_view_seq(self.entries@)
    }

    /// The construction-time maximum element count.
    pub closed spec fn spec_capacity(&self) -> int {
        self.capacity as int
    }

    /// The index of the count field in the header declaration.
    pub closed spec fn spec_count_idx(&self) -> int {
        self.count_idx as int
    }

    /// The wire shape of this container.
    pub closed spec fn spec_shape(&self) -> Shape {
        Shape::Fam {
            header: self.header_decls,
            count_idx: self.count_idx,
            capacity: self.capacity,
            elem: Box::new(self.elem),
        }
    }

    /// The whole container as one wire value.
    pub closed spec fn spec_value(&self) -> ValueV {
        ValueV::Fam(self.spec_header(), self.spec_entries())
    }

    /// An empty container: zeroed header (so a zero count) and no elements.
    /// Rejects a declaration whose count field is not a 32-bit unsigned
    /// header field, whose capacity does not fit the count field, or whose
    /// element shape has no fixed width.
    pub fn new(
        header_decls: Vec<FieldDecl>,
        count_idx: usize,
        capacity: usize,
        elem: Shape,
    ) -> (r: Result<FamStructWrapper, VersionizeError>)
        ensures
            match r {
                Ok(w) => w.wf() && w.spec_entries().len() == 0 && w.spec_header() == zero_fields(
                    header_decls@,
                ) && w.spec_capacity() == capacity && w.spec_count_idx() == count_idx,
                Err(e) => e matches VersionizeError::Semantic(_),
            },
    {
        let ok_count = count_idx < header_decls.len() && match &header_decls[count_idx].shape {
            Shape::U32 => true,
            _ => false,
        };
        let ok_elem = match fixed_width_of(&elem) {
            Option::Some(_) => true,
            Option::None => false,
        };
        if !ok_count || !ok_elem || capacity > 0xFFFF_FFFF {
            return Err(
                VersionizeError::Semantic(
                    String::from_str("invalid header-plus-array declaration"),
                ),
            );
        }
        let header = make_zero_fields(&header_decls);
        let w = FamStructWrapper {
            header_decls,
            count_idx,
            capacity,
            elem,
            header,
            entries: Vec::new(),
        };
        proof {
            lemma_deep_view_seq(w.header@);
            lemma_zero_fields(w.header_decls@);
            assert(deep_view_seq(w.header@) =~= zero_fields(w.header_decls@));
            assert(deep_view_seq(w.entries@) =~= Seq::<ValueV>::empty());
        }
        Ok(w)
    }

    /// The current element count.
    pub fn len(&self) -> (n: usize)
        ensures
            n == self.spec_entries().len(),
    {
        proof {
            lemma_deep_view_seq(self.entries@);
        }
        self.entries.len()
    }

    /// Appends one element; fails with a capacity error when the count would
    /// exceed the construction-time maximum.  The header's count field is
    /// kept consistent.
    pub fn push(&mut self, elem: Value) -> (r: Result<(), VersionizeError>)
        requires
            old(self).wf(),
        ensures
            final(self).wf(),
            old(self).spec_entries().len() < old(self).spec_capacity() ==> (r matches Ok(_)
                && final(self).spec_entries() == old(self).spec_entries().push(elem.deep_view())
                && final(self).spec_header() == old(self).spec_header().update(
                old(self).spec_count_idx(),
                ValueV::U32((old(self).spec_entries().len() + 1) as u32),
            )),
            old(self).spec_entries().len() >= old(self).spec_capacity() ==> (r matches Err(e) && e
                matches VersionizeError::FamCapacityExceeded { declared, capacity } && declared
                == old(self).spec_entries().len() + 1 && capacity == old(self).spec_capacity()
                && *final(self) == *old(self)),
            final(self).spec_capacity() == old(self).spec_capacity(),
            final(self).spec_count_idx() == old(self).spec_count_idx(),
            final(self).spec_shape() == old(self).spec_shape(),
    {
        proof {
            lemma_deep_view_seq(self.entries@);
        }
        let n = self.entries.len();
        if n >= self.capacity {
            return Err(
                VersionizeError::FamCapacityExceeded {
                    declared: (n as u64) + 1,
                    capacity: self.capacity as u64,
                },
            );
        }
        let ghost entv = self.entries@;
        let ghost hv = self.header@;
        let ghost hdv = deep_view_seq(self.header@);
        self.entries.push(elem);
        let new_count: u32 = (n + 1) as u32;
        self.header[self.count_idx] = Value::U32(new_count);
        proof {
            lemma_deep_view_seq(entv);
            lemma_deep_view_seq(self.entries@);
            assert(self.entries@.subrange(0, self.entries@.len() - 1) =~= entv);
            assert(deep_view_seq(self.entries@) =~= deep_view_seq(entv).push(
                self.entries@[self.entries@.len() - 1].deep_view(),
            ));
            lemma_deep_view_seq(hv);
            lemma_deep_view_seq(self.header@);
            assert(deep_view_seq(self.header@) =~= hdv.update(
                self.count_idx as int,
                ValueV::U32(new_count),
            ));
        }
        Ok(())
    }

    /// Removes and yields the last element, if any; the header's count field
    /// is kept consistent.
    pub fn pop(&mut self) -> (r: Option<Value>)
        requires
            old(self).wf(),
        ensures
            final(self).wf(),
            old(self).spec_entries().len() == 0 ==> (r is None && *final(self) == *old(self)),
            old(self).spec_entries().len() > 0 ==> (r matches Some(v)
                && v.deep_view() == old(self).spec_entries().last()
                && final(self).spec_entries() == old(self).spec_entries().subrange(
                0,
                old(self).spec_entries().len() - 1,
            ) && final(self).spec_header() == old(self).spec_header().update(
                old(self).spec_count_idx(),
                ValueV::U32((old(self).spec_entries().len() - 1) as u32),
            )),
            final(self).spec_capacity() == old(self).spec_capacity(),
            final(self).spec_count_idx() == old(self).spec_count_idx(),
            final(self).spec_shape() == old(self).spec_shape(),
    {
        proof {
            lemma_deep_view_seq(self.entries@);
        }
        let n = self.entries.len();
        if n == 0 {
            return None;
        }
        let ghost entv = self.entries@;
        let ghost hv = self.header@;
        let ghost hdv = deep_view_seq(self.header@);
        let v = self.entries.pop();
        let new_count: u32 = (n - 1) as u32;
        self.header[self.count_idx] = Value::U32(new_count);
        proof {
            lemma_deep_view_seq(entv);
            lemma_deep_view_seq(self.entries@);
            assert(deep_view_seq(self.entries@) =~= deep_view_seq(entv).subrange(
                0,
                deep_view_seq(entv).len() - 1,
            ));
            lemma_deep_view_seq(hv);
            lemma_deep_view_seq(self.header@);
            assert(deep_view_seq(self.header@) =~= hdv.update(
                self.count_idx as int,
                ValueV::U32(new_count),
            ));
        }
        v
    }

    /// A borrow of the element buffer.
    pub fn entries(&self) -> (r: &Vec<Value>)
        ensures
            deep_view_seq(r@) == self.spec_entries(),
    {
        &self.entries
    }

    /// A borrow of one header field.
    pub fn header_field(&self, i: usize) -> (r: &Value)
        requires
            i < self.spec_header().len(),
        ensures
            r.deep_view() == self.spec_header()[i as int],
    {
        proof {
            lemma_deep_view_seq(self.header@);
        }
        &self.header[i]
    }

    /// Replaces one header field other than the count field.
    pub fn set_header_field(&mut self, i: usize, v: Value)
        requires
            old(self).wf(),
            i < old(self).spec_header().len(),
            i != old(self).spec_count_idx(),
        ensures
            final(self).wf(),
            final(self).spec_header() == old(self).spec_header().update(i as int, v.deep_view()),
            final(self).spec_entries() == old(self).spec_entries(),
            final(self).spec_capacity() == old(self).spec_capacity(),
            final(self).spec_count_idx() == old(self).spec_count_idx(),
            final(self).spec_shape() == old(self).spec_shape(),
    {
        proof {
            lemma_deep_view_seq(self.header@);
        }
        let ghost hv = self.header@;
        let ghost hdv = deep_view_seq(self.header@);
        self.header[i] = v;
        proof {
            lemma_deep_view_seq(hv);
            lemma_deep_view_seq(self.header@);
            assert(deep_view_seq(self.header@) =~= hdv.update(i as int, v.deep_view()));
        }
    }

    /// Duplicates the container: header fields and the full current element
    /// buffer; count values discarded by earlier resizing are not
    /// resurrected, since the count field always reflects the live buffer.
    pub fn duplicate(&self) -> (r: FamStructWrapper)
        requires
            self.wf(),
        ensures
            r.wf(),
            r.spec_header() == self.spec_header(),
            r.spec_entries() == self.spec_entries(),
            r.spec_capacity() == self.spec_capacity(),
            r.spec_count_idx() == self.spec_count_idx(),
    {
        let header = duplicate_vec(&self.header);
        let entries = duplicate_vec(&self.entries);
        let decls = duplicate_decls(&self.header_decls);
        let elem = duplicate_shape(&self.elem);
        proof {
            lemma_deep_view_seq(header@);
            lemma_deep_view_seq(self.header@);
            lemma_deep_view_seq(entries@);
            lemma_deep_view_seq(self.entries@);
            assert(deep_view_seq(header@) =~= deep_view_seq(self.header@));
            assert(deep_view_seq(entries@) =~= deep_view_seq(self.entries@));
        }
        FamStructWrapper {
            header_decls: decls,
            count_idx: self.count_idx,
            capacity: self.capacity,
            elem,
            header,
            entries,
        }
    }

    /// Encodes the container: header fields per the struct engine (the count
    /// field carrying the actual element count), then the element buffer as
    /// a flat sequence with no further length prefix beyond the header's own
    /// count field.
    pub fn serialize<H: SchemaHooks>(
        &self,
        h: &H,
        component: &str,
        vm: &VersionMap,
        sink: &mut Sink,
    ) -> (r: Result<(), VersionizeError>)
        ensures
            ({
                let target = vm.spec_get(component@);
                match spec_enc(h, self.spec_value(), self.spec_shape(), target) {
                    Ok(bytes) => if old(sink).spec_bytes().len() + bytes.len() <= old(
                        sink,
                    ).spec_capacity() {
                        r matches Ok(_) && final(sink).spec_bytes() == old(sink).spec_bytes()
                            + bytes
                    } else {
                        r matches Err(e) && err_matches(e, SpecErr::SinkFull) && *final(sink)
                            == *old(sink)
                    },
                    Err(se) => r matches Err(e) && err_matches(e, se) && *final(sink) == *old(
                        sink,
                    ),
                }
            }),
    {
        let target = vm.get_crate_version(component);
        let mut out: Vec<u8> = Vec::new();
        proof {
            assert(out@ =~= Seq::<u8>::empty());
        }
        let mut work = duplicate_vec(&self.header);
        proof {
            lemma_deep_view_seq(work@);
            lemma_deep_view_seq(self.header@);
            assert(deep_view_seq(work@) =~= deep_view_seq(self.header@));
        }
        match enc_fields(h, &self.header_decls, &mut work, &target, &mut out) {
            Err(e) => Err(e),
            Ok(_) => {
                let ghost mid = out@;
                match enc_list(h, &self.entries, &self.elem, &target, &mut out) {
                    Err(e) => Err(e),
                    Ok(_) => {
                        proof {
                            if let Ok((hb, fin)) = spec_enc_fields(
                                h,
                                self.header_decls@,
                                self.spec_header(),
                                target,
                                0,
                            ) {
                                if let Ok(eb) = spec_enc_list(
                                    h,
                                    self.spec_entries(),
                                    self.elem,
                                    target,
                                    0,
                                ) {
                                    assert(out@ =~= hb + eb);
                                }
                            }
                        }
                        sink.write_all(&out)
                    },
                }
            },
        }
    }

    /// Decodes a container of the given declaration from the front of
    /// `data`: the header is read first, the claimed count is then held
    /// against the bytes actually available and the capacity, and the
    /// elements are read with no further length prefix.  A post-decode hook
    /// that leaves the header inconsistent with the element buffer is
    /// rejected.
    pub fn deserialize<H: SchemaHooks>(
        h: &H,
        header_decls: Vec<FieldDecl>,
        count_idx: usize,
        capacity: usize,
        elem: Shape,
        component: &str,
        data: &Vec<u8>,
        vm: &VersionMap,
    ) -> (r: Result<FamStructWrapper, VersionizeError>)
        ensures
            ({
                let source = vm.spec_get(component@);
                let shape = Shape::Fam {
                    header: header_decls,
                    count_idx,
                    capacity,
                    elem: Box::new(elem),
                };
                match spec_dec(h, shape, data@, 0, source) {
                    Err(se) => r matches Err(e) && err_matches(e, se),
                    Ok((vv, p)) => if fam_consistent(
                        vv,
                        header_decls@.len() as int,
                        count_idx as int,
                        capacity as int,
                    ) && (header_decls@[count_idx as int].shape is U32) && capacity
                        <= 0xFFFF_FFFF && fixed_width(elem) is Some {
                        r matches Ok(w) && w.wf() && w.spec_value() == vv && w.spec_capacity()
                            == capacity && w.spec_count_idx() == count_idx
                    } else {
                        r matches Err(e) && e matches VersionizeError::Semantic(_)
                    },
                }
            }),
    {
        let ok_count = count_idx < header_decls.len() && match &header_decls[count_idx].shape {
            Shape::U32 => true,
            _ => false,
        };
        let ok_elem = match fixed_width_of(&elem) {
            Option::Some(_) => true,
            Option::None => false,
        };
        let decl_ok = ok_count && ok_elem && capacity <= 0xFFFF_FFFF;
        let shape = Shape::Fam { header: header_decls, count_idx, capacity, elem: Box::new(elem) };
        let source = vm.get_crate_version(component);
        let mut pos: usize = 0;
        let decoded = match dec_value(h, &shape, data, &mut pos, &source) {
            Err(e) => {
                return Err(e);
            },
            Ok(v) => v,
        };
        if !decl_ok {
            return Err(
                VersionizeError::Semantic(
                    String::from_str("invalid header-plus-array declaration"),
                ),
            );
        }
        let (header_decls, elem) = match shape {
            Shape::Fam { header, count_idx: _, capacity: _, elem } => (header, *elem),
            _ => {
                return Err(
                    VersionizeError::Semantic(
                        String::from_str("invalid header-plus-array declaration"),
                    ),
                );
            },
        };
        match decoded {
            Value::Fam(header, entries) => {
                proof {
                    lemma_deep_view_seq(header@);
                    lemma_deep_view_seq(entries@);
                }
                let consistent = header.len() == header_decls.len() && count_idx < header.len()
                    && entries.len() <= capacity && match &header[count_idx] {
                    Value::U32(c) => (*c as usize) == entries.len(),
                    _ => false,
                };
                if consistent {
                    proof {
                        assert(deep_view_seq(header@)[count_idx as int] == header@[
                            count_idx as int].deep_view());
                    }
                    Ok(
                        FamStructWrapper {
                            header_decls,
                            count_idx,
                            capacity,
                            elem,
                            header,
                            entries,
                        },
                    )
                } else {
                    Err(
                        VersionizeError::Semantic(
                            String::from_str("decoded container is inconsistent"),
                        ),
                    )
                }
            },
            _ => Err(
                VersionizeError::Semantic(String::from_str("decoded container is inconsistent")),
            ),
        }
    }
}

/// Builds a field declaration list over shapes with the same wire widths and
/// scalar kinds, for duplicating a container.
fn duplicate_decls(decls: &Vec<FieldDecl>) -> (r: Vec<FieldDecl>)
    ensures
        r@.len() == decls@.len(),
        forall|i: int|
            0 <= i < decls@.len() ==> ((#[trigger] r@[i].shape is U32) == (decls@[i].shape
                is U32)),
    decreases decls, 1nat,
{
    let mut out: Vec<FieldDecl> = Vec::new();
    let mut i: usize = 0;
    while i < decls.len()
        invariant
            i <= decls@.len(),
            out@.len() == i,
            forall|j: int|
                0 <= j < i ==> ((#[trigger] out@[j].shape is U32) == (decls@[j].shape is U32)),
        decreases decls@.len() - i,
    {
        proof {
            assert(decreases_to!(decls@ => decls@[i as int]));
            assert(decreases_to!(decls@[i as int] => decls@[i as int].shape));
        }
        let d = &decls[i];
        out.push(
            FieldDecl {
                shape: duplicate_shape(&d.shape),
                start: d.start,
                end: d.end,
                default_id: d.default_id,
                pre_id: d.pre_id,
                post_id: d.post_id,
            },
        );
        i = i + 1;
    }
    out
}

/// Builds a variant declaration list of the same arity, for duplicating a
/// container's schema.
fn duplicate_variants(decls: &Vec<VariantDecl>) -> (r: Vec<VariantDecl>)
    ensures
        r@.len() == decls@.len(),
    decreases decls, 1nat,
{
    let mut out: Vec<VariantDecl> = Vec::new();
    let mut i: usize = 0;
    while i < decls.len()
        invariant
            i <= decls@.len(),
            out@.len() == i,
        decreases decls@.len() - i,
    {
        proof {
            assert(decreases_to!(decls@ => decls@[i as int]));
            assert(decreases_to!(decls@[i as int] => decls@[i as int].payload));
        }
        let d = &decls[i];
        let mut payload: Vec<Shape> = Vec::new();
        let mut k: usize = 0;
        while k < d.payload.len()
            invariant
                k <= d.payload@.len(),
                decreases_to!(decls@ => d.payload@),
            decreases d.payload@.len() - k,
        {
            proof {
                assert(decreases_to!(d.payload@ => d.payload@[k as int]));
            }
            payload.push(duplicate_shape(&d.payload[k]));
            k = k + 1;
        }
        out.push(
            VariantDecl { payload, start: d.start, end: d.end, fallback_id: d.fallback_id },
        );
        i = i + 1;
    }
    out
}

/// Builds a shape with the same fixed wire width and scalar kind, for
/// duplicating a container's schema.
fn duplicate_shape(s: &Shape) -> (r: Shape)
    ensures
        fixed_width(r) == fixed_width(*s),
        (r is U32) == (*s is U32),
    decreases s, 0nat,
{
    match s {
        Shape::U8 => Shape::U8,
        Shape::U16 => Shape::U16,
        Shape::U32 => Shape::U32,
        Shape::U64 => Shape::U64,
        Shape::Usize => Shape::Usize,
        Shape::I8 => Shape::I8,
        Shape::I16 => Shape::I16,
        Shape::I32 => Shape::I32,
        Shape::I64 => Shape::I64,
        Shape::Isize => Shape::Isize,
        Shape::Bool => Shape::Bool,
        Shape::Char => Shape::Char,
        Shape::F32 => Shape::F32,
        Shape::F64 => Shape::F64,
        Shape::Str => Shape::Str,
        Shape::Opt(t) => Shape::Opt(Box::new(duplicate_shape(t))),
        Shape::List(t) => Shape::List(Box::new(duplicate_shape(t))),
        Shape::Array(t, n) => Shape::Array(Box::new(duplicate_shape(t)), *n),
        Shape::Record(decls) => Shape::Record(duplicate_decls(decls)),
        Shape::Choice(decls) => Shape::Choice(duplicate_variants(decls)),
        Shape::Fam { header, count_idx, capacity, elem } => Shape::Fam {
            header: duplicate_decls(header),
            count_idx: *count_idx,
            capacity: *capacity,
            elem: Box::new(duplicate_shape(elem)),
        },
    }
}

} // verus!
