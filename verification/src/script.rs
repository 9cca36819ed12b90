//! A data-driven hook set: semantic hooks, default synthesis and variant
//! fallback described as small scripts, interpreted by verified code.
//!
//! Device models that need no hand-written verified hook implementation can
//! register their corrective logic as [`HookRule`] scripts: each rule has a
//! condition over the in-progress record and the governing version, and a
//! list of steps that mutate fields or reject the operation.  The
//! interpreter is verified against spec functions, so a [`ScriptedHooks`]
//! value is a [`SchemaHooks`] implementation with exact, deterministic
//! semantics.

use vstd::prelude::*;

use crate::errors::{err_matches, SpecErr, VersionizeError};
use crate::hooks::{err_unknown_hook, unknown_hook_msg, SchemaHooks};
use crate::value::{deep_view_seq, duplicate, lemma_deep_view_seq, value_eq, Value, ValueV};
use crate::version::{version_le, version_lt, Version};

verus! {

/// A condition over the in-progress record and the governing version.
pub enum HookCond {
    /// Holds always.
    Always,
    /// The governing version is before the given one.
    VersionLt(Version),
    /// The governing version is at or before the given one.
    VersionLe(Version),
    /// The governing version equals the given one.
    VersionEq(Version),
    /// The governing version's patch number equals this.
    PatchEq(u16),
    /// The governing version's patch number differs from this.
    PatchNe(u16),
    /// The governing version's patch number is below this.
    PatchLt(u16),
    /// The governing version's patch number is at least this.
    PatchGe(u16),
    /// The field's value equals the constant.
    FieldEq(usize, Value),
    /// The field's value differs from the constant.
    FieldNe(usize, Value),
    /// The sequence or text field has exactly this many elements.
    LenEq(usize, u64),
    /// The sequence or text field has more than this many elements.
    LenGt(usize, u64),
    /// The first field's length exceeds the second field's integer value.
    LenGtField(usize, usize),
    /// The first field's length is at least the second field's integer value.
    LenGeField(usize, usize),
    /// The sequence field holds an element equal to the constant.
    Contains(usize, Value),
    /// The sequence or text field is empty.
    IsEmpty(usize),
}

/// One mutation or rejection performed by a hook.  A step addressed at a
/// field of the wrong kind does nothing.
pub enum HookStep {
    /// Replaces the field's value with the constant.
    SetField(usize, Value),
    /// Appends the constant to the sequence field.
    Push(usize, Value),
    /// Removes the sequence field's last element, if any.
    Pop(usize),
    /// Ors the mask into the 32-bit unsigned field.
    OrU32(usize, u32),
    /// Adds to the 8-bit unsigned field, wrapping.
    AddU8(usize, u8),
    /// Drops every element of the sequence field equal to the constant.
    RetainNe(usize, Value),
    /// Rejects the whole operation with this semantic message.
    Fail(String),
}

/// One hook rule: when both conditions hold, the steps run in order.  A
/// rule needing only one condition carries `Always` as the other.
pub struct HookRule {
    pub cond: HookCond,
    pub also: HookCond,
    pub steps: Vec<HookStep>,
}

/// One fallback arm: a patch-number range and the replacement variant.
pub struct FallbackArm {
    pub patch_lo: u16,
    pub patch_hi: u16,
    pub replacement: Value,
}

/// A variant-fallback script: the first arm whose patch range holds the
/// governing version's patch wins; none matching rejects with the message.
pub struct FallbackScript {
    pub arms: Vec<FallbackArm>,
    pub otherwise: String,
}

/// First entry recorded under the identifier, if any.
pub open spec fn assoc<T>(entries: Seq<(u32, T)>, id: u32) -> Option<T>
    decreases entries.len(),
{
    if entries.len() == 0 {
        None
    } else if entries[0].0 == id {
        Some(entries[0].1)
    } else {
        assoc(entries.subrange(1, entries.len() as int), id)
    }
}

/// The integer a scalar field holds, if it is an unsigned one.
pub open spec fn field_int(v: ValueV) -> Option<int> {
    match v {
        ValueV::U8(x) => Some(x as int),
        ValueV::U16(x) => Some(x as int),
        ValueV::U32(x) => Some(x as int),
        ValueV::U64(x) => Some(x as int),
        ValueV::Usize(x) => Some(x as int),
        _ => None,
    }
}

/// The element count of a sequence or text field.
pub open spec fn field_len(v: ValueV) -> Option<int> {
    match v {
        ValueV::Str(bs) => Some(bs.len() as int),
        ValueV::List(es) => Some(es.len() as int),
        _ => None,
    }
}

/// Whether a condition holds of the record at the governing version.
pub open spec fn cond_holds(c: HookCond, fields: Seq<ValueV>, ver: Version) -> bool {
    match c {
        HookCond::Always => true,
        HookCond::VersionLt(v) => version_lt(ver, v),
        HookCond::VersionLe(v) => version_le(ver, v),
        HookCond::VersionEq(v) => ver == v,
        HookCond::PatchEq(p) => ver.patch == p,
        HookCond::PatchNe(p) => ver.patch != p,
        HookCond::PatchLt(p) => ver.patch < p,
        HookCond::PatchGe(p) => ver.patch >= p,
        HookCond::FieldEq(i, w) => i < fields.len() && fields[i as int] == w.deep_view(),
        HookCond::FieldNe(i, w) => i < fields.len() && fields[i as int] != w.deep_view(),
        HookCond::LenEq(i, n) => i < fields.len() && field_len(fields[i as int]) == Some(n as int),
        HookCond::LenGt(i, n) => i < fields.len() && (field_len(fields[i as int]) matches Some(l)
            && l > n),
        HookCond::LenGtField(a, b) => a < fields.len() && b < fields.len() && (field_len(
            fields[a as int],
        ) matches Some(l) && (field_int(fields[b as int]) matches Some(x) && l > x)),
        HookCond::LenGeField(a, b) => a < fields.len() && b < fields.len() && (field_len(
            fields[a as int],
        ) matches Some(l) && (field_int(fields[b as int]) matches Some(x) && l >= x)),
        HookCond::Contains(i, w) => i < fields.len() && (fields[i as int] matches ValueV::List(es)
            && es.contains(w.deep_view())),
        HookCond::IsEmpty(i) => i < fields.len() && field_len(fields[i as int]) == Some(0int),
    }
}

/// The record with every element of `es` equal to `w` dropped.
pub open spec fn retain_ne(es: Seq<ValueV>, w: ValueV) -> Seq<ValueV>
    decreases es.len(),
{
    if es.len() == 0 {
        Seq::empty()
    } else {
        (if es[0] != w {
            seq![es[0]]
        } else {
            Seq::empty()
        }) + retain_ne(es.subrange(1, es.len() as int), w)
    }
}

/// What one step turns the record into, or the semantic message it fails
/// with.
pub open spec fn apply_step(st: HookStep, fields: Seq<ValueV>) -> Result<Seq<ValueV>, Seq<char>> {
    match st {
        HookStep::SetField(i, w) => if i < fields.len() {
            Ok(fields.update(i as int, w.deep_view()))
        } else {
            Ok(fields)
        },
        HookStep::Push(i, w) => if i < fields.len() && (fields[i as int] matches ValueV::List(_)) {
            match fields[i as int] {
                ValueV::List(es) => Ok(
                    fields.update(i as int, ValueV::List(es.push(w.deep_view()))),
                ),
                _ => Ok(fields),
            }
        } else {
            Ok(fields)
        },
        HookStep::Pop(i) => if i < fields.len() {
            match fields[i as int] {
                ValueV::List(es) => if es.len() > 0 {
                    Ok(fields.update(i as int, ValueV::List(es.subrange(0, es.len() - 1))))
                } else {
                    Ok(fields)
                },
                _ => Ok(fields),
            }
        } else {
            Ok(fields)
        },
        HookStep::OrU32(i, m) => if i < fields.len() {
            match fields[i as int] {
                ValueV::U32(x) => Ok(fields.update(i as int, ValueV::U32(x | m))),
                _ => Ok(fields),
            }
        } else {
            Ok(fields)
        },
        HookStep::AddU8(i, d) => if i < fields.len() {
            match fields[i as int] {
                ValueV::U8(x) => Ok(
                    fields.update(i as int, ValueV::U8(((x + d) % 0x100) as u8)),
                ),
                _ => Ok(fields),
            }
        } else {
            Ok(fields)
        },
        HookStep::RetainNe(i, w) => if i < fields.len() {
            match fields[i as int] {
                ValueV::List(es) => Ok(
                    fields.update(i as int, ValueV::List(retain_ne(es, w.deep_view()))),
                ),
                _ => Ok(fields),
            }
        } else {
            Ok(fields)
        },
        HookStep::Fail(m) => Err(m@),
    }
}

/// What the steps from index `i` on turn the record into.
pub open spec fn apply_steps(steps: Seq<HookStep>, fields: Seq<ValueV>, i: int) -> Result<
    Seq<ValueV>,
    Seq<char>,
>
    decreases steps.len() - i,
{
    if i < 0 || i >= steps.len() {
        Ok(fields)
    } else {
        match apply_step(steps[i], fields) {
            Err(m) => Err(m),
            Ok(fs) => apply_steps(steps, fs, i + 1),
        }
    }
}

/// What the rules from index `i` on turn the record into: each rule whose
/// condition holds runs its steps in order.
pub open spec fn apply_rules(
    rules: Seq<HookRule>,
    fields: Seq<ValueV>,
    ver: Version,
    i: int,
) -> Result<Seq<ValueV>, Seq<char>>
    decreases rules.len() - i,
{
    if i < 0 || i >= rules.len() {
        Ok(fields)
    } else {
        let stepped = if cond_holds(rules[i].cond, fields, ver) && cond_holds(
            rules[i].also,
            fields,
            ver,
        ) {
            apply_steps(rules[i].steps@, fields, 0)
        } else {
            Ok(fields)
        };
        match stepped {
            Err(m) => Err(m),
            Ok(fs) => apply_rules(rules, fs, ver, i + 1),
        }
    }
}

/// What a fallback script yields for the governing version's patch number.
pub open spec fn fallback_eval(arms: Seq<FallbackArm>, patch: u16, otherwise: Seq<char>) -> Result<
    ValueV,
    Seq<char>,
>
    decreases arms.len(),
{
    if arms.len() == 0 {
        Err(otherwise)
    } else if arms[0].patch_lo <= patch <= arms[0].patch_hi {
        Ok(arms[0].replacement.deep_view())
    } else {
        fallback_eval(arms.subrange(1, arms.len() as int), patch, otherwise)
    }
}

/// A hook set given as scripts, addressed by hook identifier.
pub struct ScriptedHooks {
    pub defaults: Vec<(u32, Value)>,
    pub pre_rules: Vec<(u32, Vec<HookRule>)>,
    pub post_rules: Vec<(u32, Vec<HookRule>)>,
    pub fallbacks: Vec<(u32, FallbackScript)>,
}

impl ScriptedHooks {
    /// An empty hook set: every identifier is unknown.
    pub fn new() -> (h: ScriptedHooks)
        ensures
            h.defaults@ =~= Seq::<(u32, Value)>::empty(),
            h.pre_rules@ =~= Seq::<(u32, Vec<HookRule>)>::empty(),
            h.post_rules@ =~= Seq::<(u32, Vec<HookRule>)>::empty(),
            h.fallbacks@ =~= Seq::<(u32, FallbackScript)>::empty(),
    {
        ScriptedHooks {
            defaults: Vec::new(),
            pre_rules: Vec::new(),
            post_rules: Vec::new(),
            fallbacks: Vec::new(),
        }
    }
}

/// Finds the first entry recorded under `id`.
fn assoc_find<T>(entries: &Vec<(u32, T)>, id: u32) -> (r: Option<&T>)
    ensures
        match r {
            Option::Some(t) => assoc(entries@, id) == Some(*t),
            Option::None => assoc(entries@, id) is None,
        },
{
    proof {
        assert(entries@.subrange(0, entries@.len() as int) =~= entries@);
    }
    let mut i: usize = 0;
    while i < entries.len()
        invariant
            i <= entries@.len(),
            assoc(entries@, id) == assoc(
                entries@.subrange(i as int, entries@.len() as int),
                id,
            ),
        decreases entries@.len() - i,
    {
        proof {
            let tail = entries@.subrange(i as int, entries@.len() as int);
            assert(tail[0] == entries@[i as int]);
            assert(tail.subrange(1, tail.len() as int) =~= entries@.subrange(
                i + 1,
                entries@.len() as int,
            ));
        }
        if entries[i].0 == id {
            return Some(&entries[i].1);
        }
        i = i + 1;
    }
    proof {
        assert(entries@.subrange(i as int, entries@.len() as int) =~= Seq::<(u32, T)>::empty());
    }
    None
}

/// The element count of a sequence or text field, at run time.
fn len_of(v: &Value) -> (r: Option<u64>)
    ensures
        match r {
            Option::Some(n) => field_len(v.deep_view()) == Some(n as int),
            Option::None => field_len(v.deep_view()) is None,
        },
{
    match v {
        Value::Str(bs) => Some(bs.len() as u64),
        Value::List(es) => {
            proof {
                lemma_deep_view_seq(es@);
            }
            Some(es.len() as u64)
        },
        _ => None,
    }
}

/// The integer an unsigned scalar field holds, at run time.
fn int_of(v: &Value) -> (r: Option<u64>)
    ensures
        match r {
            Option::Some(n) => field_int(v.deep_view()) == Some(n as int),
            Option::None => field_int(v.deep_view()) is None,
        },
{
    match v {
        Value::U8(x) => Some(*x as u64),
        Value::U16(x) => Some(*x as u64),
        Value::U32(x) => Some(*x as u64),
        Value::U64(x) => Some(*x),
        Value::Usize(x) => Some(*x),
        _ => None,
    }
}

/// Whether a condition holds of the record at the governing version.
fn exec_cond(c: &HookCond, fields: &Vec<Value>, ver: &Version) -> (r: bool)
    ensures
        r == cond_holds(*c, deep_view_seq(fields@), *ver),
{
    proof {
        lemma_deep_view_seq(fields@);
    }
    match c {
        HookCond::Always => true,
        HookCond::VersionLt(v) => ver.lt(v),
        HookCond::VersionLe(v) => ver.le(v),
        HookCond::VersionEq(v) => ver.major == v.major && ver.minor == v.minor && ver.patch
            == v.patch,
        HookCond::PatchEq(p) => ver.patch == *p,
        HookCond::PatchNe(p) => ver.patch != *p,
        HookCond::PatchLt(p) => ver.patch < *p,
        HookCond::PatchGe(p) => ver.patch >= *p,
        HookCond::FieldEq(i, w) => *i < fields.len() && value_eq(&fields[*i], w),
        HookCond::FieldNe(i, w) => *i < fields.len() && !value_eq(&fields[*i], w),
        HookCond::LenEq(i, n) => *i < fields.len() && match len_of(&fields[*i]) {
            Option::Some(l) => l == *n,
            Option::None => false,
        },
        HookCond::LenGt(i, n) => *i < fields.len() && match len_of(&fields[*i]) {
            Option::Some(l) => l > *n,
            Option::None => false,
        },
        HookCond::LenGtField(a, b) => *a < fields.len() && *b < fields.len() && match (
        len_of(&fields[*a]),
        int_of(&fields[*b])) {
            (Option::Some(l), Option::Some(x)) => l > x,
            _ => false,
        },
        HookCond::LenGeField(a, b) => *a < fields.len() && *b < fields.len() && match (
        len_of(&fields[*a]),
        int_of(&fields[*b])) {
            (Option::Some(l), Option::Some(x)) => l >= x,
            _ => false,
        },
        HookCond::Contains(i, w) => {
            if *i >= fields.len() {
                false
            } else {
                match &fields[*i] {
                    Value::List(es) => {
                        proof {
                            lemma_deep_view_seq(es@);
                        }
                        let mut k: usize = 0;
                        let mut found = false;
                        while k < es.len()
                            invariant
                                k <= es@.len(),
                                found ==> deep_view_seq(es@).contains(w.deep_view()),
                                !found ==> forall|j: int|
                                    0 <= j < k ==> #[trigger] es@[j].deep_view()
                                        != w.deep_view(),
                            decreases es@.len() - k,
                        {
                            if value_eq(&es[k], w) {
                                proof {
                                    lemma_deep_view_seq(es@);
                                    assert(deep_view_seq(es@)[k as int] == w.deep_view());
                                }
                                found = true;
                            }
                            k = k + 1;
                        }
                        proof {
                            lemma_deep_view_seq(es@);
                            if !found {
                                assert forall|j: int|
                                    0 <= j < deep_view_seq(es@).len() implies #[trigger] deep_view_seq(
                                    es@,
                                )[j] != w.deep_view() by {
                                    assert(deep_view_seq(es@)[j] == es@[j].deep_view());
                                }
                            }
                        }
                        found
                    },
                    _ => false,
                }
            }
        },
        HookCond::IsEmpty(i) => *i < fields.len() && match len_of(&fields[*i]) {
            Option::Some(l) => l == 0,
            Option::None => false,
        },
    }
}

/// Runs one step on the record.
fn exec_step(st: &HookStep, fields: &mut Vec<Value>) -> (r: Result<(), VersionizeError>)
    ensures
        match apply_step(*st, deep_view_seq(old(fields)@)) {
            Ok(fs) => r matches Ok(_) && deep_view_seq(final(fields)@) == fs,
            Err(m) => r matches Err(e) && err_matches(e, SpecErr::Semantic(m)) && final(fields)@
                == old(fields)@,
        },
{
    let ghost dv0 = deep_view_seq(old(fields)@);
    proof {
        lemma_deep_view_seq(fields@);
    }
    match st {
        HookStep::SetField(i, w) => {
            if *i < fields.len() {
                fields[*i] = duplicate(w);
                proof {
                    lemma_deep_view_seq(fields@);
                    assert(deep_view_seq(fields@) =~= dv0.update(*i as int, w.deep_view()));
                }
            }
            Ok(())
        },
        HookStep::Push(i, w) => {
            if *i < fields.len() {
                let cur = duplicate(&fields[*i]);
                match cur {
                    Value::List(mut es) => {
                        let ghost es0 = deep_view_seq(es@);
                        proof {
                            assert(dv0[*i as int] == ValueV::List(es0));
                        }
                        let ghost esv = es@;
                        es.push(duplicate(w));
                        proof {
                            lemma_deep_view_seq(esv);
                            lemma_deep_view_seq(es@);
                            assert(es@.subrange(0, es@.len() - 1) =~= esv);
                            assert(deep_view_seq(es@) =~= es0.push(w.deep_view()));
                        }
                        fields[*i] = Value::List(es);
                        proof {
                            lemma_deep_view_seq(fields@);
                            assert(deep_view_seq(fields@) =~= dv0.update(
                                *i as int,
                                ValueV::List(es0.push(w.deep_view())),
                            ));
                        }
                        Ok(())
                    },
                    _ => {
                        proof {
                            assert(!(dv0[*i as int] matches ValueV::List(_)));
                        }
                        Ok(())
                    },
                }
            } else {
                Ok(())
            }
        },
        HookStep::Pop(i) => {
            if *i < fields.len() {
                let cur = duplicate(&fields[*i]);
                match cur {
                    Value::List(mut es) => {
                        let ghost es0 = deep_view_seq(es@);
                        proof {
                            assert(dv0[*i as int] == ValueV::List(es0));
                        }
                        if es.len() > 0 {
                            let ghost esv = es@;
                            es.pop();
                            proof {
                                lemma_deep_view_seq(esv);
                                lemma_deep_view_seq(es@);
                                assert(deep_view_seq(es@) =~= es0.subrange(0, es0.len() - 1));
                            }
                            fields[*i] = Value::List(es);
                            proof {
                                lemma_deep_view_seq(fields@);
                                assert(deep_view_seq(fields@) =~= dv0.update(
                                    *i as int,
                                    ValueV::List(es0.subrange(0, es0.len() - 1)),
                                ));
                            }
                        }
                        Ok(())
                    },
                    _ => {
                        proof {
                            assert(!(dv0[*i as int] matches ValueV::List(_)));
                        }
                        Ok(())
                    },
                }
            } else {
                Ok(())
            }
        },
        HookStep::OrU32(i, m) => {
            if *i < fields.len() {
                let cur = duplicate(&fields[*i]);
                match cur {
                    Value::U32(x) => {
                        fields[*i] = Value::U32(x | *m);
                        proof {
                            lemma_deep_view_seq(fields@);
                            assert(deep_view_seq(fields@) =~= dv0.update(
                                *i as int,
                                ValueV::U32(x | *m),
                            ));
                        }
                        Ok(())
                    },
                    _ => {
                        proof {
                            assert(!(dv0[*i as int] matches ValueV::U32(_)));
                        }
                        Ok(())
                    },
                }
            } else {
                Ok(())
            }
        },
        HookStep::AddU8(i, d) => {
            if *i < fields.len() {
                let cur = duplicate(&fields[*i]);
                match cur {
                    Value::U8(x) => {
                        let nv: u8 = (((x as u16) + (*d as u16)) % 0x100) as u8;
                        fields[*i] = Value::U8(nv);
                        proof {
                            lemma_deep_view_seq(fields@);
                            assert(deep_view_seq(fields@) =~= dv0.update(
                                *i as int,
                                ValueV::U8(((x + *d) % 0x100) as u8),
                            ));
                        }
                        Ok(())
                    },
                    _ => {
                        proof {
                            assert(!(dv0[*i as int] matches ValueV::U8(_)));
                        }
                        Ok(())
                    },
                }
            } else {
                Ok(())
            }
        },
        HookStep::RetainNe(i, w) => {
            if *i < fields.len() {
                let cur = duplicate(&fields[*i]);
                match cur {
                    Value::List(es) => {
                        let ghost es0 = deep_view_seq(es@);
                        proof {
                            assert(dv0[*i as int] == ValueV::List(es0));
                        }
                        let mut out: Vec<Value> = Vec::new();
                        let mut k: usize = 0;
                        proof {
                            lemma_deep_view_seq(es@);
                            assert(es0.subrange(0, es0.len() as int) =~= es0);
                            assert(deep_view_seq(out@) =~= Seq::<ValueV>::empty());
                            assert(Seq::<ValueV>::empty() + retain_ne(es0, w.deep_view())
                                =~= retain_ne(es0, w.deep_view()));
                        }
                        while k < es.len()
                            invariant
                                k <= es@.len(),
                                es0 == deep_view_seq(es@),
                                es0.len() == es@.len(),
                                forall|j: int|
                                    0 <= j < es@.len() ==> #[trigger] es0[j] == es@[j].deep_view(),
                                deep_view_seq(out@) + retain_ne(
                                    es0.subrange(k as int, es0.len() as int),
                                    w.deep_view(),
                                ) == retain_ne(es0, w.deep_view()),
                            decreases es@.len() - k,
                        {
                            let ghost out0 = deep_view_seq(out@);
                            let ghost tail = es0.subrange(k as int, es0.len() as int);
                            proof {
                                assert(tail[0] == es0[k as int]);
                                assert(tail.subrange(1, tail.len() as int) =~= es0.subrange(
                                    k + 1,
                                    es0.len() as int,
                                ));
                            }
                            if !value_eq(&es[k], w) {
                                let ghost outv = out@;
                                out.push(duplicate(&es[k]));
                                proof {
                                    lemma_deep_view_seq(outv);
                                    lemma_deep_view_seq(out@);
                                    assert(out@.subrange(0, out@.len() - 1) =~= outv);
                                    assert(deep_view_seq(out@) =~= out0.push(es0[k as int]));
                                    assert(out0.push(es0[k as int]) + retain_ne(
                                        es0.subrange(k + 1, es0.len() as int),
                                        w.deep_view(),
                                    ) =~= out0 + (seq![es0[k as int]] + retain_ne(
                                        es0.subrange(k + 1, es0.len() as int),
                                        w.deep_view(),
                                    )));
                                }
                            }
                            k = k + 1;
                        }
                        proof {
                            assert(es0.subrange(es0.len() as int, es0.len() as int)
                                =~= Seq::<ValueV>::empty());
                        }
                        fields[*i] = Value::List(out);
                        proof {
                            lemma_deep_view_seq(fields@);
                            assert(deep_view_seq(fields@) =~= dv0.update(
                                *i as int,
                                ValueV::List(retain_ne(es0, w.deep_view())),
                            ));
                        }
                        Ok(())
                    },
                    _ => {
                        proof {
                            assert(!(dv0[*i as int] matches ValueV::List(_)));
                        }
                        Ok(())
                    },
                }
            } else {
                Ok(())
            }
        },
        HookStep::Fail(m) => Err(VersionizeError::Semantic(m.clone())),
    }
}

/// Runs the steps of one rule in order.
fn exec_steps(steps: &Vec<HookStep>, fields: &mut Vec<Value>) -> (r: Result<(), VersionizeError>)
    ensures
        match apply_steps(steps@, deep_view_seq(old(fields)@), 0) {
            Ok(fs) => r matches Ok(_) && deep_view_seq(final(fields)@) == fs,
            Err(m) => r matches Err(e) && err_matches(e, SpecErr::Semantic(m)),
        },
{
    let ghost full = apply_steps(steps@, deep_view_seq(fields@), 0);
    let mut i: usize = 0;
    while i < steps.len()
        invariant
            i <= steps@.len(),
            full == apply_steps(steps@, deep_view_seq(old(fields)@), 0),
            match apply_steps(steps@, deep_view_seq(fields@), i as int) {
                Ok(fs) => full matches Ok(f2) && f2 == fs,
                Err(m) => full == Err::<Seq<ValueV>, Seq<char>>(m),
            },
        decreases steps@.len() - i,
    {
        proof {
            assert(decreases_to!(steps@ => steps@[i as int]));
        }
        match exec_step(&steps[i], fields) {
            Err(e) => {
                return Err(e);
            },
            Ok(_) => {},
        }
        i = i + 1;
    }
    Ok(())
}

/// Runs every rule whose condition holds, in order.
fn exec_rules(rules: &Vec<HookRule>, fields: &mut Vec<Value>, ver: &Version) -> (r: Result<
    (),
    VersionizeError,
>)
    ensures
        match apply_rules(rules@, deep_view_seq(old(fields)@), *ver, 0) {
            Ok(fs) => r matches Ok(_) && deep_view_seq(final(fields)@) == fs,
            Err(m) => r matches Err(e) && err_matches(e, SpecErr::Semantic(m)),
        },
{
    let ghost full = apply_rules(rules@, deep_view_seq(fields@), *ver, 0);
    let mut i: usize = 0;
    while i < rules.len()
        invariant
            i <= rules@.len(),
            full == apply_rules(rules@, deep_view_seq(old(fields)@), *ver, 0),
            match apply_rules(rules@, deep_view_seq(fields@), *ver, i as int) {
                Ok(fs) => full matches Ok(f2) && f2 == fs,
                Err(m) => full == Err::<Seq<ValueV>, Seq<char>>(m),
            },
        decreases rules@.len() - i,
    {
        let rule = &rules[i];
        if exec_cond(&rule.cond, fields, ver) && exec_cond(&rule.also, fields, ver) {
            match exec_steps(&rule.steps, fields) {
                Err(e) => {
                    return Err(e);
                },
                Ok(_) => {},
            }
        }
        i = i + 1;
    }
    Ok(())
}

impl SchemaHooks for ScriptedHooks {
    open spec fn spec_default(&self, id: u32, source: Version) -> Result<ValueV, Seq<char>> {
        match assoc(self.defaults@, id) {
            Option::None => Err(unknown_hook_msg()),
            Option::Some(v) => Ok(v.deep_view()),
        }
    }

    open spec fn spec_pre(&self, id: u32, fields: Seq<ValueV>, target: Version) -> Result<
        Seq<ValueV>,
        Seq<char>,
    > {
        match assoc(self.pre_rules@, id) {
            Option::None => Err(unknown_hook_msg()),
            Option::Some(rules) => apply_rules(rules@, fields, target, 0),
        }
    }

    open spec fn spec_post(&self, id: u32, fields: Seq<ValueV>, source: Version) -> Result<
        Seq<ValueV>,
        Seq<char>,
    > {
        match assoc(self.post_rules@, id) {
            Option::None => Err(unknown_hook_msg()),
            Option::Some(rules) => apply_rules(rules@, fields, source, 0),
        }
    }

    open spec fn spec_fallback(&self, id: u32, value: ValueV, version: Version) -> Result<
        ValueV,
        Seq<char>,
    > {
        match assoc(self.fallbacks@, id) {
            Option::None => Err(unknown_hook_msg()),
            Option::Some(fb) => fallback_eval(fb.arms@, version.patch, fb.otherwise@),
        }
    }

    fn run_default(&self, id: u32, source: &Version) -> (r: Result<Value, VersionizeError>) {
        match assoc_find(&self.defaults, id) {
            Option::None => Err(err_unknown_hook()),
            Option::Some(v) => Ok(duplicate(v)),
        }
    }

    fn run_pre(&self, id: u32, fields: &mut Vec<Value>, target: &Version) -> (r: Result<
        (),
        VersionizeError,
    >) {
        match assoc_find(&self.pre_rules, id) {
            Option::None => Err(err_unknown_hook()),
            Option::Some(rules) => exec_rules(rules, fields, target),
        }
    }

    fn run_post(&self, id: u32, fields: &mut Vec<Value>, source: &Version) -> (r: Result<
        (),
        VersionizeError,
    >) {
        match assoc_find(&self.post_rules, id) {
            Option::None => Err(err_unknown_hook()),
            Option::Some(rules) => exec_rules(rules, fields, source),
        }
    }

    fn run_fallback(&self, id: u32, current: &Value, version: &Version) -> (r: Result<
        Value,
        VersionizeError,
    >) {
        match assoc_find(&self.fallbacks, id) {
            Option::None => Err(err_unknown_hook()),
            Option::Some(fb) => {
                proof {
                    assert(fb.arms@.subrange(0, fb.arms@.len() as int) =~= fb.arms@);
                }
                let mut k: usize = 0;
                while k < fb.arms.len()
                    invariant
                        k <= fb.arms@.len(),
                        assoc(self.fallbacks@, id) == Some(*fb),
                        fallback_eval(fb.arms@, version.patch, fb.otherwise@) == fallback_eval(
                            fb.arms@.subrange(k as int, fb.arms@.len() as int),
                            version.patch,
                            fb.otherwise@,
                        ),
                    decreases fb.arms@.len() - k,
                {
                    let arm = &fb.arms[k];
                    proof {
                        let tail = fb.arms@.subrange(k as int, fb.arms@.len() as int);
                        assert(tail[0] == fb.arms@[k as int]);
                        assert(tail.subrange(1, tail.len() as int) =~= fb.arms@.subrange(
                            k + 1,
                            fb.arms@.len() as int,
                        ));
                    }
                    if arm.patch_lo <= version.patch && version.patch <= arm.patch_hi {
                        proof {
                            assert(fallback_eval(
                                fb.arms@.subrange(k as int, fb.arms@.len() as int),
                                version.patch,
                                fb.otherwise@,
                            ) == Ok::<ValueV, Seq<char>>(fb.arms@[k as int].replacement.deep_view()));
                        }
                        return Ok(duplicate(&arm.replacement));
                    }
                    k = k + 1;
                }
                proof {
                    assert(fb.arms@.subrange(k as int, fb.arms@.len() as int)
                        =~= Seq::<FallbackArm>::empty());
                }
                Err(VersionizeError::Semantic(fb.otherwise.clone()))
            },
        }
    }
}

} // verus!
