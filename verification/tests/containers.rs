//! The header-plus-trailing-array container: count consistency, capacity
//! enforcement, version-gated header fields, and containers nested inside
//! records.

use dbs_versionize::{
    deserialize, serialize, FamStructWrapper, FieldDecl, HookCond, HookRule, HookStep,
    ScriptedHooks, Shape, Sink, Value, Version, VersionMap, VersionizeError,
};

const COMPONENT: &str = "test-data";

fn gated(
    shape: Shape,
    start: Option<(u16, u16, u16)>,
    end: Option<(u16, u16, u16)>,
    default_id: Option<u32>,
) -> FieldDecl {
    let mut d = FieldDecl::plain(shape);
    if let Some((a, b, c)) = start {
        d.start = Version::new(a, b, c);
    }
    if let Some((a, b, c)) = end {
        d.end = Some(Version::new(a, b, c));
    }
    d.default_id = default_id;
    d
}

fn vstr(s: &str) -> Value {
    Value::Str(s.as_bytes().to_vec())
}

fn vm_at(ver: &str) -> VersionMap {
    let mut vm = VersionMap::new();
    vm.set_crate_version(COMPONENT, ver).unwrap();
    vm
}

/// The current message header: a count, a padding word retired at 0.1.4, a
/// value, an extra added at 0.1.2 and a status flag that lived from 0.1.3 to
/// 0.1.4.
fn message_decls() -> Vec<FieldDecl> {
    vec![
        FieldDecl::plain(Shape::U32),
        gated(Shape::U32, None, Some((0, 1, 4)), None),
        FieldDecl::plain(Shape::U32),
        gated(Shape::U16, Some((0, 1, 2)), None, Some(200)),
        gated(Shape::Bool, Some((0, 1, 3)), Some((0, 1, 4)), Some(201)),
    ]
}

fn message_v1_decls() -> Vec<FieldDecl> {
    vec![
        FieldDecl::plain(Shape::U32),
        FieldDecl::plain(Shape::U32),
        FieldDecl::plain(Shape::U32),
    ]
}

fn message_v2_decls() -> Vec<FieldDecl> {
    vec![
        FieldDecl::plain(Shape::U32),
        FieldDecl::plain(Shape::U32),
        FieldDecl::plain(Shape::U32),
        gated(Shape::U16, Some((0, 1, 2)), None, Some(200)),
    ]
}

fn message_v3_decls() -> Vec<FieldDecl> {
    let mut d = message_v2_decls();
    d.push(gated(Shape::Bool, Some((0, 1, 3)), None, Some(201)));
    d
}

fn message_hooks() -> ScriptedHooks {
    let mut h = ScriptedHooks::new();
    h.defaults.push((200, Value::U16(4)));
    h.defaults.push((201, Value::Bool(false)));
    h
}

#[test]
fn test_deserialize_famstructwrapper_invalid_len() {
    let hooks = message_hooks();
    let vm = VersionMap::new();

    // A container with no elements.
    let state = FamStructWrapper::new(message_decls(), 0, 100, Shape::U32).unwrap();
    let mut sink = Sink::with_capacity(256);
    state.serialize(&hooks, COMPONENT, &vm, &mut sink).unwrap();
    let mut buffer = sink.into_bytes();

    // The count is the first encoded header field; corrupt it to claim more
    // elements than the bytes hold.
    buffer[0] = 255;

    assert_eq!(
        FamStructWrapper::deserialize(
            &hooks,
            message_decls(),
            0,
            100,
            Shape::U32,
            COMPONENT,
            &buffer,
            &vm
        )
        .unwrap_err(),
        VersionizeError::FamSizeMismatch { declared: 255, actual: 0 }
    );
}

#[test]
fn test_versionize_famstructwrapper() {
    let hooks = message_hooks();

    // First generation: no extra value and no status on the wire.
    let mut state1 = FamStructWrapper::new(message_v1_decls(), 0, 100, Shape::U32).unwrap();
    state1.set_header_field(1, Value::U32(8));
    state1.push(Value::U32(1)).unwrap();
    state1.push(Value::U32(2)).unwrap();

    let mut sink = Sink::with_capacity(256);
    state1.serialize(&hooks, COMPONENT, &VersionMap::new(), &mut sink).unwrap();
    let mem = sink.into_bytes();
    let restored = FamStructWrapper::deserialize(
        &hooks,
        message_decls(),
        0,
        100,
        Shape::U32,
        COMPONENT,
        &mem,
        &vm_at("0.1.0"),
    )
    .unwrap();
    assert_eq!(restored.entries(), &vec![Value::U32(1), Value::U32(2)]);
    assert_eq!(restored.len(), 2);
    assert_eq!(restored.header_field(0), &Value::U32(2));
    assert_eq!(restored.header_field(1), &Value::U32(8));
    assert_eq!(restored.header_field(3), &Value::U16(4));
    assert_eq!(restored.header_field(4), &Value::Bool(false));

    // Second generation: the extra value is on the wire and survives.
    let mut state2 = FamStructWrapper::new(message_v2_decls(), 0, 100, Shape::U32).unwrap();
    state2.set_header_field(1, Value::U32(8));
    state2.set_header_field(3, Value::U16(16));
    state2.push(Value::U32(1)).unwrap();
    state2.push(Value::U32(2)).unwrap();

    let mut sink = Sink::with_capacity(256);
    state2.serialize(&hooks, COMPONENT, &VersionMap::new(), &mut sink).unwrap();
    let mem = sink.into_bytes();
    let restored = FamStructWrapper::deserialize(
        &hooks,
        message_decls(),
        0,
        100,
        Shape::U32,
        COMPONENT,
        &mem,
        &vm_at("0.1.2"),
    )
    .unwrap();
    assert_eq!(restored.entries(), &vec![Value::U32(1), Value::U32(2)]);
    assert_eq!(restored.header_field(1), &Value::U32(8));
    assert_eq!(restored.header_field(3), &Value::U16(16));
    assert_eq!(restored.header_field(4), &Value::Bool(false));

    // Third generation: the status flag is on the wire too.
    let mut state3 = FamStructWrapper::new(message_v3_decls(), 0, 100, Shape::U32).unwrap();
    state3.set_header_field(1, Value::U32(8));
    state3.set_header_field(3, Value::U16(16));
    state3.set_header_field(4, Value::Bool(true));
    state3.push(Value::U32(1)).unwrap();
    state3.push(Value::U32(2)).unwrap();

    let mut sink = Sink::with_capacity(256);
    state3.serialize(&hooks, COMPONENT, &VersionMap::new(), &mut sink).unwrap();
    let mem = sink.into_bytes();
    let restored = FamStructWrapper::deserialize(
        &hooks,
        message_decls(),
        0,
        100,
        Shape::U32,
        COMPONENT,
        &mem,
        &vm_at("0.1.3"),
    )
    .unwrap();
    assert_eq!(restored.header_field(1), &Value::U32(8));
    assert_eq!(restored.header_field(3), &Value::U16(16));
    assert_eq!(restored.header_field(4), &Value::Bool(true));

    // Current schema written at the unbounded target: the padding word and
    // the status flag are gone from the wire, so reading at 0.1.4 zeroes the
    // padding and defaults the status.
    let mut state4 = FamStructWrapper::new(message_decls(), 0, 100, Shape::U32).unwrap();
    state4.set_header_field(1, Value::U32(8));
    state4.set_header_field(3, Value::U16(16));
    state4.set_header_field(4, Value::Bool(true));
    state4.push(Value::U32(1)).unwrap();
    state4.push(Value::U32(2)).unwrap();

    let mut sink = Sink::with_capacity(256);
    state4.serialize(&hooks, COMPONENT, &VersionMap::new(), &mut sink).unwrap();
    let mem = sink.into_bytes();
    let restored = FamStructWrapper::deserialize(
        &hooks,
        message_decls(),
        0,
        100,
        Shape::U32,
        COMPONENT,
        &mem,
        &vm_at("0.1.4"),
    )
    .unwrap();
    assert_eq!(restored.header_field(1), &Value::U32(0));
    assert_eq!(restored.header_field(3), &Value::U16(16));
    assert_eq!(restored.header_field(4), &Value::Bool(false));

    // A sink too small for the whole container rejects the write.
    let mut sink = Sink::with_capacity(16);
    assert_eq!(
        state1.serialize(&hooks, COMPONENT, &VersionMap::new(), &mut sink).unwrap_err(),
        VersionizeError::Serialize("failed to write whole buffer".to_string())
    );
}

#[test]
fn test_famstructwrapper_capacity() {
    // Appending beyond the construction-time maximum is rejected, and the
    // header count always reflects the live element buffer.
    let mut w = FamStructWrapper::new(message_v1_decls(), 0, 2, Shape::U32).unwrap();
    assert_eq!(w.header_field(0), &Value::U32(0));
    w.push(Value::U32(7)).unwrap();
    assert_eq!(w.header_field(0), &Value::U32(1));
    w.push(Value::U32(8)).unwrap();
    assert_eq!(w.header_field(0), &Value::U32(2));
    assert_eq!(
        w.push(Value::U32(9)).unwrap_err(),
        VersionizeError::FamCapacityExceeded { declared: 3, capacity: 2 }
    );
    assert_eq!(w.len(), 2);
    assert_eq!(w.header_field(0), &Value::U32(2));
    // Removing updates the count too, and never resurrects discarded counts.
    assert_eq!(w.pop(), Some(Value::U32(8)));
    assert_eq!(w.header_field(0), &Value::U32(1));
    let copy = w.duplicate();
    assert_eq!(copy.len(), 1);
    assert_eq!(copy.header_field(0), &Value::U32(1));
    assert_eq!(copy.entries(), &vec![Value::U32(7)]);
}

fn fam_shape(decls: Vec<FieldDecl>, capacity: usize) -> Shape {
    Shape::Fam { header: decls, count_idx: 0, capacity, elem: Box::new(Shape::U32) }
}

fn s_record() -> Shape {
    Shape::Record(vec![FieldDecl::plain(Shape::F64), FieldDecl::plain(Shape::I64)])
}

fn s_value(a: f64, b: i64) -> Value {
    Value::Record(vec![Value::F64Bits(a.to_bits()), Value::I64(b)])
}

/// A consistent container value for the current message schema.
fn message_fam(padding: u32, extra: u16, status: bool, entries: Vec<u32>) -> Value {
    let header = vec![
        Value::U32(entries.len() as u32),
        Value::U32(padding),
        Value::U32(0),
        Value::U16(extra),
        Value::Bool(status),
    ];
    let mut es = Vec::new();
    for e in entries {
        es.push(Value::U32(e));
    }
    Value::Fam(header, es)
}

fn message_v1_fam(padding: u32, entries: Vec<u32>) -> Value {
    let header = vec![Value::U32(entries.len() as u32), Value::U32(padding), Value::U32(0)];
    let mut es = Vec::new();
    for e in entries {
        es.push(Value::U32(e));
    }
    Value::Fam(header, es)
}

fn message_v2_fam(padding: u32, extra: u16, entries: Vec<u32>) -> Value {
    let header = vec![
        Value::U32(entries.len() as u32),
        Value::U32(padding),
        Value::U32(0),
        Value::U16(extra),
    ];
    let mut es = Vec::new();
    for e in entries {
        es.push(Value::U32(e));
    }
    Value::Fam(header, es)
}

fn fam_test_schema() -> Shape {
    let mut option_decl = gated(s_record(), Some((0, 1, 2)), None, Some(130));
    option_decl.shape = Shape::Opt(Box::new(s_record()));
    option_decl.post_id = Some(140);
    let mut messages_decl = gated(
        Shape::List(Box::new(fam_shape(message_decls(), 100))),
        None,
        Some((0, 1, 3)),
        Some(131),
    );
    messages_decl.post_id = Some(141);
    Shape::Record(vec![
        FieldDecl::plain(Shape::U8),
        FieldDecl::plain(fam_shape(message_decls(), 100)),
        option_decl,
        gated(Shape::Str, Some((0, 1, 3)), None, None),
        messages_decl,
    ])
}

fn fam_test_hooks() -> ScriptedHooks {
    let mut h = message_hooks();
    h.defaults.push((130, Value::Opt(Some(Box::new(s_value(0.5, 0))))));
    h.defaults.push((131, Value::List(vec![message_fam(1, 2, false, vec![10, 20])])));
    h.post_rules.push((
        140,
        vec![HookRule {
            cond: HookCond::PatchLt(2),
            also: HookCond::Always,
            steps: vec![HookStep::Push(4, message_fam(3, 4, false, vec![10, 20]))],
        }],
    ));
    h.post_rules.push((
        141,
        vec![HookRule {
            cond: HookCond::PatchGe(3),
            also: HookCond::Always,
            steps: vec![
                HookStep::SetField(2, Value::Opt(None)),
                HookStep::SetField(3, vstr("some_new_string")),
            ],
        }],
    ));
    h
}

#[test]
fn test_versionize_struct_with_famstructs() {
    let hooks = fam_test_hooks();

    // First generation: no options, strings or gated header fields.
    let v1_schema = Shape::Record(vec![
        FieldDecl::plain(Shape::U8),
        FieldDecl::plain(fam_shape(message_v1_decls(), 100)),
        FieldDecl::plain(Shape::List(Box::new(fam_shape(message_v1_decls(), 100)))),
    ]);
    let state = Value::Record(vec![
        Value::U8(1),
        message_v1_fam(7, vec![20]),
        Value::List(vec![message_v1_fam(5, vec![10])]),
    ]);
    let mut sink = Sink::with_capacity(1024);
    serialize(&hooks, &v1_schema, COMPONENT, &state, &VersionMap::new(), &mut sink).unwrap();
    let mem = sink.into_bytes();

    let restored =
        deserialize(&hooks, &fam_test_schema(), COMPONENT, &mem, &vm_at("0.1.1")).unwrap();
    // The option and the string take their synthesized values; the messages
    // keep the wire's single container, whose absent header fields take
    // their defaults.
    assert_eq!(
        restored,
        Value::Record(vec![
            Value::U8(1),
            message_fam(7, 4, false, vec![20]),
            Value::Opt(Some(Box::new(s_value(0.5, 0)))),
            vstr(""),
            Value::List(vec![message_fam(5, 4, false, vec![10])]),
        ])
    );

    // Second generation: the option is on the wire, so no synthesis runs.
    let v2_schema = Shape::Record(vec![
        FieldDecl::plain(Shape::U8),
        FieldDecl::plain(fam_shape(message_v2_decls(), 100)),
        gated(Shape::Opt(Box::new(s_record())), Some((0, 1, 2)), None, None),
        FieldDecl::plain(Shape::List(Box::new(fam_shape(message_v2_decls(), 100)))),
    ]);
    let state2 = Value::Record(vec![
        Value::U8(1),
        message_v2_fam(7, 8, vec![20]),
        Value::Opt(None),
        Value::List(vec![message_v2_fam(5, 6, vec![10])]),
    ]);
    let mut sink = Sink::with_capacity(1024);
    serialize(&hooks, &v2_schema, COMPONENT, &state2, &VersionMap::new(), &mut sink).unwrap();
    let mem = sink.into_bytes();
    let restored =
        deserialize(&hooks, &fam_test_schema(), COMPONENT, &mem, &vm_at("0.1.2")).unwrap();
    assert_eq!(
        restored,
        Value::Record(vec![
            Value::U8(1),
            message_fam(7, 8, false, vec![20]),
            Value::Opt(None),
            vstr(""),
            Value::List(vec![message_fam(5, 6, false, vec![10])]),
        ])
    );

    // Current schema written at the unbounded target: the messages field is
    // gone from the wire and is synthesized on read, and the post-decode
    // hook rewrites the option and the string.
    let state3 = Value::Record(vec![
        Value::U8(1),
        message_fam(7, 8, true, vec![20]),
        Value::Opt(None),
        vstr("some_string"),
        Value::List(vec![message_fam(5, 6, true, vec![10])]),
    ]);
    let mut sink = Sink::with_capacity(1024);
    serialize(&hooks, &fam_test_schema(), COMPONENT, &state3, &VersionMap::new(), &mut sink)
        .unwrap();
    let mem = sink.into_bytes();
    let restored =
        deserialize(&hooks, &fam_test_schema(), COMPONENT, &mem, &vm_at("0.1.4")).unwrap();
    // The padding word of the box's header was gated out at the unbounded
    // target, so it reads back as zero.
    assert_eq!(
        restored,
        Value::Record(vec![
            Value::U8(1),
            message_fam(0, 8, false, vec![20]),
            Value::Opt(None),
            vstr("some_new_string"),
            Value::List(vec![message_fam(1, 2, false, vec![10, 20])]),
        ])
    );
}

#[test]
fn test_famstructwrapper_clone() {
    // A container inside a record: its count field and element buffer stay
    // consistent through encode and decode, and a later schema reads the
    // retired padding word as zero.
    let hooks = message_hooks();
    let v1_schema = Shape::Record(vec![FieldDecl::plain(fam_shape(message_v1_decls(), 100))]);
    let state = Value::Record(vec![message_v1_fam(8, vec![1, 2])]);

    let mut sink = Sink::with_capacity(128);
    serialize(&hooks, &v1_schema, COMPONENT, &state, &VersionMap::new(), &mut sink).unwrap();
    let mut mem = sink.into_bytes();
    mem.resize(128, 0);

    let schema = Shape::Record(vec![
        FieldDecl::plain(fam_shape(message_decls(), 100)),
        gated(Shape::U16, Some((0, 2, 0)), None, None),
    ]);
    let restored = deserialize(&hooks, &schema, COMPONENT, &mem, &vm_at("0.1.0")).unwrap();
    assert_eq!(
        restored,
        Value::Record(vec![message_fam(8, 4, false, vec![1, 2]), Value::U16(0)])
    );

    // The same bytes read under a capacity of one are rejected.
    let tight_schema = Shape::Record(vec![
        FieldDecl::plain(Shape::Fam {
            header: message_decls(),
            count_idx: 0,
            capacity: 1,
            elem: Box::new(Shape::U32),
        }),
        gated(Shape::U16, Some((0, 2, 0)), None, None),
    ]);
    let err = deserialize(&hooks, &tight_schema, COMPONENT, &mem, &vm_at("0.1.0")).unwrap_err();
    assert_eq!(err, VersionizeError::FamCapacityExceeded { declared: 2, capacity: 1 });

    // A container value written under the current schema and read at a later
    // version: the retired padding reads as zero.
    let state2 = Value::Record(vec![message_fam(8, 0, false, vec![1, 2]), Value::U16(2)]);
    let mut sink = Sink::with_capacity(128);
    serialize(&hooks, &schema, COMPONENT, &state2, &vm_at("0.1.5"), &mut sink).unwrap();
    let mut mem = sink.into_bytes();
    mem.resize(128, 0);
    let restored = deserialize(&hooks, &schema, COMPONENT, &mem, &vm_at("0.2.0")).unwrap();
    assert_eq!(
        restored,
        Value::Record(vec![message_fam(0, 0, false, vec![1, 2]), Value::U16(0)])
    );
}
