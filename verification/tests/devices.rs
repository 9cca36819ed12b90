//! Device-state schemas with semantic hooks: version-gated fields, enum
//! fallback and hook-driven corrections, across several schema generations.

use dbs_versionize::{
    deserialize, serialize, FallbackArm, FallbackScript, FieldDecl, HookCond, HookRule, HookStep,
    ScriptedHooks, Shape, Sink, Value, VariantDecl, Version, VersionMap, VersionizeError,
};

const COMPONENT: &str = "test-data";


fn many(n: usize, f: impl Fn() -> Value) -> Vec<Value> {
    let mut v = Vec::new();
    for _ in 0..n {
        v.push(f());
    }
    v
}

fn gated(
    shape: Shape,
    start: Option<(u16, u16, u16)>,
    end: Option<(u16, u16, u16)>,
    default_id: Option<u32>,
) -> FieldDecl {
    let mut d = FieldDecl::plain(shape);
    if let Some((a, b, c)) = start {
        d.start = Version::new(a, b, c);
    }
    if let Some((a, b, c)) = end {
        d.end = Some(Version::new(a, b, c));
    }
    d.default_id = default_id;
    d
}

fn hooked(mut d: FieldDecl, pre: Option<u32>, post: Option<u32>) -> FieldDecl {
    d.pre_id = pre;
    d.post_id = post;
    d
}

fn variant(
    payload: Vec<Shape>,
    start: Option<(u16, u16, u16)>,
    end: Option<(u16, u16, u16)>,
    fallback_id: Option<u32>,
) -> VariantDecl {
    let mut v = VariantDecl { payload, start: Version::new(0, 0, 0), end: None, fallback_id };
    if let Some((a, b, c)) = start {
        v.start = Version::new(a, b, c);
    }
    if let Some((a, b, c)) = end {
        v.end = Some(Version::new(a, b, c));
    }
    v
}

fn rule(cond: HookCond, also: HookCond, steps: Vec<HookStep>) -> HookRule {
    HookRule { cond, also, steps }
}

fn vstr(s: &str) -> Value {
    Value::Str(s.as_bytes().to_vec())
}

fn vm_at(ver: &str) -> VersionMap {
    let mut vm = VersionMap::new();
    vm.set_crate_version(COMPONENT, ver).unwrap();
    vm
}

fn encode(hooks: &ScriptedHooks, schema: &Shape, value: &Value, vm: &VersionMap) -> Vec<u8> {
    let mut sink = Sink::with_capacity(1024);
    serialize(hooks, schema, COMPONENT, value, vm, &mut sink).unwrap();
    sink.into_bytes()
}

/// Operations on a device: `Update` lived only from 0.1.3 to 0.1.5 and falls
/// back to `RemoveAndAdd(true)` at earlier patches.
fn operation_decls() -> Vec<VariantDecl> {
    vec![
        variant(vec![], None, None, None),
        variant(vec![], None, None, None),
        variant(vec![Shape::Bool], None, None, None),
        variant(vec![Shape::Str], Some((0, 1, 3)), Some((0, 1, 5)), Some(100)),
    ]
}

/// Device activity states: `IsActivating` lived only in the 0.0.x line.
fn status_decls() -> Vec<VariantDecl> {
    vec![
        variant(vec![], None, None, None),
        variant(vec![], None, None, None),
        variant(vec![Shape::U32], Some((0, 0, 1)), Some((0, 0, 999)), Some(101)),
    ]
}

fn ops_list() -> Shape {
    Shape::List(Box::new(Shape::Choice(operation_decls())))
}

fn inactive() -> Value {
    Value::Variant(0, vec![])
}

fn active() -> Value {
    Value::Variant(1, vec![])
}

fn op_add() -> Value {
    Value::Variant(0, vec![])
}

fn op_remove() -> Value {
    Value::Variant(1, vec![])
}

fn op_remove_and_add(b: bool) -> Value {
    Value::Variant(2, vec![Value::Bool(b)])
}

fn op_update(s: &str) -> Value {
    Value::Variant(3, vec![vstr(s)])
}

/// The current device schema: operations, a queue limit and extra features
/// appeared at 0.1.2 and 0.1.3, with hooks guarding the queue count.
fn device_schema() -> Shape {
    Shape::Record(vec![
        FieldDecl::plain(Shape::Str),
        FieldDecl::plain(Shape::U32),
        hooked(gated(Shape::Bool, Some((0, 1, 2)), None, None), Some(70), None),
        FieldDecl::plain(Shape::List(Box::new(Shape::Str))),
        hooked(gated(ops_list(), Some((0, 1, 2)), None, Some(80)), Some(71), Some(90)),
        FieldDecl::plain(Shape::Choice(status_decls())),
        hooked(gated(Shape::Usize, Some((0, 1, 2)), None, Some(81)), Some(72), None),
        FieldDecl::plain(Shape::List(Box::new(Shape::U8))),
        FieldDecl::plain(Shape::U32),
        hooked(gated(Shape::U64, Some((0, 1, 3)), None, None), Some(73), Some(91)),
    ])
}

/// The first schema generation: no activity flag, operations or limits.
fn device_v1_schema() -> Shape {
    Shape::Record(vec![
        hooked(FieldDecl::plain(Shape::Str), Some(110), None),
        FieldDecl::plain(Shape::U32),
        FieldDecl::plain(Shape::List(Box::new(Shape::Str))),
        FieldDecl::plain(Shape::Choice(status_decls())),
        FieldDecl::plain(Shape::List(Box::new(Shape::U8))),
        FieldDecl::plain(Shape::U32),
    ])
}

/// The second schema generation: no extra-features field yet.
fn device_v2_schema() -> Shape {
    Shape::Record(vec![
        FieldDecl::plain(Shape::Str),
        FieldDecl::plain(Shape::U32),
        hooked(gated(Shape::Bool, Some((0, 1, 2)), None, None), Some(120), None),
        FieldDecl::plain(Shape::List(Box::new(Shape::Str))),
        hooked(gated(ops_list(), Some((0, 1, 2)), None, Some(121)), Some(122), Some(123)),
        FieldDecl::plain(Shape::Choice(status_decls())),
        hooked(gated(Shape::Usize, Some((0, 1, 2)), None, Some(124)), Some(125), None),
        FieldDecl::plain(Shape::List(Box::new(Shape::U8))),
        FieldDecl::plain(Shape::U32),
    ])
}

fn device_hooks() -> ScriptedHooks {
    let mut h = ScriptedHooks::new();
    // Fallbacks for retired enum variants.
    h.fallbacks.push((
        100,
        FallbackScript {
            arms: vec![FallbackArm { patch_lo: 1, patch_hi: 9, replacement: op_remove_and_add(true) }],
            otherwise: "Unknown target version".to_string(),
        },
    ));
    h.fallbacks.push((
        101,
        FallbackScript {
            arms: vec![FallbackArm { patch_lo: 1, patch_hi: 9, replacement: inactive() }],
            otherwise: "Unknown target version".to_string(),
        },
    ));
    // Current schema: defaults and queue-count guards.
    h.defaults.push((80, Value::List(vec![op_add(), op_remove()])));
    h.defaults.push((81, Value::Usize(2)));
    h.pre_rules.push((70, vec![]));
    h.pre_rules.push((
        71,
        vec![rule(HookCond::VersionLt(Version::new(0, 1, 3)), HookCond::Always, vec![
            HookStep::OrU32(8, 1),
        ])],
    ));
    h.post_rules.push((90, vec![]));
    h.pre_rules.push((
        72,
        vec![rule(HookCond::VersionLe(Version::new(0, 1, 3)), HookCond::LenGt(7, 2), vec![
            HookStep::Fail("Too many queues.".to_string()),
        ])],
    ));
    h.pre_rules.push((
        73,
        vec![rule(HookCond::LenGtField(7, 6), HookCond::Always, vec![
            HookStep::Fail("Too many queues.".to_string()),
        ])],
    ));
    h.post_rules.push((
        91,
        vec![
            rule(HookCond::VersionLt(Version::new(0, 1, 3)), HookCond::Always, vec![
                HookStep::OrU32(8, 0x8000_0000),
            ]),
            rule(HookCond::VersionEq(Version::new(0, 1, 3)), HookCond::LenGeField(7, 6), vec![
                HookStep::Fail("Too many queues.".to_string()),
            ]),
        ],
    ));
    // First generation: the name hook rewrites features, status and params.
    h.pre_rules.push((
        110,
        vec![rule(HookCond::Always, HookCond::Always, vec![
            HookStep::OrU32(5, 1),
            HookStep::SetField(3, active()),
            HookStep::Push(2, vstr("active")),
            HookStep::RetainNe(2, vstr("inactive")),
            HookStep::Push(2, vstr("extra_features")),
            HookStep::OrU32(5, 0x8000_0000),
        ])],
    ));
    // Second generation.
    h.defaults.push((121, Value::List(vec![op_add(), op_remove()])));
    h.defaults.push((124, Value::Usize(2)));
    h.pre_rules.push((120, vec![]));
    h.pre_rules.push((122, vec![]));
    h.post_rules.push((
        123,
        vec![rule(HookCond::Contains(3, vstr("active")), HookCond::Always, vec![
            HookStep::SetField(5, active()),
        ])],
    ));
    h.pre_rules.push((
        125,
        vec![rule(HookCond::Always, HookCond::Always, vec![HookStep::Push(3, vstr("extra_features"))])],
    ));
    h
}

#[test]
fn test_versionize_struct_with_enums() {
    let hooks = device_hooks();

    // First generation: the name field's hook corrects the whole record
    // after the name's own bytes are committed, so every later field goes to
    // the wire corrected.
    let state = Value::Record(vec![
        vstr("block"),
        Value::U32(1),
        Value::List(vec![vstr("inactive")]),
        inactive(),
        Value::List(vec![Value::U8(1), Value::U8(2)]),
        Value::U32(6),
    ]);
    let mem = encode(&hooks, &device_v1_schema(), &state, &vm_at("0.1.5"));
    let restored = deserialize(&hooks, &device_schema(), COMPONENT, &mem, &vm_at("0.1.1")).unwrap();
    let expected = Value::Record(vec![
        vstr("block"),
        Value::U32(1),
        Value::Bool(false),
        Value::List(vec![vstr("active"), vstr("extra_features")]),
        Value::List(vec![op_add(), op_remove()]),
        active(),
        Value::Usize(2),
        Value::List(vec![Value::U8(1), Value::U8(2)]),
        Value::U32(0x8000_0007),
        Value::U64(0),
    ]);
    assert_eq!(expected, restored);

    // Second generation, read at 0.1.2: the retired `Update` operation was
    // already rewritten by its fallback on encode, and the extra-features
    // hook ors the top feature bit in on decode.
    let state2 = Value::Record(vec![
        vstr("block"),
        Value::U32(1),
        Value::Bool(true),
        Value::List(vec![vstr("inactive")]),
        Value::List(vec![op_add(), op_update("random")]),
        inactive(),
        Value::Usize(3),
        Value::List(vec![Value::U8(1), Value::U8(2)]),
        Value::U32(6),
    ]);
    let mem = encode(&hooks, &device_v2_schema(), &state2, &vm_at("0.1.5"));
    let restored = deserialize(&hooks, &device_schema(), COMPONENT, &mem, &vm_at("0.1.2")).unwrap();
    let expected = Value::Record(vec![
        vstr("block"),
        Value::U32(1),
        Value::Bool(true),
        Value::List(vec![vstr("inactive")]),
        Value::List(vec![op_add(), op_remove_and_add(true)]),
        inactive(),
        Value::Usize(3),
        Value::List(vec![Value::U8(1), Value::U8(2)]),
        Value::U32(0x8000_0006),
        Value::U64(0),
    ]);
    assert_eq!(expected, restored);

    // Current schema, written at 0.1.5 and read at 0.1.3: nothing fires.
    let state3 = Value::Record(vec![
        vstr("block"),
        Value::U32(1),
        Value::Bool(true),
        Value::List(vec![vstr("inactive")]),
        Value::List(vec![op_add(), op_update("random")]),
        inactive(),
        Value::Usize(3),
        Value::List(vec![Value::U8(1), Value::U8(2)]),
        Value::U32(6),
        Value::U64(0),
    ]);
    let mem = encode(&hooks, &device_schema(), &state3, &vm_at("0.1.5"));
    let restored = deserialize(&hooks, &device_schema(), COMPONENT, &mem, &vm_at("0.1.3")).unwrap();
    let expected = Value::Record(vec![
        vstr("block"),
        Value::U32(1),
        Value::Bool(true),
        Value::List(vec![vstr("inactive")]),
        Value::List(vec![op_add(), op_remove_and_add(true)]),
        inactive(),
        Value::Usize(3),
        Value::List(vec![Value::U8(1), Value::U8(2)]),
        Value::U32(6),
        Value::U64(0),
    ]);
    assert_eq!(expected, restored);

    // Too many queues for the declared limit: the pre-encode hook rejects
    // the whole encode.
    let state3 = Value::Record(vec![
        vstr("block"),
        Value::U32(1),
        Value::Bool(true),
        Value::List(vec![vstr("inactive")]),
        Value::List(vec![op_add(), op_update("random")]),
        inactive(),
        Value::Usize(3),
        Value::List(vec![Value::U8(1), Value::U8(2), Value::U8(3), Value::U8(4)]),
        Value::U32(6),
        Value::U64(0),
    ]);
    let mut sink = Sink::with_capacity(1024);
    assert_eq!(
        serialize(&hooks, &device_schema(), COMPONENT, &state3, &vm_at("0.1.5"), &mut sink)
            .unwrap_err(),
        VersionizeError::Semantic("Too many queues.".to_string())
    );

    // A queue count at the limit is rejected by the post-decode hook at
    // exactly 0.1.3.
    let state3 = Value::Record(vec![
        vstr("block"),
        Value::U32(1),
        Value::Bool(true),
        Value::List(vec![vstr("inactive")]),
        Value::List(vec![op_add(), op_update("random")]),
        inactive(),
        Value::Usize(3),
        Value::List(vec![Value::U8(1), Value::U8(2), Value::U8(3)]),
        Value::U32(6),
        Value::U64(0),
    ]);
    let mem = encode(&hooks, &device_schema(), &state3, &vm_at("0.1.5"));
    assert_eq!(
        deserialize(&hooks, &device_schema(), COMPONENT, &mem, &vm_at("0.1.3")).unwrap_err(),
        VersionizeError::Semantic("Too many queues.".to_string())
    );
}

/// The retired-variants enum shared by the struct generations below.
fn state_decls() -> Vec<VariantDecl> {
    vec![
        variant(vec![Shape::U32], None, None, None),
        variant(vec![Shape::Bool], None, None, None),
        variant(vec![Shape::List(Box::new(Shape::U8))], Some((0, 0, 2)), Some((0, 1, 0)), Some(20)),
        variant(vec![Shape::Str], Some((0, 0, 2)), Some((0, 1, 0)), Some(21)),
        variant(
            vec![Shape::Opt(Box::new(Shape::U64))],
            Some((0, 0, 3)),
            Some((0, 1, 0)),
            Some(22),
        ),
    ]
}

fn s_record() -> Shape {
    Shape::Record(vec![FieldDecl::plain(Shape::F64), FieldDecl::plain(Shape::I64)])
}

fn s_value(a: f64, b: i64) -> Value {
    Value::Record(vec![Value::F64Bits(a.to_bits()), Value::I64(b)])
}

/// The current struct schema, with corrective hooks on four fields.
fn test_schema() -> Shape {
    Shape::Record(vec![
        FieldDecl::plain(Shape::Usize),
        hooked(gated(Shape::Isize, Some((0, 0, 2)), Some((0, 0, 3)), None), Some(30), Some(40)),
        gated(Shape::U8, Some((0, 0, 2)), None, None),
        gated(Shape::List(Box::new(Shape::U16)), None, Some((0, 0, 4)), Some(50)),
        gated(Shape::U32, Some((0, 0, 3)), None, None),
        hooked(gated(Shape::U64, None, Some((0, 0, 3)), Some(51)), Some(31), Some(41)),
        hooked(gated(Shape::Bool, Some((0, 0, 2)), None, None), Some(32), None),
        FieldDecl::plain(Shape::Choice(state_decls())),
        FieldDecl::plain(Shape::I8),
        FieldDecl::plain(Shape::I16),
        gated(Shape::I32, Some((0, 0, 3)), Some((0, 0, 4)), None),
        hooked(gated(s_record(), Some((0, 0, 2)), None, Some(52)), None, Some(42)),
        gated(Shape::F32, Some((0, 0, 2)), Some((0, 0, 3)), Some(53)),
        FieldDecl::plain(Shape::Char),
        hooked(gated(Shape::Opt(Box::new(Shape::Str)), None, Some((0, 0, 3)), Some(54)), Some(33), Some(43)),
    ])
}

fn test_v1_schema() -> Shape {
    Shape::Record(vec![
        FieldDecl::plain(Shape::Usize),
        FieldDecl::plain(Shape::List(Box::new(Shape::U16))),
        FieldDecl::plain(Shape::U64),
        FieldDecl::plain(Shape::Choice(state_decls())),
        FieldDecl::plain(Shape::I8),
        FieldDecl::plain(Shape::I16),
        FieldDecl::plain(Shape::Char),
    ])
}

fn test_v2_schema() -> Shape {
    Shape::Record(vec![
        FieldDecl::plain(Shape::Usize),
        gated(Shape::Isize, Some((0, 0, 2)), None, None),
        gated(Shape::U8, Some((0, 0, 2)), None, None),
        FieldDecl::plain(Shape::List(Box::new(Shape::U16))),
        FieldDecl::plain(Shape::U64),
        hooked(gated(Shape::Bool, Some((0, 0, 2)), None, None), Some(34), None),
        FieldDecl::plain(Shape::Choice(state_decls())),
        FieldDecl::plain(Shape::I8),
        FieldDecl::plain(Shape::I16),
        gated(s_record(), Some((0, 0, 2)), None, Some(52)),
        gated(Shape::F32, Some((0, 0, 2)), None, Some(53)),
        FieldDecl::plain(Shape::Char),
        FieldDecl::plain(Shape::Opt(Box::new(Shape::Str))),
    ])
}

fn test_v3_schema() -> Shape {
    Shape::Record(vec![
        FieldDecl::plain(Shape::Usize),
        hooked(gated(Shape::Isize, Some((0, 0, 2)), Some((0, 0, 3)), None), Some(61), None),
        gated(Shape::U8, Some((0, 0, 2)), None, None),
        FieldDecl::plain(Shape::List(Box::new(Shape::U16))),
        gated(Shape::U32, Some((0, 0, 3)), None, None),
        gated(Shape::U64, None, Some((0, 0, 3)), None),
        gated(Shape::Bool, Some((0, 0, 2)), None, None),
        FieldDecl::plain(Shape::Choice(state_decls())),
        FieldDecl::plain(Shape::I8),
        FieldDecl::plain(Shape::I16),
        gated(Shape::I32, Some((0, 0, 3)), None, None),
        gated(s_record(), Some((0, 0, 2)), None, Some(52)),
        gated(Shape::F32, Some((0, 0, 2)), Some((0, 0, 3)), None),
        FieldDecl::plain(Shape::Char),
        hooked(gated(Shape::Opt(Box::new(Shape::Str)), None, Some((0, 0, 3)), None), Some(60), None),
    ])
}

fn struct_hooks() -> ScriptedHooks {
    let mut h = ScriptedHooks::new();
    // Enum fallbacks.
    let arm = |lo: u16, hi: u16, val: Value| FallbackArm { patch_lo: lo, patch_hi: hi, replacement: val };
    h.fallbacks.push((
        20,
        FallbackScript {
            arms: vec![
                arm(1, 1, Value::Variant(1, vec![Value::Bool(true)])),
                arm(2, 9, Value::Variant(0, vec![Value::U32(2)])),
            ],
            otherwise: "Unknown target version".to_string(),
        },
    ));
    h.fallbacks.push((
        21,
        FallbackScript {
            arms: vec![
                arm(1, 1, Value::Variant(1, vec![Value::Bool(false)])),
                arm(2, 9, Value::Variant(0, vec![Value::U32(3)])),
            ],
            otherwise: "Unknown target version".to_string(),
        },
    ));
    h.fallbacks.push((
        22,
        FallbackScript {
            arms: vec![arm(1, 9, Value::Variant(0, vec![Value::U32(4)]))],
            otherwise: "Unknown target version".to_string(),
        },
    ));
    // Current schema defaults.
    h.defaults.push((50, Value::List(many(4, || Value::U16(0x0102)))));
    h.defaults.push((51, Value::U64(0x0102_0102_0102_0102)));
    h.defaults.push((52, s_value(1.5, 2)));
    h.defaults.push((53, Value::F32Bits(0.5f32.to_bits())));
    h.defaults.push((54, Value::Opt(Some(Box::new(vstr("something"))))));
    // Current schema post-decode hooks.
    h.post_rules.push((
        40,
        vec![rule(HookCond::PatchNe(2), HookCond::Always, vec![HookStep::AddU8(2, 3)])],
    ));
    h.post_rules.push((
        41,
        vec![rule(HookCond::PatchGe(3), HookCond::Always, vec![HookStep::Push(3, Value::U16(0x0101))])],
    ));
    h.post_rules.push((
        42,
        vec![
            rule(HookCond::PatchLt(2), HookCond::Always, vec![
                HookStep::SetField(14, Value::Opt(Some(Box::new(vstr("box_change"))))),
            ]),
            rule(HookCond::PatchLt(2), HookCond::IsEmpty(3), vec![
                HookStep::Fail("Vec len is too small.".to_string()),
            ]),
        ],
    ));
    h.post_rules.push((
        43,
        vec![rule(HookCond::PatchGe(3), HookCond::Always, vec![
            HookStep::SetField(7, Value::Variant(2, vec![Value::List(many(4, || Value::U8(1)))])),
        ])],
    ));
    // Third generation pre-encode hooks.
    h.pre_rules.push((
        61,
        vec![rule(HookCond::FieldEq(8, Value::I8(-1)), HookCond::Always, vec![
            HookStep::Fail("Unexpected value for `i8` field.".to_string()),
        ])],
    ));
    h.pre_rules.push((
        60,
        vec![
            rule(HookCond::Always, HookCond::Always, vec![HookStep::AddU8(2, 2)]),
            rule(HookCond::LenEq(3, 10), HookCond::Always, vec![
                HookStep::Fail("Vec is full.".to_string()),
            ]),
        ],
    ));
    // Second generation.
    h.pre_rules.push((34, vec![]));
    h
}

#[test]
fn test_versionize_struct() {
    let hooks = struct_hooks();

    // First generation, read at 0.0.1: absent fields are synthesized, the
    // retired enum variant was rewritten on encode, and the post-decode
    // hooks run in field order on the whole in-progress record.
    let state1 = Value::Record(vec![
        Value::Usize(0x0102_0304_0506_0708),
        Value::List(many(5, || Value::U16(0x1122))),
        Value::U64(0x0102_0304_0506_0708),
        Value::Variant(4, vec![Value::Opt(Some(Box::new(Value::U64(0x0102_0304_0506_0708))))]),
        Value::I8(8),
        Value::I16(-12),
        Value::Char('c'),
    ]);
    let mut mem = encode(&hooks, &test_v1_schema(), &state1, &vm_at("0.1.5"));
    mem.resize(1024, 0);
    let restored = deserialize(&hooks, &test_schema(), COMPONENT, &mem, &vm_at("0.0.1")).unwrap();
    let expected = Value::Record(vec![
        Value::Usize(0x0102_0304_0506_0708),
        Value::Isize(0),
        // A hook's write into a field that is settled later is replaced when
        // that field settles: the u8 stays at its synthesized zero.
        Value::U8(0),
        Value::List(many(5, || Value::U16(0x1122))),
        Value::U32(0),
        Value::U64(0x0102_0304_0506_0708),
        Value::Bool(false),
        Value::Variant(0, vec![Value::U32(4)]),
        Value::I8(8),
        Value::I16(-12),
        Value::I32(0),
        s_value(1.5, 2),
        Value::F32Bits(0.5f32.to_bits()),
        Value::Char('c'),
        // Same for the option: its wire value (absent, read from the zero
        // padding as none) stands, not the earlier hook write.
        Value::Opt(None),
    ]);
    assert_eq!(expected, restored);

    // Second generation, read at 0.0.2: every gated field is on the wire,
    // and no hook condition fires.
    let state2 = Value::Record(vec![
        Value::Usize(0x0102_0304_0506_0708),
        Value::Isize(-0x1122_3344_5566_7788),
        Value::U8(4),
        Value::List(many(5, || Value::U16(0x1122))),
        Value::U64(0x0102_0304_0506_0708),
        Value::Bool(false),
        Value::Variant(4, vec![Value::Opt(Some(Box::new(Value::U64(0x0102_0304_0506_0708))))]),
        Value::I8(8),
        Value::I16(-12),
        s_value(4.5, 4),
        Value::F32Bits(1.25f32.to_bits()),
        Value::Char('c'),
        Value::Opt(None),
    ]);
    let mem = encode(&hooks, &test_v2_schema(), &state2, &vm_at("0.1.5"));
    let restored = deserialize(&hooks, &test_schema(), COMPONENT, &mem, &vm_at("0.0.2")).unwrap();
    let expected = Value::Record(vec![
        Value::Usize(0x0102_0304_0506_0708),
        Value::Isize(-0x1122_3344_5566_7788),
        Value::U8(4),
        Value::List(many(5, || Value::U16(0x1122))),
        Value::U32(0),
        Value::U64(0x0102_0304_0506_0708),
        Value::Bool(false),
        Value::Variant(0, vec![Value::U32(4)]),
        Value::I8(8),
        Value::I16(-12),
        Value::I32(0),
        s_value(4.5, 4),
        Value::F32Bits(1.25f32.to_bits()),
        Value::Char('c'),
        Value::Opt(None),
    ]);
    assert_eq!(expected, restored);

    // Third generation, read at 0.0.3: the defaults for the removed fields
    // fire, the vec gains an element from a post-decode hook, and the enum
    // is rewritten by the option field's hook.
    let state3 = Value::Record(vec![
        Value::Usize(0x0102_0304_0506_0708),
        Value::Isize(-0x1122_3344_5566_7788),
        Value::U8(4),
        Value::List(many(5, || Value::U16(0x1122))),
        Value::U32(4),
        Value::U64(0x0102_0304_0506_0708),
        Value::Bool(false),
        Value::Variant(4, vec![Value::Opt(Some(Box::new(Value::U64(0x0102_0304_0506_0708))))]),
        Value::I8(8),
        Value::I16(-12),
        Value::I32(-0x1234_5678),
        s_value(4.5, 4),
        Value::F32Bits(1.25f32.to_bits()),
        Value::Char('c'),
        Value::Opt(None),
    ]);
    let mem = encode(&hooks, &test_v3_schema(), &state3, &vm_at("0.1.5"));
    let restored = deserialize(&hooks, &test_schema(), COMPONENT, &mem, &vm_at("0.0.3")).unwrap();
    let mut expected_vec = many(5, || Value::U16(0x1122));
    expected_vec.push(Value::U16(0x0101));
    let expected = Value::Record(vec![
        Value::Usize(0x0102_0304_0506_0708),
        Value::Isize(0),
        // The wire value of the u8 stands: the pre-encode hook that bumped
        // it ran only after its bytes were committed.
        Value::U8(4),
        Value::List(expected_vec),
        Value::U32(4),
        Value::U64(0x0102_0102_0102_0102),
        Value::Bool(false),
        Value::Variant(2, vec![Value::List(many(4, || Value::U8(1)))]),
        Value::I8(8),
        Value::I16(-12),
        Value::I32(-0x1234_5678),
        s_value(4.5, 4),
        Value::F32Bits(0.5f32.to_bits()),
        Value::Char('c'),
        Value::Opt(Some(Box::new(vstr("something")))),
    ]);
    assert_eq!(expected, restored);

    // Semantic errors.  An empty vec is rejected by the post-decode hook at
    // sources before patch 2.
    let state1_empty = Value::Record(vec![
        Value::Usize(0x0102_0304_0506_0708),
        Value::List(vec![]),
        Value::U64(0x0102_0304_0506_0708),
        Value::Variant(4, vec![Value::Opt(Some(Box::new(Value::U64(0x0102_0304_0506_0708))))]),
        Value::I8(8),
        Value::I16(-12),
        Value::Char('c'),
    ]);
    let mut mem = encode(&hooks, &test_v1_schema(), &state1_empty, &vm_at("0.1.5"));
    mem.resize(1024, 0);
    assert_eq!(
        deserialize(&hooks, &test_schema(), COMPONENT, &mem, &vm_at("0.0.1")).unwrap_err(),
        VersionizeError::Semantic("Vec len is too small.".to_string())
    );

    // A full vec is rejected by the option field's pre-encode hook.
    let state3_full = Value::Record(vec![
        Value::Usize(0x0102_0304_0506_0708),
        Value::Isize(-0x1122_3344_5566_7788),
        Value::U8(4),
        Value::List(many(10, || Value::U16(0x1122))),
        Value::U32(4),
        Value::U64(0x0102_0304_0506_0708),
        Value::Bool(false),
        Value::Variant(4, vec![Value::Opt(Some(Box::new(Value::U64(0x0102_0304_0506_0708))))]),
        Value::I8(8),
        Value::I16(-12),
        Value::I32(-0x1234_5678),
        s_value(4.5, 4),
        Value::F32Bits(1.25f32.to_bits()),
        Value::Char('c'),
        Value::Opt(None),
    ]);
    let mut sink = Sink::with_capacity(1024);
    assert_eq!(
        serialize(&hooks, &test_v3_schema(), COMPONENT, &state3_full, &vm_at("0.1.5"), &mut sink)
            .unwrap_err(),
        VersionizeError::Semantic("Vec is full.".to_string())
    );

    // An unexpected i8 value is rejected by an earlier field's hook first.
    let state3_bad_i8 = Value::Record(vec![
        Value::Usize(0x0102_0304_0506_0708),
        Value::Isize(-0x1122_3344_5566_7788),
        Value::U8(4),
        Value::List(many(10, || Value::U16(0x1122))),
        Value::U32(4),
        Value::U64(0x0102_0304_0506_0708),
        Value::Bool(false),
        Value::Variant(4, vec![Value::Opt(Some(Box::new(Value::U64(0x0102_0304_0506_0708))))]),
        Value::I8(-1),
        Value::I16(-12),
        Value::I32(-0x1234_5678),
        s_value(4.5, 4),
        Value::F32Bits(1.25f32.to_bits()),
        Value::Char('c'),
        Value::Opt(None),
    ]);
    let mut sink = Sink::with_capacity(1024);
    assert_eq!(
        serialize(&hooks, &test_v3_schema(), COMPONENT, &state3_bad_i8, &vm_at("0.1.5"), &mut sink)
            .unwrap_err(),
        VersionizeError::Semantic("Unexpected value for `i8` field.".to_string())
    );

    // A sink too small for the whole encoding rejects the write.
    let mut sink = Sink::with_capacity(8);
    assert_eq!(
        serialize(&hooks, &test_v2_schema(), COMPONENT, &state2, &vm_at("0.1.5"), &mut sink)
            .unwrap_err(),
        VersionizeError::Serialize("failed to write whole buffer".to_string())
    );

    // A truncated source rejects the read.
    let mut mem = encode(&hooks, &test_v2_schema(), &state2, &vm_at("0.1.5"));
    mem.truncate(10);
    assert_eq!(
        deserialize(&hooks, &test_schema(), COMPONENT, &mem, &vm_at("0.0.2")).unwrap_err(),
        VersionizeError::Deserialize("failed to fill whole buffer".to_string())
    );
}
