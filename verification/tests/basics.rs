//! Concrete scenarios for the primitive codec, the version gate, the
//! version map and the bounded sink.

use dbs_versionize::{
    deserialize, serialize, FieldDecl, NoHooks, ScriptedHooks, Shape, Sink, Value, Version,
    VersionMap, VersionizeError,
};
use dbs_versionize::vsock::{ConnMapKey, MuxerRx, VsockBackendType};

const COMPONENT: &str = "test-data";

fn encode_at(value: &Value, shape: &Shape, vm: &VersionMap, cap: usize) -> Vec<u8> {
    let h = NoHooks;
    let mut sink = Sink::with_capacity(cap);
    serialize(&h, shape, COMPONENT, value, vm, &mut sink).unwrap();
    sink.into_bytes()
}

#[test]
fn test_option_byte_layout() {
    // An optional byte holding 129 encodes as a presence byte then the value.
    let vm = VersionMap::new();
    let shape = Shape::Opt(Box::new(Shape::U8));
    let value = Value::Opt(Some(Box::new(Value::U8(129))));
    let bytes = encode_at(&value, &shape, &vm, 64);
    assert_eq!(bytes, vec![0x01, 0x81]);

    let h = NoHooks;
    let restored = deserialize(&h, &shape, COMPONENT, &vec![0x00], &vm).unwrap();
    assert_eq!(restored, Value::Opt(None));
}

#[test]
fn test_added_field_synthesis() {
    // A struct with `a: u32` (always present) and `b: u16` added at 0.2.0
    // with default value 4.
    let mut b_decl = FieldDecl::plain(Shape::U16);
    b_decl.start = Version::new(0, 2, 0);
    b_decl.default_id = Some(1);
    let shape = Shape::Record(vec![FieldDecl::plain(Shape::U32), b_decl]);
    let mut hooks = ScriptedHooks::new();
    hooks.defaults.push((1, Value::U16(4)));

    let value = Value::Record(vec![Value::U32(0xAABBCCDD), Value::U16(0x1122)]);
    let vm = VersionMap::new();
    let mut sink = Sink::with_capacity(64);
    serialize(&hooks, &shape, COMPONENT, &value, &vm, &mut sink).unwrap();
    let bytes = sink.into_bytes();
    // `a`'s 4 bytes then `b`'s 2 bytes.
    assert_eq!(bytes, vec![0xDD, 0xCC, 0xBB, 0xAA, 0x22, 0x11]);

    // Decoding those 6 bytes with source version 0.1.0 synthesizes b == 4.
    let mut old_vm = VersionMap::new();
    old_vm.set_crate_version(COMPONENT, "0.1.0").unwrap();
    let restored = deserialize(&hooks, &shape, COMPONENT, &bytes, &old_vm).unwrap();
    assert_eq!(restored, Value::Record(vec![Value::U32(0xAABBCCDD), Value::U16(4)]));

    // Decoding with source version 0.2.0 yields the encoded value.
    let mut new_vm = VersionMap::new();
    new_vm.set_crate_version(COMPONENT, "0.2.0").unwrap();
    let restored = deserialize(&hooks, &shape, COMPONENT, &bytes, &new_vm).unwrap();
    assert_eq!(restored, value);

    // Encoding at a target before the field's start omits its bytes.
    let mut sink = Sink::with_capacity(64);
    serialize(&hooks, &shape, COMPONENT, &value, &old_vm, &mut sink).unwrap();
    assert_eq!(sink.into_bytes(), vec![0xDD, 0xCC, 0xBB, 0xAA]);
}

#[test]
fn test_removed_field_omitted() {
    // A field with bounds [0.0.0, 0.3.0) is present below 0.3.0 and omitted
    // from there on.
    let mut gone = FieldDecl::plain(Shape::U8);
    gone.end = Some(Version::new(0, 3, 0));
    let shape = Shape::Record(vec![gone, FieldDecl::plain(Shape::U8)]);
    let value = Value::Record(vec![Value::U8(7), Value::U8(9)]);

    let mut vm = VersionMap::new();
    vm.set_crate_version(COMPONENT, "0.2.9").unwrap();
    assert_eq!(encode_at(&value, &shape, &vm, 64), vec![7, 9]);

    let mut vm = VersionMap::new();
    vm.set_crate_version(COMPONENT, "0.3.0").unwrap();
    assert_eq!(encode_at(&value, &shape, &vm, 64), vec![9]);

    // The unbounded default also omits it.
    let vm = VersionMap::new();
    assert_eq!(encode_at(&value, &shape, &vm, 64), vec![9]);
}

#[test]
fn test_primitive_layouts() {
    let vm = VersionMap::new();
    assert_eq!(encode_at(&Value::U16(0x1234), &Shape::U16, &vm, 8), vec![0x34, 0x12]);
    assert_eq!(
        encode_at(&Value::I8(-1), &Shape::I8, &vm, 8),
        vec![0xFF]
    );
    assert_eq!(
        encode_at(&Value::Usize(1), &Shape::Usize, &vm, 16),
        vec![1, 0, 0, 0, 0, 0, 0, 0]
    );
    assert_eq!(encode_at(&Value::Bool(true), &Shape::Bool, &vm, 8), vec![1]);
    assert_eq!(encode_at(&Value::Char('a'), &Shape::Char, &vm, 8), vec![0x61]);
    assert_eq!(
        encode_at(&Value::Str("ab".as_bytes().to_vec()), &Shape::Str, &vm, 16),
        vec![2, 0, 0, 0, 0, 0, 0, 0, 0x61, 0x62]
    );
    assert_eq!(
        encode_at(&Value::F32Bits(0.5f32.to_bits()), &Shape::F32, &vm, 8),
        vec![0x00, 0x00, 0x00, 0x3F]
    );
    // A dynamic sequence carries its count; a fixed-size array does not.
    let elems = Value::List(vec![Value::U8(1), Value::U8(2)]);
    assert_eq!(
        encode_at(&elems, &Shape::List(Box::new(Shape::U8)), &vm, 16),
        vec![2, 0, 0, 0, 0, 0, 0, 0, 1, 2]
    );
    let elems = Value::List(vec![Value::U8(1), Value::U8(2)]);
    assert_eq!(encode_at(&elems, &Shape::Array(Box::new(Shape::U8), 2), &vm, 16), vec![1, 2]);
}

#[test]
fn test_truncated_source_rejected() {
    let vm = VersionMap::new();
    let h = NoHooks;
    let r = deserialize(&h, &Shape::U32, COMPONENT, &vec![1, 2], &vm);
    assert_eq!(
        r.unwrap_err(),
        VersionizeError::Deserialize("failed to fill whole buffer".to_string())
    );
}

#[test]
fn test_sink_too_small() {
    let vm = VersionMap::new();
    let h = NoHooks;
    let mut sink = Sink::with_capacity(3);
    let r = serialize(&h, &Shape::U32, COMPONENT, &Value::U32(5), &vm, &mut sink);
    assert_eq!(
        r.unwrap_err(),
        VersionizeError::Serialize("failed to write whole buffer".to_string())
    );
    assert_eq!(sink.len(), 0);
}

#[test]
fn test_version_map_rules() {
    let mut vm = VersionMap::new();
    // A fresh map resolves every component to the unbounded version.
    assert_eq!(vm.get_crate_version("anything"), Version::unbounded());
    // A bad string is rejected.
    assert!(vm.set_crate_version("c", "1.2").is_err());
    assert!(vm.set_crate_version("c", "1.2.x").is_err());
    assert!(vm.set_crate_version("c", "70000.0.0").is_err());
    // A good one is recorded.
    vm.set_crate_version("c", "1.2.3").unwrap();
    assert_eq!(vm.get_crate_version("c"), Version::new(1, 2, 3));
    // At most once per component per map instance.
    assert!(vm.set_crate_version("c", "1.2.4").is_err());
    assert_eq!(vm.get_crate_version("c"), Version::new(1, 2, 3));
    // Other components are untouched.
    assert_eq!(vm.get_crate_version("d"), Version::unbounded());
}

#[test]
fn test_version_order() {
    let a = Version::new(0, 1, 9);
    let b = Version::new(0, 2, 0);
    assert!(a.lt(&b));
    assert!(a.le(&b));
    assert!(!b.le(&a));
    assert!(Version::zero().le(&a));
    assert!(a.le(&Version::unbounded()));
}

fn plain_variant(payload: Vec<Shape>) -> dbs_versionize::VariantDecl {
    dbs_versionize::VariantDecl {
        payload,
        start: Version::new(0, 0, 0),
        end: None,
        fallback_id: None,
    }
}

#[test]
fn test_enum_wire_form() {
    // Discriminant is the 4-byte index in the full variant list; a unit
    // variant contributes no payload bytes.
    let shape = Shape::Choice(vec![plain_variant(vec![]), plain_variant(vec![Shape::U16])]);
    let vm = VersionMap::new();
    assert_eq!(
        encode_at(&Value::Variant(1, vec![Value::U16(0x0102)]), &shape, &vm, 16),
        vec![1, 0, 0, 0, 0x02, 0x01]
    );
    let shape = Shape::Choice(vec![plain_variant(vec![]), plain_variant(vec![Shape::U16])]);
    assert_eq!(encode_at(&Value::Variant(0, vec![]), &shape, &vm, 16), vec![0, 0, 0, 0]);
}

#[test]
fn test_stable_round_trip() {
    // A type with no version-gated parts round-trips at any one version:
    // record, enum, option, text, sequences and a header-plus-array
    // container together.
    let fam = || Shape::Fam {
        header: vec![FieldDecl::plain(Shape::U32), FieldDecl::plain(Shape::U16)],
        count_idx: 0,
        capacity: 8,
        elem: Box::new(Shape::U32),
    };
    let choice = || Shape::Choice(vec![plain_variant(vec![]), plain_variant(vec![Shape::Str])]);
    let schema = || {
        Shape::Record(vec![
            FieldDecl::plain(Shape::I64),
            FieldDecl::plain(choice()),
            FieldDecl::plain(Shape::Opt(Box::new(Shape::Char))),
            FieldDecl::plain(Shape::List(Box::new(Shape::U16))),
            FieldDecl::plain(fam()),
        ])
    };
    let value = || {
        Value::Record(vec![
            Value::I64(-5),
            Value::Variant(1, vec![Value::Str("hi".as_bytes().to_vec())]),
            Value::Opt(Some(Box::new(Value::Char('z')))),
            Value::List(vec![Value::U16(1), Value::U16(2)]),
            Value::Fam(
                vec![Value::U32(2), Value::U16(9)],
                vec![Value::U32(100), Value::U32(200)],
            ),
        ])
    };
    let h = NoHooks;
    for ver in ["0.0.1", "3.2.1", "65535.65535.65535"] {
        let mut vm = VersionMap::new();
        vm.set_crate_version(COMPONENT, ver).unwrap();
        let mut sink = Sink::with_capacity(256);
        serialize(&h, &schema(), COMPONENT, &value(), &vm, &mut sink).unwrap();
        let bytes = sink.into_bytes();
        let restored = deserialize(&h, &schema(), COMPONENT, &bytes, &vm).unwrap();
        assert_eq!(restored, value());
    }
}

#[test]
fn test_vsock_state_types() {
    let k = ConnMapKey::new(1030, 80);
    assert_eq!(k.local_port(), 1030);
    assert_eq!(k.peer_port(), 80);
    let rx = MuxerRx::ConnRx(k);
    assert_eq!(rx, MuxerRx::ConnRx(ConnMapKey::new(1030, 80)));
    let rst = MuxerRx::RstPkt { local_port: 5, peer_port: 6 };
    assert!(matches!(rst, MuxerRx::RstPkt { local_port: 5, peer_port: 6 }));
    assert_eq!(VsockBackendType::Uds, VsockBackendType::Uds);
    assert!(VsockBackendType::Tcp != VsockBackendType::Inner);
}
