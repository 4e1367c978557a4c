use netpacket::catalog::{
    aabb, basis, color, half_aabb, half_basis, half_plane, half_quaternion, half_rect2,
    half_transform2d, half_transform3d, half_vector2, half_vector3, half_vector4, plane, quaternion,
    rect2, rect2i, transform2d, transform3d, unit_basis, unit_plane, unit_quaternion,
    unit_transform2d, unit_transform3d, unit_vector2, unit_vector3, unit_vector4, vector2,
    vector2i, vector3, vector3i, vector4, vector4i,
};
use netpacket::layout::{
    derive_const_size, derive_deserialize, derive_serialize, DeriveError, Layout, Packet, TypeDecl,
};
use netpacket::prim::{Prim, Scalar};
use netpacket::quantize::exceeds_unit_length;
use netpacket::schema::{FieldType, PacketError, Value};

fn i32v(v: i32) -> Value {
    Value::Scalar(Scalar::I32(v))
}

fn vector2i_value(x: i32, y: i32) -> Value {
    Value::Items(vec![i32v(x), i32v(y)])
}

fn unit(b: i8) -> Value {
    Value::Scalar(Scalar::UnitScalar(b))
}

/// `enum { A { toto: i32 }, B { foo: i64, bar: bool } }`
fn payload_enum() -> TypeDecl {
    TypeDecl::Enum(vec![
        vec![FieldType::Scalar(Prim::I32)],
        vec![FieldType::Scalar(Prim::I64), FieldType::Scalar(Prim::Bool)],
    ])
}

#[test]
fn struct_with_vector2i_round_trips() {
    let decl = || TypeDecl::Struct(vec![vector2i()]);
    assert_eq!(derive_const_size(&decl()), Ok(8));
    let ser = derive_serialize(decl()).unwrap();
    let de = derive_deserialize(decl()).unwrap();
    let packet = Packet::Struct(vec![vector2i_value(12, 34)]);
    let mut buf = vec![0u8; 8];
    ser.serialize(&packet, &mut buf, 0).unwrap();
    assert_eq!(buf, vec![0x0C, 0, 0, 0, 0x22, 0, 0, 0]);
    assert_eq!(de.deserialize(&buf, 0), Ok(packet));
}

#[test]
fn field_less_enum_writes_one_tag_byte() {
    let decl = || TypeDecl::Enum(vec![vec![], vec![]]);
    assert_eq!(derive_const_size(&decl()), Ok(1));
    let ser = derive_serialize(decl()).unwrap();
    let de = derive_deserialize(decl()).unwrap();
    let b = Packet::Variant(1, vec![]);
    let mut buf = vec![0u8; 1];
    ser.serialize(&b, &mut buf, 0).unwrap();
    assert_eq!(buf, vec![0x01]);
    assert_eq!(de.deserialize(&buf, 0), Ok(b));
}

#[test]
fn enum_with_payload_writes_tag_then_fields() {
    let ser = derive_serialize(payload_enum()).unwrap();
    let de = derive_deserialize(payload_enum()).unwrap();
    let b = Packet::Variant(
        1,
        vec![Value::Scalar(Scalar::I64(1234)), Value::Scalar(Scalar::Bool(true))],
    );
    let mut buf = vec![0u8; 10];
    ser.serialize(&b, &mut buf, 0).unwrap();
    assert_eq!(buf, vec![0x01, 0xD2, 0x04, 0, 0, 0, 0, 0, 0, 0x01]);
    assert_eq!(de.deserialize(&buf, 0), Ok(b));
}

#[test]
fn enum_with_payload_has_no_const_size() {
    assert_eq!(derive_const_size(&payload_enum()), Err(DeriveError::NonConstSize));
}

#[test]
fn enum_other_variant_round_trips_at_offset() {
    let ser = derive_serialize(payload_enum()).unwrap();
    let de = derive_deserialize(payload_enum()).unwrap();
    let a = Packet::Variant(0, vec![i32v(-7)]);
    let mut buf = vec![0xAAu8; 8];
    ser.serialize(&a, &mut buf, 2).unwrap();
    assert_eq!(buf, vec![0xAA, 0xAA, 0x00, 0xF9, 0xFF, 0xFF, 0xFF, 0xAA]);
    assert_eq!(de.deserialize(&buf, 2), Ok(a));
}

#[test]
fn unknown_tag_is_rejected() {
    let de = derive_deserialize(payload_enum()).unwrap();
    let buf = vec![0x02, 0, 0, 0, 0, 0, 0, 0, 0, 0];
    assert_eq!(de.deserialize(&buf, 0), Err(PacketError::UnknownDiscriminant));
    let buf = vec![0xFF; 10];
    assert_eq!(de.deserialize(&buf, 0), Err(PacketError::UnknownDiscriminant));
}

#[test]
fn short_buffer_is_an_overrun() {
    let ser = derive_serialize(payload_enum()).unwrap();
    let de = derive_deserialize(payload_enum()).unwrap();
    let b = Packet::Variant(
        1,
        vec![Value::Scalar(Scalar::I64(1)), Value::Scalar(Scalar::Bool(false))],
    );
    let mut buf = vec![7u8; 9];
    assert_eq!(ser.serialize(&b, &mut buf, 0), Err(PacketError::BufferOverrun));
    assert_eq!(buf, vec![7u8; 9]);
    let bytes = vec![0x01, 0, 0, 0, 0, 0, 0, 0, 0];
    assert_eq!(de.deserialize(&bytes, 0), Err(PacketError::BufferOverrun));
    assert_eq!(de.deserialize(&bytes, 9), Err(PacketError::BufferOverrun));
    assert_eq!(de.deserialize(&bytes, 100), Err(PacketError::BufferOverrun));
}

#[test]
fn too_many_variants_are_rejected() {
    let many = || TypeDecl::Enum((0..256).map(|_| Vec::new()).collect());
    assert_eq!(derive_const_size(&many()), Err(DeriveError::TooManyVariants(256)));
    assert!(matches!(derive_serialize(many()), Err(DeriveError::TooManyVariants(256))));
    assert!(matches!(derive_deserialize(many()), Err(DeriveError::TooManyVariants(256))));
    let most = TypeDecl::Enum((0..255).map(|_| Vec::new()).collect());
    assert_eq!(derive_const_size(&most), Ok(1));
}

#[test]
fn largest_tag_round_trips() {
    let decl = || TypeDecl::Enum((0..255).map(|_| Vec::new()).collect());
    let ser = derive_serialize(decl()).unwrap();
    let de = derive_deserialize(decl()).unwrap();
    let last = Packet::Variant(254, vec![]);
    let mut buf = vec![0u8; 1];
    ser.serialize(&last, &mut buf, 0).unwrap();
    assert_eq!(buf, vec![254]);
    assert_eq!(de.deserialize(&buf, 0), Ok(last));
    assert_eq!(de.deserialize(&vec![255], 0), Err(PacketError::UnknownDiscriminant));
}

#[test]
fn untagged_union_is_rejected() {
    assert_eq!(derive_const_size(&TypeDecl::Union), Err(DeriveError::Union));
    assert!(matches!(derive_serialize(TypeDecl::Union), Err(DeriveError::Union)));
    assert!(matches!(derive_deserialize(TypeDecl::Union), Err(DeriveError::Union)));
}

#[test]
fn oversized_layout_is_rejected() {
    let huge = || {
        TypeDecl::Struct(vec![FieldType::Array(
            Box::new(FieldType::Scalar(Prim::U64)),
            usize::MAX,
        )])
    };
    assert_eq!(derive_const_size(&huge()), Err(DeriveError::SizeOverflow));
    assert!(matches!(derive_serialize(huge()), Err(DeriveError::SizeOverflow)));
    let t = FieldType::Array(Box::new(FieldType::Scalar(Prim::U64)), usize::MAX);
    assert_eq!(t.const_size(), None);
    let empty = FieldType::Array(Box::new(t), 0);
    assert_eq!(empty.const_size(), Some(0));
}

#[test]
fn struct_offsets_are_prefix_sums() {
    let decl = TypeDecl::Struct(vec![
        FieldType::Scalar(Prim::U8),
        FieldType::Scalar(Prim::U32),
        FieldType::Scalar(Prim::U16),
    ]);
    let ser = derive_serialize(decl).unwrap();
    match &ser.layout {
        Layout::Struct(fl) => {
            assert_eq!(fl.base, 0);
            assert_eq!(fl.offsets, vec![0, 1, 5]);
            assert_eq!(fl.end, 7);
        }
        _ => panic!("a struct compiles to a struct layout"),
    }
}

#[test]
fn variant_offsets_start_after_the_tag() {
    let ser = derive_serialize(payload_enum()).unwrap();
    match &ser.layout {
        Layout::Enum(ls) => {
            assert_eq!(ls.len(), 2);
            assert_eq!(ls[0].base, 1);
            assert_eq!(ls[0].offsets, vec![1]);
            assert_eq!(ls[0].end, 5);
            assert_eq!(ls[1].offsets, vec![1, 9]);
            assert_eq!(ls[1].end, 10);
        }
        _ => panic!("an enum compiles to an enum layout"),
    }
}

#[test]
fn signed_integers_use_twos_complement() {
    let t = FieldType::Record(vec![
        FieldType::Scalar(Prim::I8),
        FieldType::Scalar(Prim::I16),
        FieldType::Scalar(Prim::I64),
    ]);
    let v = Value::Items(vec![
        Value::Scalar(Scalar::I8(-128)),
        Value::Scalar(Scalar::I16(-2)),
        Value::Scalar(Scalar::I64(i64::MIN)),
    ]);
    let mut buf = vec![0u8; 11];
    t.serialize(&v, &mut buf, 0).unwrap();
    assert_eq!(buf, vec![0x80, 0xFE, 0xFF, 0, 0, 0, 0, 0, 0, 0, 0x80]);
    assert_eq!(t.deserialize(&buf, 0), Ok(v));
}

#[test]
fn unsigned_and_float_bits_are_little_endian() {
    let t = FieldType::Record(vec![
        FieldType::Scalar(Prim::U16),
        FieldType::Scalar(Prim::U32),
        FieldType::Scalar(Prim::F32),
        FieldType::Scalar(Prim::F64),
        FieldType::Scalar(Prim::HalfScalar),
    ]);
    let v = Value::Items(vec![
        Value::Scalar(Scalar::U16(0x1234)),
        Value::Scalar(Scalar::U32(0xDEADBEEF)),
        Value::Scalar(Scalar::F32(1.5f32.to_bits())),
        Value::Scalar(Scalar::F64((-2.0f64).to_bits())),
        Value::Scalar(Scalar::HalfScalar(0x3C00)),
    ]);
    assert_eq!(t.const_size(), Some(20));
    let mut buf = vec![0u8; 20];
    t.serialize(&v, &mut buf, 0).unwrap();
    let mut expected = vec![0x34, 0x12, 0xEF, 0xBE, 0xAD, 0xDE];
    expected.extend_from_slice(&1.5f32.to_le_bytes());
    expected.extend_from_slice(&(-2.0f64).to_le_bytes());
    expected.extend_from_slice(&[0x00, 0x3C]);
    assert_eq!(buf, expected);
    assert_eq!(t.deserialize(&buf, 0), Ok(v));
}

#[test]
fn bool_reads_any_nonzero_byte_as_true() {
    let t = FieldType::Scalar(Prim::Bool);
    let mut buf = vec![0u8; 1];
    t.serialize(&Value::Scalar(Scalar::Bool(true)), &mut buf, 0).unwrap();
    assert_eq!(buf, vec![1]);
    assert_eq!(t.deserialize(&vec![0], 0), Ok(Value::Scalar(Scalar::Bool(false))));
    assert_eq!(t.deserialize(&vec![7], 0), Ok(Value::Scalar(Scalar::Bool(true))));
}

#[test]
fn nested_arrays_of_records_round_trip() {
    let t = FieldType::Array(
        Box::new(FieldType::Record(vec![
            FieldType::Tag(3),
            vector3i(),
            FieldType::Scalar(Prim::U8),
        ])),
        2,
    );
    assert_eq!(t.const_size(), Some(28));
    let item = |tag: u8, x: i32, b: u8| {
        Value::Items(vec![
            Value::Tag(tag),
            Value::Items(vec![i32v(x), i32v(-x), i32v(0)]),
            Value::Scalar(Scalar::U8(b)),
        ])
    };
    let v = Value::Items(vec![item(2, 5, 9), item(0, -1, 255)]);
    assert!(t.accepts(&v));
    let mut buf = vec![0u8; 30];
    t.serialize(&v, &mut buf, 1).unwrap();
    assert_eq!(&buf[1..15], &[2, 5, 0, 0, 0, 0xFB, 0xFF, 0xFF, 0xFF, 0, 0, 0, 0, 9]);
    assert_eq!(t.deserialize(&buf, 1), Ok(v));
    buf[15] = 3;
    assert_eq!(t.deserialize(&buf, 1), Err(PacketError::UnknownDiscriminant));
}

#[test]
fn accepts_checks_shape_and_tags() {
    let t = FieldType::Record(vec![FieldType::Tag(2), FieldType::Scalar(Prim::U8)]);
    assert!(t.accepts(&Value::Items(vec![Value::Tag(1), Value::Scalar(Scalar::U8(3))])));
    assert!(!t.accepts(&Value::Items(vec![Value::Tag(2), Value::Scalar(Scalar::U8(3))])));
    assert!(!t.accepts(&Value::Items(vec![Value::Tag(0), Value::Scalar(Scalar::I8(3))])));
    assert!(!t.accepts(&Value::Items(vec![Value::Tag(0)])));
    assert!(!t.accepts(&Value::Tag(0)));
}

#[test]
fn zero_unit_quaternion_fails_to_decode() {
    let t = unit_quaternion();
    assert_eq!(t.deserialize(&vec![0, 0, 0, 0], 0), Err(PacketError::DegenerateRotation));
    let v = Value::Items(vec![unit(0), unit(0), unit(0), unit(127)]);
    assert!(t.accepts(&v));
    assert!(!t.accepts(&Value::Items(vec![unit(0), unit(0), unit(0), unit(0)])));
    let mut buf = vec![0u8; 4];
    t.serialize(&v, &mut buf, 0).unwrap();
    assert_eq!(buf, vec![0, 0, 0, 127]);
    assert_eq!(t.deserialize(&buf, 0), Ok(v));
    let neg = vec![0x81, 0, 0, 0];
    assert_eq!(
        t.deserialize(&neg, 0),
        Ok(Value::Items(vec![unit(-127), unit(0), unit(0), unit(0)]))
    );
}

#[test]
fn unit_transform3d_propagates_degenerate_rotation() {
    let t = unit_transform3d();
    let buf = vec![0u8; 16];
    assert_eq!(t.deserialize(&buf, 0), Err(PacketError::DegenerateRotation));
}

#[test]
fn unit_length_decision() {
    assert!(!exceeds_unit_length(&vec![127, 0, 0, 0]));
    assert!(!exceeds_unit_length(&vec![-127, 0]));
    assert!(exceeds_unit_length(&vec![127, 1, 0, 0]));
    assert!(exceeds_unit_length(&vec![90, 90, 0]));
    assert!(!exceeds_unit_length(&vec![89, 90]));
    assert!(exceeds_unit_length(&vec![-128, -128, -128, -128]));
    assert!(!exceeds_unit_length(&vec![]));
}

#[test]
fn color_channels_are_single_bytes() {
    let t = color();
    assert_eq!(t.const_size(), Some(4));
    let v = Value::Items(
        [255u8, 0, 127, 255].iter().map(|c| Value::Scalar(Scalar::U8(*c))).collect(),
    );
    let mut buf = vec![0u8; 4];
    t.serialize(&v, &mut buf, 0).unwrap();
    assert_eq!(buf, vec![255, 0, 127, 255]);
    assert_eq!(t.deserialize(&buf, 0), Ok(v));
}

#[test]
fn catalogue_sizes() {
    let sizes = [
        (vector2i(), 8),
        (vector3i(), 12),
        (vector4i(), 16),
        (vector2(), 8),
        (vector3(), 12),
        (vector4(), 16),
        (quaternion(), 16),
        (unit_vector2(), 2),
        (unit_vector3(), 3),
        (unit_vector4(), 4),
        (unit_quaternion(), 4),
        (half_vector2(), 4),
        (half_vector3(), 6),
        (half_vector4(), 8),
        (half_quaternion(), 8),
        (basis(), 36),
        (unit_basis(), 4),
        (half_basis(), 18),
        (transform2d(), 24),
        (unit_transform2d(), 9),
        (half_transform2d(), 16),
        (transform3d(), 48),
        (unit_transform3d(), 16),
        (half_transform3d(), 30),
        (rect2i(), 16),
        (rect2(), 16),
        (aabb(), 24),
        (half_rect2(), 12),
        (half_aabb(), 18),
        (plane(), 16),
        (unit_plane(), 7),
        (half_plane(), 10),
        (color(), 4),
    ];
    for (t, n) in sizes {
        assert_eq!(t.const_size(), Some(n));
    }
}

#[test]
fn plane_keeps_full_precision_distance() {
    let t = unit_plane();
    let d = 3.25f32;
    let v = Value::Items(vec![
        Value::Items(vec![unit(0), unit(127), unit(0)]),
        Value::Scalar(Scalar::F32(d.to_bits())),
    ]);
    let mut buf = vec![0u8; 7];
    t.serialize(&v, &mut buf, 0).unwrap();
    assert_eq!(&buf[..3], &[0, 127, 0]);
    assert_eq!(f32::from_le_bytes([buf[3], buf[4], buf[5], buf[6]]), d);
    assert_eq!(t.deserialize(&buf, 0), Ok(v));
}

#[test]
fn field_serialize_past_end_leaves_buffer() {
    let t = vector2i();
    let v = vector2i_value(1, 2);
    let mut buf = vec![9u8; 10];
    assert_eq!(t.serialize(&v, &mut buf, 3), Err(PacketError::BufferOverrun));
    assert_eq!(buf, vec![9u8; 10]);
    assert_eq!(t.serialize(&v, &mut buf, 2), Ok(()));
    assert_eq!(buf, vec![9, 9, 1, 0, 0, 0, 2, 0, 0, 0]);
    assert_eq!(t.deserialize(&buf, 3), Err(PacketError::BufferOverrun));
    assert_eq!(t.serialize(&v, &mut buf, usize::MAX), Err(PacketError::BufferOverrun));
}

#[test]
fn layout_accepts_only_declared_shapes() {
    let ser = derive_serialize(payload_enum()).unwrap();
    let good = Packet::Variant(0, vec![i32v(1)]);
    let wrong_field = Packet::Variant(0, vec![Value::Scalar(Scalar::I64(1))]);
    let wrong_count = Packet::Variant(1, vec![Value::Scalar(Scalar::I64(1))]);
    let wrong_tag = Packet::Variant(2, vec![]);
    let wrong_kind = Packet::Struct(vec![i32v(1)]);
    assert!(ser.layout.accepts(&good));
    assert!(!ser.layout.accepts(&wrong_field));
    assert!(!ser.layout.accepts(&wrong_count));
    assert!(!ser.layout.accepts(&wrong_tag));
    assert!(!ser.layout.accepts(&wrong_kind));
}

#[test]
fn empty_struct_takes_no_bytes() {
    assert_eq!(derive_const_size(&TypeDecl::Struct(vec![])), Ok(0));
    let ser = derive_serialize(TypeDecl::Struct(vec![])).unwrap();
    let de = derive_deserialize(TypeDecl::Struct(vec![])).unwrap();
    let mut buf: Vec<u8> = vec![];
    ser.serialize(&Packet::Struct(vec![]), &mut buf, 0).unwrap();
    assert!(buf.is_empty());
    assert_eq!(de.deserialize(&buf, 0), Ok(Packet::Struct(vec![])));
    assert_eq!(de.deserialize(&buf, 1), Err(PacketError::BufferOverrun));
}

#[test]
fn variant_with_nested_record_round_trips() {
    let decl = || {
        TypeDecl::Enum(vec![
            vec![],
            vec![rect2i(), FieldType::Tag(2), unit_quaternion()],
        ])
    };
    let ser = derive_serialize(decl()).unwrap();
    let de = derive_deserialize(decl()).unwrap();
    let p = Packet::Variant(
        1,
        vec![
            Value::Items(vec![vector2i_value(-1, 2), vector2i_value(30, 40)]),
            Value::Tag(1),
            Value::Items(vec![unit(1), unit(-1), unit(127), unit(-127)]),
        ],
    );
    let mut buf = vec![0u8; 22];
    ser.serialize(&p, &mut buf, 0).unwrap();
    assert_eq!(buf[0], 1);
    assert_eq!(&buf[1..5], &[0xFF, 0xFF, 0xFF, 0xFF]);
    assert_eq!(buf[17], 1);
    assert_eq!(&buf[18..22], &[1, 0xFF, 127, 0x81]);
    assert_eq!(de.deserialize(&buf, 0), Ok(p));
    assert_eq!(de.deserialize(&vec![0u8], 0), Ok(Packet::Variant(0, vec![])));
}
