//! The catalogue of geometric field types: vectors, quaternions, rotation
//! bases, affine transforms, boxes, planes and colors, at full precision and
//! in their unit (`Unit`) and half-precision (`Half`) forms.
//!
//! Vectors put their components in `x, y, z, w` order. Real components are
//! 32-bit floats at full precision, unit scalars in unit form and
//! half-precision floats in half form.
use crate::prim::Prim;
use crate::schema::{fields_size, size, FieldType};
use vstd::prelude::*;

verus! {

/// `n` components of kind `p`.
pub open spec fn vector_of(p: Prim, n: usize) -> FieldType {
    FieldType::Array(Box::new(FieldType::Scalar(p)), n)
}

/// A vector of `n` components of kind `p`.
pub fn vector(p: Prim, n: usize) -> (r: FieldType)
    ensures
        r == vector_of(p, n),
        size(r) == p.size_spec() * n,
{
    let r = FieldType::Array(Box::new(FieldType::Scalar(p)), n);
    assert(size(FieldType::Scalar(p)) == p.size_spec());
    r
}

/// `n` copies of the type `t`.
pub fn array(t: FieldType, n: usize) -> (r: FieldType)
    ensures
        r == FieldType::Array(Box::new(t), n),
        size(r) == size(t) * n,
{
    FieldType::Array(Box::new(t), n)
}

/// A record of the two fields `a` then `b`.
pub fn pair(a: FieldType, b: FieldType) -> (r: FieldType)
    ensures
        r is Record,
        r->Record_0@ == seq![a, b],
        size(r) == size(a) + size(b),
{
    let r = FieldType::Record(vec![a, b]);
    assert(r->Record_0@ =~= seq![a, b]);
    assert(fields_size(r, 0) == 0);
    assert(fields_size(r, 1) == size(a));
    assert(fields_size(r, 2) == size(a) + size(b));
    r
}

/// A record of the three fields `a`, `b` then `c`.
pub fn triple(a: FieldType, b: FieldType, c: FieldType) -> (r: FieldType)
    ensures
        r is Record,
        r->Record_0@ == seq![a, b, c],
        size(r) == size(a) + size(b) + size(c),
{
    let r = FieldType::Record(vec![a, b, c]);
    assert(r->Record_0@ =~= seq![a, b, c]);
    assert(fields_size(r, 0) == 0);
    assert(fields_size(r, 1) == size(a));
    assert(fields_size(r, 2) == size(a) + size(b));
    assert(fields_size(r, 3) == size(a) + size(b) + size(c));
    r
}

/// Two 32-bit integer components.
pub fn vector2i() -> (r: FieldType)
    ensures
        r == vector_of(Prim::I32, 2),
        size(r) == 8,
{
    vector(Prim::I32, 2)
}

/// Three 32-bit integer components.
pub fn vector3i() -> (r: FieldType)
    ensures
        r == vector_of(Prim::I32, 3),
        size(r) == 12,
{
    vector(Prim::I32, 3)
}

/// Four 32-bit integer components.
pub fn vector4i() -> (r: FieldType)
    ensures
        r == vector_of(Prim::I32, 4),
        size(r) == 16,
{
    vector(Prim::I32, 4)
}

/// Two real components.
pub fn vector2() -> (r: FieldType)
    ensures
        r == vector_of(Prim::F32, 2),
        size(r) == 8,
{
    vector(Prim::F32, 2)
}

/// Three real components.
pub fn vector3() -> (r: FieldType)
    ensures
        r == vector_of(Prim::F32, 3),
        size(r) == 12,
{
    vector(Prim::F32, 3)
}

/// Four real components.
pub fn vector4() -> (r: FieldType)
    ensures
        r == vector_of(Prim::F32, 4),
        size(r) == 16,
{
    vector(Prim::F32, 4)
}

/// A quaternion, laid out as a four-component vector `x, y, z, w`.
pub fn quaternion() -> (r: FieldType)
    ensures
        r == vector_of(Prim::F32, 4),
        size(r) == 16,
{
    vector(Prim::F32, 4)
}

/// Two unit-quantized components; decoding keeps the length at most one.
pub fn unit_vector2() -> (r: FieldType)
    ensures
        r == vector_of(Prim::UnitScalar, 2),
        size(r) == 2,
{
    vector(Prim::UnitScalar, 2)
}

/// Three unit-quantized components; decoding keeps the length at most one.
pub fn unit_vector3() -> (r: FieldType)
    ensures
        r == vector_of(Prim::UnitScalar, 3),
        size(r) == 3,
{
    vector(Prim::UnitScalar, 3)
}

/// Four unit-quantized components; decoding scales a vector longer than one back to unit length.
pub fn unit_vector4() -> (r: FieldType)
    ensures
        r == vector_of(Prim::UnitScalar, 4),
        size(r) == 4,
{
    vector(Prim::UnitScalar, 4)
}

/// Two half-precision components.
pub fn half_vector2() -> (r: FieldType)
    ensures
        r == vector_of(Prim::HalfScalar, 2),
        size(r) == 4,
{
    vector(Prim::HalfScalar, 2)
}

/// Three half-precision components.
pub fn half_vector3() -> (r: FieldType)
    ensures
        r == vector_of(Prim::HalfScalar, 3),
        size(r) == 6,
{
    vector(Prim::HalfScalar, 3)
}

/// Four half-precision components.
pub fn half_vector4() -> (r: FieldType)
    ensures
        r == vector_of(Prim::HalfScalar, 4),
        size(r) == 8,
{
    vector(Prim::HalfScalar, 4)
}

/// A quaternion as four half-precision components.
pub fn half_quaternion() -> (r: FieldType)
    ensures
        r == vector_of(Prim::HalfScalar, 4),
        size(r) == 8,
{
    vector(Prim::HalfScalar, 4)
}

/// A color: red, green, blue and alpha, each channel `c` as the byte `c * 255`.
pub fn color() -> (r: FieldType)
    ensures
        r == vector_of(Prim::U8, 4),
        size(r) == 4,
{
    vector(Prim::U8, 4)
}

/// A unit quaternion as four unit-quantized components; reading four zero
/// bytes fails.
pub fn unit_quaternion() -> (r: FieldType)
    ensures
        r == FieldType::UnitQuaternion,
        size(r) == 4,
{
    FieldType::UnitQuaternion
}

/// A rotation basis: its three rows, each a three-component vector.
pub fn basis() -> (r: FieldType)
    ensures
        r == FieldType::Array(Box::new(vector_of(Prim::F32, 3)), 3),
        size(r) == 36,
{
    array(vector3(), 3)
}

/// A rotation basis sent as the unit quaternion of the same rotation.
pub fn unit_basis() -> (r: FieldType)
    ensures
        r == FieldType::UnitQuaternion,
        size(r) == 4,
{
    unit_quaternion()
}

/// A rotation basis with each row at half precision.
pub fn half_basis() -> (r: FieldType)
    ensures
        r == FieldType::Array(Box::new(vector_of(Prim::HalfScalar, 3)), 3),
        size(r) == 18,
{
    array(half_vector3(), 3)
}

/// A 2D affine transform: basis columns `a` and `b`, then the origin.
pub fn transform2d() -> (r: FieldType)
    ensures
        r is Record,
        r->Record_0@ == seq![vector_of(Prim::F32, 2), vector_of(Prim::F32, 2), vector_of(Prim::F32, 2)],
        size(r) == 24,
{
    triple(vector2(), vector2(), vector2())
}

/// A 2D transform sent as its rotation angle only, as the unit scalar of
/// `angle / pi`, then its origin at full precision. Skew and scale are lost.
pub fn unit_transform2d() -> (r: FieldType)
    ensures
        r is Record,
        r->Record_0@ == seq![FieldType::Scalar(Prim::UnitScalar), vector_of(Prim::F32, 2)],
        size(r) == 9,
{
    pair(FieldType::Scalar(Prim::UnitScalar), vector2())
}

/// A 2D transform with its basis columns at half precision and its origin at full precision.
pub fn half_transform2d() -> (r: FieldType)
    ensures
        r is Record,
        r->Record_0@ == seq![vector_of(Prim::HalfScalar, 2), vector_of(Prim::HalfScalar, 2), vector_of(Prim::F32, 2)],
        size(r) == 16,
{
    triple(half_vector2(), half_vector2(), vector2())
}

/// A 3D affine transform: its rotation basis, then its origin.
pub fn transform3d() -> (r: FieldType)
    ensures
        r is Record,
        r->Record_0@ == seq![FieldType::Array(Box::new(vector_of(Prim::F32, 3)), 3), vector_of(Prim::F32, 3)],
        size(r) == 48,
{
    pair(basis(), vector3())
}

/// A 3D transform sent as the unit quaternion of its rotation, then its
/// origin at full precision.
pub fn unit_transform3d() -> (r: FieldType)
    ensures
        r is Record,
        r->Record_0@ == seq![FieldType::UnitQuaternion, vector_of(Prim::F32, 3)],
        size(r) == 16,
{
    pair(unit_basis(), vector3())
}

/// A 3D transform with its basis at half precision and its origin at full precision.
pub fn half_transform3d() -> (r: FieldType)
    ensures
        r is Record,
        r->Record_0@ == seq![FieldType::Array(Box::new(vector_of(Prim::HalfScalar, 3)), 3), vector_of(Prim::F32, 3)],
        size(r) == 30,
{
    pair(half_basis(), vector3())
}

/// An integer 2D box: position, then size.
pub fn rect2i() -> (r: FieldType)
    ensures
        r is Record,
        r->Record_0@ == seq![vector_of(Prim::I32, 2), vector_of(Prim::I32, 2)],
        size(r) == 16,
{
    pair(vector2i(), vector2i())
}

/// A 2D box: position, then size.
pub fn rect2() -> (r: FieldType)
    ensures
        r is Record,
        r->Record_0@ == seq![vector_of(Prim::F32, 2), vector_of(Prim::F32, 2)],
        size(r) == 16,
{
    pair(vector2(), vector2())
}

/// An axis-aligned 3D box: position, then size.
pub fn aabb() -> (r: FieldType)
    ensures
        r is Record,
        r->Record_0@ == seq![vector_of(Prim::F32, 3), vector_of(Prim::F32, 3)],
        size(r) == 24,
{
    pair(vector3(), vector3())
}

/// A 2D box with its position at full precision and its size at half precision.
pub fn half_rect2() -> (r: FieldType)
    ensures
        r is Record,
        r->Record_0@ == seq![vector_of(Prim::F32, 2), vector_of(Prim::HalfScalar, 2)],
        size(r) == 12,
{
    pair(vector2(), half_vector2())
}

/// A 3D box with its position at full precision and its size at half precision.
pub fn half_aabb() -> (r: FieldType)
    ensures
        r is Record,
        r->Record_0@ == seq![vector_of(Prim::F32, 3), vector_of(Prim::HalfScalar, 3)],
        size(r) == 18,
{
    pair(vector3(), half_vector3())
}

/// A plane: its normal, then its distance as a 32-bit float.
pub fn plane() -> (r: FieldType)
    ensures
        r is Record,
        r->Record_0@ == seq![vector_of(Prim::F32, 3), FieldType::Scalar(Prim::F32)],
        size(r) == 16,
{
    pair(vector3(), FieldType::Scalar(Prim::F32))
}

/// A plane with a unit-quantized normal; the distance stays a 32-bit float.
pub fn unit_plane() -> (r: FieldType)
    ensures
        r is Record,
        r->Record_0@ == seq![vector_of(Prim::UnitScalar, 3), FieldType::Scalar(Prim::F32)],
        size(r) == 7,
{
    pair(unit_vector3(), FieldType::Scalar(Prim::F32))
}

/// A plane with a half-precision normal; the distance stays a 32-bit float.
pub fn half_plane() -> (r: FieldType)
    ensures
        r is Record,
        r->Record_0@ == seq![vector_of(Prim::HalfScalar, 3), FieldType::Scalar(Prim::F32)],
        size(r) == 10,
{
    pair(half_vector3(), FieldType::Scalar(Prim::F32))
}

} // verus!
