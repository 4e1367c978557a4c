//! Field schemas, the values they describe, and what those values look like
//! on the wire.
//!
//! A field type is a primitive, a field-less tagged union (one tag byte), a
//! unit quaternion, a fixed-size array, or a record of fields in declared
//! order. Every field type has a size fixed by the type alone; the elements
//! of a composite sit back to back, each at the running sum of the sizes
//! before it.
use crate::prim::{
    decode_scalar, encode_scalar, lemma_scalar_round_trip, Prim, Scalar,
};
use vstd::prelude::*;

verus! {

/// Why a packet could not be read or written.
#[derive(Debug, Clone, Copy, PartialEq, Eq, Structural)]
pub enum PacketError {
    /// The access reaches past the end of the buffer.
    BufferOverrun,
    /// A tag byte names no declared variant.
    UnknownDiscriminant,
    /// A quantized rotation decodes to a zero-length quaternion.
    DegenerateRotation,
}

/// The type of a field.
#[derive(Debug, PartialEq, Eq)]
pub enum FieldType {
    /// A primitive.
    Scalar(Prim),
    /// A tagged union of the given number of variants, none carrying fields:
    /// one byte holding the variant's zero-based index.
    Tag(u8),
    /// A rotation as four unit scalars `x, y, z, w`, not all zero.
    UnitQuaternion,
    /// A fixed number of elements of one type.
    Array(Box<FieldType>, usize),
    /// Fields of the given types, in declared order.
    Record(Vec<FieldType>),
}

/// A value of some field type.
#[derive(Debug, PartialEq, Eq)]
pub enum Value {
    Scalar(Scalar),
    /// The index of a variant of a field-less tagged union.
    Tag(u8),
    /// The elements of an array, the fields of a record, or the components
    /// of a quaternion, in order.
    Items(Vec<Value>),
}

/// What a value is, with its elements as a sequence.
pub enum Model {
    Scalar(Scalar),
    Tag(u8),
    Items(Seq<Model>),
}

impl Value {
    pub open spec fn model(&self) -> Model
        decreases self,
    {
        match self {
            Value::Scalar(s) => Model::Scalar(*s),
            Value::Tag(k) => Model::Tag(*k),
            Value::Items(xs) => Model::Items(
                Seq::new(
                    xs.len() as nat,
                    |i: int|
                        if 0 <= i < xs.len() {
                            xs[i].model()
                        } else {
                            Model::Tag(0)
                        },
                ),
            ),
        }
    }
}

/// Number of elements of a composite type (zero for the others).
pub open spec fn count(t: FieldType) -> nat {
    match t {
        FieldType::UnitQuaternion => 4,
        FieldType::Array(_, n) => n as nat,
        FieldType::Record(fs) => fs.len() as nat,
        _ => 0,
    }
}

/// Type of element `i` of a composite type.
pub open spec fn elem_type(t: FieldType, i: int) -> FieldType {
    match t {
        FieldType::Array(e, _) => *e,
        FieldType::Record(fs) => fs[i],
        _ => FieldType::Scalar(Prim::UnitScalar),
    }
}

/// Number of bytes a value of type `t` occupies.
pub open spec fn size(t: FieldType) -> nat
    decreases t, 1nat, 0int,
{
    match t {
        FieldType::Scalar(p) => p.size_spec(),
        FieldType::Tag(_) => 1,
        FieldType::UnitQuaternion => 4,
        FieldType::Array(e, n) => (size(*e) * n) as nat,
        FieldType::Record(fs) => fields_size(t, fs.len() as int),
    }
}

/// Total size of the first `n` fields of the record type `t`.
pub open spec fn fields_size(t: FieldType, n: int) -> nat
    decreases t, 0nat, n,
{
    match t {
        FieldType::Record(fs) => if 0 < n <= fs.len() {
            fields_size(t, n - 1) + size(fs[n - 1])
        } else {
            0
        },
        _ => 0,
    }
}

/// Offset of element `i` of a composite type from the start of the composite.
pub open spec fn elem_offset(t: FieldType, i: int) -> nat {
    match t {
        FieldType::Array(e, _) => (i * size(*e)) as nat,
        FieldType::Record(_) => fields_size(t, i),
        _ => i as nat,
    }
}

/// The four components of a unit quaternion are all zero.
pub open spec fn degenerate(xs: Seq<Model>) -> bool {
    forall|i: int| 0 <= i < 4 ==> xs[i] == Model::Scalar(Scalar::UnitScalar(0))
}

/// The value `m` is of type `t`.
pub open spec fn has_type(m: Model, t: FieldType) -> bool
    decreases m,
{
    match m {
        Model::Scalar(s) => t matches FieldType::Scalar(p) && p == s.kind(),
        Model::Tag(k) => t matches FieldType::Tag(n) && k < n,
        Model::Items(xs) => {
            &&& (t is Array || t is Record || t is UnitQuaternion)
            &&& xs.len() == count(t)
            &&& forall|i: int| 0 <= i < xs.len() ==> has_type(#[trigger] xs[i], elem_type(t, i))
            &&& t is UnitQuaternion ==> !degenerate(xs)
        },
    }
}

/// The wire bytes of the value `m` of type `t`.
pub open spec fn encode(t: FieldType, m: Model) -> Seq<u8>
    decreases m, 1nat, 0int,
{
    match m {
        Model::Scalar(s) => encode_scalar(s),
        Model::Tag(k) => seq![k],
        Model::Items(xs) => encode_items(t, m, xs.len() as int),
    }
}

/// The wire bytes of the first `n` elements of the composite value `m` of type `t`.
pub open spec fn encode_items(t: FieldType, m: Model, n: int) -> Seq<u8>
    decreases m, 0nat, n,
{
    match m {
        Model::Items(xs) => if 0 < n <= xs.len() {
            encode_items(t, m, n - 1) + encode(elem_type(t, n - 1), xs[n - 1])
        } else {
            Seq::empty()
        },
        _ => Seq::empty(),
    }
}

/// The bytes of element `i` within the bytes of a composite of type `t`.
pub open spec fn elem_bytes(t: FieldType, bytes: Seq<u8>, i: int) -> Seq<u8> {
    bytes.subrange(
        elem_offset(t, i) as int,
        (elem_offset(t, i) + size(elem_type(t, i))) as int,
    )
}

/// The value of type `t` that the bytes stand for, or why there is none.
/// `bytes` holds exactly `size(t)` bytes.
pub open spec fn decode(t: FieldType, bytes: Seq<u8>) -> Result<Model, PacketError>
    decreases t, 1nat, 0int,
{
    match t {
        FieldType::Scalar(p) => Ok(Model::Scalar(decode_scalar(p, bytes))),
        FieldType::Tag(n) => if bytes[0] < n {
            Ok(Model::Tag(bytes[0]))
        } else {
            Err(PacketError::UnknownDiscriminant)
        },
        FieldType::UnitQuaternion => match decode_items(t, bytes, 4) {
            Ok(xs) => if degenerate(xs) {
                Err(PacketError::DegenerateRotation)
            } else {
                Ok(Model::Items(xs))
            },
            Err(e) => Err(e),
        },
        FieldType::Array(_, n) => match decode_items(t, bytes, n as int) {
            Ok(xs) => Ok(Model::Items(xs)),
            Err(e) => Err(e),
        },
        FieldType::Record(fs) => match decode_items(t, bytes, fs.len() as int) {
            Ok(xs) => Ok(Model::Items(xs)),
            Err(e) => Err(e),
        },
    }
}

/// The first `n` elements of a composite of type `t` read from its bytes, in
/// order, stopping at the first element that fails.
pub open spec fn decode_items(t: FieldType, bytes: Seq<u8>, n: int) -> Result<
    Seq<Model>,
    PacketError,
>
    decreases t, 0nat, n,
{
    if n <= 0 || n > count(t) {
        Ok(Seq::empty())
    } else {
        match decode_items(t, bytes, n - 1) {
            Err(e) => Err(e),
            Ok(xs) => match decode_elem(t, elem_bytes(t, bytes, n - 1), n - 1) {
                Ok(x) => Ok(xs.push(x)),
                Err(e) => Err(e),
            },
        }
    }
}

/// Element `i` of a composite of type `t`, read from its own bytes.
pub open spec fn decode_elem(t: FieldType, bytes: Seq<u8>, i: int) -> Result<Model, PacketError>
    decreases t, 0nat, 0int,
{
    match t {
        FieldType::Array(e, _) => decode(*e, bytes),
        FieldType::Record(fs) => if 0 <= i < fs.len() {
            decode(fs[i], bytes)
        } else {
            Err(PacketError::BufferOverrun)
        },
        _ => Ok(Model::Scalar(decode_scalar(Prim::UnitScalar, bytes))),
    }
}

/// The type has elements (an array, a record or a quaternion).
pub open spec fn is_composite(t: FieldType) -> bool {
    t is Array || t is Record || t is UnitQuaternion
}

/// Elements of a composite sit back to back from offset zero, and the last
/// one ends where the composite does.
pub proof fn lemma_elem_offset_ends(t: FieldType)
    requires
        is_composite(t),
    ensures
        elem_offset(t, 0) == 0,
        elem_offset(t, count(t) as int) == size(t),
{
    match t {
        FieldType::Array(e, n) => {
            let s = size(*e);
            assert(n * s == s * n) by (nonlinear_arith);
            assert(0 * s == 0) by (nonlinear_arith);
        },
        _ => {},
    }
}

/// Each element starts where the one before it ends.
pub proof fn lemma_elem_offset_step(t: FieldType, i: int)
    requires
        is_composite(t),
        0 <= i < count(t),
    ensures
        elem_offset(t, i + 1) == elem_offset(t, i) + size(elem_type(t, i)),
{
    match t {
        FieldType::Array(e, n) => {
            let s = size(*e);
            assert((i + 1) * s == i * s + s) by (nonlinear_arith);
            assert(i * s >= 0) by (nonlinear_arith)
                requires
                    i >= 0,
            ;
        },
        _ => {},
    }
}

/// Element offsets never decrease, and every element ends inside the composite.
pub proof fn lemma_elem_offset_mono(t: FieldType, i: int, j: int)
    requires
        is_composite(t),
        0 <= i <= j <= count(t),
    ensures
        elem_offset(t, i) <= elem_offset(t, j),
        j < count(t) ==> elem_offset(t, j) + size(elem_type(t, j)) <= size(t),
    decreases count(t) - i,
{
    if i < j {
        lemma_elem_offset_step(t, i);
        lemma_elem_offset_mono(t, i + 1, j);
    }
    if j < count(t) {
        lemma_elem_offset_step(t, j);
        lemma_elem_offset_mono(t, j + 1, count(t) as int);
        lemma_elem_offset_ends(t);
    }
}

/// A value of type `t` takes exactly `size(t)` bytes.
pub proof fn lemma_encode_len(t: FieldType, m: Model)
    requires
        has_type(m, t),
    ensures
        encode(t, m).len() == size(t),
    decreases m, 1nat, 0int,
{
    lemma_encode_len_inner(t, m);
}

proof fn lemma_encode_len_inner(t: FieldType, m: Model)
    requires
        has_type(m, t),
    ensures
        encode(t, m).len() == size(t),
    decreases m, 1nat, 0int,
{
    match m {
        Model::Scalar(s) => {
            lemma_scalar_round_trip(s);
        },
        Model::Tag(_) => {},
        Model::Items(xs) => {
            lemma_encode_items_len(t, m, xs.len() as int);
            lemma_elem_offset_ends(t);
        },
    }
}

/// The first `n` elements of a composite take the bytes up to element `n`'s offset.
pub proof fn lemma_encode_items_len(t: FieldType, m: Model, n: int)
    requires
        has_type(m, t),
        m is Items,
        0 <= n <= count(t),
    ensures
        encode_items(t, m, n).len() == elem_offset(t, n),
    decreases m, 0nat, n,
{
    let xs = m->Items_0;
    if n == 0 {
        lemma_elem_offset_ends(t);
    } else {
        lemma_encode_items_len(t, m, n - 1);
        assert(has_type(xs[n - 1], elem_type(t, n - 1)));
        lemma_encode_len_inner(elem_type(t, n - 1), xs[n - 1]);
        lemma_elem_offset_step(t, n - 1);
    }
}

/// Within the bytes of the first `k` elements, element `i` has its own bytes.
pub proof fn lemma_encode_items_slice(t: FieldType, m: Model, i: int, k: int)
    requires
        has_type(m, t),
        m is Items,
        0 <= i < k <= count(t),
    ensures
        elem_bytes(t, encode_items(t, m, k), i) == encode(elem_type(t, i), m->Items_0[i]),
    decreases k,
{
    let xs = m->Items_0;
    lemma_encode_items_len(t, m, k - 1);
    lemma_encode_items_len(t, m, k);
    lemma_elem_offset_step(t, i);
    lemma_elem_offset_step(t, k - 1);
    assert(has_type(xs[i], elem_type(t, i)));
    lemma_encode_len(elem_type(t, i), xs[i]);
    if i == k - 1 {
        assert(elem_bytes(t, encode_items(t, m, k), i) =~= encode(elem_type(t, i), xs[i]));
    } else {
        lemma_encode_items_slice(t, m, i, k - 1);
        lemma_elem_offset_mono(t, i + 1, k - 1);
        assert(elem_bytes(t, encode_items(t, m, k), i) =~= elem_bytes(
            t,
            encode_items(t, m, k - 1),
            i,
        ));
    }
}

/// Reading back the bytes of a value of type `t` gives the value.
pub proof fn lemma_round_trip(t: FieldType, m: Model)
    requires
        has_type(m, t),
    ensures
        encode(t, m).len() == size(t),
        decode(t, encode(t, m)) == Ok::<Model, PacketError>(m),
    decreases m, 1nat, 0int,
{
    lemma_encode_len(t, m);
    match m {
        Model::Scalar(s) => {
            lemma_scalar_round_trip(s);
        },
        Model::Tag(_) => {},
        Model::Items(xs) => {
            let n = xs.len() as int;
            lemma_decode_items_prefix(t, m, n);
            assert(xs.subrange(0, n) =~= xs);
        },
    }
}

/// Reading the first `n` elements back from the bytes of a composite value
/// gives those elements.
proof fn lemma_decode_items_prefix(t: FieldType, m: Model, n: int)
    requires
        has_type(m, t),
        m is Items,
        0 <= n <= count(t),
    ensures
        decode_items(t, encode(t, m), n) == Ok::<Seq<Model>, PacketError>(
            m->Items_0.subrange(0, n),
        ),
    decreases m, 0nat, n,
{
    let xs = m->Items_0;
    let bytes = encode(t, m);
    if n == 0 {
        assert(xs.subrange(0, 0) =~= Seq::<Model>::empty());
    } else {
        lemma_decode_items_prefix(t, m, n - 1);
        lemma_encode_items_slice(t, m, n - 1, count(t) as int);
        let et = elem_type(t, n - 1);
        assert(has_type(xs[n - 1], et));
        lemma_round_trip(et, xs[n - 1]);
        match t {
            FieldType::UnitQuaternion => {
                let s = xs[n - 1]->Scalar_0;
                lemma_scalar_round_trip(s);
            },
            _ => {},
        }
        assert(decode_elem(t, elem_bytes(t, bytes, n - 1), n - 1) == Ok::<Model, PacketError>(
            xs[n - 1],
        ));
        assert(xs.subrange(0, n - 1).push(xs[n - 1]) =~= xs.subrange(0, n));
    }
}

} // verus!
