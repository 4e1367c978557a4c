//! Laws of the layout compiler and the codecs, stated over the models that
//! the entry points' contracts use.
use crate::layout::{FieldLayout, Layout, PacketModel};
use crate::prim::{decode_scalar, Prim, Scalar};
use crate::schema::{
    decode, decode_elem, decode_items, elem_bytes, encode, fields_size, has_type, lemma_elem_offset_ends,
    lemma_elem_offset_step, lemma_round_trip, size, FieldType, Model,
    PacketError,
};
use crate::wire::{le_value, lemma_pow256_values, splice};
use vstd::prelude::*;

verus! {

/// Sum of the sizes of the types `fs`.
pub open spec fn sum_sizes(fs: Seq<FieldType>) -> nat
    decreases fs.len(),
{
    if fs.len() == 0 {
        0
    } else {
        sum_sizes(fs.drop_last()) + size(fs.last())
    }
}

proof fn lemma_fields_size_sum(fs: Vec<FieldType>, n: int)
    requires
        0 <= n <= fs.len(),
    ensures
        fields_size(FieldType::Record(fs), n) == sum_sizes(fs@.subrange(0, n)),
    decreases n,
{
    if n > 0 {
        lemma_fields_size_sum(fs, n - 1);
        assert(fs@.subrange(0, n).drop_last() =~= fs@.subrange(0, n - 1));
    }
}

/// A record takes the sum of its fields' sizes; an array of `n` elements
/// takes `n` times the size of one.
pub proof fn lemma_size_additive(fs: Vec<FieldType>, e: FieldType, n: usize)
    ensures
        size(FieldType::Record(fs)) == sum_sizes(fs@),
        size(FieldType::Array(Box::new(e), n)) == size(e) * n,
{
    lemma_fields_size_sum(fs, fs.len() as int);
    assert(fs@.subrange(0, fs.len() as int) =~= fs@);
}

/// In a well-formed field layout the first field starts at the base, each
/// field starts where the one before it ends, a field that takes bytes
/// starts strictly before the next one, and the layout ends where the last
/// field does.
pub proof fn lemma_offsets_contiguous(fl: FieldLayout)
    requires
        fl.wf(),
    ensures
        fl.fields.len() == 0 ==> fl.end == fl.base,
        fl.fields.len() > 0 ==> fl.offsets@[0] == fl.base,
        forall|i: int|
            0 <= i < fl.fields.len() - 1 ==> #[trigger] fl.offsets@[i + 1] == fl.offsets@[i]
                + size(fl.fields@[i]),
        forall|i: int|
            0 <= i < fl.fields.len() - 1 && size(fl.fields@[i]) > 0 ==> #[trigger] fl.offsets@[i]
                < fl.offsets@[i + 1],
        fl.fields.len() > 0 ==> fl.end == fl.offsets@[fl.fields.len() - 1] + size(
            fl.fields@[fl.fields.len() - 1],
        ),
{
    let t = fl.record();
    lemma_elem_offset_ends(t);
    assert forall|i: int| 0 <= i < fl.fields.len() - 1 implies #[trigger] fl.offsets@[i + 1]
        == fl.offsets@[i] + size(fl.fields@[i]) by {
        lemma_elem_offset_step(t, i);
        assert(fl.offsets@[i] == fl.base + fields_size(t, i));
        assert(fl.offsets@[i + 1] == fl.base + fields_size(t, i + 1));
    }
    if fl.fields.len() > 0 {
        let last = fl.fields.len() - 1;
        lemma_elem_offset_step(t, last);
        assert(fl.offsets@[last] == fl.base + fields_size(t, last));
        assert(fl.offsets@[0] == fl.base + fields_size(t, 0));
    }
}

/// Reading back the bytes written for a value of a field type gives the
/// value, wherever in a buffer they were written.
pub proof fn lemma_field_round_trip(t: FieldType, m: Model, buf: Seq<u8>, offset: int)
    requires
        has_type(m, t),
        0 <= offset,
        offset + size(t) <= buf.len(),
    ensures
        decode(t, splice(buf, offset, encode(t, m)).subrange(offset, offset + size(t))) == Ok::<
            Model,
            PacketError,
        >(m),
{
    lemma_round_trip(t, m);
    assert(splice(buf, offset, encode(t, m)).subrange(offset, offset + size(t)) =~= encode(t, m));
}

/// Reading back the bytes written for a packet gives the packet, wherever
/// in a buffer they were written.
pub proof fn lemma_packet_round_trip(layout: Layout, p: PacketModel, buf: Seq<u8>, offset: int)
    requires
        layout.wf(),
        layout.holds(p),
        0 <= offset,
        offset + layout.bytes(p).len() <= buf.len(),
    ensures
        layout.read(splice(buf, offset, layout.bytes(p)), offset) == Ok::<
            PacketModel,
            PacketError,
        >(p),
{
    let written = splice(buf, offset, layout.bytes(p));
    match (layout, p) {
        (Layout::Struct(fl), PacketModel::Struct(ms)) => {
            let t = fl.record();
            lemma_round_trip(t, Model::Items(ms));
            assert(written.subrange(offset, offset + size(t)) =~= encode(t, Model::Items(ms)));
        },
        (Layout::Enum(ls), PacketModel::Variant(k, ms)) => {
            let t = ls[k as int].record();
            lemma_round_trip(t, Model::Items(ms));
            assert(written[offset] == k);
            assert(written.subrange(offset + 1, offset + 1 + size(t)) =~= encode(
                t,
                Model::Items(ms),
            ));
        },
        _ => {},
    }
}

/// In a tagged union, the bytes of variant `k` start with the tag byte `k`;
/// a buffer holding tag byte `k` and then the bytes of a value of variant
/// `k`'s fields reads back as exactly that variant; and a tag byte past the
/// last variant fails with an unknown discriminant.
pub proof fn lemma_tag_fidelity(
    ls: Vec<FieldLayout>,
    k: u8,
    ms: Seq<Model>,
    buf: Seq<u8>,
    offset: int,
)
    requires
        Layout::Enum(ls).wf(),
        0 <= offset < buf.len(),
    ensures
        Layout::Enum(ls).holds(PacketModel::Variant(k, ms)) ==> Layout::Enum(ls).bytes(
            PacketModel::Variant(k, ms),
        )[0] == k,
        Layout::Enum(ls).holds(PacketModel::Variant(k, ms)) && buf[offset] == k && offset + 1
            + size(ls[k as int].record()) <= buf.len() && buf.subrange(
            offset + 1,
            offset + 1 + size(ls[k as int].record()),
        ) == encode(ls[k as int].record(), Model::Items(ms)) ==> Layout::Enum(ls).read(buf, offset)
            == Ok::<PacketModel, PacketError>(PacketModel::Variant(k, ms)),
        buf[offset] >= ls.len() ==> Layout::Enum(ls).read(buf, offset) == Err::<
            PacketModel,
            PacketError,
        >(PacketError::UnknownDiscriminant),
{
    let layout = Layout::Enum(ls);
    if layout.holds(PacketModel::Variant(k, ms)) {
        lemma_round_trip(ls[k as int].record(), Model::Items(ms));
    }
}

/// Four zero bytes are no unit quaternion: reading them fails.
pub proof fn lemma_zero_quaternion_fails(bytes: Seq<u8>)
    requires
        bytes == seq![0u8, 0u8, 0u8, 0u8],
    ensures
        decode(FieldType::UnitQuaternion, bytes) == Err::<Model, PacketError>(
            PacketError::DegenerateRotation,
        ),
{
    let t = FieldType::UnitQuaternion;
    let zero = Model::Scalar(Scalar::UnitScalar(0));
    assert forall|i: int| 0 <= i < 4 implies elem_bytes(t, bytes, i) =~= seq![0u8] by {}
    assert(le_value(seq![0u8]) == 0) by {
        assert(seq![0u8].drop_first() =~= Seq::<u8>::empty());
        reveal_with_fuel(le_value, 2);
    }
    lemma_pow256_values();
    assert(decode_scalar(Prim::UnitScalar, seq![0u8]) == Scalar::UnitScalar(0));
    assert forall|i: int| 0 <= i < 4 implies #[trigger] decode_elem(t, elem_bytes(t, bytes, i), i)
        == Ok::<Model, PacketError>(zero) by {
        assert(elem_bytes(t, bytes, i) == seq![0u8]);
    }
    assert(decode_items(t, bytes, 0) == Ok::<Seq<Model>, PacketError>(Seq::empty()));
    assert(decode_elem(t, elem_bytes(t, bytes, 0), 0) == Ok::<Model, PacketError>(zero));
    assert(decode_items(t, bytes, 1) == Ok::<Seq<Model>, PacketError>(seq![zero])) by {
        assert(Seq::<Model>::empty().push(zero) =~= seq![zero]);
    }
    assert(decode_elem(t, elem_bytes(t, bytes, 1), 1) == Ok::<Model, PacketError>(zero));
    assert(decode_items(t, bytes, 2) == Ok::<Seq<Model>, PacketError>(seq![zero, zero])) by {
        assert(seq![zero].push(zero) =~= seq![zero, zero]);
    }
    assert(decode_elem(t, elem_bytes(t, bytes, 2), 2) == Ok::<Model, PacketError>(zero));
    assert(decode_items(t, bytes, 3) == Ok::<Seq<Model>, PacketError>(seq![zero, zero, zero])) by {
        assert(seq![zero, zero].push(zero) =~= seq![zero, zero, zero]);
    }
    assert(decode_elem(t, elem_bytes(t, bytes, 3), 3) == Ok::<Model, PacketError>(zero));
    assert(decode_items(t, bytes, 4) == Ok::<Seq<Model>, PacketError>(
        seq![zero, zero, zero, zero],
    )) by {
        assert(seq![zero, zero, zero].push(zero) =~= seq![zero, zero, zero, zero]);
    }
}

} // verus!
