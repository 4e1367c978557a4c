//! The layout compiler: from the declaration of a record or a tagged union
//! to its constant size, its offset tables, and the entry points that write
//! and read whole packets.
//!
//! A record's fields sit back to back from offset zero. A tagged union
//! writes one byte holding the zero-based index of the variant, then that
//! variant's fields from offset one.
use crate::codec::{decoded_as, lemma_decode_items_err, lemma_splice_concat, read_value, write_value};
use crate::schema::{
    decode, decode_elem, decode_items, elem_bytes, elem_type, encode, encode_items, fields_size, has_type,
    lemma_elem_offset_ends, lemma_elem_offset_mono, lemma_elem_offset_step, lemma_encode_items_len,
    lemma_encode_len, size, FieldType, Model, PacketError, Value,
};
use crate::wire::splice;
use vstd::prelude::*;

verus! {

/// Most variants a tagged union may declare: its tag is one byte.
pub const MAX_VARIANTS: usize = 255;

/// The declaration a layout is compiled from.
#[derive(Debug)]
pub enum TypeDecl {
    /// A record: the types of its fields, in declared order.
    Struct(Vec<FieldType>),
    /// A tagged union: for each variant, in declared order, the types of its fields.
    Enum(Vec<Vec<FieldType>>),
    /// An untagged union: its members share storage and have no field
    /// structure to lay out.
    Union,
}

/// Why a declaration cannot be compiled.
#[derive(Debug, Clone, Copy, PartialEq, Eq, Structural)]
pub enum DeriveError {
    /// Untagged unions are not supported.
    Union,
    /// The tagged union declares this many variants, more than a tag byte tells apart.
    TooManyVariants(usize),
    /// A constant size was asked of a tagged union whose variants carry fields.
    NonConstSize,
    /// The layout does not fit the address space.
    SizeOverflow,
}

/// The fields of a record or of a variant, with where each one starts.
#[derive(Debug)]
pub struct FieldLayout {
    /// Types of the fields, in declared order.
    pub fields: Vec<FieldType>,
    /// Offset of the first field: `0` in a record, `1` in a variant, after the tag.
    pub base: usize,
    /// Offset of each field.
    pub offsets: Vec<usize>,
    /// Offset just past the last field.
    pub end: usize,
}

/// A compiled declaration.
#[derive(Debug)]
pub enum Layout {
    Struct(FieldLayout),
    Enum(Vec<FieldLayout>),
}

/// A value of a declared record or tagged union.
#[derive(Debug, PartialEq, Eq)]
pub enum Packet {
    /// The fields of a record, in declared order.
    Struct(Vec<Value>),
    /// The index of a variant and its fields, in declared order.
    Variant(u8, Vec<Value>),
}

/// What a packet is, with each field as a model.
pub enum PacketModel {
    Struct(Seq<Model>),
    Variant(u8, Seq<Model>),
}

impl Packet {
    pub open spec fn model(&self) -> PacketModel {
        match self {
            Packet::Struct(xs) => PacketModel::Struct(Value::Items(*xs).model()->Items_0),
            Packet::Variant(k, xs) => PacketModel::Variant(*k, Value::Items(*xs).model()->Items_0),
        }
    }
}

/// Some variant carries fields.
pub open spec fn has_payload(vs: Seq<Vec<FieldType>>) -> bool {
    exists|i: int| 0 <= i < vs.len() && #[trigger] vs[i].len() > 0
}

/// The constant size of a declaration, or why it has none.
pub open spec fn const_size_of(d: TypeDecl) -> Result<usize, DeriveError> {
    match d {
        TypeDecl::Struct(fs) => if size(FieldType::Record(fs)) <= usize::MAX {
            Ok(size(FieldType::Record(fs)) as usize)
        } else {
            Err(DeriveError::SizeOverflow)
        },
        TypeDecl::Enum(vs) => if vs.len() > MAX_VARIANTS {
            Err(DeriveError::TooManyVariants(vs.len()))
        } else if has_payload(vs@) {
            Err(DeriveError::NonConstSize)
        } else {
            Ok(1)
        },
        TypeDecl::Union => Err(DeriveError::Union),
    }
}

impl FieldLayout {
    /// The fields seen as one record.
    pub open spec fn record(&self) -> FieldType {
        FieldType::Record(self.fields)
    }

    /// Each offset is the base plus the sizes of the fields before it.
    pub open spec fn wf(&self) -> bool {
        &&& self.offsets@.len() == self.fields@.len()
        &&& forall|i: int|
            0 <= i < self.offsets@.len() ==> #[trigger] self.offsets@[i] == self.base + fields_size(
                self.record(),
                i,
            )
        &&& self.end == self.base + size(self.record())
    }
}

impl Layout {
    pub open spec fn wf(&self) -> bool {
        match self {
            Layout::Struct(fl) => fl.wf() && fl.base == 0,
            Layout::Enum(vs) => {
                &&& vs.len() <= MAX_VARIANTS
                &&& forall|i: int| 0 <= i < vs.len() ==> #[trigger] vs[i].wf() && vs[i].base == 1
            },
        }
    }

    /// The layout was compiled from the declaration `d`.
    pub open spec fn compiled_from(&self, d: TypeDecl) -> bool {
        match (self, d) {
            (Layout::Struct(fl), TypeDecl::Struct(fs)) => fl.fields == fs,
            (Layout::Enum(ls), TypeDecl::Enum(vs)) => {
                &&& ls.len() == vs.len()
                &&& forall|i: int| 0 <= i < ls.len() ==> #[trigger] ls[i].fields == vs[i]
            },
            _ => false,
        }
    }

    /// `p` is a value of the declared type.
    pub open spec fn holds(&self, p: PacketModel) -> bool {
        match (self, p) {
            (Layout::Struct(fl), PacketModel::Struct(ms)) => has_type(Model::Items(ms), fl.record()),
            (Layout::Enum(ls), PacketModel::Variant(k, ms)) => k < ls.len() && has_type(
                Model::Items(ms),
                ls[k as int].record(),
            ),
            _ => false,
        }
    }

    /// The wire bytes of the packet `p`.
    pub open spec fn bytes(&self, p: PacketModel) -> Seq<u8> {
        match (self, p) {
            (Layout::Struct(fl), PacketModel::Struct(ms)) => encode(fl.record(), Model::Items(ms)),
            (Layout::Enum(ls), PacketModel::Variant(k, ms)) => seq![k] + encode(
                ls[k as int].record(),
                Model::Items(ms),
            ),
            _ => Seq::empty(),
        }
    }

    /// The packet found at `offset` of `buf`, or why there is none.
    pub open spec fn read(&self, buf: Seq<u8>, offset: int) -> Result<PacketModel, PacketError> {
        match self {
            Layout::Struct(fl) => {
                let t = fl.record();
                if offset + size(t) > buf.len() {
                    Err(PacketError::BufferOverrun)
                } else {
                    match decode(t, buf.subrange(offset, offset + size(t))) {
                        Ok(m) => Ok(PacketModel::Struct(m->Items_0)),
                        Err(e) => Err(e),
                    }
                }
            },
            Layout::Enum(ls) => {
                if offset >= buf.len() {
                    Err(PacketError::BufferOverrun)
                } else if buf[offset] >= ls.len() {
                    Err(PacketError::UnknownDiscriminant)
                } else {
                    let k = buf[offset];
                    let t = ls[k as int].record();
                    if offset + 1 + size(t) > buf.len() {
                        Err(PacketError::BufferOverrun)
                    } else {
                        match decode(t, buf.subrange(offset + 1, offset + 1 + size(t))) {
                            Ok(m) => Ok(PacketModel::Variant(k, m->Items_0)),
                            Err(e) => Err(e),
                        }
                    }
                }
            },
        }
    }
}

/// `r` is what reading gave, and `d` is what the buffer holds.
pub open spec fn read_as(r: Result<Packet, PacketError>, d: Result<PacketModel, PacketError>) -> bool {
    match (r, d) {
        (Ok(p), Ok(m)) => p.model() == m,
        (Err(a), Err(b)) => a == b,
        _ => false,
    }
}

/// Offsets of the fields `fs` from `base` on, and the offset past the last.
fn offsets_of(fs: &Vec<FieldType>, base: usize) -> (r: Option<(Vec<usize>, usize)>)
    ensures
        r is Some <==> base + size(FieldType::Record(*fs)) <= usize::MAX,
        r matches Some((offsets, end)) ==> (FieldLayout {
            fields: *fs,
            base,
            offsets,
            end,
        }).wf(),
{
    let ghost t = FieldType::Record(*fs);
    let mut offsets: Vec<usize> = Vec::new();
    let mut at: usize = base;
    let mut i: usize = 0;
    proof {
        lemma_elem_offset_ends(t);
    }
    while i < fs.len()
        invariant
            t == FieldType::Record(*fs),
            i <= fs.len(),
            at == base + fields_size(t, i as int),
            offsets@.len() == i,
            forall|j: int| 0 <= j < i ==> #[trigger] offsets@[j] == base + fields_size(t, j),
        decreases fs.len() - i,
    {
        proof {
            lemma_elem_offset_step(t, i as int);
            lemma_elem_offset_mono(t, i as int, i as int);
            lemma_elem_offset_mono(t, i + 1, fs.len() as int);
            lemma_elem_offset_ends(t);
        }
        offsets.push(at);
        match fs[i].const_size() {
            None => {
                return None;
            },
            Some(s) => match at.checked_add(s) {
                None => {
                    return None;
                },
                Some(a) => {
                    at = a;
                },
            },
        }
        i = i + 1;
    }
    Some((offsets, at))
}

/// Lays out the fields `fs` from `base` on.
fn compile_fields(fs: Vec<FieldType>, base: usize) -> (r: Result<FieldLayout, DeriveError>)
    ensures
        r is Ok <==> base + size(FieldType::Record(fs)) <= usize::MAX,
        r is Err ==> r == Err::<FieldLayout, DeriveError>(DeriveError::SizeOverflow),
        r matches Ok(fl) ==> fl.wf() && fl.fields == fs && fl.base == base,
{
    match offsets_of(&fs, base) {
        Some((offsets, end)) => Ok(FieldLayout { fields: fs, base, offsets, end }),
        None => Err(DeriveError::SizeOverflow),
    }
}

/// Checks a declaration and computes the constant size of its values: the
/// sum of the field sizes for a record, one tag byte for a tagged union
/// whose variants carry no fields.
pub fn derive_const_size(decl: &TypeDecl) -> (r: Result<usize, DeriveError>)
    ensures
        r == const_size_of(*decl),
{
    match decl {
        TypeDecl::Struct(fs) => match offsets_of(fs, 0) {
            Some((_, end)) => Ok(end),
            None => Err(DeriveError::SizeOverflow),
        },
        TypeDecl::Enum(vs) => {
            if vs.len() > MAX_VARIANTS {
                return Err(DeriveError::TooManyVariants(vs.len()));
            }
            let mut i: usize = 0;
            while i < vs.len()
                invariant
                    *decl == TypeDecl::Enum(*vs),
                    i <= vs.len() <= MAX_VARIANTS,
                    forall|j: int| 0 <= j < i ==> #[trigger] vs@[j].len() == 0,
                decreases vs.len() - i,
            {
                if vs[i].len() > 0 {
                    assert(vs@[i as int].len() > 0);
                    return Err(DeriveError::NonConstSize);
                }
                i = i + 1;
            }
            Ok(1)
        },
        TypeDecl::Union => Err(DeriveError::Union),
    }
}

/// Why the declaration `d` cannot be compiled, if it cannot.
pub open spec fn layout_error(d: TypeDecl) -> Option<DeriveError> {
    match d {
        TypeDecl::Struct(fs) => if size(FieldType::Record(fs)) > usize::MAX {
            Some(DeriveError::SizeOverflow)
        } else {
            None
        },
        TypeDecl::Enum(vs) => if vs.len() > MAX_VARIANTS {
            Some(DeriveError::TooManyVariants(vs.len()))
        } else if exists|i: int|
            0 <= i < vs.len() && 1 + size(FieldType::Record(#[trigger] vs[i])) > usize::MAX {
            Some(DeriveError::SizeOverflow)
        } else {
            None
        },
        TypeDecl::Union => Some(DeriveError::Union),
    }
}

/// Compiles a declaration into its layout.
fn compile(decl: TypeDecl) -> (r: Result<Layout, DeriveError>)
    ensures
        match layout_error(decl) {
            Some(e) => r == Err::<Layout, DeriveError>(e),
            None => r matches Ok(l) && l.wf() && l.compiled_from(decl),
        },
{
    match decl {
        TypeDecl::Struct(fs) => match compile_fields(fs, 0) {
            Ok(fl) => Ok(Layout::Struct(fl)),
            Err(e) => Err(e),
        },
        TypeDecl::Enum(vs) => {
            if vs.len() > MAX_VARIANTS {
                return Err(DeriveError::TooManyVariants(vs.len()));
            }
            let ghost all_vec = vs;
            let ghost all = vs@;
            let mut rest = vs;
            let mut out: Vec<FieldLayout> = Vec::new();
            while rest.len() > 0
                invariant
                    decl == TypeDecl::Enum(all_vec),
                    all == all_vec@,
                    all.len() <= MAX_VARIANTS,
                    out@.len() + rest@.len() == all.len(),
                    rest@ == all.subrange(out@.len() as int, all.len() as int),
                    forall|j: int|
                        0 <= j < out@.len() ==> #[trigger] out@[j].wf() && out@[j].base == 1
                            && out@[j].fields == all[j],
                    forall|j: int|
                        0 <= j < out@.len() ==> 1 + size(FieldType::Record(#[trigger] all[j]))
                            <= usize::MAX,
                decreases rest.len(),
            {
                let fs = rest.remove(0);
                let ghost k = out@.len();
                assert(fs == all[k as int]);
                match compile_fields(fs, 1) {
                    Ok(fl) => out.push(fl),
                    Err(e) => {
                        assert(1 + size(FieldType::Record(all_vec[k as int])) > usize::MAX);
                        return Err(e);
                    },
                }
                assert(rest@ =~= all.subrange(out@.len() as int, all.len() as int));
            }
            assert forall|i: int| 0 <= i < out@.len() implies #[trigger] out@[i].fields
                == all_vec[i] && out@[i].wf() && out@[i].base == 1 by {
                assert(out@[i].wf());
            }
            let l = Layout::Enum(out);
            assert(l.compiled_from(TypeDecl::Enum(all_vec)));
            Ok(l)
        },
        TypeDecl::Union => Err(DeriveError::Union),
    }
}

/// Writes the fields `xs` of the layout `fl` into the value that starts at `offset`.
fn write_fields(fl: &FieldLayout, xs: &Vec<Value>, buf: &mut Vec<u8>, offset: usize)
    requires
        fl.wf(),
        has_type(Value::Items(*xs).model(), fl.record()),
        offset + fl.end <= old(buf)@.len(),
    ensures
        final(buf)@ == splice(
            old(buf)@,
            offset + fl.base,
            encode(fl.record(), Value::Items(*xs).model()),
        ),
{
    let ghost t = fl.record();
    let ghost m = Value::Items(*xs).model();
    let ghost start = buf@;
    let ghost from = offset + fl.base;
    let mut i: usize = 0;
    proof {
        lemma_elem_offset_ends(t);
        assert(splice(start, from, encode_items(t, m, 0)) =~= start);
    }
    while i < xs.len()
        invariant
            fl.wf(),
            t == fl.record(),
            m == Value::Items(*xs).model(),
            has_type(m, t),
            xs.len() == fl.fields.len(),
            i <= xs.len(),
            from == offset + fl.base,
            offset + fl.end <= buf.len(),
            buf@.len() == start.len(),
            buf@ == splice(start, from, encode_items(t, m, i as int)),
        decreases xs.len() - i,
    {
        proof {
            assert(m->Items_0[i as int] == xs[i as int].model());
            assert(has_type(m->Items_0[i as int], elem_type(t, i as int)));
            lemma_elem_offset_mono(t, i as int, i as int);
            lemma_elem_offset_step(t, i as int);
            lemma_encode_items_len(t, m, i as int);
            lemma_encode_len(elem_type(t, i as int), m->Items_0[i as int]);
            lemma_splice_concat(
                start,
                from,
                encode_items(t, m, i as int),
                encode(elem_type(t, i as int), m->Items_0[i as int]),
            );
        }
        write_value(&fl.fields[i], &xs[i], buf, offset + fl.offsets[i]);
        i = i + 1;
    }
}

/// Reads the fields of the layout `fl` from the value that starts at `offset`.
fn read_fields(fl: &FieldLayout, buf: &Vec<u8>, offset: usize) -> (r: Result<
    Vec<Value>,
    PacketError,
>)
    requires
        fl.wf(),
        offset + fl.end <= buf@.len(),
    ensures
        match (r, decode(fl.record(), buf@.subrange(offset + fl.base, offset + fl.end))) {
            (Ok(xs), Ok(m)) => Value::Items(xs).model() == m,
            (Err(a), Err(b)) => a == b,
            _ => false,
        },
{
    let ghost t = fl.record();
    let ghost from = offset + fl.base;
    let ghost bytes = buf@.subrange(from, offset + fl.end);
    let n = fl.fields.len();
    let mut out: Vec<Value> = Vec::new();
    let mut i: usize = 0;
    let ghost mut ms: Seq<Model> = Seq::empty();
    proof {
        lemma_elem_offset_ends(t);
    }
    while i < n
        invariant
            fl.wf(),
            t == fl.record(),
            n == fl.fields.len(),
            i <= n,
            from == offset + fl.base,
            offset + fl.end <= buf.len(),
            bytes == buf@.subrange(from, offset + fl.end),
            decode_items(t, bytes, i as int) == Ok::<Seq<Model>, PacketError>(ms),
            ms.len() == i,
            out@.len() == i,
            forall|j: int| 0 <= j < i ==> #[trigger] out@[j].model() == ms[j],
        decreases n - i,
    {
        let ghost et = elem_type(t, i as int);
        proof {
            lemma_elem_offset_mono(t, i as int, i as int);
            lemma_elem_offset_step(t, i as int);
            lemma_elem_offset_ends(t);
            assert(fl.offsets@[i as int] == fl.base + fields_size(t, i as int));
            assert(elem_bytes(t, bytes, i as int) =~= buf@.subrange(
                offset + fl.offsets@[i as int],
                offset + fl.offsets@[i as int] + size(et),
            ));
        }
        let r = read_value(&fl.fields[i], buf, offset + fl.offsets[i]);
        assert(decoded_as(r, decode_elem(t, elem_bytes(t, bytes, i as int), i as int)));
        match r {
            Ok(x) => {
                proof {
                    ms = ms.push(x.model());
                }
                out.push(x);
            },
            Err(e) => {
                proof {
                    lemma_decode_items_err(t, bytes, i + 1, n as int);
                }
                return Err(e);
            },
        }
        i = i + 1;
    }
    proof {
        assert forall|j: int| 0 <= j < ms.len() implies Value::Items(out).model()->Items_0[j]
            == ms[j] by {
            assert(out@[j].model() == ms[j]);
        }
        assert(Value::Items(out).model()->Items_0 =~= ms);
    }
    Ok(out)
}

/// Writes the packets of one compiled declaration.
#[derive(Debug)]
pub struct Serializer {
    pub layout: Layout,
}

/// Reads the packets of one compiled declaration.
#[derive(Debug)]
pub struct Deserializer {
    pub layout: Layout,
}

/// Compiles a declaration for writing its packets. Fails on an untagged
/// union, on a tagged union of more than `MAX_VARIANTS` variants, and where a
/// record or variant does not fit the address space.
pub fn derive_serialize(decl: TypeDecl) -> (r: Result<Serializer, DeriveError>)
    ensures
        match layout_error(decl) {
            Some(e) => r == Err::<Serializer, DeriveError>(e),
            None => r matches Ok(s) && s.layout.wf() && s.layout.compiled_from(decl),
        },
{
    match compile(decl) {
        Ok(layout) => Ok(Serializer { layout }),
        Err(e) => Err(e),
    }
}

/// Compiles a declaration for reading its packets. Fails as `derive_serialize` does.
pub fn derive_deserialize(decl: TypeDecl) -> (r: Result<Deserializer, DeriveError>)
    ensures
        match layout_error(decl) {
            Some(e) => r == Err::<Deserializer, DeriveError>(e),
            None => r matches Ok(d) && d.layout.wf() && d.layout.compiled_from(decl),
        },
{
    match compile(decl) {
        Ok(layout) => Ok(Deserializer { layout }),
        Err(e) => Err(e),
    }
}

/// Whether each of `xs` is a value of the matching type of `fl`, and there
/// are as many of them as fields.
fn fields_accept(fl: &FieldLayout, xs: &Vec<Value>) -> (r: bool)
    ensures
        r == has_type(Value::Items(*xs).model(), fl.record()),
{
    let ghost m = Value::Items(*xs).model();
    if xs.len() != fl.fields.len() {
        return false;
    }
    let mut i: usize = 0;
    while i < xs.len()
        invariant
            m == Value::Items(*xs).model(),
            xs.len() == fl.fields.len(),
            i <= xs.len(),
            forall|j: int| 0 <= j < i ==> has_type(#[trigger] m->Items_0[j], elem_type(fl.record(), j)),
        decreases xs.len() - i,
    {
        assert(m->Items_0[i as int] == xs[i as int].model());
        if !fl.fields[i].accepts(&xs[i]) {
            return false;
        }
        i = i + 1;
    }
    true
}

impl Layout {
    /// Whether `p` is a value of the declared type.
    pub fn accepts(&self, p: &Packet) -> (r: bool)
        ensures
            r == self.holds(p.model()),
    {
        match (self, p) {
            (Layout::Struct(fl), Packet::Struct(xs)) => fields_accept(fl, xs),
            (Layout::Enum(ls), Packet::Variant(k, xs)) => (*k as usize) < ls.len() && fields_accept(
                &ls[*k as usize],
                xs,
            ),
            _ => false,
        }
    }
}

impl Serializer {
    /// Writes `p` at `offset`: a record's fields in declared order, or a
    /// variant's index as one byte and then its fields. Fails, leaving the
    /// buffer as it was, where the packet would reach past its end.
    pub fn serialize(&self, p: &Packet, buf: &mut Vec<u8>, offset: usize) -> (r: Result<
        (),
        PacketError,
    >)
        requires
            self.layout.wf(),
            self.layout.holds(p.model()),
        ensures
            r is Ok <==> offset + self.layout.bytes(p.model()).len() <= old(buf)@.len(),
            r is Ok ==> final(buf)@ == splice(
                old(buf)@,
                offset as int,
                self.layout.bytes(p.model()),
            ),
            r is Err ==> r == Err::<(), PacketError>(PacketError::BufferOverrun) && final(buf)@
                == old(buf)@,
    {
        let len = buf.len();
        match (&self.layout, p) {
            (Layout::Struct(fl), Packet::Struct(xs)) => {
                proof {
                    lemma_encode_len(fl.record(), Value::Items(*xs).model());
                }
                if offset > len || fl.end > len - offset {
                    return Err(PacketError::BufferOverrun);
                }
                write_fields(fl, xs, buf, offset);
                Ok(())
            },
            (Layout::Enum(ls), Packet::Variant(k, xs)) => {
                let fl = &ls[*k as usize];
                proof {
                    assert(ls@[*k as int].wf());
                    lemma_encode_len(fl.record(), Value::Items(*xs).model());
                }
                if offset > len || fl.end > len - offset {
                    return Err(PacketError::BufferOverrun);
                }
                let ghost start = buf@;
                proof {
                    assert(start.update(offset as int, *k) =~= splice(start, offset as int, seq![*k]));
                    lemma_splice_concat(
                        start,
                        offset as int,
                        seq![*k],
                        encode(fl.record(), Value::Items(*xs).model()),
                    );
                }
                buf.set(offset, *k);
                write_fields(fl, xs, buf, offset);
                Ok(())
            },
            _ => Err(PacketError::BufferOverrun),
        }
    }
}

impl Deserializer {
    /// Reads the packet at `offset`. A tagged union reads its tag byte
    /// first and fails on an index past its last variant.
    pub fn deserialize(&self, buf: &Vec<u8>, offset: usize) -> (r: Result<Packet, PacketError>)
        requires
            self.layout.wf(),
        ensures
            read_as(r, self.layout.read(buf@, offset as int)),
    {
        let len = buf.len();
        match &self.layout {
            Layout::Struct(fl) => {
                if offset > len || fl.end > len - offset {
                    return Err(PacketError::BufferOverrun);
                }
                match read_fields(fl, buf, offset) {
                    Ok(xs) => Ok(Packet::Struct(xs)),
                    Err(e) => Err(e),
                }
            },
            Layout::Enum(ls) => {
                if offset >= len {
                    return Err(PacketError::BufferOverrun);
                }
                let k = buf[offset];
                if k as usize >= ls.len() {
                    return Err(PacketError::UnknownDiscriminant);
                }
                let fl = &ls[k as usize];
                assert(ls@[k as int].wf());
                if fl.end > len - offset {
                    return Err(PacketError::BufferOverrun);
                }
                match read_fields(fl, buf, offset) {
                    Ok(xs) => Ok(Packet::Variant(k, xs)),
                    Err(e) => Err(e),
                }
            },
        }
    }
}

} // verus!
