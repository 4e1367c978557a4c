//! Writing and reading values of any field type at an offset of a byte buffer.
use crate::prim::{decode_scalar_at, encode_scalar_at, Prim, Scalar};
use crate::schema::{
    count, decode, decode_elem, decode_items, degenerate, elem_bytes, elem_offset, elem_type,
    encode, encode_items, fields_size, has_type, is_composite, lemma_elem_offset_ends,
    lemma_elem_offset_mono, lemma_elem_offset_step, lemma_encode_items_len, lemma_encode_len,
    size, FieldType, Model, PacketError, Value,
};
use crate::wire::splice;
use vstd::prelude::*;

verus! {

/// `r` is what reading gave, and `d` is what the bytes stand for.
pub open spec fn decoded_as(r: Result<Value, PacketError>, d: Result<Model, PacketError>) -> bool {
    match (r, d) {
        (Ok(v), Ok(m)) => v.model() == m,
        (Err(a), Err(b)) => a == b,
        _ => false,
    }
}

/// Writing `b` then `c` right after it is writing `b + c`.
pub proof fn lemma_splice_concat(buf: Seq<u8>, offset: int, b: Seq<u8>, c: Seq<u8>)
    requires
        0 <= offset,
        offset + b.len() + c.len() <= buf.len(),
    ensures
        splice(splice(buf, offset, b), offset + b.len(), c) == splice(buf, offset, b + c),
{
    assert(splice(splice(buf, offset, b), offset + b.len(), c) =~= splice(buf, offset, b + c));
}

/// Once an element fails to read, the composite fails the same way.
pub proof fn lemma_decode_items_err(t: FieldType, bytes: Seq<u8>, i: int, n: int)
    requires
        0 <= i <= n <= count(t),
        decode_items(t, bytes, i) is Err,
    ensures
        decode_items(t, bytes, n) == decode_items(t, bytes, i),
    decreases n - i,
{
    if i < n {
        lemma_decode_items_err(t, bytes, i, n - 1);
    }
}

/// The element of the record type `t` at `i` does not exceed the record.
proof fn lemma_field_within(t: FieldType, i: int)
    requires
        t is Record,
        0 <= i < count(t),
    ensures
        fields_size(t, i) + size(elem_type(t, i)) <= size(t),
        size(elem_type(t, i)) <= size(t),
{
    lemma_elem_offset_mono(t, i, i);
}

proof fn lemma_array_size(e: FieldType, n: nat)
    requires
        n > 0,
    ensures
        size(e) <= size(e) * n,
{
    assert(size(e) <= size(e) * n) by (nonlinear_arith)
        requires
            n > 0,
    ;
}

impl FieldType {
    /// Number of bytes a value of this type occupies, or `None` where that
    /// number does not fit a `usize`.
    pub fn const_size(&self) -> (r: Option<usize>)
        ensures
            r == if size(*self) <= usize::MAX {
                Some(size(*self) as usize)
            } else {
                None::<usize>
            },
        decreases self,
    {
        match self {
            FieldType::Scalar(p) => Some(p.size()),
            FieldType::Tag(_) => Some(1),
            FieldType::UnitQuaternion => Some(4),
            FieldType::Array(e, n) => {
                if *n == 0 {
                    assert(size(**e) * 0 == 0);
                    return Some(0);
                }
                proof {
                    lemma_array_size(**e, *n as nat);
                }
                match e.const_size() {
                    None => None,
                    Some(s) => s.checked_mul(*n),
                }
            },
            FieldType::Record(fs) => {
                let mut acc: usize = 0;
                let mut i: usize = 0;
                while i < fs.len()
                    invariant
                        *self == FieldType::Record(*fs),
                        i <= fs.len(),
                        acc == fields_size(*self, i as int),
                    decreases fs.len() - i,
                {
                    proof {
                        assert(decreases_to!(*self => fs[i as int])) by {
                            assert(decreases_to!(*self => self->Record_0));
                            assert(decreases_to!(self->Record_0 => self->Record_0[i as int]));
                        }
                        lemma_elem_offset_step(*self, i as int);
                        lemma_elem_offset_mono(*self, i + 1, fs.len() as int);
                        lemma_elem_offset_ends(*self);
                        lemma_field_within(*self, i as int);
                    }
                    match fs[i].const_size() {
                        None => {
                            return None;
                        },
                        Some(s) => match acc.checked_add(s) {
                            None => {
                                return None;
                            },
                            Some(a) => {
                                acc = a;
                            },
                        },
                    }
                    i = i + 1;
                }
                Some(acc)
            },
        }
    }

    /// Whether `v` is a value of this type.
    pub fn accepts(&self, v: &Value) -> (r: bool)
        ensures
            r == has_type(v.model(), *self),
        decreases v,
    {
        match v {
            Value::Scalar(s) => match self {
                FieldType::Scalar(p) => *p == s.prim(),
                _ => false,
            },
            Value::Tag(k) => match self {
                FieldType::Tag(n) => *k < *n,
                _ => false,
            },
            Value::Items(xs) => {
                let ghost m = v.model();
                let n: usize = match self {
                    FieldType::Array(_, n) => *n,
                    FieldType::Record(fs) => fs.len(),
                    FieldType::UnitQuaternion => 4,
                    _ => {
                        return false;
                    },
                };
                if xs.len() != n {
                    return false;
                }
                let unit = FieldType::Scalar(Prim::UnitScalar);
                let mut i: usize = 0;
                while i < n
                    invariant
                        *v == Value::Items(*xs),
                        m == v.model(),
                        is_composite(*self),
                        n == count(*self),
                        xs.len() == n,
                        i <= n,
                        unit == FieldType::Scalar(Prim::UnitScalar),
                        forall|j: int| 0 <= j < i ==> has_type(m->Items_0[j], elem_type(*self, j)),
                    decreases n - i,
                {
                    proof {
                        assert(decreases_to!(*v => xs[i as int])) by {
                            assert(decreases_to!(*v => v->Items_0));
                            assert(decreases_to!(v->Items_0 => v->Items_0[i as int]));
                        }
                        assert(m->Items_0[i as int] == xs[i as int].model());
                    }
                    let ok = match self {
                        FieldType::Array(e, _) => e.accepts(&xs[i]),
                        FieldType::Record(fs) => fs[i].accepts(&xs[i]),
                        _ => unit.accepts(&xs[i]),
                    };
                    if !ok {
                        return false;
                    }
                    i = i + 1;
                }
                if n == 4 && is_zero_unit(&xs[0]) && is_zero_unit(&xs[1]) && is_zero_unit(&xs[2])
                    && is_zero_unit(&xs[3]) {
                    if let FieldType::UnitQuaternion = self {
                        proof {
                            assert(degenerate(m->Items_0));
                        }
                        return false;
                    }
                }
                proof {
                    if *self is UnitQuaternion {
                        assert(!degenerate(m->Items_0)) by {
                            if degenerate(m->Items_0) {
                                assert(m->Items_0[0] == xs[0].model());
                                assert(m->Items_0[1] == xs[1].model());
                                assert(m->Items_0[2] == xs[2].model());
                                assert(m->Items_0[3] == xs[3].model());
                            }
                        }
                    }
                }
                true
            },
        }
    }
}

/// `v` is the unit scalar zero.
fn is_zero_unit(v: &Value) -> (r: bool)
    ensures
        r == (v.model() == Model::Scalar(Scalar::UnitScalar(0))),
{
    match v {
        Value::Scalar(Scalar::UnitScalar(b)) => *b == 0,
        _ => false,
    }
}

/// Writes `v` at `offset` and returns the number of bytes written.
pub(crate) fn write_value(t: &FieldType, v: &Value, buf: &mut Vec<u8>, offset: usize) -> (n: usize)
    requires
        has_type(v.model(), *t),
        offset + size(*t) <= old(buf)@.len(),
    ensures
        final(buf)@ == splice(old(buf)@, offset as int, encode(*t, v.model())),
        n == size(*t),
    decreases v,
{
    proof {
        lemma_encode_len(*t, v.model());
    }
    match v {
        Value::Scalar(s) => {
            // Cannot fail: the value lies inside the buffer.
            let _ = encode_scalar_at(buf, offset, *s);
            s.prim().size()
        },
        Value::Tag(k) => {
            assert(splice(buf@, offset as int, seq![*k]) =~= buf@.update(offset as int, *k));
            buf.set(offset, *k);
            1
        },
        Value::Items(xs) => {
            let ghost m = v.model();
            let ghost start = buf@;
            let unit = FieldType::Scalar(Prim::UnitScalar);
            let mut off: usize = offset;
            let mut i: usize = 0;
            proof {
                lemma_elem_offset_ends(*t);
                assert(splice(start, offset as int, encode_items(*t, m, 0)) =~= start);
            }
            while i < xs.len()
                invariant
                    *v == Value::Items(*xs),
                    m == v.model(),
                    has_type(m, *t),
                    is_composite(*t),
                    xs.len() == count(*t),
                    unit == FieldType::Scalar(Prim::UnitScalar),
                    i <= xs.len(),
                    off == offset + elem_offset(*t, i as int),
                    offset + size(*t) <= buf.len(),
                    buf@.len() == start.len(),
                    buf@ == splice(start, offset as int, encode_items(*t, m, i as int)),
                decreases xs.len() - i,
            {
                let ghost before = buf@;
                proof {
                    assert(decreases_to!(*v => xs[i as int])) by {
                        assert(decreases_to!(*v => v->Items_0));
                        assert(decreases_to!(v->Items_0 => v->Items_0[i as int]));
                    }
                    assert(m->Items_0[i as int] == xs[i as int].model());
                    assert(has_type(m->Items_0[i as int], elem_type(*t, i as int)));
                    lemma_elem_offset_mono(*t, i as int, i as int);
                    lemma_elem_offset_step(*t, i as int);
                    lemma_encode_items_len(*t, m, i as int);
                    lemma_encode_len(elem_type(*t, i as int), m->Items_0[i as int]);
                    lemma_splice_concat(
                        start,
                        offset as int,
                        encode_items(*t, m, i as int),
                        encode(elem_type(*t, i as int), m->Items_0[i as int]),
                    );
                }
                let n = match t {
                    FieldType::Array(e, _) => write_value(e, &xs[i], buf, off),
                    FieldType::Record(fs) => write_value(&fs[i], &xs[i], buf, off),
                    _ => write_value(&unit, &xs[i], buf, off),
                };
                off = off + n;
                i = i + 1;
            }
            proof {
                lemma_elem_offset_ends(*t);
            }
            off - offset
        },
    }
}

/// Size of element `i` of the composite type `t`.
fn elem_size(t: &FieldType, i: usize) -> (r: usize)
    requires
        is_composite(*t),
        i < count(*t),
        size(*t) <= usize::MAX,
    ensures
        r == size(elem_type(*t, i as int)),
{
    proof {
        lemma_elem_offset_mono(*t, i as int, i as int);
    }
    let r = match t {
        FieldType::Array(e, _) => e.const_size(),
        FieldType::Record(fs) => fs[i].const_size(),
        _ => Some(1),
    };
    match r {
        Some(s) => s,
        // Not reached: an element is no larger than its composite.
        None => 0,
    }
}

/// Reads the value of type `t` at `offset`.
pub(crate) fn read_value(t: &FieldType, buf: &Vec<u8>, offset: usize) -> (r: Result<Value, PacketError>)
    requires
        offset + size(*t) <= buf@.len(),
    ensures
        decoded_as(r, decode(*t, buf@.subrange(offset as int, offset + size(*t)))),
    decreases t,
{
    let ghost bytes = buf@.subrange(offset as int, offset + size(*t));
    match t {
        FieldType::Scalar(p) => match decode_scalar_at(buf, offset, *p) {
            Ok(s) => Ok(Value::Scalar(s)),
            // Not reached: the value lies inside the buffer.
            Err(_) => Err(PacketError::BufferOverrun),
        },
        FieldType::Tag(n) => {
            let b = buf[offset];
            if b < *n {
                Ok(Value::Tag(b))
            } else {
                Err(PacketError::UnknownDiscriminant)
            }
        },
        _ => {
            let n: usize = match t {
                FieldType::Array(_, n) => *n,
                FieldType::Record(fs) => fs.len(),
                _ => 4,
            };
            let mut out: Vec<Value> = Vec::new();
            let mut off: usize = offset;
            let mut i: usize = 0;
            let ghost mut ms: Seq<Model> = Seq::empty();
            proof {
                lemma_elem_offset_ends(*t);
            }
            while i < n
                invariant
                    is_composite(*t),
                    n == count(*t),
                    i <= n,
                    offset + size(*t) <= buf.len(),
                    bytes == buf@.subrange(offset as int, offset + size(*t)),
                    off == offset + elem_offset(*t, i as int),
                    decode_items(*t, bytes, i as int) == Ok::<Seq<Model>, PacketError>(ms),
                    ms.len() == i,
                    out@.len() == i,
                    forall|j: int| 0 <= j < i ==> #[trigger] out@[j].model() == ms[j],
                decreases n - i,
            {
                proof {
                    lemma_elem_offset_mono(*t, i as int, i as int);
                    lemma_elem_offset_step(*t, i as int);
                    assert(elem_bytes(*t, bytes, i as int) =~= buf@.subrange(
                        off as int,
                        off + size(elem_type(*t, i as int)),
                    ));
                }
                let sz = elem_size(t, i);
                let r = match t {
                    FieldType::Array(e, _) => {
                        proof {
                            assert(decreases_to!(*t => t->Array_0));
                        }
                        read_value(e, buf, off)
                    },
                    FieldType::Record(fs) => {
                        proof {
                            assert(decreases_to!(*t => fs[i as int])) by {
                                assert(decreases_to!(*t => t->Record_0));
                                assert(decreases_to!(t->Record_0 => t->Record_0[i as int]));
                            }
                        }
                        read_value(&fs[i], buf, off)
                    },
                    _ => match decode_scalar_at(buf, off, Prim::UnitScalar) {
                        Ok(s) => Ok(Value::Scalar(s)),
                        Err(_) => Err(PacketError::BufferOverrun),
                    },
                };
                assert(decoded_as(r, decode_elem(*t, elem_bytes(*t, bytes, i as int), i as int)));
                match r {
                    Ok(x) => {
                        proof {
                            ms = ms.push(x.model());
                        }
                        out.push(x);
                    },
                    Err(e) => {
                        proof {
                            lemma_decode_items_err(*t, bytes, i + 1, n as int);
                        }
                        return Err(e);
                    },
                }
                off = off + sz;
                i = i + 1;
            }
            if n == 4 && is_zero_unit(&out[0]) && is_zero_unit(&out[1]) && is_zero_unit(&out[2])
                && is_zero_unit(&out[3]) {
                if let FieldType::UnitQuaternion = t {
                    proof {
                        assert(degenerate(ms));
                    }
                    return Err(PacketError::DegenerateRotation);
                }
            }
            let v = Value::Items(out);
            proof {
                assert forall|j: int| 0 <= j < ms.len() implies v.model()->Items_0[j] == ms[j] by {
                    assert(out@[j].model() == ms[j]);
                }
                assert(v.model()->Items_0 =~= ms);
                if *t is UnitQuaternion {
                    assert(!degenerate(ms)) by {
                        if degenerate(ms) {
                            assert(out@[0].model() == ms[0]);
                            assert(out@[1].model() == ms[1]);
                            assert(out@[2].model() == ms[2]);
                            assert(out@[3].model() == ms[3]);
                        }
                    }
                }
            }
            Ok(v)
        },
    }
}

impl FieldType {
    /// Writes `v` at `offset`. Fails, leaving the buffer as it was, where
    /// the value would reach past the end of the buffer.
    pub fn serialize(&self, v: &Value, buf: &mut Vec<u8>, offset: usize) -> (r: Result<
        (),
        PacketError,
    >)
        requires
            has_type(v.model(), *self),
        ensures
            r is Ok <==> offset + size(*self) <= old(buf)@.len(),
            r is Ok ==> final(buf)@ == splice(old(buf)@, offset as int, encode(*self, v.model())),
            r is Err ==> r == Err::<(), PacketError>(PacketError::BufferOverrun) && final(buf)@
                == old(buf)@,
    {
        let len = buf.len();
        match self.const_size() {
            Some(n) => {
                if n > len || offset > len - n {
                    return Err(PacketError::BufferOverrun);
                }
                write_value(self, v, buf, offset);
                Ok(())
            },
            None => Err(PacketError::BufferOverrun),
        }
    }

    /// Reads a value of this type at `offset`: fails where the value would
    /// reach past the end of the buffer, otherwise gives what the bytes there
    /// stand for.
    pub fn deserialize(&self, buf: &Vec<u8>, offset: usize) -> (r: Result<Value, PacketError>)
        ensures
            offset + size(*self) > buf@.len() ==> r == Err::<Value, PacketError>(
                PacketError::BufferOverrun,
            ),
            offset + size(*self) <= buf@.len() ==> decoded_as(
                r,
                decode(*self, buf@.subrange(offset as int, offset + size(*self))),
            ),
    {
        let len = buf.len();
        match self.const_size() {
            Some(n) => {
                if n > len || offset > len - n {
                    return Err(PacketError::BufferOverrun);
                }
                read_value(self, buf, offset)
            },
            None => Err(PacketError::BufferOverrun),
        }
    }
}

} // verus!
