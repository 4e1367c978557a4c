//! The primitive codec table: the wire width of each primitive kind and the
//! bytes that stand for each primitive value.
//!
//! Floating-point values travel as their IEEE-754 bit patterns (`F32`, `F64`,
//! and the half-precision `HalfScalar`); a unit scalar travels as the signed
//! byte that quantizes it. Turning a real number into those patterns happens
//! outside this crate.
use crate::wire::{
    decode_uint, encode_uint, le_bytes, le_value, lemma_le_round_trip, lemma_le_value_bound,
    lemma_pow256_values, pow256, splice, BufferError,
};
use vstd::arithmetic::div_mod::lemma_small_mod;
use vstd::prelude::*;

verus! {

/// The kinds of primitive field.
#[derive(Debug, Clone, Copy, PartialEq, Eq, Structural)]
pub enum Prim {
    U8,
    U16,
    U32,
    U64,
    I8,
    I16,
    I32,
    I64,
    /// A 32-bit float, as its IEEE-754 bits.
    F32,
    /// A 64-bit float, as its IEEE-754 bits.
    F64,
    /// One byte, `0` for false and `1` for true.
    Bool,
    /// A real in `[-1, 1]` quantized to a signed byte.
    UnitScalar,
    /// A real stored as an IEEE-754 half-precision float.
    HalfScalar,
}

/// A primitive value.
#[derive(Debug, Clone, Copy, PartialEq, Eq, Structural)]
pub enum Scalar {
    U8(u8),
    U16(u16),
    U32(u32),
    U64(u64),
    I8(i8),
    I16(i16),
    I32(i32),
    I64(i64),
    /// The IEEE-754 bits of a 32-bit float.
    F32(u32),
    /// The IEEE-754 bits of a 64-bit float.
    F64(u64),
    Bool(bool),
    /// The signed byte `round(v * 127)` standing for a real `v` in `[-1, 1]`.
    UnitScalar(i8),
    /// The bits of an IEEE-754 half-precision float.
    HalfScalar(u16),
}

impl Prim {
    /// Number of bytes the kind occupies on the wire.
    pub open spec fn size_spec(self) -> nat {
        match self {
            Prim::U8 | Prim::I8 | Prim::Bool | Prim::UnitScalar => 1,
            Prim::U16 | Prim::I16 | Prim::HalfScalar => 2,
            Prim::U32 | Prim::I32 | Prim::F32 => 4,
            Prim::U64 | Prim::I64 | Prim::F64 => 8,
        }
    }

    /// Number of bytes the kind occupies on the wire.
    pub fn size(&self) -> (r: usize)
        ensures
            r == self.size_spec(),
    {
        match self {
            Prim::U8 | Prim::I8 | Prim::Bool | Prim::UnitScalar => 1,
            Prim::U16 | Prim::I16 | Prim::HalfScalar => 2,
            Prim::U32 | Prim::I32 | Prim::F32 => 4,
            Prim::U64 | Prim::I64 | Prim::F64 => 8,
        }
    }
}

/// The unsigned word of `n` bytes that holds the two's-complement form of `v`.
pub open spec fn twos_complement(v: int, n: nat) -> nat {
    if v < 0 {
        (v + pow256(n)) as nat
    } else {
        v as nat
    }
}

/// The signed integer whose `n`-byte two's-complement form is `bits`.
pub open spec fn from_twos_complement(bits: nat, n: nat) -> int {
    if 2 * bits >= pow256(n) {
        bits - pow256(n)
    } else {
        bits as int
    }
}

impl Scalar {
    /// The kind of the value.
    pub open spec fn kind(self) -> Prim {
        match self {
            Scalar::U8(_) => Prim::U8,
            Scalar::U16(_) => Prim::U16,
            Scalar::U32(_) => Prim::U32,
            Scalar::U64(_) => Prim::U64,
            Scalar::I8(_) => Prim::I8,
            Scalar::I16(_) => Prim::I16,
            Scalar::I32(_) => Prim::I32,
            Scalar::I64(_) => Prim::I64,
            Scalar::F32(_) => Prim::F32,
            Scalar::F64(_) => Prim::F64,
            Scalar::Bool(_) => Prim::Bool,
            Scalar::UnitScalar(_) => Prim::UnitScalar,
            Scalar::HalfScalar(_) => Prim::HalfScalar,
        }
    }

    /// The unsigned word written for the value.
    pub open spec fn bits(self) -> nat {
        match self {
            Scalar::U8(v) => v as nat,
            Scalar::U16(v) => v as nat,
            Scalar::U32(v) => v as nat,
            Scalar::U64(v) => v as nat,
            Scalar::I8(v) => twos_complement(v as int, 1),
            Scalar::I16(v) => twos_complement(v as int, 2),
            Scalar::I32(v) => twos_complement(v as int, 4),
            Scalar::I64(v) => twos_complement(v as int, 8),
            Scalar::F32(v) => v as nat,
            Scalar::F64(v) => v as nat,
            Scalar::Bool(b) => if b {
                1
            } else {
                0
            },
            Scalar::UnitScalar(v) => twos_complement(v as int, 1),
            Scalar::HalfScalar(v) => v as nat,
        }
    }
}

/// The value of kind `p` that the unsigned word `bits` stands for.
pub open spec fn scalar_from_bits(p: Prim, bits: nat) -> Scalar {
    match p {
        Prim::U8 => Scalar::U8(bits as u8),
        Prim::U16 => Scalar::U16(bits as u16),
        Prim::U32 => Scalar::U32(bits as u32),
        Prim::U64 => Scalar::U64(bits as u64),
        Prim::I8 => Scalar::I8(from_twos_complement(bits, 1) as i8),
        Prim::I16 => Scalar::I16(from_twos_complement(bits, 2) as i16),
        Prim::I32 => Scalar::I32(from_twos_complement(bits, 4) as i32),
        Prim::I64 => Scalar::I64(from_twos_complement(bits, 8) as i64),
        Prim::F32 => Scalar::F32(bits as u32),
        Prim::F64 => Scalar::F64(bits as u64),
        Prim::Bool => Scalar::Bool(bits != 0),
        Prim::UnitScalar => Scalar::UnitScalar(from_twos_complement(bits, 1) as i8),
        Prim::HalfScalar => Scalar::HalfScalar(bits as u16),
    }
}

/// The wire bytes of a primitive value.
pub open spec fn encode_scalar(s: Scalar) -> Seq<u8> {
    le_bytes(s.bits(), s.kind().size_spec())
}

/// The primitive value of kind `p` that the wire bytes `bytes` stand for.
pub open spec fn decode_scalar(p: Prim, bytes: Seq<u8>) -> Scalar {
    scalar_from_bits(p, le_value(bytes))
}

/// The word written for a value fits the width of its kind.
pub proof fn lemma_bits_fit(s: Scalar)
    ensures
        s.bits() < pow256(s.kind().size_spec()),
{
    lemma_pow256_values();
}

/// A primitive value reads back as itself.
pub proof fn lemma_scalar_round_trip(s: Scalar)
    ensures
        encode_scalar(s).len() == s.kind().size_spec(),
        decode_scalar(s.kind(), encode_scalar(s)) == s,
{
    lemma_bits_fit(s);
    lemma_le_round_trip(s.bits(), s.kind().size_spec());
    lemma_pow256_values();
    let bits = s.bits();
    lemma_small_mod(bits, pow256(s.kind().size_spec()));
    assert(le_value(encode_scalar(s)) == bits);
    match s {
        Scalar::I8(v) => lemma_twos_complement_round_trip(v as int, 1),
        Scalar::I16(v) => lemma_twos_complement_round_trip(v as int, 2),
        Scalar::I32(v) => lemma_twos_complement_round_trip(v as int, 4),
        Scalar::I64(v) => lemma_twos_complement_round_trip(v as int, 8),
        Scalar::UnitScalar(v) => lemma_twos_complement_round_trip(v as int, 1),
        _ => {},
    }
}

/// Two's complement over `n` bytes is undone by reading it back signed.
pub proof fn lemma_twos_complement_round_trip(v: int, n: nat)
    requires
        -(pow256(n) as int) <= 2 * v < pow256(n),
    ensures
        from_twos_complement(twos_complement(v, n), n) == v,
{
}

/// The two's-complement word of `v` over `n` bytes, for `-2^(8n-1) <= v < 2^(8n-1)`.
fn to_word(v: i64, n: usize) -> (r: u64)
    requires
        n == 1 || n == 2 || n == 4 || n == 8,
        -(pow256(n as nat) as int) <= 2 * v < pow256(n as nat),
    ensures
        r as nat == twos_complement(v as int, n as nat),
{
    proof {
        lemma_pow256_values();
    }
    if v >= 0 {
        v as u64
    } else if n == 8 {
        u64::MAX - ((-(v + 1)) as u64)
    } else {
        let modulus: i64 = if n == 1 {
            0x100
        } else if n == 2 {
            0x1_0000
        } else {
            0x1_0000_0000
        };
        (v + modulus) as u64
    }
}

/// The signed integer whose `n`-byte two's-complement word is `w`.
fn from_word(w: u64, n: usize) -> (r: i64)
    requires
        n == 1 || n == 2 || n == 4 || n == 8,
        w < pow256(n as nat),
    ensures
        r as int == from_twos_complement(w as nat, n as nat),
{
    proof {
        lemma_pow256_values();
    }
    if n == 8 {
        if w > 0x7fff_ffff_ffff_ffff {
            -((u64::MAX - w) as i64) - 1
        } else {
            w as i64
        }
    } else {
        let modulus: i64 = if n == 1 {
            0x100
        } else if n == 2 {
            0x1_0000
        } else {
            0x1_0000_0000
        };
        let signed = w as i64;
        if 2 * signed >= modulus {
            signed - modulus
        } else {
            signed
        }
    }
}

impl Scalar {
    /// The kind of the value.
    pub fn prim(&self) -> (r: Prim)
        ensures
            r == self.kind(),
    {
        match self {
            Scalar::U8(_) => Prim::U8,
            Scalar::U16(_) => Prim::U16,
            Scalar::U32(_) => Prim::U32,
            Scalar::U64(_) => Prim::U64,
            Scalar::I8(_) => Prim::I8,
            Scalar::I16(_) => Prim::I16,
            Scalar::I32(_) => Prim::I32,
            Scalar::I64(_) => Prim::I64,
            Scalar::F32(_) => Prim::F32,
            Scalar::F64(_) => Prim::F64,
            Scalar::Bool(_) => Prim::Bool,
            Scalar::UnitScalar(_) => Prim::UnitScalar,
            Scalar::HalfScalar(_) => Prim::HalfScalar,
        }
    }

    /// The unsigned word written for the value.
    fn word(&self) -> (r: u64)
        ensures
            r as nat == self.bits(),
    {
        proof {
            lemma_pow256_values();
        }
        match self {
            Scalar::U8(v) => *v as u64,
            Scalar::U16(v) => *v as u64,
            Scalar::U32(v) => *v as u64,
            Scalar::U64(v) => *v,
            Scalar::I8(v) => to_word(*v as i64, 1),
            Scalar::I16(v) => to_word(*v as i64, 2),
            Scalar::I32(v) => to_word(*v as i64, 4),
            Scalar::I64(v) => to_word(*v, 8),
            Scalar::F32(v) => *v as u64,
            Scalar::F64(v) => *v,
            Scalar::Bool(b) => if *b {
                1
            } else {
                0
            },
            Scalar::UnitScalar(v) => to_word(*v as i64, 1),
            Scalar::HalfScalar(v) => *v as u64,
        }
    }
}

/// The value of kind `p` that the word `w` stands for.
fn from_word_of(p: Prim, w: u64) -> (r: Scalar)
    requires
        w < pow256(p.size_spec()),
    ensures
        r == scalar_from_bits(p, w as nat),
{
    proof {
        lemma_pow256_values();
    }
    match p {
        Prim::U8 => Scalar::U8(w as u8),
        Prim::U16 => Scalar::U16(w as u16),
        Prim::U32 => Scalar::U32(w as u32),
        Prim::U64 => Scalar::U64(w),
        Prim::I8 => Scalar::I8(from_word(w, 1) as i8),
        Prim::I16 => Scalar::I16(from_word(w, 2) as i16),
        Prim::I32 => Scalar::I32(from_word(w, 4) as i32),
        Prim::I64 => Scalar::I64(from_word(w, 8)),
        Prim::F32 => Scalar::F32(w as u32),
        Prim::F64 => Scalar::F64(w),
        Prim::Bool => Scalar::Bool(w != 0),
        Prim::UnitScalar => Scalar::UnitScalar(from_word(w, 1) as i8),
        Prim::HalfScalar => Scalar::HalfScalar(w as u16),
    }
}

/// Writes the wire bytes of `s` at `offset`.
pub fn encode_scalar_at(buf: &mut Vec<u8>, offset: usize, s: Scalar) -> (r: Result<(), BufferError>)
    ensures
        r is Ok <==> offset + s.kind().size_spec() <= old(buf)@.len(),
        r is Ok ==> final(buf)@ == splice(old(buf)@, offset as int, encode_scalar(s)),
        r is Err ==> final(buf)@ == old(buf)@,
{
    let width = s.prim().size();
    encode_uint(buf, offset, s.word(), width)
}

/// Reads the primitive value of kind `p` at `offset`.
pub fn decode_scalar_at(buf: &Vec<u8>, offset: usize, p: Prim) -> (r: Result<Scalar, BufferError>)
    ensures
        r is Ok <==> offset + p.size_spec() <= buf@.len(),
        r matches Ok(s) ==> s == decode_scalar(
            p,
            buf@.subrange(offset as int, offset + p.size_spec()),
        ),
{
    let width = p.size();
    match decode_uint(buf, offset, width) {
        Ok(w) => {
            proof {
                lemma_le_value_bound(buf@.subrange(offset as int, offset + width));
            }
            Ok(from_word_of(p, w))
        },
        Err(e) => Err(e),
    }
}

} // verus!
