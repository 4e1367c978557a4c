//! Bounds-checked little-endian access to a byte buffer.
//!
//! Every multi-byte primitive travels least significant byte first. A write
//! either lands completely inside the buffer or leaves it untouched; a read
//! either sees only bytes inside the buffer or fails.
use vstd::arithmetic::div_mod::{lemma_div_denominator, lemma_mod_breakdown};
use vstd::prelude::*;

verus! {

/// Failure of a bounds-checked buffer access.
#[derive(Debug, Clone, Copy, PartialEq, Eq, Structural)]
pub enum BufferError {
    /// The access reaches past the end of the buffer.
    OutOfRange,
}

/// `256` to the power `n`: one more than the largest integer `n` bytes hold.
pub open spec fn pow256(n: nat) -> nat
    decreases n,
{
    if n == 0 {
        1
    } else {
        256 * pow256((n - 1) as nat)
    }
}

/// The `n` little-endian bytes of `x` (higher bytes of `x` are dropped).
pub open spec fn le_bytes(x: nat, n: nat) -> Seq<u8> {
    Seq::new(n, |i: int| ((x / pow256(i as nat)) % 256) as u8)
}

/// The integer that the little-endian bytes `s` spell.
pub open spec fn le_value(s: Seq<u8>) -> nat
    decreases s.len(),
{
    if s.len() == 0 {
        0
    } else {
        s[0] as nat + 256 * le_value(s.drop_first())
    }
}

/// `buf` with the bytes from `offset` on replaced by `bytes`; its length is kept.
pub open spec fn splice(buf: Seq<u8>, offset: int, bytes: Seq<u8>) -> Seq<u8> {
    Seq::new(
        buf.len(),
        |i: int|
            if offset <= i < offset + bytes.len() {
                bytes[i - offset]
            } else {
                buf[i]
            },
    )
}

pub proof fn lemma_pow256_positive(n: nat)
    ensures
        pow256(n) > 0,
    decreases n,
{
    if n > 0 {
        lemma_pow256_positive((n - 1) as nat);
    }
}

pub proof fn lemma_pow256_monotone(a: nat, b: nat)
    requires
        a <= b,
    ensures
        pow256(a) <= pow256(b),
    decreases b,
{
    if a < b {
        lemma_pow256_monotone(a, (b - 1) as nat);
        lemma_pow256_positive((b - 1) as nat);
    }
}

pub proof fn lemma_pow256_values()
    ensures
        pow256(1) == 0x100,
        pow256(2) == 0x1_0000,
        pow256(4) == 0x1_0000_0000,
        pow256(8) == 0x1_0000_0000_0000_0000,
{
    reveal_with_fuel(pow256, 9);
}

/// Dropping the lowest byte of `x` shifts its byte sequence by one.
proof fn lemma_le_bytes_shift(x: nat, n: nat)
    requires
        n > 0,
    ensures
        le_bytes(x, n).drop_first() =~= le_bytes(x / 256, (n - 1) as nat),
{
    assert forall|i: int| 0 <= i < n - 1 implies le_bytes(x, n).drop_first()[i] == le_bytes(
        x / 256,
        (n - 1) as nat,
    )[i] by {
        lemma_pow256_positive(i as nat);
        lemma_div_denominator(x as int, 256, pow256(i as nat) as int);
        assert(pow256((i + 1) as nat) == 256 * pow256(i as nat));
    }
}

/// Reading back `n` little-endian bytes of `x` gives `x` modulo `256^n`.
pub proof fn lemma_le_round_trip(x: nat, n: nat)
    ensures
        le_value(le_bytes(x, n)) == x % pow256(n),
    decreases n,
{
    if n == 0 {
        assert(le_bytes(x, 0) =~= Seq::<u8>::empty());
    } else {
        lemma_le_bytes_shift(x, n);
        lemma_le_round_trip(x / 256, (n - 1) as nat);
        lemma_pow256_positive((n - 1) as nat);
        lemma_mod_breakdown(x as int, 256, pow256((n - 1) as nat) as int);
        assert(pow256(0) == 1);
        assert(pow256(n) == 256 * pow256((n - 1) as nat));
        assert(x / pow256(0) == x);
        assert(le_bytes(x, n)[0] == x % 256);
    }
}

/// A sequence of `n` bytes spells an integer below `256^n`.
pub proof fn lemma_le_value_bound(s: Seq<u8>)
    ensures
        le_value(s) < pow256(s.len()),
    decreases s.len(),
{
    if s.len() > 0 {
        lemma_le_value_bound(s.drop_first());
    }
}

/// Writes the `width` little-endian bytes of `value` at `offset`.
pub fn encode_uint(buf: &mut Vec<u8>, offset: usize, value: u64, width: usize) -> (r: Result<
    (),
    BufferError,
>)
    requires
        width <= 8,
    ensures
        r is Ok <==> offset + width <= old(buf)@.len(),
        r is Ok ==> final(buf)@ == splice(old(buf)@, offset as int, le_bytes(value as nat, width as nat)),
        r is Err ==> final(buf)@ == old(buf)@,
{
    if width > buf.len() || offset > buf.len() - width {
        return Err(BufferError::OutOfRange);
    }
    let ghost start = buf@;
    let mut rest: u64 = value;
    let mut i: usize = 0;
    assert(pow256(0) == 1);
    while i < width
        invariant
            i <= width <= 8,
            offset + width <= buf.len(),
            buf@.len() == start.len(),
            rest as nat == value as nat / pow256(i as nat),
            forall|j: int|
                0 <= j < buf@.len() ==> #[trigger] buf@[j] == if offset <= j < offset + i {
                    le_bytes(value as nat, width as nat)[j - offset]
                } else {
                    start[j]
                },
        decreases width - i,
    {
        proof {
            lemma_pow256_positive(i as nat);
            lemma_div_denominator(value as int, pow256(i as nat) as int, 256);
            assert(pow256((i + 1) as nat) == 256 * pow256(i as nat));
        }
        buf.set(offset + i, (rest % 256) as u8);
        rest = rest / 256;
        i = i + 1;
    }
    assert(buf@ =~= splice(start, offset as int, le_bytes(value as nat, width as nat)));
    Ok(())
}

/// Reads the integer spelled by the `width` little-endian bytes at `offset`.
pub fn decode_uint(buf: &Vec<u8>, offset: usize, width: usize) -> (r: Result<u64, BufferError>)
    requires
        width <= 8,
    ensures
        r is Ok <==> offset + width <= buf@.len(),
        r matches Ok(v) ==> v as nat == le_value(buf@.subrange(offset as int, offset + width)),
{
    if width > buf.len() || offset > buf.len() - width {
        return Err(BufferError::OutOfRange);
    }
    let ghost whole = buf@.subrange(offset as int, offset + width);
    let mut acc: u64 = 0;
    let mut i: usize = width;
    while i > 0
        invariant
            i <= width <= 8,
            offset + width <= buf.len(),
            whole == buf@.subrange(offset as int, offset + width),
            acc as nat == le_value(buf@.subrange(offset + i, offset + width)),
        decreases i,
    {
        let ghost tail = buf@.subrange(offset + i, offset + width);
        let ghost longer = buf@.subrange(offset + i - 1, offset + width);
        proof {
            lemma_le_value_bound(tail);
            lemma_pow256_values();
            assert(longer.drop_first() =~= tail);
            lemma_pow256_monotone(tail.len(), 7);
            assert(pow256(7) == 0x100_0000_0000_0000) by {
                reveal_with_fuel(pow256, 8);
            }
            assert(acc < 0x100_0000_0000_0000);
        }
        acc = acc * 256 + buf[offset + i - 1] as u64;
        i = i - 1;
    }
    assert(buf@.subrange(offset + 0, offset + width) =~= whole);
    Ok(acc)
}

} // verus!
