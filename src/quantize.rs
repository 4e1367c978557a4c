//! The quantization wrappers, and the integer side of renormalizing a
//! decoded unit vector.
//!
//! A unit-quantized component travels as the signed byte `b = round(v * 127)`
//! and decodes to `b / 127`. A vector of such components is longer than one
//! exactly when the sum of the squares of its bytes exceeds `127 * 127`;
//! only then does decoding shrink it back to unit length.
use vstd::prelude::*;

verus! {

/// A value sent at unit precision: each real component, known to lie in
/// `[-1, 1]`, as one signed byte.
#[derive(Debug, Default, Clone, Copy, PartialEq, Eq)]
pub struct Unit<T>(pub T);

/// A value sent at half precision: each real component as an IEEE-754
/// half-precision float.
#[derive(Debug, Default, Clone, Copy, PartialEq, Eq)]
pub struct Half<T>(pub T);

/// The byte that stands for the real `1` in a unit-quantized component.
pub const UNIT_SCALE: i32 = 127;

/// Sum of the squares of the quantized components `bs`.
pub open spec fn sum_squares(bs: Seq<i8>) -> int
    decreases bs.len(),
{
    if bs.len() == 0 {
        0
    } else {
        sum_squares(bs.drop_last()) + bs.last() * bs.last()
    }
}

/// Whether the vector whose unit-quantized components are `bs` decodes to a
/// length above one, so that decoding must bring it back to unit length.
pub fn exceeds_unit_length(bs: &Vec<i8>) -> (r: bool)
    requires
        bs.len() <= 4,
    ensures
        r == (sum_squares(bs@) > UNIT_SCALE * UNIT_SCALE),
{
    let mut total: i32 = 0;
    let mut i: usize = 0;
    while i < bs.len()
        invariant
            i <= bs.len() <= 4,
            total == sum_squares(bs@.subrange(0, i as int)),
            0 <= total <= i * 16384,
        decreases bs.len() - i,
    {
        let b = bs[i] as i32;
        assert(b * b <= 16384) by (nonlinear_arith)
            requires
                -128 <= b <= 127,
        ;
        assert(b * b >= 0) by (nonlinear_arith);
        assert(bs@.subrange(0, i + 1).drop_last() =~= bs@.subrange(0, i as int));
        total = total + b * b;
        i = i + 1;
    }
    assert(bs@.subrange(0, bs.len() as int) =~= bs@);
    total > UNIT_SCALE * UNIT_SCALE
}

} // verus!
