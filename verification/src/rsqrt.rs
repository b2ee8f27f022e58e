//! The integer half of the fast reciprocal square root.
//!
//! The rasterizer takes square roots as `x * rsqrt(x)`, where `rsqrt`
//! starts from a guess read off the bits of `x` and refines it twice by
//! Newton's method. The refinement is floating-point arithmetic; the guess
//! is integer arithmetic on the bits, and is what this module holds.

use vstd::prelude::*;

verus! {

/// The constant the halved bits are subtracted from.
pub const RSQRT_MAGIC: u32 = 0x5f37_59df;

/// The bits of the first guess at `1 / sqrt(x)`, from the bits of `x`:
/// halving the bits halves the exponent, and subtracting from the constant
/// negates it and corrects the bias. The input is the bit pattern of a
/// number whose sign bit is clear, so the subtraction cannot wrap.
pub fn rsqrt_seed(bits: u32) -> (seed: u32)
    requires
        bits <= 0x7FFF_FFFF,
    ensures
        seed == RSQRT_MAGIC - bits / 2,
        seed >= 0x1f37_59e0,
{
    assert(bits >> 1 == bits / 2) by (bit_vector);
    RSQRT_MAGIC - (bits >> 1)
}

} // verus!
