//! Similarity scores, held as the IEEE-754 bit pattern of an `f32`
//! (`f32::to_bits`), and the float comparisons the search makes on them.
use vstd::prelude::*;

verus! {

/// The bit pattern of `0.0f32`.
pub open spec fn zero_bits() -> u32 {
    0
}

/// The bit pattern of `1.0f32`.
pub open spec fn one_bits() -> u32 {
    0x3f80_0000
}

/// The float is a NaN: all exponent bits set and a nonzero fraction.
pub open spec fn is_nan(b: u32) -> bool {
    (b / 0x80_0000) % 0x100 == 0xff && b % 0x80_0000 != 0
}

/// An integer that orders non-NaN floats as `<` does: the magnitude bits,
/// negated for a set sign bit (so `-0.0` and `0.0` are equal).
pub open spec fn order_key(b: u32) -> int {
    if b < 0x8000_0000 {
        b as int
    } else {
        -((b - 0x8000_0000) as int)
    }
}

/// `a >= b` on the floats whose bits these are.
pub open spec fn float_ge(a: u32, b: u32) -> bool {
    !is_nan(a) && !is_nan(b) && order_key(a) >= order_key(b)
}

/// `a > b` on the floats whose bits these are.
pub open spec fn float_gt(a: u32, b: u32) -> bool {
    !is_nan(a) && !is_nan(b) && order_key(a) > order_key(b)
}

/// The float lies in `0.0..=1.0`.
pub open spec fn in_unit_range(b: u32) -> bool {
    float_ge(b, zero_bits()) && float_ge(one_bits(), b)
}

/// Whether the float whose bits these are is a NaN.
pub fn bits_is_nan(b: u32) -> (r: bool)
    ensures
        r == is_nan(b),
{
    (b / 0x80_0000) % 0x100 == 0xff && b % 0x80_0000 != 0
}

/// The ordering key of a float's bits.
pub fn bits_order_key(b: u32) -> (k: i64)
    ensures
        k as int == order_key(b),
{
    if b < 0x8000_0000 {
        b as i64
    } else {
        -((b - 0x8000_0000) as i64)
    }
}

/// `a >= b` on floats given by their bits.
pub fn bits_ge(a: u32, b: u32) -> (r: bool)
    ensures
        r == float_ge(a, b),
{
    !bits_is_nan(a) && !bits_is_nan(b) && bits_order_key(a) >= bits_order_key(b)
}

/// `a > b` on floats given by their bits.
pub fn bits_gt(a: u32, b: u32) -> (r: bool)
    ensures
        r == float_gt(a, b),
{
    !bits_is_nan(a) && !bits_is_nan(b) && bits_order_key(a) > bits_order_key(b)
}

} // verus!
