//! The few pieces of IEEE 754 double-precision arithmetic that are pure bit
//! manipulation, stated and computed exactly on `u64` bit patterns.
//!
//! Everything else about doubles — addition, powers, trigonometry — depends on
//! the floating-point unit and is performed by the caller (see
//! [`crate::eval`]); here live only the operations the IEEE standard defines
//! as sign-bit operations, and the bit patterns of the two mathematical
//! constants the symbol table offers.
use vstd::prelude::*;

verus! {

/// The sign bit of a double-precision bit pattern.
pub const SIGN_MASK: u64 = 0x8000_0000_0000_0000;

/// The bit pattern of the double-precision constant pi
/// (3.141592653589793).
pub const PI_BITS: u64 = 0x4009_21FB_5444_2D18;

/// The bit pattern of the double-precision constant e
/// (2.718281828459045).
pub const E_BITS: u64 = 0x4005_BF0A_8B14_5769;

/// Negation of a double: the sign bit flips, every other bit is kept.
pub open spec fn negate_bits(a: u64) -> u64 {
    a ^ SIGN_MASK
}

/// Absolute value of a double: the sign bit clears, every other bit is kept.
pub open spec fn abs_bits(a: u64) -> u64 {
    a & !SIGN_MASK
}

/// Flips the sign bit: IEEE 754 negation of the value whose bit pattern is
/// given.
pub fn negate(a: u64) -> (r: u64)
    ensures
        r == negate_bits(a),
{
    a ^ SIGN_MASK
}

/// Clears the sign bit: IEEE 754 absolute value of the value whose bit
/// pattern is given.
pub fn absolute(a: u64) -> (r: u64)
    ensures
        r == abs_bits(a),
{
    a & !SIGN_MASK
}

} // verus!
