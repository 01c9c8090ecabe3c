//! Exposure scores, carried as the bit pattern of an IEEE-754 binary64 value.
//!
//! The library never does floating-point arithmetic itself: it validates the
//! bit pattern and orders scores through an integer key that follows the
//! numeric order of finite values.
use vstd::prelude::*;

verus! {

/// The sign bit of a binary64 value.
pub const SIGN_BIT: u64 = 0x8000_0000_0000_0000;

/// Magnitude bits at and above this value have an all-ones exponent
/// (infinity or not-a-number).
pub const EXP_ALL_ONES: u64 = 0x7FF0_0000_0000_0000;

/// The magnitude bits (everything but the sign).
pub open spec fn magnitude(bits: u64) -> int {
    bits as int % (SIGN_BIT as int)
}

/// A finite binary64 value: its exponent field is not all ones.
pub open spec fn is_finite(bits: u64) -> bool {
    magnitude(bits) < EXP_ALL_ONES as int
}

/// Ordering key of a binary64 value. For finite values, magnitude bits grow
/// with the absolute value, so this key is larger exactly when the value is
/// larger; both zeros share one key. Not-a-number patterns get a key too, so
/// any comparison through it is decided.
pub open spec fn rank_key(bits: u64) -> int {
    if bits > SIGN_BIT {
        2 * (SIGN_BIT as int) - bits
    } else if bits == SIGN_BIT {
        SIGN_BIT as int
    } else {
        SIGN_BIT as int + bits
    }
}

/// Whether a bit pattern is a finite value.
pub fn is_finite_bits(bits: u64) -> (r: bool)
    ensures
        r == is_finite(bits),
{
    let m: u64 = if bits >= SIGN_BIT { bits - SIGN_BIT } else { bits };
    m < EXP_ALL_ONES
}

/// The ordering key of a bit pattern.
pub fn exposure_key(bits: u64) -> (r: u64)
    ensures
        r as int == rank_key(bits),
{
    if bits > SIGN_BIT {
        (SIGN_BIT - (bits - SIGN_BIT)) as u64
    } else if bits == SIGN_BIT {
        SIGN_BIT
    } else {
        SIGN_BIT + bits
    }
}

} // verus!
