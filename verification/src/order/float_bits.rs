//! The binary64 (IEEE 754 double) encoding as the library reads it.
//!
//! A price travels through the library as the bit pattern of the `f64` that
//! holds it. Bit 63 is the sign; bits 0..63 form the magnitude, which grows
//! with the absolute value of the number (zero, subnormals, normals, infinity).
//! A magnitude above that of infinity is a NaN.
use vstd::prelude::*;

verus! {

/// The bit pattern `2^63`: the sign bit alone.
pub const SIGN_BIT: u64 = 0x8000_0000_0000_0000;

/// The magnitude of positive infinity.
pub const INFINITY_MAGNITUDE: u64 = 0x7FF0_0000_0000_0000;

/// The bit pattern of the quiet NaN that `f64::NAN` holds.
pub const QUIET_NAN: u64 = 0x7FF8_0000_0000_0000;

/// Whether the sign bit is set.
pub open spec fn sign_set(bits: u64) -> bool {
    bits >= SIGN_BIT
}

/// The pattern without its sign bit.
pub open spec fn magnitude(bits: u64) -> int {
    (bits % SIGN_BIT) as int
}

/// All exponent bits set and a nonzero fraction.
pub open spec fn is_nan_bits(bits: u64) -> bool {
    magnitude(bits) > INFINITY_MAGNITUDE
}

/// Where a number stands on the real line, as an integer: the magnitude,
/// negated for negative numbers. Both zeros get 0, so two numbers compare
/// equal exactly when their keys are equal, and the order of keys is the
/// order of the numbers.
pub open spec fn order_key(bits: u64) -> int {
    if sign_set(bits) {
        -magnitude(bits)
    } else {
        magnitude(bits)
    }
}

/// The value the library gives a pattern: `None` for a NaN, else its key.
pub open spec fn value_of_bits(bits: u64) -> Option<int> {
    if is_nan_bits(bits) {
        None
    } else {
        Some(order_key(bits))
    }
}

/// Whether a pattern is a NaN.
pub fn bits_are_nan(bits: u64) -> (r: bool)
    ensures
        r == is_nan_bits(bits),
{
    bits % SIGN_BIT > INFINITY_MAGNITUDE
}

/// The order key of a pattern, which always fits an `i64`.
pub fn bits_order_key(bits: u64) -> (k: i64)
    ensures
        k == order_key(bits),
{
    let m: u64 = bits % SIGN_BIT;
    let mi: i64 = m as i64;
    if bits >= SIGN_BIT {
        -mi
    } else {
        mi
    }
}


/// The values follow the order of `f64`: NaN patterns have none, the two
/// zeros are equal, positive numbers order as their bit patterns, negative
/// numbers the other way round, and every negative number lies below every
/// positive one.
pub proof fn lemma_values_follow_f64(a: u64, b: u64)
    ensures
        value_of_bits(QUIET_NAN) is None,
        value_of_bits(0) == Some(0int),
        value_of_bits(SIGN_BIT) == Some(0int),
        !is_nan_bits(a) && !is_nan_bits(b) && !sign_set(a) && !sign_set(b) ==> (order_key(a) < order_key(b)
            <==> a < b),
        !is_nan_bits(a) && !is_nan_bits(b) && sign_set(a) && sign_set(b) ==> (order_key(a) < order_key(b)
            <==> b < a),
        sign_set(a) && !sign_set(b) ==> order_key(a) <= order_key(b),
        sign_set(a) && !sign_set(b) && a != SIGN_BIT ==> order_key(a) < order_key(b),
{
    if sign_set(a) {
        assert(magnitude(a) == a - SIGN_BIT);
    } else {
        assert(magnitude(a) == a);
    }
    if sign_set(b) {
        assert(magnitude(b) == b - SIGN_BIT);
    } else {
        assert(magnitude(b) == b);
    }
}

} // verus!
