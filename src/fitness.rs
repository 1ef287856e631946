//! Order keys for binary64 fitness values.
//!
//! A fitness value reaches the library as the bit pattern of an IEEE-754
//! binary64 number. Its order key is an unsigned integer whose `<` agrees with
//! the floating-point `<` on every pair of non-NaN values: both zeros share one
//! key, and every NaN gets the largest key, so that no NaN ever compares below
//! a number.
use vstd::prelude::*;

verus! {

/// Every bit of a binary64 pattern but the sign.
pub const MAGNITUDE_MASK: u64 = 0x7fff_ffff_ffff_ffff;

/// The magnitude bits of positive infinity; any larger magnitude is a NaN.
pub const INFINITY_MAGNITUDE: u64 = 0x7ff0_0000_0000_0000;

/// The key of zero: non-negative values lie at or above it, negative ones below.
pub const ZERO_KEY: u64 = 0x8000_0000_0000_0000;

pub open spec fn magnitude(bits: u64) -> u64 {
    bits & MAGNITUDE_MASK
}

pub open spec fn is_negative(bits: u64) -> bool {
    bits >> 63u64 != 0
}

pub open spec fn is_nan(bits: u64) -> bool {
    magnitude(bits) > INFINITY_MAGNITUDE
}

/// The place of a non-NaN binary64 value on the number line: for two such
/// patterns `a` and `b`, the float `a` is below the float `b` exactly when
/// `rank(a) < rank(b)`, since within one sign the magnitude bits grow with the
/// absolute value. Both zeros have rank 0.
pub open spec fn rank(bits: u64) -> int {
    if is_negative(bits) {
        -(magnitude(bits) as int)
    } else {
        magnitude(bits) as int
    }
}

pub open spec fn key_of(bits: u64) -> u64 {
    if is_nan(bits) {
        u64::MAX
    } else {
        (rank(bits) + ZERO_KEY) as u64
    }
}

proof fn lemma_magnitude_below_sign(bits: u64)
    ensures
        magnitude(bits) <= MAGNITUDE_MASK,
{
    assert(bits & 0x7fff_ffff_ffff_ffffu64 <= 0x7fff_ffff_ffff_ffffu64) by (bit_vector);
}

/// The order key of the binary64 value with bit pattern `bits`.
pub fn order_key(bits: u64) -> (k: u64)
    ensures
        k == key_of(bits),
{
    proof {
        lemma_magnitude_below_sign(bits);
    }
    let mag = bits & MAGNITUDE_MASK;
    if mag > INFINITY_MAGNITUDE {
        u64::MAX
    } else if bits >> 63u64 == 0 {
        ZERO_KEY + mag
    } else {
        ZERO_KEY - mag
    }
}

/// Keys order non-NaN values as their ranks do, and a NaN key lies above the
/// key of every non-NaN value.
pub proof fn lemma_key_order(a: u64, b: u64)
    requires
        !is_nan(a),
    ensures
        key_of(a) < u64::MAX,
        !is_nan(b) ==> (key_of(a) < key_of(b) <==> rank(a) < rank(b)),
        !is_nan(b) ==> (key_of(a) == key_of(b) <==> rank(a) == rank(b)),
        is_nan(b) ==> key_of(a) < key_of(b),
{
    lemma_magnitude_below_sign(a);
    lemma_magnitude_below_sign(b);
}

/// Whether `lower` and `upper` bound a search interval: neither is NaN and
/// `lower` lies strictly below `upper`.
pub fn bounds_valid(lower: u64, upper: u64) -> (r: bool)
    ensures
        r == (!is_nan(lower) && !is_nan(upper) && rank(lower) < rank(upper)),
{
    let kl = order_key(lower);
    let ku = order_key(upper);
    proof {
        if !is_nan(lower) {
            lemma_key_order(lower, upper);
        }
    }
    lower & MAGNITUDE_MASK <= INFINITY_MAGNITUDE && upper & MAGNITUDE_MASK <= INFINITY_MAGNITUDE
        && kl < ku
}

} // verus!
