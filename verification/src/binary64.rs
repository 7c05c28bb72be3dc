//! IEEE 754 binary64 values, read from their 64-bit encodings.
//!
//! An encoding is a sign bit, eleven exponent bits and fifty-two fraction
//! bits. Without the sign bit it is the value's magnitude, and magnitudes are
//! ordered as the absolute values they encode: that is all the functions here
//! rely on.

use vstd::prelude::*;

verus! {

/// The sign bit.
pub const SIGN: u64 = 0x8000_0000_0000_0000;

/// The magnitude of infinity: every exponent bit set, no fraction bit.
pub const INFINITY: u64 = 0x7FF0_0000_0000_0000;

/// Whether the sign bit is set.
pub open spec fn negative(bits: u64) -> bool {
    bits >= SIGN
}

/// The encoding without its sign bit.
pub open spec fn magnitude(bits: u64) -> int {
    if bits >= SIGN {
        bits - SIGN
    } else {
        bits as int
    }
}

/// Not a number: all exponent bits set and some fraction bit.
pub open spec fn nan(bits: u64) -> bool {
    magnitude(bits) > INFINITY
}

/// Neither infinite nor not a number.
pub open spec fn finite(bits: u64) -> bool {
    magnitude(bits) < INFINITY
}

/// The place of a value in numeric order. Both zeros stand at 0. It orders
/// every value that is a number, infinities included.
pub open spec fn value_rank(bits: u64) -> int {
    if negative(bits) {
        -magnitude(bits)
    } else {
        magnitude(bits)
    }
}

/// The place of an encoding in the total order of the standard: negative
/// before positive, negative zero before positive zero, not-a-number values
/// outermost. Two encodings share a rank only if they are the same.
pub open spec fn total_rank(bits: u64) -> int {
    if negative(bits) {
        -magnitude(bits) - 1
    } else {
        magnitude(bits)
    }
}

/// Numeric "greater than": false as soon as either side is not a number.
pub open spec fn greater(a: u64, b: u64) -> bool {
    !nan(a) && !nan(b) && value_rank(a) > value_rank(b)
}

/// `x` limited to the interval from `lo` to `hi`: `lo` if `x` is below it,
/// `hi` if `x` is above it, else `x` itself (so a not-a-number stays one).
pub open spec fn clamped(x: u64, lo: u64, hi: u64) -> u64 {
    if greater(lo, x) {
        lo
    } else if greater(x, hi) {
        hi
    } else {
        x
    }
}

/// Whether the encoded value is finite.
pub fn is_finite(bits: u64) -> (r: bool)
    ensures
        r == finite(bits),
{
    let m: u64 = if bits >= SIGN { bits - SIGN } else { bits };
    m < INFINITY
}

/// Whether the encoded value is not a number.
pub fn is_nan(bits: u64) -> (r: bool)
    ensures
        r == nan(bits),
{
    let m: u64 = if bits >= SIGN { bits - SIGN } else { bits };
    m > INFINITY
}

/// Whether `a` comes before `b`, or is `b`, in the total order.
pub fn total_le(a: u64, b: u64) -> (r: bool)
    ensures
        r == (total_rank(a) <= total_rank(b)),
{
    if a >= SIGN {
        if b >= SIGN {
            a >= b
        } else {
            true
        }
    } else {
        if b >= SIGN {
            false
        } else {
            a <= b
        }
    }
}

/// Whether `a` is numerically greater than `b`.
pub fn exceeds(a: u64, b: u64) -> (r: bool)
    ensures
        r == greater(a, b),
{
    if is_nan(a) || is_nan(b) {
        false
    } else if a >= SIGN {
        if b >= SIGN {
            a < b
        } else {
            false
        }
    } else {
        if b >= SIGN {
            a > 0 || b > SIGN
        } else {
            a > b
        }
    }
}

/// Limits `x` to the interval from `lo` to `hi`.
pub fn clamp(x: u64, lo: u64, hi: u64) -> (r: u64)
    requires
        !nan(lo),
        !nan(hi),
        !greater(lo, hi),
    ensures
        r == clamped(x, lo, hi),
{
    if exceeds(lo, x) {
        lo
    } else if exceeds(x, hi) {
        hi
    } else {
        x
    }
}

/// The total order is antisymmetric: encodings of equal rank are equal.
pub proof fn lemma_total_rank_injective(a: u64, b: u64)
    ensures
        total_rank(a) == total_rank(b) <==> a == b,
{
}

/// A clamped number lies in the interval: it is neither below `lo` nor above
/// `hi`, whatever `x` was, as long as `x` is a number.
pub proof fn lemma_clamped_within(x: u64, lo: u64, hi: u64)
    requires
        !nan(lo),
        !nan(hi),
        !greater(lo, hi),
        !nan(x),
    ensures
        !nan(clamped(x, lo, hi)),
        !greater(lo, clamped(x, lo, hi)),
        !greater(clamped(x, lo, hi), hi),
{
}

/// Clamping a second time changes nothing.
pub proof fn lemma_clamped_idempotent(x: u64, lo: u64, hi: u64)
    requires
        !nan(lo),
        !nan(hi),
        !greater(lo, hi),
    ensures
        clamped(clamped(x, lo, hi), lo, hi) == clamped(x, lo, hi),
{
}

/// On finite values the total order refines the numeric one: what is
/// numerically greater comes later.
pub proof fn lemma_greater_implies_later(a: u64, b: u64)
    requires
        greater(a, b),
    ensures
        total_rank(a) > total_rank(b),
{
}

} // verus!
