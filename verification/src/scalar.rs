//! Order keys for 64-bit IEEE-754 values.
//!
//! A real number travels through the kernel as an `i64` key. Keys compare as
//! the numbers they stand for, so that minima, maxima and sorting can be done
//! and proved on integers. `encode` and `decode` convert between a bit
//! pattern and its key, without loss in either direction.
//!
//! The order of the keys is total. It is the order of the numbers, with
//! minus zero just below plus zero, and with the patterns that stand for no
//! number beyond the two infinities. `lt` and `le` compare keys as the
//! numbers themselves compare: the two zeros are equal, and what is no
//! number is neither below nor above anything.

use vstd::prelude::*;

verus! {

/// A real quantity, held as its order key.
pub type Scalar = i64;

/// The sign bit of a 64-bit pattern.
pub const SIGN_BIT: u64 = 0x8000_0000_0000_0000;

/// The key of positive infinity. The key of negative infinity is its opposite.
pub const INFINITY: Scalar = 0x7ff0_0000_0000_0000;

/// The key of plus zero.
pub const ZERO: Scalar = 0;

/// The key of minus zero.
pub const MINUS_ZERO: Scalar = -1;

/// Whether the sign bit of `bits` is set.
pub open spec fn is_negative(bits: u64) -> bool {
    bits >= SIGN_BIT
}

/// The pattern without its sign bit, as a number.
pub open spec fn magnitude(bits: u64) -> int {
    if is_negative(bits) {
        bits - SIGN_BIT
    } else {
        bits as int
    }
}

/// The key of a pattern: its magnitude where the sign bit is clear, and
/// minus the magnitude, less one, where it is set. Patterns with a clear sign
/// bit thus rise with their magnitude from 0, and those with a set sign bit
/// fall with it from -1.
pub open spec fn key_of(bits: u64) -> int {
    if is_negative(bits) {
        -1 - magnitude(bits)
    } else {
        magnitude(bits)
    }
}

/// The order of sign and magnitude: a set sign bit comes before a clear one,
/// two clear ones go by magnitude, two set ones against it.
pub open spec fn precedes(a: u64, b: u64) -> bool {
    if is_negative(a) && is_negative(b) {
        magnitude(a) > magnitude(b)
    } else if is_negative(a) {
        true
    } else if is_negative(b) {
        false
    } else {
        magnitude(a) < magnitude(b)
    }
}

/// The key of the bit pattern `bits`.
pub fn encode(bits: u64) -> (key: Scalar)
    ensures
        key == key_of(bits),
{
    if bits >= SIGN_BIT {
        let m: u64 = bits - SIGN_BIT;
        let k: i64 = -1 - (m as i64);
        k
    } else {
        bits as i64
    }
}

/// The bit pattern whose key is `key`.
pub fn decode(key: Scalar) -> (bits: u64)
    ensures
        key_of(bits) == key,
{
    if key < 0 {
        let m: i64 = -1 - key;
        (m as u64) + SIGN_BIT
    } else {
        key as u64
    }
}

/// The key of the opposite number: the pattern with its sign bit flipped.
pub fn negate(key: Scalar) -> (opposite: Scalar)
    ensures
        opposite == -1 - key,
{
    -1 - key
}

/// Flipping the sign bit of a pattern takes its key `k` to `-1 - k`.
pub proof fn lemma_key_of_flipped(bits: u64)
    ensures
        key_of(bits ^ SIGN_BIT) == -1 - key_of(bits),
{
    assert(bits >= SIGN_BIT ==> (bits ^ SIGN_BIT) == bits - SIGN_BIT) by (bit_vector);
    assert(bits < SIGN_BIT ==> (bits ^ SIGN_BIT) == bits + SIGN_BIT) by (bit_vector);
}

/// Whether `key` stands for no number: its magnitude lies beyond infinity's.
pub open spec fn is_nan(key: Scalar) -> bool {
    key > INFINITY || key < -1 - INFINITY
}

/// `a` stands for a lesser number than `b`. Minus zero is not less than
/// plus zero, and what is no number is less than nothing.
pub open spec fn below(a: Scalar, b: Scalar) -> bool {
    !is_nan(a) && !is_nan(b) && a < b && !(a == MINUS_ZERO && b == ZERO)
}

/// `a` stands for a number that is not greater than that of `b`.
pub open spec fn not_above(a: Scalar, b: Scalar) -> bool {
    !is_nan(a) && !is_nan(b) && (a <= b || (a == ZERO && b == MINUS_ZERO))
}

/// Whether `key` stands for no number.
pub fn nan(key: Scalar) -> (r: bool)
    ensures
        r == is_nan(key),
{
    key > INFINITY || key < -1 - INFINITY
}

/// Whether the number of `a` is less than the number of `b`.
pub fn lt(a: Scalar, b: Scalar) -> (r: bool)
    ensures
        r == below(a, b),
{
    !nan(a) && !nan(b) && a < b && !(a == MINUS_ZERO && b == ZERO)
}

/// Whether the number of `a` is less than or equal to the number of `b`.
pub fn le(a: Scalar, b: Scalar) -> (r: bool)
    ensures
        r == not_above(a, b),
{
    !nan(a) && !nan(b) && (a <= b || (a == ZERO && b == MINUS_ZERO))
}

/// Among numbers, one is less than or equal to another exactly where the
/// other is not less than it.
pub proof fn lemma_numbers_are_ordered(a: Scalar, b: Scalar)
    requires
        !is_nan(a),
        !is_nan(b),
    ensures
        not_above(a, b) <==> !below(b, a),
        below(a, b) ==> a < b,
        a < b ==> not_above(a, b),
{
}

/// Keys are ordered as their patterns are by sign and magnitude.
pub proof fn lemma_key_order(a: u64, b: u64)
    ensures
        key_of(a) < key_of(b) <==> precedes(a, b),
{
}

/// No two patterns share a key, so `decode` undoes `encode`.
pub proof fn lemma_key_injective(a: u64, b: u64)
    requires
        key_of(a) == key_of(b),
    ensures
        a == b,
{
}

} // verus!
