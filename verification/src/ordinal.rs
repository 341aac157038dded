//! Ordinals of distances.
//!
//! The renderer measures distances in IEEE 754 single precision. The
//! modules here take a distance as the ordinal of its bit pattern: an
//! integer that is less, equal or greater exactly as the number is. A
//! pattern holds the sign in its highest bit and the magnitude in the
//! other 31; among numbers of one sign, a greater magnitude is a number
//! farther from zero. So the ordinal of a pattern without the sign bit is
//! its magnitude, and that of one with the sign bit is its magnitude
//! negated. Both zeros have the ordinal 0. A pattern whose magnitude
//! lies above that of infinity is no number and has no ordinal.

use vstd::prelude::*;

verus! {

/// The sign bit of a pattern.
pub const SIGN: u32 = 0x8000_0000;

/// The magnitude of infinity, the greatest magnitude of a number.
pub const INFINITY: u32 = 0x7f80_0000;

/// The magnitude of a pattern: the pattern without its sign bit.
pub open spec fn magnitude(bits: u32) -> int {
    bits as int % 0x8000_0000
}

/// Whether a pattern is that of a number, finite or infinite.
pub open spec fn is_number(bits: u32) -> bool {
    magnitude(bits) <= INFINITY
}

/// The ordinal of a pattern.
pub open spec fn ordinal_of(bits: u32) -> int {
    if bits >= SIGN {
        -magnitude(bits)
    } else {
        magnitude(bits)
    }
}

/// Whether an integer is the ordinal of a number.
pub open spec fn is_ordinal(ordinal: int) -> bool {
    -(INFINITY as int) <= ordinal <= INFINITY
}

/// The pattern of an ordinal; that of 0 is the zero without sign.
pub open spec fn pattern_of(ordinal: int) -> u32 {
    if ordinal >= 0 {
        ordinal as u32
    } else {
        (SIGN - ordinal) as u32
    }
}

/// Among the patterns of numbers: two patterns of numbers that are not
/// negative are in the order of their ordinals, two with the sign bit
/// are in the opposite order, and no pattern with the sign bit has an
/// ordinal above that of one without.
pub proof fn lemma_ordinal_order(a: u32, b: u32)
    ensures
        a < SIGN && b < SIGN ==> (a < b <==> ordinal_of(a) < ordinal_of(b)),
        a >= SIGN && b >= SIGN ==> (a < b <==> ordinal_of(a) > ordinal_of(b)),
        a >= SIGN && b < SIGN ==> ordinal_of(a) <= 0 <= ordinal_of(b),
        ordinal_of(a) == ordinal_of(b) ==> a == b || magnitude(a) == 0,
{
}

/// An ordinal and its pattern stand for each other: the pattern of the
/// ordinal of a number is that number's pattern, but for the zero with
/// the sign bit, which gives the zero without; and the ordinal of the
/// pattern of an ordinal is that ordinal.
pub proof fn lemma_ordinal_round_trip(bits: u32, ordinal: int)
    ensures
        is_number(bits) ==> is_ordinal(ordinal_of(bits)),
        is_number(bits) && bits != SIGN ==> pattern_of(ordinal_of(bits)) == bits,
        pattern_of(ordinal_of(SIGN)) == 0,
        is_ordinal(ordinal) ==> is_number(pattern_of(ordinal)) && ordinal_of(pattern_of(ordinal))
            == ordinal,
{
}

/// The ordinal of a pattern, or `None` where the pattern is no number.
pub fn ordinal(bits: u32) -> (ordinal: Option<i64>)
    ensures
        ordinal is Some <==> is_number(bits),
        ordinal matches Some(o) ==> o == ordinal_of(bits),
{
    let magnitude: u32 = bits % SIGN;
    if magnitude > INFINITY {
        None
    } else if bits >= SIGN {
        Some(-(magnitude as i64))
    } else {
        Some(magnitude as i64)
    }
}

/// The pattern of an ordinal, or `None` where the integer is no ordinal.
pub fn pattern(ordinal: i64) -> (bits: Option<u32>)
    ensures
        bits is Some <==> is_ordinal(ordinal as int),
        bits matches Some(b) ==> b == pattern_of(ordinal as int),
{
    if ordinal > INFINITY as i64 || ordinal < -(INFINITY as i64) {
        None
    } else if ordinal >= 0 {
        Some(ordinal as u32)
    } else {
        Some(SIGN + (-ordinal) as u32)
    }
}

} // verus!
