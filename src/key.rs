use vstd::prelude::*;

verus! {

/// Sign bit of an IEEE 754 binary64 bit pattern.
pub const SIGN_BIT: u64 = 0x8000_0000_0000_0000;

/// Exponent field of a binary64 bit pattern, in place.
pub const EXPONENT_MASK: u64 = 0x7ff0_0000_0000_0000;

/// Fraction field of a binary64 bit pattern.
pub const FRACTION_MASK: u64 = 0x000f_ffff_ffff_ffff;

/// The pattern is a NaN: exponent all ones and a fraction that is not zero.
pub open spec fn is_nan_bits(bits: u64) -> bool {
    bits & EXPONENT_MASK == EXPONENT_MASK && bits & FRACTION_MASK != 0
}

/// The pattern has its sign bit set.
pub open spec fn is_negative_bits(bits: u64) -> bool {
    bits & SIGN_BIT != 0
}

/// The pattern with its sign bit cleared: the absolute value's pattern, which
/// for binary64 orders like the absolute value itself.
pub open spec fn magnitude_bits(bits: u64) -> u64 {
    bits & !SIGN_BIT
}

/// The order of binary64 values that are not NaN, stated on their bit
/// patterns: negative zero and positive zero are equal, a negative value is
/// below a non-negative one, and among values of one sign the magnitude
/// decides.
pub open spec fn bits_less(a: u64, b: u64) -> bool {
    if !is_negative_bits(a) && !is_negative_bits(b) {
        magnitude_bits(a) < magnitude_bits(b)
    } else if is_negative_bits(a) && is_negative_bits(b) {
        magnitude_bits(a) > magnitude_bits(b)
    } else if is_negative_bits(a) {
        magnitude_bits(a) != 0 || magnitude_bits(b) != 0
    } else {
        false
    }
}

/// The ordered key of a pattern that is not NaN: an unsigned integer whose
/// order is the order of the values. Both zeros get the key of positive zero.
pub open spec fn key_of_bits(bits: u64) -> u64 {
    if magnitude_bits(bits) == 0 {
        SIGN_BIT
    } else if is_negative_bits(bits) {
        !bits
    } else {
        bits | SIGN_BIT
    }
}

/// The bit pattern that a key stands for.
pub open spec fn bits_of_key(key: u64) -> u64 {
    if key & SIGN_BIT != 0 {
        key & !SIGN_BIT
    } else {
        !key
    }
}

/// Keys order the values that are not NaN exactly as the values are ordered.
pub proof fn lemma_key_order(a: u64, b: u64)
    requires
        !is_nan_bits(a),
        !is_nan_bits(b),
    ensures
        key_of_bits(a) < key_of_bits(b) <==> bits_less(a, b),
        key_of_bits(a) == key_of_bits(b) <==> (a == b || (magnitude_bits(a) == 0 && magnitude_bits(b) == 0)),
{
    assert(key_of_bits(a) < key_of_bits(b) <==> bits_less(a, b)) by (bit_vector);
    assert(key_of_bits(a) == key_of_bits(b) <==> (a == b || (magnitude_bits(a) == 0 && magnitude_bits(b) == 0))) by (bit_vector);
}

/// A key gives back the pattern it was made from, except that negative zero
/// comes back as positive zero.
pub proof fn lemma_key_round_trip(bits: u64)
    requires
        !is_nan_bits(bits),
    ensures
        bits_of_key(key_of_bits(bits)) == if magnitude_bits(bits) == 0 {
            0
        } else {
            bits
        },
{
    assert(bits_of_key(key_of_bits(bits)) == if magnitude_bits(bits) == 0 {
        0
    } else {
        bits
    }) by (bit_vector);
}

/// Ordered key of a binary64 bit pattern; `None` for a NaN, which has no place
/// in the order.
pub fn ordered_key(bits: u64) -> (r: Option<u64>)
    ensures
        is_nan_bits(bits) <==> r is None,
        r matches Some(k) ==> k == key_of_bits(bits),
{
    if bits & EXPONENT_MASK == EXPONENT_MASK && bits & FRACTION_MASK != 0 {
        None
    } else if bits & !SIGN_BIT == 0 {
        Some(SIGN_BIT)
    } else if bits & SIGN_BIT != 0 {
        Some(!bits)
    } else {
        Some(bits | SIGN_BIT)
    }
}

/// The binary64 bit pattern that an ordered key stands for.
pub fn key_to_bits(key: u64) -> (r: u64)
    ensures
        r == bits_of_key(key),
{
    if key & SIGN_BIT != 0 {
        key & !SIGN_BIT
    } else {
        !key
    }
}

} // verus!
