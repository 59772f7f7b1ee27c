use vstd::prelude::*;

verus! {

/// The sign bit of a binary64 bit pattern.
pub const SIGN_BIT: u64 = 0x8000_0000_0000_0000;

/// The bit pattern of positive infinity: the largest magnitude that is a
/// number.
pub const INFINITY_BITS: u64 = 0x7FF0_0000_0000_0000;

/// The bit pattern has its sign bit set.
pub open spec fn is_negative(bits: u64) -> bool {
    bits >= SIGN_BIT
}

/// The bit pattern without its sign bit. Among numbers, a larger magnitude
/// is a larger absolute value.
pub open spec fn magnitude(bits: u64) -> int {
    if bits >= SIGN_BIT {
        bits - SIGN_BIT
    } else {
        bits as int
    }
}

/// The bit pattern is not a number.
pub open spec fn is_nan_spec(bits: u64) -> bool {
    magnitude(bits) > INFINITY_BITS
}

/// The bit pattern as a signed magnitude. Bit patterns of numbers compare
/// by it as the numbers do; both zeros have 0.
pub open spec fn signed(bits: u64) -> int {
    if is_negative(bits) {
        -magnitude(bits)
    } else {
        magnitude(bits)
    }
}

/// The ordering key of a bit pattern: its signed magnitude, moved up so that
/// it is never negative.
pub open spec fn key_spec(bits: u64) -> int {
    signed(bits) + SIGN_BIT
}

#[verifier::when_used_as_spec(is_nan_spec)]
pub fn is_nan(bits: u64) -> (nan: bool)
    ensures
        nan == is_nan_spec(bits),
{
    if bits >= SIGN_BIT {
        bits - SIGN_BIT > INFINITY_BITS
    } else {
        bits > INFINITY_BITS
    }
}

/// The ordering key of the distance with this bit pattern.
pub fn key_of_bits(bits: u64) -> (key: u64)
    ensures
        key == key_spec(bits),
        key > 0,
{
    if bits >= SIGN_BIT {
        SIGN_BIT - (bits - SIGN_BIT)
    } else {
        bits + SIGN_BIT
    }
}

/// The bit pattern of the distance with this ordering key, a zero being the
/// positive one; none for key 0, which no bit pattern has.
pub fn bits_of_key(key: u64) -> (bits: Option<u64>)
    ensures
        bits is None <==> key == 0,
        bits matches Some(b) ==> key_spec(b) == key && b != SIGN_BIT,
{
    if key == 0 {
        None
    } else if key >= SIGN_BIT {
        Some(key - SIGN_BIT)
    } else {
        Some(SIGN_BIT + (SIGN_BIT - key))
    }
}

/// Keys order as signed magnitudes do, and so as the distances do.
pub proof fn lemma_key_keeps_order(a: u64, b: u64)
    ensures
        key_spec(a) < key_spec(b) <==> signed(a) < signed(b),
        key_spec(a) == key_spec(b) <==> signed(a) == signed(b),
        0 < key_spec(a) <= u64::MAX,
{
}

/// Of the bit patterns other than the negative zero, no two share a key.
pub proof fn lemma_key_is_unique(a: u64, b: u64)
    requires
        a != SIGN_BIT,
        b != SIGN_BIT,
        key_spec(a) == key_spec(b),
    ensures
        a == b,
{
}

/// Every number lies between the two infinities, and every bit pattern that
/// is not a number lies outside them.
pub proof fn lemma_numbers_within_infinities(bits: u64)
    ensures
        !is_nan_spec(bits) <==> key_spec((INFINITY_BITS + SIGN_BIT) as u64) <= key_spec(bits)
            <= key_spec(INFINITY_BITS),
{
}

} // verus!
