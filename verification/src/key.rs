//! Integer keys for real numbers.
//!
//! A number arrives as the 64 bits of an IEEE 754 double: one sign bit above
//! 63 bits of magnitude. Read as "sign and magnitude", those bits give an
//! integer whose order is the order of the numbers: a larger magnitude is a
//! larger number when the sign bit is clear and a smaller one when it is set.
//! Both zeros get the key 0, and a bit pattern that is not a number has no
//! key.

use vstd::prelude::*;

verus! {

/// The sign bit of a bit pattern.
pub const SIGN_BIT: u64 = 0x8000_0000_0000_0000;

/// The key of positive infinity: no number has a larger magnitude.
pub const INFINITY: i64 = 0x7FF0_0000_0000_0000;

/// The magnitude of a bit pattern: the bits below the sign bit.
pub open spec fn magnitude(bits: u64) -> int {
    if bits >= SIGN_BIT {
        bits - SIGN_BIT
    } else {
        bits as int
    }
}

/// Whether a bit pattern stands for a number, infinite or not.
pub open spec fn is_number(bits: u64) -> bool {
    magnitude(bits) <= INFINITY
}

/// The key of a bit pattern that stands for a number: its magnitude, negated
/// where the sign bit is set.
pub open spec fn key_of(bits: u64) -> int {
    if bits >= SIGN_BIT {
        -magnitude(bits)
    } else {
        magnitude(bits)
    }
}

/// Whether an integer is the key of some number.
pub open spec fn is_key(key: int) -> bool {
    -INFINITY <= key <= INFINITY
}

/// The bit pattern of the number with a given key; for the key 0, the
/// pattern of positive zero.
pub open spec fn bits_of(key: int) -> int {
    if key >= 0 {
        key
    } else {
        SIGN_BIT - key
    }
}

/// The key of the number with the given bit pattern, or `None` where the
/// pattern is not a number.
pub fn key_of_bits(bits: u64) -> (key: Option<i64>)
    ensures
        key is Some <==> is_number(bits),
        key is Some ==> key->Some_0 == key_of(bits) && is_key(key->Some_0 as int),
{
    let negative: bool = bits >= SIGN_BIT;
    let magnitude: u64 = if negative {
        bits - SIGN_BIT
    } else {
        bits
    };
    if magnitude > INFINITY as u64 {
        None
    } else if negative {
        Some(-(magnitude as i64))
    } else {
        Some(magnitude as i64)
    }
}

/// The bit pattern of the number with the given key, or `None` where no
/// number has that key.
pub fn bits_of_key(key: i64) -> (bits: Option<u64>)
    ensures
        bits is Some <==> is_key(key as int),
        bits is Some ==> bits->Some_0 == bits_of(key as int),
        bits is Some ==> is_number(bits->Some_0) && key_of(bits->Some_0) == key,
{
    if key > INFINITY || key < -INFINITY {
        None
    } else if key >= 0 {
        Some(key as u64)
    } else {
        Some(SIGN_BIT + ((-key) as u64))
    }
}

/// `x` held between `min` and `max`: the bound that it lies beyond, or `x`
/// itself where it lies beyond neither. The lower bound is tested first.
pub fn clamp(x: i64, min: i64, max: i64) -> (held: i64)
    ensures
        held == (if x < min {
            min
        } else if x > max {
            max
        } else {
            x
        }),
        min <= max ==> min <= held <= max,
{
    if x < min {
        min
    } else if x > max {
        max
    } else {
        x
    }
}

/// Going from bits to a key and back gives the same bits again, but for
/// negative zero, which comes back as positive zero.
pub proof fn lemma_bits_round_trip(bits: u64)
    requires
        is_number(bits),
    ensures
        is_key(key_of(bits)),
        bits != SIGN_BIT ==> bits_of(key_of(bits)) == bits,
        bits == SIGN_BIT ==> bits_of(key_of(bits)) == 0,
{
}

/// Keys follow sign and magnitude: of two numbers with the sign bit clear the
/// one with the larger magnitude has the larger key, of two with the sign bit
/// set it has the smaller key, and no number with the sign bit set has a key
/// above that of a number with the sign bit clear.
pub proof fn lemma_keys_are_ordered(a: u64, b: u64)
    requires
        is_number(a),
        is_number(b),
    ensures
        a < SIGN_BIT && b < SIGN_BIT ==> (key_of(a) < key_of(b) <==> magnitude(a) < magnitude(b)),
        a >= SIGN_BIT && b >= SIGN_BIT ==> (key_of(a) < key_of(b) <==> magnitude(a) > magnitude(
            b,
        )),
        a >= SIGN_BIT && b < SIGN_BIT ==> key_of(a) <= key_of(b),
        key_of(a) == key_of(b) <==> (a == b || (magnitude(a) == 0 && magnitude(b) == 0)),
{
}

} // verus!
