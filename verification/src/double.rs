//! Double-precision numbers by their bits.

use vstd::prelude::*;

verus! {

/// The sign bit of a double-precision number.
pub const SIGN_BIT: u64 = 0x8000_0000_0000_0000;

/// The bits of infinity; a greater magnitude is that of no number.
pub const INFINITY_BITS: u64 = 0x7ff0_0000_0000_0000;

/// The bits without the sign.
pub open spec fn magnitude(bits: u64) -> int {
    (bits % SIGN_BIT) as int
}

/// An integer that orders numbers as they are: zero for both zeros, and `None` for what is
/// not a number.
pub open spec fn number(bits: u64) -> Option<int> {
    if magnitude(bits) > INFINITY_BITS {
        None
    } else if bits < SIGN_BIT {
        Some(magnitude(bits))
    } else {
        Some(-magnitude(bits))
    }
}

/// Both are numbers, and the first is not less than the second.
pub open spec fn at_least(a: Option<int>, b: Option<int>) -> bool {
    a is Some && b is Some && a->0 >= b->0
}

/// Both are numbers, and the first is greater than the second.
pub open spec fn above(a: Option<int>, b: Option<int>) -> bool {
    a is Some && b is Some && a->0 > b->0
}

/// It is a number, and not infinite.
pub open spec fn is_finite(a: Option<int>) -> bool {
    a is Some && -INFINITY_BITS < a->0 < INFINITY_BITS
}

fn order(bits: u64) -> (place: Option<i128>)
    ensures
        match place {
            Some(place) => number(bits) == Some(place as int),
            None => number(bits) is None,
        },
{
    let size: u64 = bits % SIGN_BIT;
    if size > INFINITY_BITS {
        None
    } else if bits < SIGN_BIT {
        Some(size as i128)
    } else {
        Some(-(size as i128))
    }
}

/// Whether the first number is not less than the second.
pub(crate) fn is_at_least(a: u64, b: u64) -> (yes: bool)
    ensures
        yes == at_least(number(a), number(b)),
{
    match (order(a), order(b)) {
        (Some(x), Some(y)) => x >= y,
        _ => false,
    }
}

/// Whether the first number is greater than the second.
pub(crate) fn is_above(a: u64, b: u64) -> (yes: bool)
    ensures
        yes == above(number(a), number(b)),
{
    match (order(a), order(b)) {
        (Some(x), Some(y)) => x > y,
        _ => false,
    }
}

/// Whether it is a number and not infinite.
pub(crate) fn has_finite(a: u64) -> (yes: bool)
    ensures
        yes == is_finite(number(a)),
{
    a % SIGN_BIT < INFINITY_BITS
}

/// The numbers without a sign are ordered as their bits are, up to infinity; beyond are those
/// that are none. The sign bit takes the number to its negative, and both zeros are zero.
pub proof fn lemma_number(a: u64, b: u64)
    requires
        a < 0x8000_0000_0000_0000,
        b < 0x8000_0000_0000_0000,
    ensures
        number(a) is Some <==> a <= 0x7ff0_0000_0000_0000,
        number(b) is Some <==> b <= 0x7ff0_0000_0000_0000,
        a <= 0x7ff0_0000_0000_0000 && b <= 0x7ff0_0000_0000_0000 ==> (number(a)->0 <= number(b)->0 <==> a <= b),
        a <= 0x7ff0_0000_0000_0000 ==> number(a)->0 >= 0 && number((0x8000_0000_0000_0000 + a) as u64) == Some(-number(a)->0),
        a > 0x7ff0_0000_0000_0000 ==> number((0x8000_0000_0000_0000 + a) as u64) is None,
        number(0) == Some(0int),
        number(0x8000_0000_0000_0000) == Some(0int),
{
}

/// Numbers can be compared, and nothing else: of two numbers one is not less than the other,
/// one is above the other where it is not less and not equal, and what is not a number is
/// neither above nor below, nor equal to anything.
pub proof fn lemma_order(a: Option<int>, b: Option<int>)
    ensures
        at_least(a, b) || at_least(b, a) <==> a is Some && b is Some,
        above(a, b) <==> at_least(a, b) && !at_least(b, a),
        at_least(a, b) && at_least(b, a) ==> a == b,
        a is Some ==> at_least(a, a),
        a is Some && b is Some && a->0 == b->0 + 1 ==> above(a, b),
{
}

/// A number is finite where it is below infinity and above its negative.
pub proof fn lemma_finite(bits: u64)
    requires
        bits < SIGN_BIT,
    ensures
        is_finite(number(bits)) <==> bits < 0x7ff0_0000_0000_0000,
        is_finite(number((SIGN_BIT + bits) as u64)) <==> bits < 0x7ff0_0000_0000_0000,
{
}

} // verus!
