//! Single-precision numbers by their bits.

use crate::double::{above, at_least};
use vstd::prelude::*;

verus! {

/// The sign bit of a single-precision number.
pub const SIGN_BIT: u32 = 0x8000_0000;

/// The bits of infinity; a greater magnitude is that of no number.
pub const INFINITY_BITS: u32 = 0x7f80_0000;

/// The bits without the sign.
pub open spec fn magnitude(bits: u32) -> int {
    (bits % SIGN_BIT) as int
}

/// The place in the total order of single-precision numbers: negative before positive, and
/// by magnitude among numbers of the same sign.
pub open spec fn rank(bits: u32) -> int {
    if bits < SIGN_BIT {
        magnitude(bits)
    } else {
        -1 - magnitude(bits)
    }
}

/// An integer that orders numbers as they are: zero for both zeros, and `None` for what is
/// not a number.
pub open spec fn number(bits: u32) -> Option<int> {
    if magnitude(bits) > INFINITY_BITS {
        None
    } else if bits < SIGN_BIT {
        Some(magnitude(bits))
    } else {
        Some(-magnitude(bits))
    }
}

fn order(bits: u32) -> (place: Option<i64>)
    ensures
        match place {
            Some(place) => number(bits) == Some(place as int),
            None => number(bits) is None,
        },
{
    let size: i64 = (bits % SIGN_BIT) as i64;
    if size > INFINITY_BITS as i64 {
        None
    } else if bits < SIGN_BIT {
        Some(size)
    } else {
        Some(-size)
    }
}

/// The place of a number in the total order.
pub(crate) fn rank_of(bits: u32) -> (place: i64)
    ensures
        place == rank(bits),
{
    let size: i64 = (bits % SIGN_BIT) as i64;
    if bits < SIGN_BIT {
        size
    } else {
        -1 - size
    }
}

/// Whether the first number is not less than the second.
pub(crate) fn is_at_least(a: u32, b: u32) -> (yes: bool)
    ensures
        yes == at_least(number(a), number(b)),
{
    match (order(a), order(b)) {
        (Some(x), Some(y)) => x >= y,
        _ => false,
    }
}

/// Whether the first number is greater than the second.
pub(crate) fn is_above(a: u32, b: u32) -> (yes: bool)
    ensures
        yes == above(number(a), number(b)),
{
    match (order(a), order(b)) {
        (Some(x), Some(y)) => x > y,
        _ => false,
    }
}

/// The total order agrees with the comparison of numbers, but for the two zeros: of two
/// numbers one is at least the other, and each is only where they are the same or both are
/// zero; and a number of a higher rank is at least one of a lower rank.
pub proof fn lemma_at_least(a: u32, b: u32)
    requires
        number(a) is Some,
        number(b) is Some,
    ensures
        at_least(number(a), number(b)) || at_least(number(b), number(a)),
        number(a) == number(b) ==> a == b || (magnitude(a) == 0 && magnitude(b) == 0),
        rank(a) >= rank(b) ==> at_least(number(a), number(b)),
{
}

/// The numbers without a sign are ordered as their bits are, up to infinity; beyond are those
/// that are none. The sign bit takes the number to its negative, and both zeros are zero.
pub proof fn lemma_number(a: u32, b: u32)
    requires
        a < 0x8000_0000,
        b < 0x8000_0000,
    ensures
        number(a) is Some <==> a <= 0x7f80_0000,
        number(b) is Some <==> b <= 0x7f80_0000,
        a <= 0x7f80_0000 && b <= 0x7f80_0000 ==> (number(a)->0 <= number(b)->0 <==> a <= b),
        a <= 0x7f80_0000 ==> number(a)->0 >= 0 && number((0x8000_0000 + a) as u32) == Some(-number(a)->0),
        a > 0x7f80_0000 ==> number((0x8000_0000 + a) as u32) is None,
        number(0) == Some(0int),
        number(0x8000_0000) == Some(0int),
{
}

/// The total order agrees with the order of numbers, and tells apart whatever differs in its
/// bits: negative zero comes before zero.
pub proof fn lemma_rank(a: u32, b: u32)
    ensures
        number(a) is Some && number(b) is Some && number(a)->0 < number(b)->0 ==> rank(a) < rank(b),
        a != b ==> rank(a) != rank(b),
        rank(0x8000_0000) < rank(0),
        a < b < 0x8000_0000 ==> rank(a) < rank(b),
{
}

} // verus!
