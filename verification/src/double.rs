//! Doubles by their bits. A double is only ever carried or compared here, and
//! its bits say how it compares.

use vstd::prelude::*;

verus! {

/// The bit that makes a double negative.
pub const SIGN: u64 = 0x8000_0000_0000_0000;

/// The bits of infinity; what is larger, apart from the sign, is no number.
pub const INFINITY: u64 = 0x7ff0_0000_0000_0000;

/// The bits of a double without its sign.
pub open spec fn size(bits: u64) -> u64 {
    bits % SIGN
}

/// Whether these bits are no number at all.
pub open spec fn is_nan(bits: u64) -> bool {
    size(bits) > INFINITY
}

/// What `==` says of two doubles: what is no number equals nothing, and zero
/// has two signs.
pub open spec fn equal(a: u64, b: u64) -> bool {
    !is_nan(a) && !is_nan(b) && (a == b || (size(a) == 0 && size(b) == 0))
}

/// What `>` says of a double and zero.
pub open spec fn positive(bits: u64) -> bool {
    !is_nan(bits) && bits < SIGN && size(bits) > 0
}

/// What `<` says of the absolute values of two doubles.
pub open spec fn shorter(a: u64, b: u64) -> bool {
    !is_nan(a) && !is_nan(b) && size(a) < size(b)
}

/// What `>=` says of the absolute values of two doubles.
pub open spec fn as_long(a: u64, b: u64) -> bool {
    !is_nan(a) && !is_nan(b) && size(a) >= size(b)
}

/// A double's place in the total order of all doubles.
pub open spec fn rank(bits: u64) -> int {
    if bits < SIGN {
        bits as int
    } else {
        -1 - size(bits)
    }
}

fn size_of(bits: u64) -> (s: u64)
    ensures
        s == size(bits),
{
    bits % SIGN
}

/// Whether two doubles are equal.
pub fn are_equal(a: u64, b: u64) -> (answer: bool)
    ensures
        answer == equal(a, b),
{
    size_of(a) <= INFINITY && size_of(b) <= INFINITY && (a == b || (size_of(a) == 0 && size_of(b)
        == 0))
}

/// Whether a double is above zero.
pub fn is_positive(bits: u64) -> (answer: bool)
    ensures
        answer == positive(bits),
{
    size_of(bits) <= INFINITY && bits < SIGN && size_of(bits) > 0
}

/// Whether one double is nearer to zero than another.
pub fn is_shorter(a: u64, b: u64) -> (answer: bool)
    ensures
        answer == shorter(a, b),
{
    size_of(a) <= INFINITY && size_of(b) <= INFINITY && size_of(a) < size_of(b)
}

/// Whether one double is no nearer to zero than another.
pub fn is_as_long(a: u64, b: u64) -> (answer: bool)
    ensures
        answer == as_long(a, b),
{
    size_of(a) <= INFINITY && size_of(b) <= INFINITY && size_of(a) >= size_of(b)
}

/// Whether one double comes before another in the total order.
pub fn comes_before(a: u64, b: u64) -> (answer: bool)
    ensures
        answer == (rank(a) < rank(b)),
{
    if a < SIGN {
        b < SIGN && a < b
    } else {
        b < SIGN || size_of(a) > size_of(b)
    }
}

/// A sign says nothing about a double's length. Turning one double, or the
/// other, round leaves all comparisons of lengths as they were.
pub proof fn law_a_length_has_no_direction(a: u64, b: u64)
    requires
        a < 0x8000_0000_0000_0000,
    ensures
        ({
            let turned = (a + 0x8000_0000_0000_0000) as u64;
            &&& shorter(turned, b) == shorter(a, b) && shorter(b, turned) == shorter(b, a)
            &&& as_long(turned, b) == as_long(a, b) && as_long(b, turned) == as_long(b, a)
            &&& is_nan(turned) == is_nan(a)
        }),
{
}

/// Doubles that are not negative compare as their bits do, up to infinity. What
/// lies beyond is no number: it is neither shorter nor as long, equal to nothing
/// and not above zero.
pub proof fn law_lengths_compare_as_their_bits(a: u64, b: u64)
    requires
        a < 0x8000_0000_0000_0000,
        b < 0x8000_0000_0000_0000,
    ensures
        is_nan(a) <==> a > 0x7ff0_0000_0000_0000,
        !is_nan(a) && !is_nan(b) ==> {
            &&& shorter(a, b) <==> a < b
            &&& as_long(a, b) <==> a >= b
            &&& equal(a, b) <==> a == b
            &&& positive(a) <==> a > 0
        },
        is_nan(a) || is_nan(b) ==> !shorter(a, b) && !as_long(a, b) && !equal(a, b),
        is_nan(a) ==> !positive(a),
{
}

/// Nothing with the sign of a negative double is above zero. Such a double
/// equals another of that sign with the same bits, unless they are no number,
/// and none of the other sign but for zero, of which there are two.
pub proof fn law_negative_doubles_are_below_zero(a: u64, b: u64)
    requires
        a >= 0x8000_0000_0000_0000,
    ensures
        !positive(a),
        equal(a, b) == equal(b, a),
        b >= 0x8000_0000_0000_0000 ==> (equal(a, b) <==> a == b && a <= 0xfff0_0000_0000_0000),
        b < 0x8000_0000_0000_0000 ==> (equal(a, b) <==> a == 0x8000_0000_0000_0000 && b == 0),
{
}

/// The total order: from one with the sign of a negative double to one without
/// it is a step up; among those without it the larger bits come later, and among
/// those with it the smaller. No two doubles share a place.
pub proof fn law_the_total_order_runs_from_below_zero(a: u64, b: u64)
    ensures
        ({
            let below = |x: u64| x >= 0x8000_0000_0000_0000u64;
            &&& below(a) && !below(b) ==> rank(a) < rank(b)
            &&& !below(a) && !below(b) ==> (rank(a) < rank(b) <==> a < b)
            &&& below(a) && below(b) ==> (rank(a) < rank(b) <==> a > b)
            &&& rank(a) == rank(b) <==> a == b
        }),
{
}

} // verus!
