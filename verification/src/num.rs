//! Small facts about numbers.

use vstd::prelude::*;

verus! {

/// The smaller of two numbers.
pub open spec fn smaller(a: int, b: int) -> int {
    if a <= b {
        a
    } else {
        b
    }
}

/// The larger of two numbers.
pub open spec fn larger(a: int, b: int) -> int {
    if a >= b {
        a
    } else {
        b
    }
}

/// Computes [`smaller`].
pub fn min_i64(a: i64, b: i64) -> (r: i64)
    ensures
        r == smaller(a as int, b as int),
{
    if a <= b {
        a
    } else {
        b
    }
}

/// Computes [`larger`].
pub fn max_i64(a: i64, b: i64) -> (r: i64)
    ensures
        r == larger(a as int, b as int),
{
    if a >= b {
        a
    } else {
        b
    }
}

/// The smaller of two numbers is one of them, the larger the other, and neither is
/// beyond.
pub proof fn smaller_and_larger_are_the_two(a: int, b: int)
    ensures
        smaller(a, b) <= a && smaller(a, b) <= b,
        larger(a, b) >= a && larger(a, b) >= b,
        smaller(a, b) == a && larger(a, b) == b || smaller(a, b) == b && larger(a, b) == a,
{
}

} // verus!
