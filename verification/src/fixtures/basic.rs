//! A crate with one sum and one sign test.
use vstd::prelude::*;

verus! {

/// The sum of `a` and `b`.
pub fn add(a: i32, b: i32) -> (r: i32)
    requires
        i32::MIN <= a + b <= i32::MAX,
    ensures
        r == a + b,
{
    a + b
}

/// Whether `x` is positive.
pub fn is_positive(x: i32) -> (r: bool)
    ensures
        r == (x > 0),
{
    x > 0
}

} // verus!
