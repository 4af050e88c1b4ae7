//! A crate whose logic spans two source files.
use vstd::prelude::*;

pub mod math;

verus! {

/// Whether `x` is positive.
pub fn is_positive(x: i32) -> (r: bool)
    ensures
        r == (x > 0),
{
    x > 0
}

/// `a + b` when `a` is positive, else `a`.
pub fn add_if_positive(a: i32, b: i32) -> (r: i32)
    requires
        a > 0 ==> i32::MIN <= a + b <= i32::MAX,
    ensures
        r == if a > 0 { a + b } else { a as int },
{
    if is_positive(a) {
        math::add(a, b)
    } else {
        a
    }
}

} // verus!
