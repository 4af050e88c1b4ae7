//! A crate with code that no test covers, so that its mutants survive.
use vstd::prelude::*;

pub mod untested;

verus! {

/// The sum of `a` and `b`.
pub fn add(a: i32, b: i32) -> (r: i32)
    requires
        i32::MIN <= a + b <= i32::MAX,
    ensures
        r == a + b,
{
    a + b
}

/// The class of `x`, from the untested part of the crate.
pub fn call_untested(x: i32) -> (r: i32)
    ensures
        r == untested::sign(x as int),
{
    untested::classify(x)
}

} // verus!
