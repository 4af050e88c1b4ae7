//! A crate whose tests read a data file at run time.
use vstd::prelude::*;

verus! {

/// `x + 1`.
pub fn increment(x: i32) -> (r: i32)
    requires
        x < i32::MAX,
    ensures
        r == x + 1,
{
    x + 1
}

} // verus!
