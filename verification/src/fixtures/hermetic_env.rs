//! A crate that checks that no environment leaks into its build or tests.
use vstd::prelude::*;

verus! {

/// Whether `x` is not zero.
pub fn is_nonzero(x: i32) -> (r: bool)
    ensures
        r == (x != 0),
{
    x != 0
}

/// Whether the build saw no `MUTATION_COMPILE_LEAK` variable; `leak` is its
/// value at compile time, if it had one.
pub fn compile_time_env_is_scrubbed(leak: Option<&str>) -> (r: bool)
    ensures
        r == leak is None,
{
    leak.is_none()
}

/// Whether the tests see no `MUTATION_RUNTIME_LEAK` variable; `leak` is its
/// value as read at run time, `None` when reading it fails.
pub fn runtime_env_is_scrubbed(leak: Option<String>) -> (r: bool)
    ensures
        r == leak is None,
{
    leak.is_none()
}

} // verus!
