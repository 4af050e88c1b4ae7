//! A crate whose code is generated by a procedural macro that honours a cfg.
use vstd::prelude::*;

verus! {

/// What the generated function returns: `enabled` when the crate is built
/// with the `mutation_proc_macro_enabled` cfg, else `disabled`.
pub fn generated_cfg_value(cfg_enabled: bool) -> (r: &'static str)
    ensures
        r@ == if cfg_enabled { "enabled"@ } else { "disabled"@ },
{
    if cfg_enabled {
        "enabled"
    } else {
        "disabled"
    }
}

/// Whether `x` is not zero.
pub fn is_nonzero(x: i32) -> (r: bool)
    ensures
        r == (x != 0),
{
    x != 0
}

} // verus!
