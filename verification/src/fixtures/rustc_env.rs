//! A crate that reads a variable of the rustc environment at compile time.
use vstd::prelude::*;
use crate::text::{chars_eq, chars_of};

verus! {

/// Whether the compiled-in `MUTATION_EXPECTED_TOKEN` (`token`) is `ok`.
pub fn has_expected_token(token: &str) -> (r: bool)
    ensures
        r == (token@ == "ok"@),
{
    chars_eq(&chars_of(token), &chars_of("ok"))
}

} // verus!
