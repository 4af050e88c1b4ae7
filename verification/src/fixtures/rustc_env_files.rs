//! A crate that reads a variable set by a rustc env file at compile time.
use vstd::prelude::*;
use crate::text::{chars_eq, chars_of};

verus! {

/// Whether the compiled-in `MUTATION_EXPECTED_TOKEN_FROM_FILE` (`token`) is
/// `ok_from_file`.
pub fn has_expected_token(token: &str) -> (r: bool)
    ensures
        r == (token@ == "ok_from_file"@),
{
    chars_eq(&chars_of(token), &chars_of("ok_from_file"))
}

} // verus!
