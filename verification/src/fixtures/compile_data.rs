//! A crate that reads a data file at compile time.
use vstd::prelude::*;
use crate::text::{chars_eq, chars_of, trim, trim_chars};

verus! {

/// Whether the compiled-in message (`message`, the text of the data file)
/// is `hello` once surrounding whitespace is removed.
pub fn has_expected_message_len(message: &str) -> (r: bool)
    ensures
        r == (trim(message@) == "hello"@),
{
    let t = trim_chars(&chars_of(message));
    let hello = chars_of("hello");
    chars_eq(&t, &hello)
}

} // verus!
