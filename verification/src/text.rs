//! Conversions between `String`/`str` and `Vec<char>`.
//!
//! The codec and payload modules work on `Vec<char>`, whose contents Verus
//! reasons about directly; these two wrappers move between that and the
//! string types at the library boundary.

use vstd::prelude::*;

verus! {

/// Relies on std's `str::chars`: a string slice's view is exactly its
/// sequence of chars, so collecting the iterator yields that sequence.
#[verifier::external_body]
pub fn str_to_chars(s: &str) -> (v: Vec<char>)
    ensures
        v@ == s@,
{
    s.chars().collect()
}

/// Relies on std's `FromIterator<char> for String`: collecting a sequence of
/// chars builds the string whose chars are that sequence.
#[verifier::external_body]
pub fn chars_to_string(v: &Vec<char>) -> (s: String)
    ensures
        s@ == v@,
{
    v.iter().collect()
}

} // verus!
