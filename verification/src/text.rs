//! Conversions between `String` and character vectors.
//!
//! The codec works over character vectors; the wire and the file registries
//! carry `String`s.  The two conversions preserve the character sequence,
//! which is all the rest of the crate relies on.

use vstd::prelude::*;

verus! {

/// Relies on str::chars and Iterator::collect: the collected vector holds
/// exactly the characters of the string, in order.
#[verifier::external_body]
pub fn string_to_chars(s: &str) -> (r: Vec<char>)
    ensures
        r@ == s@,
{
    s.chars().collect()
}

/// Relies on Iterator::collect for String: the collected string holds
/// exactly the characters of the vector, in order.
#[verifier::external_body]
pub fn chars_to_string(v: &Vec<char>) -> (r: String)
    ensures
        r@ == v@,
{
    v.iter().collect()
}

} // verus!
