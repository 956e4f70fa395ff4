//! What this library takes from the standard library on characters and
//! strings without proof.

use vstd::prelude::*;

verus! {

/// `String::push` puts the character at the end of the string and leaves
/// what stood before it as it was.
pub assume_specification[ String::push ](s: &mut String, c: char)
    ensures
        final(s)@ == old(s)@.push(c),
;

/// Whether `c` is white space, as `char::is_whitespace` has it.
pub uninterp spec fn is_whitespace(c: char) -> bool;

/// Asks `char::is_whitespace`, which tells whether a character has the
/// Unicode property `White_Space`.
///
/// Trusted: the answer depends on the character alone.
#[verifier::external_body]
pub(crate) fn char_is_whitespace(c: char) -> (white: bool)
    ensures
        white == is_whitespace(c),
{
    c.is_whitespace()
}

} // verus!
