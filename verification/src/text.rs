//! Contracts for the pieces of std's string handling that building text
//! views of tags and payloads needs.

use vstd::prelude::*;

verus! {

/// Relies on String::push: it appends exactly the one given character to
/// the end of the string.
pub assume_specification[ String::push ](s: &mut String, ch: char)
    ensures
        final(s)@ == old(s)@.push(ch),
;

} // verus!
