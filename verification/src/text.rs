//! What is taken on trust about building a `String`.

use vstd::prelude::*;

verus! {

/// `String::push`: appends one character at the end and changes nothing
/// before it.
pub assume_specification[ String::push ](text: &mut String, ch: char)
    ensures
        final(text)@ == old(text)@.push(ch),
;

} // verus!
