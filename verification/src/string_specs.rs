//! What this library takes for granted of the standard library's `String`,
//! beyond what `vstd` already states of it. Nothing here is proved.

use vstd::prelude::*;

verus! {

/// Assumed of `String::push`: the string afterwards is the string before
/// with the character `ch` added at its end, and nothing else changed.
pub assume_specification[ String::push ](text: &mut String, ch: char)
    ensures
        final(text)@ == old(text)@.push(ch),
;

} // verus!
