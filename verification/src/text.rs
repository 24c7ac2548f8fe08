//! What the verifier is told of `String` beyond what its library says.

use vstd::prelude::*;

verus! {

/// `String::push` appends the given character to the end of the string, as
/// its documentation says.
pub assume_specification[ String::push ](s: &mut String, ch: char)
    ensures
        final(s)@ == old(s)@.push(ch),
;

} // verus!
