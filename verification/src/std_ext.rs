//! Contracts for the few std functions on strings that the library calls and
//! that vstd leaves unspecified.

use vstd::prelude::*;

verus! {

/// `String::push` appends one character.
pub assume_specification[ std::string::String::push ](string: &mut std::string::String, ch: char)
    ensures
        final(string)@ == old(string)@.push(ch),
;

} // verus!
