//! What the library relies on of the standard library's strings beyond what
//! the verifier's own library states.

use vstd::prelude::*;

verus! {

/// `String::push` of the standard library, whose documentation says that it
/// appends the given character to the end of the string: the text is the
/// text before with the character behind it. Taken on trust.
pub assume_specification[ String::push ](text: &mut String, ch: char)
    ensures
        final(text)@ == old(text)@.push(ch),
;

} // verus!
