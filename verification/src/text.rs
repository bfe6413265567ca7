//! What this library takes from the standard library's Unicode tables
//! without proof: upper-casing and the test for whitespace.

use vstd::prelude::*;

verus! {

/// The upper-case form of a text, as `str::to_uppercase` gives it. One
/// character may become several.
pub uninterp spec fn uppercase(text: Seq<char>) -> Seq<char>;

/// Whether a character separates words, as `char::is_whitespace` decides
/// it.
pub uninterp spec fn separates(c: char) -> bool;

/// `str::to_uppercase`: the result is the upper-case form of the text. What
/// that form is, is left to the standard library; only that the same text
/// always gives the same form is assumed.
pub assume_specification[ str::to_uppercase ](text: &str) -> (upper: String)
    ensures
        upper@ == uppercase(text@),
;

/// `char::is_whitespace`: the result depends on the character alone. Which
/// characters are whitespace is left to the standard library.
pub assume_specification[ char::is_whitespace ](c: char) -> (white: bool)
    ensures
        white == separates(c),
;

/// `String::push`: the character is appended to the end of the string.
pub assume_specification[ String::push ](text: &mut String, c: char)
    ensures
        final(text)@ == old(text)@.push(c),
;

} // verus!
