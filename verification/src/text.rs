//! Small string primitives that the rest of the library builds text with.

use vstd::prelude::*;

verus! {

/// `String::push`: appends one character to the end of the string and
/// leaves the characters already there untouched.
pub assume_specification[ String::push ](s: &mut String, c: char)
    ensures
        final(s)@ == old(s)@.push(c),
;

/// The text that `str::to_lowercase` gives for `text`: each character
/// replaced by its lower-case equivalent as Unicode defines it.
pub uninterp spec fn lowercase_text(text: Seq<char>) -> Seq<char>;

/// `str::to_lowercase`: the lower-case equivalent of the text, which
/// depends on the text alone.
pub assume_specification[ str::to_lowercase ](text: &str) -> (r: String)
    ensures
        r@ == lowercase_text(text@),
;

/// The text that `String::from_utf16_lossy` gives for a sequence of UTF-16
/// code units: the characters they encode, with the replacement character
/// for each unit that encodes none.
pub uninterp spec fn utf16_text(units: Seq<u16>) -> Seq<char>;

/// `String::from_utf16_lossy`: decodes UTF-16 code units into text. The
/// result depends on the units alone.
pub assume_specification[ String::from_utf16_lossy ](units: &[u16]) -> (r: String)
    ensures
        r@ == utf16_text(units@),
;

} // verus!
