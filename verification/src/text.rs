//! Small helpers on strings that the standard library offers without a
//! specification the verifier could use.

use std::str::Chars;
use vstd::prelude::*;
use vstd::std_specs::iter::IteratorSpec;

verus! {

/// Whether a character stream is known to come to an end. Every stream that
/// `str::chars` hands out is.
pub open spec fn finite(chars: Chars) -> bool {
    chars.decrease() is Some
}

/// A bound on the number of characters that a finite stream still holds.
pub open spec fn budget(chars: Chars) -> nat {
    chars.decrease()->0
}

/// Whether two texts are the same, character by character.
pub fn same_text(a: &str, b: &str) -> (r: bool)
    ensures
        r == (a@ == b@),
{
    a.to_owned() == b.to_owned()
}

/// `String::push` appends exactly one character to the end of the string.
pub assume_specification[ String::push ](s: &mut String, c: char)
    ensures
        final(s)@ == old(s)@.push(c),
;

/// What `str::trim` makes of a text: the same text without the white space
/// at its two ends.
pub uninterp spec fn trimmed(text: Seq<char>) -> Seq<char>;

/// Calls `str::trim` and copies the slice it returns; the outcome is
/// the text that [`trimmed`] names.
#[verifier::external_body]
pub(crate) fn trim(text: &str) -> (r: String)
    ensures
        r@ == trimmed(text@),
{
    text.trim().to_owned()
}

} // verus!
