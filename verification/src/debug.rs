//! The text that the standard library's `Debug` gives for strings and
//! characters, for use in error messages.
use vstd::prelude::*;

verus! {

/// What `{:?}` writes for a character.
pub uninterp spec fn char_debug(c: char) -> Seq<char>;

/// What `{:?}` writes for a string with these characters.
pub uninterp spec fn str_debug(s: Seq<char>) -> Seq<char>;

/// Calls the `Debug` impl of `char` in std: what it writes depends on the
/// character alone, and is named `char_debug`. Which characters it escapes, and
/// how, is not stated.
#[verifier::external_body]
pub(crate) fn debug_char(c: char) -> (r: String)
    ensures
        r@ == char_debug(c),
{
    format!("{:?}", c)
}

/// Calls the `Debug` impl of `str` in std: what it writes depends on the
/// characters of the string alone, and is named `str_debug`. Which characters it
/// escapes, and how, is not stated.
#[verifier::external_body]
pub(crate) fn debug_str(s: &str) -> (r: String)
    ensures
        r@ == str_debug(s@),
{
    format!("{:?}", s)
}

} // verus!
