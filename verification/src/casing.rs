//! Unicode case mapping and character classes, as std computes them.
//!
//! These follow the Unicode tables that std carries; their results are
//! functions of their arguments alone and are named here rather than
//! restated.
use vstd::prelude::*;

verus! {

/// What `str::to_lowercase` returns for a string.
pub uninterp spec fn lowercase(s: Seq<char>) -> Seq<char>;

/// What `char::to_lowercase` yields for a character.
pub uninterp spec fn lowercase_char(c: char) -> Seq<char>;

/// What `char::is_uppercase` answers for a character.
pub uninterp spec fn is_uppercase_char(c: char) -> bool;

/// What `char::is_alphanumeric` answers for a character.
pub uninterp spec fn is_alphanumeric_char(c: char) -> bool;

/// `str::to_lowercase` returns the lowercase mapping of the whole string,
/// taken as a function of the string alone; nothing more is claimed of it.
pub assume_specification[ str::to_lowercase ](s: &str) -> (res: String)
    ensures
        res@ == lowercase(s@),
;

/// `char::is_uppercase` answers whether the character has the Unicode
/// `Uppercase` property; claimed only to be a function of the character.
pub assume_specification[ char::is_uppercase ](c: char) -> (res: bool)
    ensures
        res == is_uppercase_char(c),
;

/// `char::is_alphanumeric` answers whether the character is alphabetic or
/// numeric; claimed only to be a function of the character.
pub assume_specification[ char::is_alphanumeric ](c: char) -> (res: bool)
    ensures
        res == is_alphanumeric_char(c),
;

/// Collects what `char::to_lowercase` yields for `c` into a string; the
/// characters are claimed only to be a function of `c`.
#[verifier::external_body]
pub(crate) fn to_lowercase_char(c: char) -> (res: String)
    ensures
        res@ == lowercase_char(c),
{
    c.to_lowercase().collect()
}

} // verus!
