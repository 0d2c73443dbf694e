use vstd::prelude::*;

verus! {

/// Whether a character has the Unicode `Alphabetic` property; the name for
/// what `char::is_alphabetic` returns.  Identifiers start with such a
/// character and continue for as long as they keep coming.
pub uninterp spec fn is_alphabetic(c: char) -> bool;

/// Whether a character is in one of the Unicode number categories; the
/// name for what `char::is_numeric` returns.  Integer literals start with
/// such a character.
pub uninterp spec fn is_numeric(c: char) -> bool;

/// Whether a character has the Unicode `White_Space` property; the name
/// for what `char::is_whitespace` returns.  Such characters are skipped
/// between tokens and never appear in one.
pub uninterp spec fn is_whitespace(c: char) -> bool;

/// A decimal digit `'0'` through `'9'`: the characters that may continue
/// an integer literal once one has started.
pub open spec fn is_dec_digit(c: char) -> bool {
    48 <= c as u32 && c as u32 <= 57
}

/// Relies on `char::is_alphabetic`: the result depends on the character
/// alone.
#[verifier::external_body]
pub(crate) fn char_is_alphabetic(c: char) -> (r: bool)
    ensures
        r == is_alphabetic(c),
{
    c.is_alphabetic()
}

/// Relies on `char::is_numeric`: the result depends on the character
/// alone.
#[verifier::external_body]
pub(crate) fn char_is_numeric(c: char) -> (r: bool)
    ensures
        r == is_numeric(c),
{
    c.is_numeric()
}

/// Relies on `char::is_whitespace`: the result depends on the character
/// alone.
#[verifier::external_body]
pub(crate) fn char_is_whitespace(c: char) -> (r: bool)
    ensures
        r == is_whitespace(c),
{
    c.is_whitespace()
}

/// Decides [`is_dec_digit`] by comparing the character's scalar value
/// against `'0'` and `'9'`.
pub(crate) fn char_is_dec_digit(c: char) -> (r: bool)
    ensures
        r == is_dec_digit(c),
{
    let u: u32 = c as u32;
    48 <= u && u <= 57
}

} // verus!
