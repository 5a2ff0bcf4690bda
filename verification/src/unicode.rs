//! What std knows of characters: their classes and their case mappings, by
//! the Unicode tables that std carries. Nothing in this file is proved: each
//! spec function names what one function of std returns, and each wrapper
//! calls that function.

use vstd::prelude::*;

verus! {

/// What `char::is_alphanumeric` returns: whether the character is a letter
/// or a number.
pub uninterp spec fn alphanumeric(c: char) -> bool;

/// What `char::is_numeric` returns: whether the character is a number.
pub uninterp spec fn numeric(c: char) -> bool;

/// What `char::is_lowercase` returns.
pub uninterp spec fn lowercase(c: char) -> bool;

/// What `char::is_uppercase` returns.
pub uninterp spec fn uppercase(c: char) -> bool;

/// What `char::is_whitespace` returns.
pub uninterp spec fn whitespace(c: char) -> bool;

/// The characters that `char::to_lowercase` yields for a character.
pub uninterp spec fn lowered(c: char) -> Seq<char>;

/// The characters that `char::to_uppercase` yields for a character.
pub uninterp spec fn raised(c: char) -> Seq<char>;

/// What `str::to_lowercase` makes of a text.
pub uninterp spec fn lowered_text(text: Seq<char>) -> Seq<char>;

/// What `str::to_uppercase` makes of a text.
pub uninterp spec fn raised_text(text: Seq<char>) -> Seq<char>;

/// Calls `char::is_alphanumeric`. The contract claims only that the answer
/// depends on the character alone.
#[verifier::external_body]
pub(crate) fn is_alphanumeric(c: char) -> (yes: bool)
    ensures
        yes == alphanumeric(c),
{
    c.is_alphanumeric()
}

/// Calls `char::is_numeric`. The contract claims only that the answer
/// depends on the character alone.
#[verifier::external_body]
pub(crate) fn is_numeric(c: char) -> (yes: bool)
    ensures
        yes == numeric(c),
{
    c.is_numeric()
}

/// Calls `char::is_lowercase`. The contract claims only that the answer
/// depends on the character alone.
#[verifier::external_body]
pub(crate) fn is_lowercase(c: char) -> (yes: bool)
    ensures
        yes == lowercase(c),
{
    c.is_lowercase()
}

/// Calls `char::is_uppercase`. The contract claims only that the answer
/// depends on the character alone.
#[verifier::external_body]
pub(crate) fn is_uppercase(c: char) -> (yes: bool)
    ensures
        yes == uppercase(c),
{
    c.is_uppercase()
}

/// Calls `char::is_whitespace`. The contract claims only that the answer
/// depends on the character alone.
#[verifier::external_body]
pub(crate) fn is_whitespace(c: char) -> (yes: bool)
    ensures
        yes == whitespace(c),
{
    c.is_whitespace()
}

/// Calls `char::to_lowercase` and collects the characters it yields. The
/// contract claims only that they depend on the character alone.
#[verifier::external_body]
pub(crate) fn to_lowercase(c: char) -> (out: String)
    ensures
        out@ == lowered(c),
{
    c.to_lowercase().collect()
}

/// Calls `char::to_uppercase` and collects the characters it yields. The
/// contract claims only that they depend on the character alone.
#[verifier::external_body]
pub(crate) fn to_uppercase(c: char) -> (out: String)
    ensures
        out@ == raised(c),
{
    c.to_uppercase().collect()
}

/// Calls `str::to_lowercase`. The contract claims only that the result
/// depends on the text alone.
#[verifier::external_body]
pub(crate) fn str_to_lowercase(text: &str) -> (out: String)
    ensures
        out@ == lowered_text(text@),
{
    text.to_lowercase()
}

/// Calls `str::to_uppercase`. The contract claims only that the result
/// depends on the text alone.
#[verifier::external_body]
pub(crate) fn str_to_uppercase(text: &str) -> (out: String)
    ensures
        out@ == raised_text(text@),
{
    text.to_uppercase()
}

/// Calls `String::push`, which appends the character to the end of the
/// text, as the documentation of std says.
#[verifier::external_body]
pub(crate) fn push_char(text: &mut String, c: char)
    ensures
        final(text)@ == old(text)@.push(c),
{
    text.push(c)
}

} // verus!
