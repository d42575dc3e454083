//! Character classification: the predicates that decide which token class a
//! character starts or continues.
//!
//! ASCII classes are defined outright.  The two Unicode classes the scanner
//! uses — alphabetic and whitespace — are computed by `std`'s character
//! methods; their full extent is only named here (`unicode_alphabetic`,
//! `unicode_whitespace`), with the ASCII part each is documented to contain
//! stated beside the name.

use vstd::prelude::*;

verus! {

/// Whether `c` is an ASCII decimal digit `0` through `9`.
pub open spec fn is_digit(c: char) -> bool {
    48 <= c as u32 && c as u32 <= 57
}

/// Whether `c` is an ASCII letter `a` through `z` or `A` through `Z`.
pub open spec fn is_ascii_alpha(c: char) -> bool {
    (97 <= c as u32 && c as u32 <= 122) || (65 <= c as u32 && c as u32 <= 90)
}

/// The Unicode `Alphabetic` property, as `char::is_alphabetic` computes it.
/// The property is a function of the character alone; its full listing is not
/// restated here.
pub uninterp spec fn unicode_alphabetic(c: char) -> bool;

/// The Unicode `White_Space` property, as `char::is_whitespace` computes it.
/// The property is a function of the character alone; its full listing is not
/// restated here.
pub uninterp spec fn unicode_whitespace(c: char) -> bool;

/// Whether `c` is alphabetic: an ASCII letter, or any other character with
/// the Unicode `Alphabetic` property.
pub open spec fn is_alpha(c: char) -> bool {
    is_ascii_alpha(c) || unicode_alphabetic(c)
}

/// Whether `c` is whitespace: one of the four common ASCII whitespace
/// characters, or any other character with the Unicode `White_Space`
/// property.
pub open spec fn is_space(c: char) -> bool {
    c == ' ' || c == '\n' || c == '\t' || c == '\r' || unicode_whitespace(c)
}

/// Relies on `char::is_alphabetic`: true exactly for characters with the
/// Unicode `Alphabetic` property, which its documentation states includes
/// the ASCII letters.
#[verifier::external_body]
pub(crate) fn char_is_alphabetic(c: char) -> (r: bool)
    ensures
        r == unicode_alphabetic(c),
        is_ascii_alpha(c) ==> r,
{
    c.is_alphabetic()
}

/// Relies on `char::is_whitespace`: true exactly for characters with the
/// Unicode `White_Space` property, which its documentation states includes
/// space, line feed, horizontal tab and carriage return.
#[verifier::external_body]
pub(crate) fn char_is_whitespace(c: char) -> (r: bool)
    ensures
        r == unicode_whitespace(c),
        c == ' ' || c == '\n' || c == '\t' || c == '\r' ==> r,
{
    c.is_whitespace()
}

/// Whether `c` is whitespace in the sense of [`is_space`].
pub fn check_space(c: char) -> (r: bool)
    ensures
        r == is_space(c),
{
    char_is_whitespace(c)
}

/// Whether `c` is an ASCII decimal digit.
pub fn check_digit(c: char) -> (r: bool)
    ensures
        r == is_digit(c),
{
    let u = c as u32;
    48 <= u && u <= 57
}

/// Whether `c` is an ASCII letter.
pub fn check_ascii_alpha(c: char) -> (r: bool)
    ensures
        r == is_ascii_alpha(c),
{
    let u = c as u32;
    (97 <= u && u <= 122) || (65 <= u && u <= 90)
}

/// A predicate over single characters, handed to the consume-while
/// primitive: each variant is one of the character classes the classifiers
/// consume.
#[derive(Debug, Clone, Copy, PartialEq, Eq)]
pub enum CharPred {
    /// An ASCII digit or `.`: the body of a numeric run.
    NumberBody,
    /// Any character but `"`: the body of a string literal.
    StringBody,
    /// Any character but `'`: the body of a character literal.
    CharBody,
    /// Alphabetic, `_`, an ASCII digit, or `'`: the body of an identifier.
    IdentBody,
    /// Any character but a line feed: the body of a line comment.
    CommentBody,
    /// An alphabetic character.
    Alphabetic,
}

impl CharPred {
    /// Whether the predicate holds of `c`.
    pub open spec fn holds(self, c: char) -> bool {
        match self {
            CharPred::NumberBody => is_digit(c) || c == '.',
            CharPred::StringBody => c != '"',
            CharPred::CharBody => c != '\'',
            CharPred::IdentBody => is_alpha(c) || c == '_' || is_digit(c) || c == '\'',
            CharPred::CommentBody => c != '\n',
            CharPred::Alphabetic => is_alpha(c),
        }
    }

    /// Decide the predicate on `c`.
    pub fn check(&self, c: char) -> (r: bool)
        ensures
            r == self.holds(c),
    {
        match self {
            CharPred::NumberBody => check_digit(c) || c == '.',
            CharPred::StringBody => c != '"',
            CharPred::CharBody => c != '\'',
            CharPred::IdentBody => char_is_alphabetic(c) || c == '_' || check_digit(c) || c
                == '\'',
            CharPred::CommentBody => c != '\n',
            CharPred::Alphabetic => char_is_alphabetic(c),
        }
    }
}

} // verus!
