//! Character classification: ASCII vowels, the delimiter set that bounds
//! words, and the Unicode case queries and conversions that casing
//! transfer needs.

use vstd::prelude::*;

verus! {

/// True exactly on the ten ASCII vowel letters; every other character,
/// including 'y', counts as a consonant.
pub open spec fn spec_is_vowel(c: char) -> bool {
    c == 'a' || c == 'e' || c == 'i' || c == 'o' || c == 'u' || c == 'A' || c == 'E' || c == 'I'
        || c == 'O' || c == 'U'
}

/// Return `true` if `c` is an ASCII vowel, else `false` (uncased).
pub fn is_vowel(c: &char) -> (r: bool)
    ensures
        r == spec_is_vowel(*c),
{
    let x = *c;
    x == 'a' || x == 'e' || x == 'i' || x == 'o' || x == 'u' || x == 'A' || x == 'E' || x == 'I'
        || x == 'O' || x == 'U'
}

pub open spec fn char_is_ascii(c: char) -> bool {
    (c as u32) < 128
}

/// The ASCII punctuation block: `!`..`/`, `:`..`@`, `[`..`` ` ``, `{`..`~`.
pub open spec fn spec_is_ascii_punctuation(c: char) -> bool {
    (33 <= c as u32 && c as u32 <= 47) || (58 <= c as u32 && c as u32 <= 64) || (91 <= c as u32
        && c as u32 <= 96) || (123 <= c as u32 && c as u32 <= 126)
}

/// Whitespace: the six ASCII whitespace characters, and for characters
/// beyond ASCII whatever the Unicode White_Space property says.
pub open spec fn spec_is_whitespace(c: char) -> bool {
    if char_is_ascii(c) {
        (9 <= c as u32 && c as u32 <= 13) || c as u32 == 32
    } else {
        unicode_whitespace(c)
    }
}

/// A delimiter ends a word: ASCII punctuation or any whitespace.
pub open spec fn spec_is_delimiter(c: char) -> bool {
    spec_is_ascii_punctuation(c) || spec_is_whitespace(c)
}

pub fn is_delimiter(c: char) -> (r: bool)
    ensures
        r == spec_is_delimiter(c),
{
    let u = c as u32;
    if u < 128 {
        (33 <= u && u <= 47) || (58 <= u && u <= 64) || (91 <= u && u <= 96) || (123 <= u && u
            <= 126) || (9 <= u && u <= 13) || u == 32
    } else {
        char_is_whitespace(c)
    }
}

/// Whether a character beyond ASCII has the Unicode White_Space property.
pub uninterp spec fn unicode_whitespace(c: char) -> bool;

/// Whether a character beyond ASCII has the Unicode Lowercase property.
pub uninterp spec fn unicode_lowercase(c: char) -> bool;

/// Whether a character beyond ASCII has the Unicode Uppercase property.
pub uninterp spec fn unicode_uppercase(c: char) -> bool;

/// The full Unicode uppercase mapping of a character, one or more characters.
pub uninterp spec fn unicode_uppercase_chars(c: char) -> Seq<char>;

/// The full Unicode lowercase mapping of a character, one or more characters.
pub uninterp spec fn unicode_lowercase_chars(c: char) -> Seq<char>;

/// Relies on char::is_whitespace: true exactly on characters with the
/// Unicode White_Space property, a function of the character alone.
#[verifier::external_body]
pub(crate) fn char_is_whitespace(c: char) -> (r: bool)
    ensures
        r == unicode_whitespace(c),
{
    c.is_whitespace()
}

/// Relies on char::is_lowercase: true exactly on characters with the
/// Unicode Lowercase property, a function of the character alone.
#[verifier::external_body]
pub(crate) fn char_is_lowercase(c: char) -> (r: bool)
    ensures
        r == unicode_lowercase(c),
{
    c.is_lowercase()
}

/// Relies on char::is_uppercase: true exactly on characters with the
/// Unicode Uppercase property, a function of the character alone.
#[verifier::external_body]
pub(crate) fn char_is_uppercase(c: char) -> (r: bool)
    ensures
        r == unicode_uppercase(c),
{
    c.is_uppercase()
}

/// Relies on char::to_uppercase: yields the Unicode uppercase mapping of
/// the character, one or more characters, a function of the character alone.
#[verifier::external_body]
pub(crate) fn char_to_uppercase(c: char) -> (r: Vec<char>)
    ensures
        r@ == unicode_uppercase_chars(c),
        r@.len() >= 1,
{
    c.to_uppercase().collect()
}

/// Relies on char::to_lowercase: yields the Unicode lowercase mapping of
/// the character, one or more characters, a function of the character alone.
#[verifier::external_body]
pub(crate) fn char_to_lowercase(c: char) -> (r: Vec<char>)
    ensures
        r@ == unicode_lowercase_chars(c),
        r@.len() >= 1,
{
    c.to_lowercase().collect()
}

/// Relies on String::push: appends the one character `c` at the end of `s`.
#[verifier::external_body]
pub(crate) fn push_char(s: &mut String, c: char)
    ensures
        final(s)@ == old(s)@.push(c),
{
    s.push(c);
}

} // verus!
