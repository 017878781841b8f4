//! Translation of English text into Pig Latin.
//!
//! The dialect implemented here has three rules:
//! - the general suffix is "ay", appended after the word's leading
//!   consonant run is moved to the end of the word;
//! - words that start with a vowel keep their letters in place and
//!   receive the suffix "hay";
//! - a "u" directly after a "q" at the end of the consonant run is
//!   carried along with that run, so "quaint" becomes "aintquay".
//!
//! [`translate`] rewrites whole texts: every maximal run of characters
//! free of ASCII punctuation and whitespace is translated as one word,
//! and everything between such runs is kept verbatim. [`translate_word`]
//! translates a single word, and transfers the word's per-position
//! casing pattern onto the rearranged letters.

pub mod casing;
pub mod chars;
pub mod text;
pub mod word;

pub use casing::apply_casing_like;
pub use casing::CharCase;
pub use chars::is_vowel;
pub use text::translate;
pub use word::translate_word;
