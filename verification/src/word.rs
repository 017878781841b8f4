//! Translation of a single word: find the leading consonant run, move it
//! behind the rest of the word, append the suffix, and transfer the
//! original casing pattern onto the result.

use vstd::prelude::*;
use vstd::string::StringExecFns;

use crate::casing::apply_casing_like;
use crate::casing::is_case_variant;
use crate::casing::lemma_case_variant_delim;
use crate::casing::lemma_recased_ascii;
use crate::casing::recase;
use crate::casing::CharCase;
use crate::chars::char_is_ascii;
use crate::chars::is_vowel;
use crate::chars::spec_is_delimiter;
use crate::chars::spec_is_vowel;

verus! {

/// The suffix of consonant-initial words.
pub open spec fn ay_suffix() -> Seq<char> {
    seq!['a', 'y']
}

/// The suffix of vowel-initial words.
pub open spec fn hay_suffix() -> Seq<char> {
    seq!['h', 'a', 'y']
}

/// The length of the word's maximal leading run of non-vowel characters.
pub open spec fn leading_consonants(w: Seq<char>) -> nat
    decreases w.len(),
{
    if w.len() == 0 || spec_is_vowel(w[0]) {
        0
    } else {
        1 + leading_consonants(w.drop_first())
    }
}

pub open spec fn spec_is_q(c: char) -> bool {
    c == 'q' || c == 'Q'
}

pub open spec fn spec_is_u(c: char) -> bool {
    c == 'u' || c == 'U'
}

/// Where the word is cut: after the leading consonant run, extended by
/// one more character when the run ends in a 'q' that is directly
/// followed by a 'u' (so "qu" travels as one unit).
pub open spec fn consonant_cut(w: Seq<char>) -> nat {
    let k = leading_consonants(w);
    if 0 < k < w.len() && spec_is_q(w[k as int - 1]) && spec_is_u(w[k as int]) {
        k + 1
    } else {
        k
    }
}

/// A consonant-initial word rearranged, before casing transfer: the part
/// after the cut, then the moved consonant run, then "ay".
pub open spec fn raw_translation(w: Seq<char>) -> Seq<char> {
    w.skip(consonant_cut(w) as int) + w.take(consonant_cut(w) as int) + ay_suffix()
}

/// What [`translate_word`](crate::translate_word) returns. An empty word
/// stays empty; a vowel-initial word keeps its letters and casing and
/// receives "hay"; any other word is rearranged by [`raw_translation`]
/// and then re-cased after the original word.
pub open spec fn word_translation(w: Seq<char>) -> Seq<char> {
    if w.len() == 0 {
        w
    } else if spec_is_vowel(w[0]) {
        w + hay_suffix()
    } else {
        recase(raw_translation(w), w)
    }
}

proof fn lemma_leading_consonants_le(w: Seq<char>)
    ensures
        leading_consonants(w) <= w.len(),
    decreases w.len(),
{
    if !(w.len() == 0 || spec_is_vowel(w[0])) {
        lemma_leading_consonants_le(w.drop_first());
    }
}

/// The cut never passes the end of the word.
pub proof fn lemma_consonant_cut_le(w: Seq<char>)
    ensures
        consonant_cut(w) <= w.len(),
{
    lemma_leading_consonants_le(w);
}

/// The recursive run length agrees with a front-to-back scan that found
/// no vowel among the first `i` characters and a vowel (or the word's
/// end) at position `i`.
proof fn lemma_leading_consonants_from_scan(w: Seq<char>, i: int)
    requires
        0 <= i <= w.len(),
        forall|j: int| 0 <= j < i ==> !spec_is_vowel(w[j]),
        i < w.len() ==> spec_is_vowel(w[i]),
    ensures
        leading_consonants(w) == i,
    decreases i,
{
    if i == 0 {
    } else {
        assert(!spec_is_vowel(w[0]));
        let w2 = w.drop_first();
        assert forall|j: int| 0 <= j < i - 1 implies !spec_is_vowel(w2[j]) by {
            assert(w2[j] == w[j + 1]);
        }
        assert(i - 1 < w2.len() ==> spec_is_vowel(w2[i - 1]));
        lemma_leading_consonants_from_scan(w2, i - 1);
    }
}

/// A vowel-initial word is translated by appending "hay" and nothing
/// else: letters, order and casing all stay, and the output is exactly
/// three characters longer than the word.
pub proof fn lemma_word_translation_vowel(w: Seq<char>)
    requires
        w.len() > 0,
        spec_is_vowel(w[0]),
    ensures
        word_translation(w) == w + hay_suffix(),
        word_translation(w).len() == w.len() + 3,
{
}

/// Before casing transfer, a consonant-initial word's translation is a
/// pure rearrangement: it holds exactly the word's own characters plus
/// the two suffix letters, so it is exactly two characters longer and
/// no character is dropped or duplicated.
pub proof fn lemma_raw_translation_permutes(w: Seq<char>)
    ensures
        raw_translation(w).len() == w.len() + 2,
        raw_translation(w).to_multiset() == (w + ay_suffix()).to_multiset(),
{
    lemma_consonant_cut_le(w);
    let cut = consonant_cut(w) as int;
    let moved = w.skip(cut);
    let kept = w.take(cut);
    vstd::seq_lib::lemma_multiset_commutative(moved + kept, ay_suffix());
    vstd::seq_lib::lemma_multiset_commutative(moved, kept);
    vstd::seq_lib::lemma_multiset_commutative(w, ay_suffix());
    vstd::seq_lib::lemma_multiset_commutative(kept, moved);
    assert(kept + moved =~= w);
    assert(moved.to_multiset().add(kept.to_multiset()) =~= kept.to_multiset().add(
        moved.to_multiset(),
    ));
    assert(raw_translation(w).to_multiset() =~= (w + ay_suffix()).to_multiset());
}

/// The length of a translated all-ASCII word: two characters more than
/// the word when it starts with a consonant (only "ay" is added; the
/// moved consonant run is relocated, not duplicated, and ASCII casing
/// transfer maps one character to one character), three more when it
/// starts with a vowel ("hay").
pub proof fn lemma_word_translation_len_ascii(w: Seq<char>)
    requires
        w.len() > 0,
        forall|i: int| 0 <= i < w.len() ==> char_is_ascii(#[trigger] w[i]),
    ensures
        word_translation(w).len() == if spec_is_vowel(w[0]) {
            w.len() + 3
        } else {
            w.len() + 2
        },
{
    if spec_is_vowel(w[0]) {
        lemma_word_translation_vowel(w);
    } else {
        lemma_consonant_cut_le(w);
        let raw = raw_translation(w);
        let cut = consonant_cut(w) as int;
        assert forall|i: int| 0 <= i < raw.len() implies char_is_ascii(#[trigger] raw[i]) by {
            if i < w.len() - cut {
                assert(raw[i] == w.skip(cut)[i]);
            } else if i < w.len() {
                assert(raw[i] == w.take(cut)[i - (w.len() - cut)]);
            } else {
                assert(raw[i] == ay_suffix()[i - w.len()]);
            }
        }
        lemma_recased_ascii(raw, w, CharCase::Eh);
    }
}

/// The translation of an all-ASCII word span is again a word span: it
/// is never empty and contains no delimiter character, so word and
/// separator boundaries survive translation.
pub proof fn lemma_word_translation_word_span(w: Seq<char>)
    requires
        w.len() > 0,
        forall|i: int| 0 <= i < w.len() ==> char_is_ascii(#[trigger] w[i]),
        forall|i: int| 0 <= i < w.len() ==> !spec_is_delimiter(#[trigger] w[i]),
    ensures
        word_translation(w).len() > 0,
        forall|i: int|
            0 <= i < word_translation(w).len() ==> !spec_is_delimiter(
                #[trigger] word_translation(w)[i],
            ),
{
    let out = word_translation(w);
    if spec_is_vowel(w[0]) {
        assert forall|i: int| 0 <= i < out.len() implies !spec_is_delimiter(#[trigger] out[i]) by {
            if i < w.len() {
                assert(out[i] == w[i]);
            } else {
                assert(out[i] == hay_suffix()[i - w.len()]);
                assert(!spec_is_delimiter('h') && !spec_is_delimiter('a') && !spec_is_delimiter(
                    'y',
                ));
            }
        }
    } else {
        lemma_consonant_cut_le(w);
        let raw = raw_translation(w);
        let cut = consonant_cut(w) as int;
        assert forall|i: int| 0 <= i < raw.len() implies char_is_ascii(#[trigger] raw[i])
            && !spec_is_delimiter(raw[i]) by {
            if i < w.len() - cut {
                assert(raw[i] == w.skip(cut)[i]);
            } else if i < w.len() {
                assert(raw[i] == w.take(cut)[i - (w.len() - cut)]);
            } else {
                assert(raw[i] == ay_suffix()[i - w.len()]);
                assert(!spec_is_delimiter('a') && !spec_is_delimiter('y'));
            }
        }
        lemma_recased_ascii(raw, w, CharCase::Eh);
        assert forall|i: int| 0 <= i < out.len() implies !spec_is_delimiter(#[trigger] out[i]) by {
            assert(is_case_variant(raw[i], out[i]));
            lemma_case_variant_delim(raw[i], out[i]);
        }
    }
}

/// Return `true` if the word's first character is an ASCII vowel.
pub(crate) fn starts_voweled(word: &str) -> (r: bool)
    requires
        word@.len() > 0,
    ensures
        r == spec_is_vowel(word@[0]),
{
    let first = word.get_char(0);
    is_vowel(&first)
}

/// Append the vowel-initial suffix "hay" to a word kept in place.
pub(crate) fn translate_word_starts_voweled(english_word: &mut String)
    ensures
        final(english_word)@ == old(english_word)@ + hay_suffix(),
{
    english_word.append("hay");
    proof {
        reveal_strlit("hay");
        assert("hay"@ =~= hay_suffix());
    }
}

/// The character index where the word is cut: the end of the leading
/// consonant run, carried one character further by the "qu" rule.
pub(crate) fn consonant_prefix_len(word: &str) -> (cut: usize)
    ensures
        cut == consonant_cut(word@),
        cut <= word@.len(),
{
    let n = word.unicode_len();
    let mut k: usize = 0;
    while k < n && !is_vowel(&word.get_char(k))
        invariant
            k <= n,
            n == word@.len(),
            forall|j: int| 0 <= j < k ==> !spec_is_vowel(word@[j]),
        decreases n - k,
    {
        k = k + 1;
    }
    proof {
        lemma_leading_consonants_from_scan(word@, k as int);
    }
    if 0 < k && k < n {
        let prev = word.get_char(k - 1);
        let next = word.get_char(k);
        if (prev == 'q' || prev == 'Q') && (next == 'u' || next == 'U') {
            return k + 1;
        }
    }
    k
}

/// # Translate a single English word into Pig Latin.
///
/// The input is taken to be a single word: a string without whitespace
/// or ASCII punctuation. An empty word is returned unchanged (empty in,
/// empty out). A vowel-initial word keeps its casing and gets "hay"
/// appended; any other word has its leading consonant run (with the "qu"
/// extension) moved to the end, "ay" appended, and the original word's
/// casing pattern transferred onto the result.
pub fn translate_word(english_word: &str) -> (r: String)
    ensures
        r@ == word_translation(english_word@),
{
    let n = english_word.unicode_len();
    if n == 0 {
        let r = String::new();
        proof {
            assert(english_word@ =~= r@);
        }
        return r;
    }
    if starts_voweled(english_word) {
        let mut result = String::from_str(english_word);
        translate_word_starts_voweled(&mut result);
        return result;
    }
    let cut = consonant_prefix_len(english_word);
    let core = english_word.substring_char(cut, n);
    let prefix = english_word.substring_char(0, cut);
    let mut translated = String::new();
    translated.append(core);
    translated.append(prefix);
    translated.append("ay");
    proof {
        reveal_strlit("ay");
        assert("ay"@ =~= ay_suffix());
        assert(translated@ =~= raw_translation(english_word@));
    }
    apply_casing_like(translated.as_str(), english_word)
}

} // verus!
