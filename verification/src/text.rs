//! Whole-text translation: split the text into maximal word and
//! separator spans, translate each word span, and keep each separator
//! span verbatim, in the original order.

use vstd::prelude::*;

use crate::chars::char_is_ascii;
use crate::chars::is_delimiter;
use crate::chars::spec_is_delimiter;
use crate::word::lemma_word_translation_word_span;
use crate::word::translate_word;
use crate::word::word_translation;

verus! {

/// The length of the maximal leading run of characters whose
/// delimiter-status equals `d`.
pub open spec fn matching_run(t: Seq<char>, d: bool) -> nat
    decreases t.len(),
{
    if t.len() == 0 || spec_is_delimiter(t[0]) != d {
        0
    } else {
        1 + matching_run(t.drop_first(), d)
    }
}

/// The length of the text's first span: the maximal leading run of
/// characters that are all delimiters or all non-delimiters.
pub open spec fn leading_span(t: Seq<char>) -> nat {
    matching_run(t, spec_is_delimiter(t[0]))
}

proof fn lemma_matching_run_le(t: Seq<char>, d: bool)
    ensures
        matching_run(t, d) <= t.len(),
    decreases t.len(),
{
    if !(t.len() == 0 || spec_is_delimiter(t[0]) != d) {
        lemma_matching_run_le(t.drop_first(), d);
    }
}

/// What [`translate`](crate::translate) returns: the text span by span,
/// separator spans verbatim, word spans translated.
pub open spec fn text_translation(t: Seq<char>) -> Seq<char>
    decreases t.len(),
    via text_translation_decreases
{
    if t.len() == 0 {
        Seq::<char>::empty()
    } else {
        let k = leading_span(t) as int;
        let span = t.take(k);
        let rest = t.skip(k);
        (if spec_is_delimiter(t[0]) {
            span
        } else {
            word_translation(span)
        }) + text_translation(rest)
    }
}

#[via_fn]
proof fn text_translation_decreases(t: Seq<char>) {
    if t.len() != 0 {
        lemma_matching_run_le(t, spec_is_delimiter(t[0]));
        assert(leading_span(t) >= 1);
        assert(t.skip(leading_span(t) as int).len() < t.len());
    }
}

/// The recursive run length agrees with a front-to-back scan that saw
/// delimiter-status `d` on the first `i` characters and something else
/// (or the text's end) at position `i`.
proof fn lemma_matching_run_from_scan(t: Seq<char>, d: bool, i: int)
    requires
        0 <= i <= t.len(),
        forall|j: int| 0 <= j < i ==> spec_is_delimiter(t[j]) == d,
        i < t.len() ==> spec_is_delimiter(t[i]) != d,
    ensures
        matching_run(t, d) == i,
    decreases i,
{
    if i == 0 {
    } else {
        assert(spec_is_delimiter(t[0]) == d);
        let t2 = t.drop_first();
        assert forall|j: int| 0 <= j < i - 1 implies spec_is_delimiter(t2[j]) == d by {
            assert(t2[j] == t[j + 1]);
        }
        assert(i - 1 < t2.len() ==> spec_is_delimiter(t2[i - 1]) != d);
        lemma_matching_run_from_scan(t2, d, i - 1);
    }
}

/// The run really is a run: all its characters share the status `d`,
/// and the character after it (if any) does not.
proof fn lemma_matching_run_props(t: Seq<char>, d: bool)
    ensures
        matching_run(t, d) <= t.len(),
        forall|k: int| 0 <= k < matching_run(t, d) ==> spec_is_delimiter(#[trigger] t[k]) == d,
        matching_run(t, d) < t.len() ==> spec_is_delimiter(t[matching_run(t, d) as int]) != d,
    decreases t.len(),
{
    if !(t.len() == 0 || spec_is_delimiter(t[0]) != d) {
        let t2 = t.drop_first();
        lemma_matching_run_props(t2, d);
        assert forall|k: int| 0 <= k < matching_run(t, d) implies spec_is_delimiter(
            #[trigger] t[k],
        ) == d by {
            if k > 0 {
                assert(t[k] == t2[k - 1]);
            }
        }
    }
}

/// The text cut into its maximal spans, in order: characters within one
/// span agree on delimiter-status, adjacent spans differ in it, and the
/// concatenation of all spans is the text itself.
pub open spec fn spans_of(t: Seq<char>) -> Seq<Seq<char>>
    decreases t.len(),
    via spans_of_decreases
{
    if t.len() == 0 {
        Seq::<Seq<char>>::empty()
    } else {
        seq![t.take(leading_span(t) as int)] + spans_of(t.skip(leading_span(t) as int))
    }
}

#[via_fn]
proof fn spans_of_decreases(t: Seq<char>) {
    if t.len() != 0 {
        lemma_matching_run_le(t, spec_is_delimiter(t[0]));
        assert(leading_span(t) >= 1);
        assert(t.skip(leading_span(t) as int).len() < t.len());
    }
}

/// Whether a span is a separator span (its characters are delimiters)
/// rather than a word span.
pub open spec fn span_is_separator(s: Seq<char>) -> bool {
    s.len() > 0 && spec_is_delimiter(s[0])
}

/// Prepending one maximal span to a text that does not continue it adds
/// exactly one entry at the front of the span decomposition.
proof fn lemma_spans_prepend(a: Seq<char>, b: Seq<char>)
    requires
        a.len() > 0,
        forall|k: int|
            0 <= k < a.len() ==> spec_is_delimiter(#[trigger] a[k]) == spec_is_delimiter(a[0]),
        b.len() > 0 ==> spec_is_delimiter(b[0]) != spec_is_delimiter(a[0]),
    ensures
        spans_of(a + b) == seq![a] + spans_of(b),
{
    let t = a + b;
    let d = spec_is_delimiter(a[0]);
    assert(t[0] == a[0]);
    assert forall|k: int| 0 <= k < a.len() implies spec_is_delimiter(#[trigger] t[k]) == d by {
        assert(t[k] == a[k]);
    }
    assert(a.len() < t.len() ==> spec_is_delimiter(t[a.len() as int]) != d);
    lemma_matching_run_from_scan(t, d, a.len() as int);
    assert(leading_span(t) == a.len());
    assert(t.take(a.len() as int) =~= a);
    assert(t.skip(a.len() as int) =~= b);
}

/// Translation preserves the text's word/separator structure: the
/// translated text cuts into just as many spans, word spans stay word
/// spans and separator spans stay separator spans, and every separator
/// span comes through letter for letter. Only the contents of the word
/// spans change. Stated for ASCII texts, where case conversion is known
/// never to produce a delimiter character.
pub proof fn lemma_translation_structure(t: Seq<char>)
    requires
        forall|i: int| 0 <= i < t.len() ==> char_is_ascii(#[trigger] t[i]),
    ensures
        spans_of(text_translation(t)).len() == spans_of(t).len(),
        forall|i: int|
            0 <= i < spans_of(t).len() ==> (span_is_separator(#[trigger] spans_of(t)[i])
                <==> span_is_separator(spans_of(text_translation(t))[i])),
        forall|i: int|
            0 <= i < spans_of(t).len() && span_is_separator(#[trigger] spans_of(t)[i])
                ==> spans_of(text_translation(t))[i] == spans_of(t)[i],
        text_translation(t).len() > 0 <==> t.len() > 0,
        t.len() > 0 ==> spec_is_delimiter(text_translation(t)[0]) == spec_is_delimiter(t[0]),
    decreases t.len(),
{
    if t.len() == 0 {
    } else {
        let d = spec_is_delimiter(t[0]);
        lemma_matching_run_props(t, d);
        let k = leading_span(t) as int;
        assert(1 <= k <= t.len());
        let span = t.take(k);
        let rest = t.skip(k);
        let out_span = if d {
            span
        } else {
            word_translation(span)
        };
        let out = text_translation(t);
        assert(out == out_span + text_translation(rest));
        assert forall|i: int| 0 <= i < rest.len() implies char_is_ascii(#[trigger] rest[i]) by {
            assert(rest[i] == t[i + k]);
        }
        lemma_translation_structure(rest);
        assert forall|i: int| 0 <= i < span.len() implies char_is_ascii(#[trigger] span[i])
            && spec_is_delimiter(span[i]) == d by {
            assert(span[i] == t[i]);
        }
        if !d {
            lemma_word_translation_word_span(span);
        }
        assert(out_span.len() > 0);
        assert(spec_is_delimiter(out_span[0]) == d);
        assert(rest.len() > 0 ==> spec_is_delimiter(rest[0]) != d);
        // both texts decompose into the head span plus the rest's spans
        assert(span + rest =~= t);
        lemma_spans_prepend(span, rest);
        assert(spans_of(t) == seq![span] + spans_of(rest));
        lemma_spans_prepend(out_span, text_translation(rest));
        assert(spans_of(out) == seq![out_span] + spans_of(text_translation(rest)));
        assert forall|i: int| 0 <= i < spans_of(t).len() implies (span_is_separator(
            #[trigger] spans_of(t)[i],
        ) <==> span_is_separator(spans_of(out)[i])) by {
            if i > 0 {
                assert(spans_of(t)[i] == spans_of(rest)[i - 1]);
                assert(spans_of(out)[i] == spans_of(text_translation(rest))[i - 1]);
            }
        }
        assert forall|i: int|
            0 <= i < spans_of(t).len() && span_is_separator(
                #[trigger] spans_of(t)[i],
            ) implies spans_of(out)[i] == spans_of(t)[i] by {
            if i > 0 {
                assert(spans_of(t)[i] == spans_of(rest)[i - 1]);
                assert(spans_of(out)[i] == spans_of(text_translation(rest))[i - 1]);
            }
        }
        assert(out[0] == out_span[0]);
    }
}

/// One unfolding of [`text_translation`], phrased over the suffix that
/// starts at `i`: the span `t[i..j]` is emitted (translated when it is a
/// word span) and the walk continues at `j`.
proof fn lemma_text_translation_step(t: Seq<char>, i: int, j: int)
    requires
        0 <= i < j <= t.len(),
        forall|k: int| i <= k < j ==> spec_is_delimiter(t[k]) == spec_is_delimiter(t[i]),
        j < t.len() ==> spec_is_delimiter(t[j]) != spec_is_delimiter(t[i]),
    ensures
        text_translation(t.skip(i)) == (if spec_is_delimiter(t[i]) {
            t.subrange(i, j)
        } else {
            word_translation(t.subrange(i, j))
        }) + text_translation(t.skip(j)),
{
    let suffix = t.skip(i);
    assert(suffix.len() == t.len() - i);
    assert(suffix[0] == t[i]);
    let d = spec_is_delimiter(t[i]);
    assert forall|k: int| 0 <= k < j - i implies spec_is_delimiter(suffix[k]) == d by {
        assert(suffix[k] == t[k + i]);
    }
    assert(j - i < suffix.len() ==> spec_is_delimiter(suffix[j - i]) != d);
    lemma_matching_run_from_scan(suffix, d, j - i);
    assert(leading_span(suffix) == j - i);
    assert(suffix.take(j - i) =~= t.subrange(i, j));
    assert(suffix.skip(j - i) =~= t.skip(j));
}

/// # Translate English into Pig Latin.
///
/// Translates arbitrary text word by word. The text is tokenized into
/// words (contiguous substrings free of whitespace and ASCII
/// punctuation); each word is translated as by
/// [`translate_word`](crate::translate_word), and every character
/// between words is kept verbatim, so whitespace, layout, structure and
/// punctuation are preserved in translation.
pub fn translate(english: &str) -> (r: String)
    ensures
        r@ == text_translation(english@),
{
    let n = english.unicode_len();
    let mut translated = String::new();
    let mut i: usize = 0;
    proof {
        assert(english@.skip(0) =~= english@);
        assert(translated@ + text_translation(english@) =~= text_translation(english@));
    }
    while i < n
        invariant
            i <= n,
            n == english@.len(),
            translated@ + text_translation(english@.skip(i as int)) == text_translation(english@),
        decreases n - i,
    {
        let first = english.get_char(i);
        let d = is_delimiter(first);
        let mut j = i + 1;
        while j < n && is_delimiter(english.get_char(j)) == d
            invariant
                i < j <= n,
                n == english@.len(),
                d == spec_is_delimiter(english@[i as int]),
                forall|k: int|
                    i <= k < j ==> spec_is_delimiter(english@[k]) == spec_is_delimiter(
                        english@[i as int],
                    ),
            decreases n - j,
        {
            j = j + 1;
        }
        let span = english.substring_char(i, j);
        proof {
            lemma_text_translation_step(english@, i as int, j as int);
        }
        let ghost translated0 = translated@;
        if d {
            translated.append(span);
        } else {
            let word = translate_word(span);
            translated.append(word.as_str());
        }
        proof {
            assert(translated@ + text_translation(english@.skip(j as int)) =~= translated0
                + ((if spec_is_delimiter(english@[i as int]) {
                english@.subrange(i as int, j as int)
            } else {
                word_translation(english@.subrange(i as int, j as int))
            }) + text_translation(english@.skip(j as int))));
        }
        i = j;
    }
    proof {
        assert(english@.skip(n as int) =~= Seq::<char>::empty());
        assert(translated@ + text_translation(Seq::<char>::empty()) =~= translated@);
    }
    translated
}

} // verus!
