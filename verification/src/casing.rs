//! Casing transfer: re-case one string's characters position by position
//! after the case pattern of another string.

use vstd::prelude::*;

use crate::chars::char_is_ascii;
use crate::chars::char_is_lowercase;
use crate::chars::char_is_uppercase;
use crate::chars::char_to_lowercase;
use crate::chars::char_to_uppercase;
use crate::chars::push_char;
use crate::chars::spec_is_delimiter;
use crate::chars::unicode_lowercase;
use crate::chars::unicode_lowercase_chars;
use crate::chars::unicode_uppercase;
use crate::chars::unicode_uppercase_chars;

verus! {

/// The case class of one character: lowercase, uppercase, or neither
/// (digits, punctuation and other caseless characters).
#[derive(PartialEq, Eq, Structural, Debug, Copy, Clone)]
pub enum CharCase {
    Lower,
    Upper,
    Eh,
}

/// The case class of `c`: for ASCII characters directly by the letter
/// ranges, beyond ASCII by the Unicode Lowercase and Uppercase properties.
pub open spec fn case_of(c: char) -> CharCase {
    if char_is_ascii(c) {
        if 97 <= c as u32 && c as u32 <= 122 {
            CharCase::Lower
        } else if 65 <= c as u32 && c as u32 <= 90 {
            CharCase::Upper
        } else {
            CharCase::Eh
        }
    } else if unicode_lowercase(c) {
        CharCase::Lower
    } else if unicode_uppercase(c) {
        CharCase::Upper
    } else {
        CharCase::Eh
    }
}

impl CharCase {
    pub fn from_char(c: &char) -> (r: CharCase)
        ensures
            r == case_of(*c),
    {
        let u = *c as u32;
        if u < 128 {
            if 97 <= u && u <= 122 {
                CharCase::Lower
            } else if 65 <= u && u <= 90 {
                CharCase::Upper
            } else {
                CharCase::Eh
            }
        } else if char_is_lowercase(*c) {
            CharCase::Lower
        } else if char_is_uppercase(*c) {
            CharCase::Upper
        } else {
            CharCase::Eh
        }
    }
}

/// The uppercase form of an ASCII letter; other characters are unchanged.
pub open spec fn ascii_upper(c: char) -> char {
    if 97 <= c as u32 && c as u32 <= 122 {
        (c as u32 - 32) as char
    } else {
        c
    }
}

/// The lowercase form of an ASCII letter; other characters are unchanged.
pub open spec fn ascii_lower(c: char) -> char {
    if 65 <= c as u32 && c as u32 <= 90 {
        (c as u32 + 32) as char
    } else {
        c
    }
}

/// The uppercase mapping of `c`: the ASCII rule below 128, the Unicode
/// mapping above it (which may be more than one character).
pub open spec fn upper_chars(c: char) -> Seq<char> {
    if char_is_ascii(c) {
        seq![ascii_upper(c)]
    } else {
        unicode_uppercase_chars(c)
    }
}

/// The lowercase mapping of `c`, as [`upper_chars`].
pub open spec fn lower_chars(c: char) -> Seq<char> {
    if char_is_ascii(c) {
        seq![ascii_lower(c)]
    } else {
        unicode_lowercase_chars(c)
    }
}

/// What one character of the text becomes under a target case class:
/// unchanged when the class is indeterminate or already matches, else
/// the full case mapping in the target's direction.
pub open spec fn rendered(c: char, target: CharCase) -> Seq<char> {
    if target == CharCase::Eh || case_of(c) == target {
        seq![c]
    } else if target == CharCase::Upper {
        upper_chars(c)
    } else {
        lower_chars(c)
    }
}

/// Casing transfer over character sequences. `text` and `casing` are
/// walked in parallel; each text character is rendered in the case class
/// of the casing character at the same position. Once `casing` is
/// exhausted, the class last drawn from it (`carried`, initially
/// indeterminate) repeats for all remaining positions.
pub open spec fn recased(text: Seq<char>, casing: Seq<char>, carried: CharCase) -> Seq<char>
    decreases text.len(),
{
    if text.len() == 0 {
        Seq::<char>::empty()
    } else {
        let target = if casing.len() > 0 {
            case_of(casing[0])
        } else {
            carried
        };
        let rest = if casing.len() > 0 {
            casing.drop_first()
        } else {
            casing
        };
        rendered(text[0], target) + recased(text.drop_first(), rest, target)
    }
}

/// Casing transfer as seen by callers: the carried class starts out
/// indeterminate, so an empty casing source leaves the text unchanged.
pub open spec fn recase(text: Seq<char>, casing: Seq<char>) -> Seq<char> {
    recased(text, casing, CharCase::Eh)
}

/// The case class in force after `i` positions of `casing` have been read.
pub open spec fn carried_after(casing: Seq<char>, i: int) -> CharCase {
    if i <= 0 || casing.len() == 0 {
        CharCase::Eh
    } else if i <= casing.len() {
        case_of(casing[i - 1])
    } else {
        case_of(casing[casing.len() - 1])
    }
}

/// The part of `casing` still unread after `i` positions.
pub open spec fn casing_rest(casing: Seq<char>, i: int) -> Seq<char> {
    if 0 <= i <= casing.len() {
        casing.skip(i)
    } else {
        Seq::<char>::empty()
    }
}

/// Append to `out` what `c` becomes under the class `target`.
fn push_rendered(out: &mut String, c: char, target: CharCase)
    ensures
        final(out)@ == old(out)@ + rendered(c, target),
{
    let ghost out0 = old(out)@;
    let cc = CharCase::from_char(&c);
    if cc != target && target != CharCase::Eh {
        let u = c as u32;
        match target {
            CharCase::Upper => {
                if u < 128 {
                    let up = if 97 <= u && u <= 122 {
                        ((u - 32) as u8) as char
                    } else {
                        c
                    };
                    assert(up == ascii_upper(c));
                    push_char(out, up);
                    assert(out@ =~= out0 + rendered(c, target));
                } else {
                    let cs = char_to_uppercase(c);
                    append_chars(out, &cs);
                    assert(out@ =~= out0 + rendered(c, target));
                }
            },
            CharCase::Lower => {
                if u < 128 {
                    let low = if 65 <= u && u <= 90 {
                        ((u + 32) as u8) as char
                    } else {
                        c
                    };
                    assert(low == ascii_lower(c));
                    push_char(out, low);
                    assert(out@ =~= out0 + rendered(c, target));
                } else {
                    let cs = char_to_lowercase(c);
                    append_chars(out, &cs);
                    assert(out@ =~= out0 + rendered(c, target));
                }
            },
            CharCase::Eh => {
                // excluded by the branch condition
            },
        }
    } else {
        push_char(out, c);
        assert(out@ =~= out0 + rendered(c, target));
    }
}

/// Append every character of `cs` to `out`, in order.
fn append_chars(out: &mut String, cs: &Vec<char>)
    ensures
        final(out)@ == old(out)@ + cs@,
{
    let ghost out0 = old(out)@;
    let mut k: usize = 0;
    while k < cs.len()
        invariant
            k <= cs.len(),
            out@ == out0 + cs@.take(k as int),
        decreases cs.len() - k,
    {
        push_char(out, cs[k]);
        assert(out@ =~= out0 + cs@.take(k as int + 1));
        k = k + 1;
    }
    assert(out@ =~= out0 + cs@);
}

/// Transfer the sequence of upper/lower casing from one string to another.
///
/// Identifies the sequence of UPPER/lower casing of characters in
/// `casing_of`, then applies the same casing to `text`, position by
/// position. Apart from the casing, the content of `text` is unchanged;
/// when `casing_of` is shorter than `text`, its last case class repeats
/// for the remaining positions, and when it is empty, `text` comes back
/// unchanged.
pub fn apply_casing_like(text: &str, casing_of: &str) -> (r: String)
    ensures
        r@ == recase(text@, casing_of@),
{
    let n = text.unicode_len();
    let m = casing_of.unicode_len();
    let mut result = String::new();
    let mut target = CharCase::Eh;
    let mut i: usize = 0;
    proof {
        assert(text@.skip(0) =~= text@);
        assert(casing_rest(casing_of@, 0) =~= casing_of@);
        assert(result@ + recased(text@, casing_of@, CharCase::Eh) =~= recased(
            text@,
            casing_of@,
            CharCase::Eh,
        ));
    }
    while i < n
        invariant
            i <= n,
            n == text@.len(),
            m == casing_of@.len(),
            target == carried_after(casing_of@, i as int),
            result@ + recased(text@.skip(i as int), casing_rest(casing_of@, i as int), target)
                == recase(text@, casing_of@),
        decreases n - i,
    {
        let ghost prev_target = target;
        if i < m {
            let casing_char = casing_of.get_char(i);
            target = CharCase::from_char(&casing_char);
        }
        let c = text.get_char(i);
        proof {
            lemma_recased_step(text@, casing_of@, prev_target, i as int);
        }
        let ghost result0 = result@;
        push_rendered(&mut result, c, target);
        proof {
            assert(result@ + recased(
                text@.skip(i as int + 1),
                casing_rest(casing_of@, i as int + 1),
                target,
            ) =~= result0 + (rendered(text@[i as int], target) + recased(
                text@.skip(i as int + 1),
                casing_rest(casing_of@, i as int + 1),
                target,
            )));
        }
        i = i + 1;
    }
    proof {
        assert(result@ + recased(
            text@.skip(n as int),
            casing_rest(casing_of@, n as int),
            target,
        ) =~= result@);
    }
    result
}

/// One step of [`recased`], phrased over the suffixes that the
/// translation loop walks: reading position `i` renders the text
/// character there in the class drawn at `i` and moves both suffixes
/// forward by one.
proof fn lemma_recased_step(text: Seq<char>, casing: Seq<char>, carried: CharCase, i: int)
    requires
        0 <= i < text.len(),
        carried == carried_after(casing, i),
    ensures
        recased(text.skip(i), casing_rest(casing, i), carried) == rendered(
            text[i],
            carried_after(casing, i + 1),
        ) + recased(text.skip(i + 1), casing_rest(casing, i + 1), carried_after(casing, i + 1)),
{
    let suffix = text.skip(i);
    let crest = casing_rest(casing, i);
    assert(suffix.len() > 0);
    assert(suffix[0] == text[i]);
    let target = if crest.len() > 0 {
        case_of(crest[0])
    } else {
        carried
    };
    if i < casing.len() {
        assert(crest == casing.skip(i));
        assert(crest[0] == casing[i]);
        assert(target == case_of(casing[i]));
        assert(target == carried_after(casing, i + 1));
        assert(crest.drop_first() =~= casing_rest(casing, i + 1));
    } else {
        assert(crest.len() == 0);
        assert(target == carried);
        assert(carried_after(casing, i + 1) == carried_after(casing, i));
        assert(casing_rest(casing, i + 1) =~= crest);
    }
    assert(suffix.drop_first() =~= text.skip(i + 1));
}

/// What a position of a re-cased text can hold: the character that
/// stood there, or its ASCII case-flipped form.
pub open spec fn is_case_variant(c: char, o: char) -> bool {
    o == c || o == ascii_upper(c) || o == ascii_lower(c)
}

/// Re-casing an all-ASCII text never changes its length, and changes
/// each character at most into its ASCII case-flipped form.
pub proof fn lemma_recased_ascii(text: Seq<char>, casing: Seq<char>, carried: CharCase)
    requires
        forall|k: int| 0 <= k < text.len() ==> char_is_ascii(#[trigger] text[k]),
    ensures
        recased(text, casing, carried).len() == text.len(),
        forall|k: int|
            0 <= k < text.len() ==> is_case_variant(
                text[k],
                #[trigger] recased(text, casing, carried)[k],
            ),
    decreases text.len(),
{
    if text.len() > 0 {
        let target = if casing.len() > 0 {
            case_of(casing[0])
        } else {
            carried
        };
        let rest = if casing.len() > 0 {
            casing.drop_first()
        } else {
            casing
        };
        let head = rendered(text[0], target);
        assert(char_is_ascii(text[0]));
        assert(head.len() == 1 && is_case_variant(text[0], head[0]));
        let tail_text = text.drop_first();
        assert forall|k: int| 0 <= k < tail_text.len() implies char_is_ascii(
            #[trigger] tail_text[k],
        ) by {
            assert(tail_text[k] == text[k + 1]);
        }
        lemma_recased_ascii(tail_text, rest, target);
        let whole = recased(text, casing, carried);
        let tail_out = recased(tail_text, rest, target);
        assert(whole == head + tail_out);
        assert forall|k: int| 0 <= k < text.len() implies is_case_variant(
            text[k],
            #[trigger] whole[k],
        ) by {
            if k == 0 {
                assert(whole[0] == head[0]);
            } else {
                assert(whole[k] == tail_out[k - 1]);
                assert(text[k] == tail_text[k - 1]);
            }
        }
    }
}

/// ASCII case-flipping keeps a character inside ASCII and never moves
/// it into or out of the delimiter set: it only exchanges letters for
/// letters.
pub proof fn lemma_case_variant_delim(c: char, o: char)
    requires
        char_is_ascii(c),
        is_case_variant(c, o),
    ensures
        char_is_ascii(o),
        spec_is_delimiter(o) == spec_is_delimiter(c),
{
}

/// A text re-cased after itself comes back unchanged: at every position
/// the target class is the class the character already has.
pub proof fn lemma_recase_identity(text: Seq<char>)
    ensures
        recase(text, text) == text,
{
    lemma_recased_self(text, CharCase::Eh);
}

proof fn lemma_recased_self(text: Seq<char>, carried: CharCase)
    ensures
        recased(text, text, carried) == text,
    decreases text.len(),
{
    if text.len() == 0 {
        assert(recased(text, text, carried) =~= text);
    } else {
        let target = case_of(text[0]);
        assert(rendered(text[0], target) =~= seq![text[0]]);
        lemma_recased_self(text.drop_first(), target);
        assert(recased(text, text, carried) =~= seq![text[0]] + text.drop_first());
        assert(seq![text[0]] + text.drop_first() =~= text);
    }
}

} // verus!
