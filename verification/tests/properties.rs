use pig_latin::apply_casing_like;
use pig_latin::translate;
use pig_latin::translate_word;

// The output is exactly two codepoints longer for consonant-initial
// words (only "ay" is added; the moved run is not duplicated) and
// exactly three longer for vowel-initial words ("hay").
#[test]
fn length_after_translation() {
    let consonant = translate_word("strength");
    assert_eq!(consonant, "engthstray");
    assert_eq!(consonant.chars().count(), "strength".chars().count() + 2);
    let vowel = translate_word("omelette");
    assert_eq!(vowel, "omelettehay");
    assert_eq!(vowel.chars().count(), "omelette".chars().count() + 3);
    let extended = translate_word("quaint");
    assert_eq!(extended.chars().count(), "quaint".chars().count() + 2);
}

// The single-word entry point is total: an empty word stays empty.
#[test]
fn empty_word() {
    assert_eq!(translate_word(""), "");
}

// 'y' always counts as a consonant, so a word can be consonant-only.
#[test]
fn all_consonants() {
    assert_eq!(translate_word("rhythm"), "rhythmay");
}

// A word re-cased after itself comes back unchanged.
#[test]
fn casing_identity() {
    assert_eq!(apply_casing_like("MiXeD123!", "MiXeD123!"), "MiXeD123!");
    assert_eq!(apply_casing_like("Straße", "Straße"), "Straße");
    assert_eq!(apply_casing_like("æon", "æon"), "æon");
}

// Word and separator boundaries survive translation: every separator
// span comes through verbatim, in place.
#[test]
fn structure_preserved() {
    assert_eq!(translate("  hi\n\nthere.. "), "  ihay\n\nerethay.. ");
    assert_eq!(translate("one\ttwo"), "onehay\totway");
    assert_eq!(translate("?!..."), "?!...");
}

// Non-ASCII whitespace (here a no-break space) also separates words.
#[test]
fn unicode_whitespace_delimits() {
    assert_eq!(translate("a\u{00A0}b"), "ahay\u{00A0}bay");
}

// Case classes of non-ASCII casing sources drive the transfer.
#[test]
fn nonascii_casing_source() {
    assert_eq!(apply_casing_like("abc", "ÄÖÜ"), "ABC");
    assert_eq!(apply_casing_like("ABC", "äöü"), "abc");
}

// Lowercasing of non-ASCII text characters goes through Unicode.
#[test]
fn nonascii_lowercased() {
    assert_eq!(apply_casing_like("ÉÉ", "x"), "éé");
}

// Non-ASCII letters travel with the word they stand in.
#[test]
fn nonascii_word_letters() {
    assert_eq!(translate_word("ûk"), "ûkay");
}

// Examples from the library documentation.
#[test]
fn hello_world() {
    assert_eq!(translate("Hello world!"), "Ellohay orldway!");
    assert_eq!(translate("Question:"), "Estionquay:");
    assert_eq!(
        translate("Early-Adopters are ecstatic?"),
        "Earlyhay-Adoptershay arehay ecstatichay?"
    );
}
