use pig_latin::apply_casing_like;
use pig_latin::is_vowel;
use pig_latin::translate_word;

// units
#[test]
fn _is_vowel() {
    assert_eq!(is_vowel(&'a'), true);
    assert_eq!(is_vowel(&'u'), true);
    assert_eq!(is_vowel(&'k'), false);
    assert_eq!(is_vowel(&'q'), false);
    assert_eq!(is_vowel(&'f'), false);
    assert_eq!(is_vowel(&' '), false);
    assert_eq!(is_vowel(&'.'), false);
    assert_eq!(is_vowel(&'7'), false);
}

#[test]
fn copy_casing() {
    assert_eq!(apply_casing_like("foo", "bar"), String::from("foo"));
    assert_eq!(apply_casing_like("foo", "bAr"), String::from("fOo"));
    assert_eq!(apply_casing_like("foo", "BAR"), String::from("FOO"));
    assert_eq!(apply_casing_like("fOo", "Bar"), String::from("Foo"));
    assert_eq!(
        apply_casing_like("fOObar", "BarBaz"),
        String::from("FooBar")
    );
    assert_eq!(apply_casing_like("AB", "ABC"), "AB");
    assert_eq!(apply_casing_like("AbCd", "Ab"), "Abcd");
}

#[test]
fn copy_casing_ligature() {
    assert_eq!(apply_casing_like("ﬁre", "HELLO"), "FIRE");
    assert_eq!(apply_casing_like("æorlingas", "Ha!"), "Æorlingas");
    assert_eq!(apply_casing_like("Straße", "TROLOLOLO"), "STRASSE");
}

#[test]
fn copy_casing_empty() {
    assert_eq!(apply_casing_like("", "Hello"), "");
    assert_eq!(apply_casing_like("Hello", ""), "Hello");
}

#[test]
fn translate_word_just_q_or_qu() {
    assert_eq!(translate_word("q"), "qay");
    assert_eq!(translate_word("qu"), "quay");
    assert_eq!(translate_word("quaint"), "aintquay");
}

#[test]
fn translate_word_upper_qu() {
    assert_eq!(translate_word("QUERY"), "ERYQUAY");
    assert_eq!(translate_word("query"), "eryquay");
    assert_eq!(translate_word("qUeRy"), "eRyQuay");
    assert_eq!(translate_word("Query"), "Eryquay");
}
