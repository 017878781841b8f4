use pig_latin::translate;
use pig_latin::translate_word;

// consonant examples
#[test]
fn first() {
    let result = translate("first");
    assert_eq!(result, "irstfay");
}

#[test]
fn pigs() {
    let result = translate("pigs");
    assert_eq!(result, "igspay");
}

#[test]
fn latin() {
    let result = translate("latin");
    assert_eq!(result, "atinlay");
}

#[test]
fn banana() {
    let result = translate("banana");
    assert_eq!(result, "ananabay");
}

// vowel examples
#[test]
fn apple() {
    let result = translate("apple");
    assert_eq!(result, "applehay");
}

#[test]
fn ear() {
    let result = translate("ear");
    assert_eq!(result, "earhay");
}

#[test]
fn omelet() {
    let result = translate("omelet");
    assert_eq!(result, "omelethay");
}

#[test]
fn words_is_sentence_if_word_input() {
    for example in ["first", "pigs", "latin", "apple", "banana", "ear", "omelet"] {
        assert_eq!(translate_word(example), translate(example))
    }
}

// sentence examples
#[test]
fn this_is_pigs_latin() {
    let result = translate("This is pigs latin.");
    assert_eq!(result, "Isthay ishay igspay atinlay.")
}

#[test]
fn easy_innit() {
    let result = translate("This is all quite easy, is it not?");
    assert_eq!(
        result,
        "Isthay ishay allhay itequay easyhay, ishay ithay otnay?"
    )
}

// edge cases and regressions
#[test]
fn empty() {
    assert_eq!(translate(""), "");
}
