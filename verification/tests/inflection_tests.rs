use kindle_dict::dictionary::Dictionary;
use kindle_dict::inflection::{inflect, WordRegex};
use kindle_dict::word_class::WordClass;

fn forms(headword: &str, word_class: WordClass) -> Vec<String> {
    let re = WordRegex::new().unwrap();
    let irregular = Dictionary::generate_irregular_verbs("en");
    inflect("en", headword, word_class, &re, &irregular)
}

#[test]
fn plural_of_sibilant_ending_takes_es() {
    assert_eq!(forms("bus", WordClass::Noun), vec!["buses"]);
    assert_eq!(forms("dish", WordClass::Noun), vec!["dishes"]);
    assert_eq!(forms("church", WordClass::Noun), vec!["churches"]);
    assert_eq!(forms("box", WordClass::Noun), vec!["boxes"]);
}

#[test]
fn plural_of_o_ending_follows_the_exception_list() {
    assert_eq!(forms("potato", WordClass::Noun), vec!["potatoes"]);
    assert_eq!(forms("hero", WordClass::Noun), vec!["heroes"]);
    assert_eq!(forms("photo", WordClass::Noun), vec!["photos"]);
}

#[test]
fn plural_of_consonant_y_is_ies() {
    assert_eq!(forms("fly", WordClass::Noun), vec!["flies"]);
    assert_eq!(forms("boy", WordClass::Noun), vec!["boys"]);
}

#[test]
fn plural_default_appends_s() {
    assert_eq!(forms("cat", WordClass::Noun), vec!["cats"]);
}

#[test]
fn verb_forms_follow_the_rules() {
    assert_eq!(forms("make", WordClass::Verb), vec!["makes", "making", "maked"]);
    assert_eq!(forms("tie", WordClass::Verb), vec!["ties", "tying", "tied"]);
    assert_eq!(forms("run", WordClass::Verb), vec!["runs", "running", "runned"]);
    assert_eq!(forms("walk", WordClass::Verb), vec!["walks", "walking", "walked"]);
    assert_eq!(forms("see", WordClass::Verb), vec!["sees", "seeing", "seed"]);
    assert_eq!(forms("play", WordClass::Verb), vec!["plays", "playing", "played"]);
    assert_eq!(forms("carry", WordClass::Verb), vec!["carries", "carrying", "carried"]);
    assert_eq!(forms("stop", WordClass::Verb), vec!["stops", "stopping", "stopped"]);
}

#[test]
fn irregular_verb_lists_its_forms_verbatim() {
    assert_eq!(
        forms("be", WordClass::Verb),
        vec!["bes", "bing", "was", "were", "been", "am", "are", "is"]
    );
    assert_eq!(forms("Arise", WordClass::Verb)[2..], ["arose", "arisen"]);
}

#[test]
fn other_languages_and_classes_have_no_forms() {
    let re = WordRegex::new().unwrap();
    let irregular = Dictionary::generate_irregular_verbs("de");
    assert!(irregular.is_empty());
    assert!(inflect("de", "Haus", WordClass::Noun, &re, &irregular).is_empty());
    assert!(forms("quick", WordClass::Adjective).is_empty());
}
