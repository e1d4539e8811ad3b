use kindle_dict::dictionary::Dictionary;
use kindle_dict::meaning::Meaning;
use kindle_dict::term::Term;
use kindle_dict::word_class::WordClass;

fn meaning(description: &str, translations: &[&str]) -> Meaning {
    let mut m = Meaning::new(description);
    for t in translations {
        m.add_translation(t);
    }
    m
}

fn english() -> Dictionary {
    Dictionary::new("en", "cs", "Title", "Author").unwrap()
}

#[test]
fn word_class_labels() {
    assert_eq!(WordClass::Noun.as_str(), "noun");
    assert_eq!(WordClass::Verb.as_str(), "verb");
    assert_eq!(WordClass::Adjective.as_str(), "adjective");
    assert_eq!(WordClass::Adverb.as_str(), "adverb");
    assert_eq!(WordClass::Determiner.as_str(), "determiner");
    assert_eq!(WordClass::LinkingWord.as_str(), "linking");
    assert_eq!(WordClass::Preposition.as_str(), "preposition");
    assert_eq!(WordClass::Pronoun.as_str(), "pronoun");
    assert_eq!(WordClass::Unknown.as_str(), "other");
}

#[test]
fn word_class_order() {
    let order = [
        WordClass::Verb,
        WordClass::Noun,
        WordClass::Adjective,
        WordClass::Adverb,
        WordClass::Preposition,
        WordClass::Determiner,
        WordClass::Pronoun,
        WordClass::LinkingWord,
        WordClass::Unknown,
    ];
    for (i, c) in order.iter().enumerate() {
        assert_eq!(c.position() as usize, i);
    }
    assert!(WordClass::Verb < WordClass::Noun);
    assert!(WordClass::LinkingWord < WordClass::Unknown);
}

#[test]
fn meaning_starts_empty() {
    let m = Meaning::new("");
    assert!(m.is_empty());
    assert_eq!(m.order(), 0);
    assert!(!Meaning::new("a gloss").is_empty());
}

#[test]
fn meaning_translations_do_not_repeat() {
    let m = meaning("", &["pes", "kočka", "pes"]);
    assert_eq!(m.translations(), &vec!["pes", "kočka"]);
    assert!(!m.is_empty());
    assert_eq!(m.key(), "");
    assert_eq!(meaning("Animal", &[]).key(), "animal");
    let copy = m.duplicate();
    assert_eq!(copy.translations(), m.translations());
    assert_eq!(copy.description(), m.description());
}

#[test]
fn term_emptiness() {
    assert!(Term::new("").is_empty());
    assert!(Term::new("dog").is_empty());
    let mut t = Term::new("dog");
    t.add_pronunciation("US", "/dɔɡ/");
    assert!(!t.is_empty());
    let mut t = Term::new("dog");
    t.add_meaning(WordClass::Noun, &meaning("animal", &["pes"]));
    assert!(!t.is_empty());
    let mut t = Term::new("");
    t.add_pronunciation("US", "/x/");
    assert!(t.is_empty());
}

#[test]
fn term_keeps_sources_in_name_order_and_items_in_arrival_order() {
    let mut t = Term::new("dog");
    t.add_pronunciation("wiki", "/w/");
    t.add_pronunciation("US", "/a/");
    t.add_pronunciation("UK", "/b/");
    t.add_pronunciation("US", "/c/");
    t.add_pronunciation("US", "/a/");
    let names: Vec<&str> = t.pronunciations().iter().map(|p| p.name()).collect();
    assert_eq!(names, vec!["UK", "US", "wiki"]);
    assert_eq!(t.pronunciations()[1].items(), &vec!["/a/", "/c/", "/a/"]);
}

#[test]
fn term_keeps_classes_in_rendering_order() {
    let mut t = Term::new("run");
    t.add_meaning(WordClass::Unknown, &meaning("x", &["a"]));
    t.add_meaning(WordClass::Noun, &meaning("y", &["b"]));
    t.add_meaning(WordClass::Verb, &meaning("z", &["c"]));
    t.add_meaning(WordClass::Noun, &meaning("w", &["d"]));
    let classes: Vec<WordClass> = t.classes().iter().map(|c| c.word_class()).collect();
    assert_eq!(classes, vec![WordClass::Verb, WordClass::Noun, WordClass::Unknown]);
    assert_eq!(t.classes()[1].meanings().len(), 2);
}

#[test]
fn headwords_resolve_by_their_case_folded_form() {
    let mut d = english();
    d.add_pronunciation("Dog", "US", "/dɔɡ/");
    d.add_meaning("DOG", WordClass::Noun, meaning("animal", &["pes"]));
    d.add_pronunciation("dog", "UK", "/dɒɡ/");
    assert_eq!(d.len(), 1);
    let t = d.lookup("dOg").unwrap();
    assert_eq!(t.headword(), "Dog");
    assert_eq!(t.pronunciations().len(), 2);
    assert_eq!(t.classes().len(), 1);
    assert_eq!(t.inflections(), &vec!["DOGs"]);
    assert!(d.lookup("cat").is_none());
    assert_eq!(Dictionary::word_to_key("DoG"), "dog");
}

#[test]
fn readding_a_meaning_changes_neither_translations_nor_rank() {
    let mut d = english();
    d.add_meaning("dog", WordClass::Noun, meaning("animal", &["pes"]));
    d.add_meaning("dog", WordClass::Noun, meaning("person", &["chlap"]));
    d.add_meaning("dog", WordClass::Noun, meaning("Animal", &["pes", "psisko"]));
    d.add_meaning("dog", WordClass::Noun, meaning("Animal", &["pes", "psisko"]));
    let t = d.lookup("dog").unwrap();
    let meanings = t.classes()[0].meanings();
    assert_eq!(meanings.len(), 2);
    assert_eq!(meanings[0].description(), "animal");
    assert_eq!(meanings[0].order(), 0);
    assert_eq!(meanings[0].translations(), &vec!["pes", "psisko"]);
    assert_eq!(meanings[1].description(), "person");
    assert_eq!(meanings[1].order(), 1);
    assert_eq!(t.inflections(), &vec!["dogs"]);
}

#[test]
fn meaning_position_is_the_rank_it_has_or_would_get() {
    let mut d = english();
    let animal = meaning("animal", &["pes"]);
    assert_eq!(d.get_meaning_position("dog", &WordClass::Noun, &animal), 0);
    d.add_meaning("dog", WordClass::Noun, meaning("animal", &["pes"]));
    d.add_meaning("dog", WordClass::Noun, meaning("person", &["chlap"]));
    assert_eq!(d.get_meaning_position("dog", &WordClass::Noun, &animal), 0);
    assert_eq!(d.get_meaning_position("dog", &WordClass::Noun, &meaning("PERSON", &[])), 1);
    assert_eq!(d.get_meaning_position("dog", &WordClass::Noun, &meaning("tool", &[])), 2);
    assert_eq!(d.get_meaning_position("dog", &WordClass::Verb, &animal), 0);
    assert_eq!(d.get_meaning_position("cat", &WordClass::Noun, &animal), 0);
}

#[test]
fn verbs_gain_their_forms_once() {
    let mut d = english();
    d.add_meaning("be", WordClass::Verb, meaning("exist", &["být"]));
    d.add_meaning("be", WordClass::Verb, meaning("exist", &["existovat"]));
    let t = d.lookup("be").unwrap();
    assert_eq!(t.inflections(), &vec!["bes", "bing", "was", "were", "been", "am", "are", "is"]);
}

#[test]
fn other_source_languages_derive_no_forms() {
    let mut d = Dictionary::new("de", "cs", "t", "a").unwrap();
    d.add_meaning("Haus", WordClass::Noun, meaning("", &["dům"]));
    assert!(d.lookup("haus").unwrap().inflections().is_empty());
    assert_eq!(d.source_language(), "de");
    assert_eq!(d.target_language(), "cs");
    assert_eq!(d.title(), "t");
    assert_eq!(d.author(), "a");
}

#[test]
fn irregular_verb_table() {
    let table = Dictionary::en_get_irregular_verbs();
    let bases: Vec<&str> = table.iter().map(|v| v.base()).collect();
    assert_eq!(bases, vec!["arise", "be", "bear"]);
    assert_eq!(table[2].forms(), &vec!["bore", "borne"]);
    assert_eq!(Dictionary::generate_irregular_verbs("en").len(), 3);
    assert_eq!(Dictionary::generate_irregular_verbs("cs").len(), 0);
}
