use kindle_dict::dictionary::Dictionary;
use kindle_dict::meaning::Meaning;
use kindle_dict::reverse::has_translation;
use kindle_dict::word_class::WordClass;

fn meaning(description: &str, translations: &[&str]) -> Meaning {
    let mut m = Meaning::new(description);
    for t in translations {
        m.add_translation(t);
    }
    m
}

fn sample() -> Dictionary {
    let mut d = Dictionary::new("en", "cs", "EN-CS", "Me").unwrap();
    d.add_meaning("dog", WordClass::Noun, meaning("animal", &["pes", "čokl"]));
    d.add_meaning("hound", WordClass::Noun, meaning("Animal", &["pes"]));
    d.add_meaning("dog", WordClass::Verb, meaning("follow", &["pronásledovat"]));
    d.add_meaning("gloss", WordClass::Noun, meaning("only a gloss", &[]));
    d.add_pronunciation("cat", "US", "/kæt/");
    d
}

#[test]
fn counts_of_records() {
    let d = sample();
    assert_eq!(d.len(), 4);
    assert_eq!(d.non_empty_len(), 4);
    assert_eq!(d.translations_len(), 2);
    assert!(has_translation(d.lookup("dog").unwrap()));
    assert!(!has_translation(d.lookup("gloss").unwrap()));
    assert!(!has_translation(d.lookup("cat").unwrap()));
}

#[test]
fn reverse_view_keeps_every_translation() {
    let d = sample();
    let r = d.reverse("CS-EN").unwrap();
    assert_eq!(r.source_language(), "cs");
    assert_eq!(r.target_language(), "en");
    assert_eq!(r.title(), "CS-EN");
    assert_eq!(r.author(), "Me");
    assert_eq!(r.len(), 3);
    let pes = r.lookup("PES").unwrap();
    assert_eq!(pes.headword(), "pes");
    assert!(pes.inflections().is_empty());
    assert_eq!(pes.classes().len(), 1);
    let meanings = pes.classes()[0].meanings();
    assert_eq!(meanings.len(), 1);
    assert_eq!(meanings[0].description(), "animal");
    assert_eq!(meanings[0].translations(), &vec!["dog", "hound"]);
    let cokl = r.lookup("čokl").unwrap();
    assert_eq!(cokl.classes()[0].meanings()[0].translations(), &vec!["dog"]);
    let verb = r.lookup("pronásledovat").unwrap();
    assert_eq!(verb.classes()[0].word_class(), WordClass::Verb);
    assert_eq!(verb.classes()[0].meanings()[0].description(), "follow");
    assert_eq!(verb.classes()[0].meanings()[0].translations(), &vec!["dog"]);
}

#[test]
fn reverse_of_an_empty_dictionary_is_empty() {
    let d = Dictionary::new("en", "cs", "T", "A").unwrap();
    assert_eq!(d.reverse("R").unwrap().len(), 0);
    assert_eq!(d.translations_len(), 0);
}
