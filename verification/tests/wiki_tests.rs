use kindle_dict::dictionary::Dictionary;
use kindle_dict::meaning::Meaning;
use kindle_dict::wiki::{
    apply_marker, read_wiki, read_wiki_page, word_class_of_marker, Page, Re, Scan, State, WikiError,
    WikiReader, XmlEvent,
};
use kindle_dict::word_class::WordClass;

fn english() -> Dictionary {
    Dictionary::new("en", "cs", "T", "A").unwrap()
}

fn parts(list: &[&str]) -> Vec<String> {
    list.iter().map(|s| s.to_string()).collect()
}

const DOG: &str = "{{also|Dog}}\n==English==\n===Pronunciation===\n* {{IPA|en|/dɒɡ/|/dɔɡ/|[dog]}}\n* {{IPA|de|/x/}}\n===Noun===\n{{en-noun}}\n# An animal.\n====Translations====\n{{trans-top|animal}}\n* Czech: {{t+|cs|pes|m}}, {{t|cs|čokl|m}}\n* German: {{t+|de|Hund|m}}\n{{trans-bottom}}\n{{trans-top|man}}\n*: Czech: {{t|cs|chlap}}\n{{trans-bottom}}\n===Verb===\n{{en-verb}}\n{{trans-top|to follow}}\n* Czech: {{t|cs|pronásledovat}}\n==German==\n{{trans-top|x}}\n* Czech: {{t|cs|nic}}\n{{trans-bottom}}\n";

#[test]
fn page_extraction_collects_the_english_section() {
    let mut d = english();
    let re = Re::new("Czech").unwrap();
    read_wiki_page(&mut d, &Page::new(" dog ", DOG), &re);
    assert_eq!(d.len(), 1);
    let dog = d.lookup("dog").unwrap();
    assert_eq!(dog.pronunciations().len(), 1);
    assert_eq!(dog.pronunciations()[0].name(), "wiki");
    assert_eq!(dog.pronunciations()[0].items(), &vec!["/dɒɡ/", "/dɔɡ/"]);
    let classes = dog.classes();
    assert_eq!(classes.len(), 2);
    assert_eq!(classes[0].word_class(), WordClass::Verb);
    assert_eq!(classes[0].meanings()[0].description(), "to follow");
    assert_eq!(classes[0].meanings()[0].translations(), &vec!["pronásledovat"]);
    assert_eq!(classes[1].word_class(), WordClass::Noun);
    let nouns = classes[1].meanings();
    assert_eq!(nouns.len(), 2);
    assert_eq!(nouns[0].description(), "animal");
    assert_eq!(nouns[0].translations(), &vec!["pes", "čokl"]);
    assert_eq!(nouns[1].description(), "man");
    assert_eq!(nouns[1].translations(), &vec!["chlap"]);
    assert_eq!(dog.inflections(), &vec!["dogs", "dogging", "dogged"]);
}

#[test]
fn translations_page_names_its_headword() {
    let mut d = english();
    let re = Re::new("Czech").unwrap();
    let page = Page::new(
        "water/translations",
        "==English==\n{{en-noun}}\n{{trans-top|liquid}}\n* Czech: {{t+|cs|voda|f}}\n{{trans-bottom}}\n",
    );
    read_wiki_page(&mut d, &page, &re);
    let water = d.lookup("water").unwrap();
    assert_eq!(water.headword(), "water");
    assert_eq!(water.classes()[0].meanings()[0].translations(), &vec!["voda"]);
    assert!(d.lookup("water/translations").is_none());
}

#[test]
fn page_with_foreign_first_heading_gives_nothing() {
    let mut d = english();
    let re = Re::new("Czech").unwrap();
    let page = Page::new(
        "Hund",
        "==German==\n{{IPA|en|/hʊnt/}}\n{{trans-top|dog}}\n* Czech: {{t|cs|pes}}\n{{trans-bottom}}\n==English==\n{{trans-top|x}}\n* Czech: {{t|cs|y}}\n{{trans-bottom}}\n",
    );
    read_wiki_page(&mut d, &page, &re);
    assert_eq!(d.len(), 0);
}

#[test]
fn malformed_markers_give_no_fact() {
    let mut d = english();
    let re = Re::new("Czech").unwrap();
    let page = Page::new(
        "odd",
        "==English==\n{{}}\n{{|}}\n{{IPA}}\n{{IPA|en}}\n{{trans-top\n* Czech: {{t|cs}}\n}} {{ {{trans-bottom|||}}\n{{unclosed|a|b\n",
    );
    read_wiki_page(&mut d, &page, &re);
    assert_eq!(d.len(), 0);
}

#[test]
fn pending_meaning_is_flushed_at_the_end_of_the_page() {
    let mut d = english();
    let re = Re::new("Czech").unwrap();
    let page = Page::new("cat", "==English==\n{{en-noun}}\n{{trans-top|pet}}\n* Czech: {{t|cs|kočka}}\n");
    read_wiki_page(&mut d, &page, &re);
    let cat = d.lookup("cat").unwrap();
    assert_eq!(cat.classes()[0].meanings()[0].description(), "pet");
    assert_eq!(cat.classes()[0].meanings()[0].translations(), &vec!["kočka"]);
    assert_eq!(cat.inflections(), &vec!["cats"]);
}

#[test]
fn markers_select_the_class() {
    assert_eq!(word_class_of_marker("en-noun"), Some(WordClass::Noun));
    assert_eq!(word_class_of_marker("en-pron"), Some(WordClass::Pronoun));
    assert_eq!(word_class_of_marker("en-adv"), Some(WordClass::Adverb));
    assert_eq!(word_class_of_marker("en-det"), Some(WordClass::Determiner));
    assert_eq!(word_class_of_marker("en-con"), Some(WordClass::LinkingWord));
    assert_eq!(word_class_of_marker("en-verb"), Some(WordClass::Verb));
    assert_eq!(word_class_of_marker("en-adj"), Some(WordClass::Adjective));
    assert_eq!(word_class_of_marker("en-prep"), Some(WordClass::Preposition));
    assert_eq!(word_class_of_marker("en-num"), None);
}

#[test]
fn markers_drive_the_scan() {
    let mut d = english();
    let mut scan = Scan::new();
    assert_eq!(scan.word_class(), WordClass::Unknown);
    assert!(scan.meaning().is_empty());
    apply_marker(&mut d, &mut scan, "dog", &parts(&["IPA", "en", "/x/"]), false);
    assert_eq!(d.len(), 0);
    apply_marker(&mut d, &mut scan, "dog", &parts(&["t", "cs", " pes "]), true);
    apply_marker(&mut d, &mut scan, "dog", &parts(&["t", "cs", "ne"]), false);
    apply_marker(&mut d, &mut scan, "dog", &parts(&["t", "cs"]), true);
    assert_eq!(scan.meaning().translations(), &vec!["pes"]);
    assert_eq!(scan.meaning().description(), "");
    scan.enter_section("English");
    assert!(!scan.in_foreign_section());
    apply_marker(&mut d, &mut scan, "dog", &parts(&[" en-noun "]), false);
    assert_eq!(scan.word_class(), WordClass::Noun);
    apply_marker(&mut d, &mut scan, "dog", &parts(&["trans-top", " animal "]), false);
    assert_eq!(d.len(), 1);
    assert_eq!(d.lookup("dog").unwrap().classes()[0].meanings()[0].translations(), &vec!["pes"]);
    assert_eq!(scan.meaning().description(), "animal");
    apply_marker(&mut d, &mut scan, "dog", &parts(&["IPA", "en", "x", " /d/ "]), false);
    apply_marker(&mut d, &mut scan, "dog", &parts(&["IPA", "cs", "/no/"]), false);
    assert_eq!(d.lookup("dog").unwrap().pronunciations()[0].items(), &vec!["/d/"]);
    apply_marker(&mut d, &mut scan, "dog", &parts(&["trans-bottom"]), false);
    assert!(scan.meaning().is_empty());
    assert_eq!(d.lookup("dog").unwrap().classes()[0].meanings().len(), 2);
    apply_marker(&mut d, &mut scan, "dog", &parts(&["trans-bottom"]), false);
    apply_marker(&mut d, &mut scan, "dog", &parts(&["trans-top"]), false);
    apply_marker(&mut d, &mut scan, "dog", &Vec::new(), true);
    assert_eq!(d.lookup("dog").unwrap().classes()[0].meanings().len(), 2);
}

#[test]
fn prefix_is_read_as_a_pattern() {
    assert!(Re::new("Czech").is_some());
    assert!(Re::new("(Czech|Slovak)").is_some());
    assert!(Re::new("(").is_none());
    assert!(WikiReader::new("(").is_none());
    let mut d = english();
    let re = Re::new("(Czech|Slovak)").unwrap();
    let page = Page::new("cat", "{{trans-top}}\n* Slovak: {{t|sk|mačka}}\n* Polish: {{t|pl|kot}}\n");
    read_wiki_page(&mut d, &page, &re);
    assert_eq!(d.lookup("cat").unwrap().classes()[0].meanings()[0].translations(), &vec!["mačka"]);
}

fn feed_all(reader: &mut WikiReader, d: &mut Dictionary, events: Vec<XmlEvent>) -> Result<bool, WikiError> {
    let mut last = Ok(true);
    for e in events {
        last = reader.feed(d, &e);
        if last != Ok(true) {
            break;
        }
    }
    last
}

fn page_events(title: &str, text: &str) -> Vec<XmlEvent> {
    vec![
        XmlEvent::Start("page".to_string()),
        XmlEvent::Start("title".to_string()),
        XmlEvent::Text(title.to_string()),
        XmlEvent::End("title".to_string()),
        XmlEvent::Other,
        XmlEvent::Start("revision".to_string()),
        XmlEvent::Start("text".to_string()),
        XmlEvent::Text(text.to_string()),
        XmlEvent::End("text".to_string()),
        XmlEvent::End("revision".to_string()),
        XmlEvent::End("page".to_string()),
    ]
}

#[test]
fn reader_follows_the_page_structure() {
    let mut d = english();
    let mut r = WikiReader::new("Czech").unwrap();
    assert_eq!(r.state(), State::Outside);
    assert_eq!(r.feed(&mut d, &XmlEvent::Text("stray".to_string())), Ok(true));
    assert_eq!(r.page().title(), "");
    assert_eq!(r.feed(&mut d, &XmlEvent::Start("page".to_string())), Ok(true));
    assert_eq!(r.state(), State::Page);
    assert_eq!(r.feed(&mut d, &XmlEvent::Start("title".to_string())), Ok(true));
    assert_eq!(r.state(), State::Title);
    assert_eq!(r.feed(&mut d, &XmlEvent::Text("R&amp;".to_string())), Ok(true));
    assert_eq!(r.feed(&mut d, &XmlEvent::Text("D".to_string())), Ok(true));
    assert_eq!(r.page().title(), "R&D");
    assert_eq!(r.feed(&mut d, &XmlEvent::End("title".to_string())), Ok(true));
    assert_eq!(r.state(), State::Page);
    assert_eq!(r.feed(&mut d, &XmlEvent::Start("text".to_string())), Ok(true));
    assert_eq!(r.state(), State::Content);
    assert_eq!(r.feed(&mut d, &XmlEvent::Text("&lt;a&gt; &#65;".to_string())), Ok(true));
    assert_eq!(r.page().content(), "<a> A");
    assert_eq!(r.feed(&mut d, &XmlEvent::End("text".to_string())), Ok(true));
    assert_eq!(r.feed(&mut d, &XmlEvent::End("page".to_string())), Ok(true));
    assert_eq!(r.state(), State::Outside);
    assert_eq!(r.feed(&mut d, &XmlEvent::Eof), Ok(false));
}

#[test]
fn reader_extracts_article_pages_only() {
    let mut d = english();
    let mut r = WikiReader::new("Czech").unwrap();
    let text = "==English==\n{{en-noun}}\n{{trans-top|pet}}\n* Czech: {{t|cs|kočka}}\n{{trans-bottom}}\n";
    let mut events = page_events("Category:cat", text);
    events.extend(page_events("Wiktionary:cat", text));
    assert_eq!(feed_all(&mut r, &mut d, events), Ok(true));
    assert_eq!(d.len(), 0);
    assert_eq!(feed_all(&mut r, &mut d, page_events("cat", text)), Ok(true));
    assert_eq!(d.len(), 1);
    assert_eq!(d.lookup("cat").unwrap().classes()[0].meanings()[0].translations(), &vec!["kočka"]);
}

#[test]
fn reader_fails_on_an_unknown_entity() {
    let mut d = english();
    let mut r = WikiReader::new("Czech").unwrap();
    assert_eq!(r.feed(&mut d, &XmlEvent::Start("page".to_string())), Ok(true));
    assert_eq!(r.feed(&mut d, &XmlEvent::Start("title".to_string())), Ok(true));
    assert_eq!(r.feed(&mut d, &XmlEvent::Text("a &nosuch; b".to_string())), Err(WikiError::Malformed));
    assert_eq!(r.feed(&mut d, &XmlEvent::Text("a & b".to_string())), Err(WikiError::Malformed));
    assert_eq!(r.state(), State::Title);
    assert_eq!(r.page().title(), "");
}

#[test]
fn empty_pending_meaning_is_not_registered() {
    let mut d = english();
    let re = Re::new("Czech").unwrap();
    read_wiki_page(&mut d, &Page::new("x", "==English==\n{{trans-top}}\n{{trans-bottom}}\n"), &re);
    assert_eq!(d.len(), 0);
    assert!(Page::empty().title().is_empty());
    let _ = Meaning::new("");
}

#[test]
fn stream_is_read_up_to_its_end_or_first_failure() {
    let text = "==English==\n{{en-noun}}\n{{trans-top|pet}}\n* Czech: {{t|cs|kočka}}\n{{trans-bottom}}\n";
    let mut events = page_events("cat", text);
    events.extend(page_events("Talk:cat", text));
    events.push(XmlEvent::Eof);
    events.extend(page_events("dog", text));
    let mut d = english();
    assert_eq!(read_wiki(&mut d, &events, "Czech"), Ok(()));
    assert_eq!(d.len(), 1);
    assert!(d.lookup("cat").is_some());

    let mut events = page_events("cat", text);
    events.push(XmlEvent::Text("&bad;".to_string()));
    events.extend(page_events("dog", text));
    let mut d = english();
    assert_eq!(read_wiki(&mut d, &events, "Czech"), Err(WikiError::Malformed));
    assert_eq!(d.len(), 1);

    let mut d = english();
    assert_eq!(read_wiki(&mut d, &events, "("), Err(WikiError::Prefix));
    assert_eq!(d.len(), 0);
    assert_eq!(read_wiki(&mut d, &Vec::new(), "Czech"), Ok(()));
}
