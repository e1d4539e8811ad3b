use kindle_dict::assemble::BuildError;
use kindle_dict::cli_config::CliConfig;
use kindle_dict::dictionary::Dictionary;
use kindle_dict::reader::{read_czech, read_pronunciation, read_tab_file, word_class_of_tag};
use kindle_dict::word_class::WordClass;

fn args(list: &[&str]) -> Vec<String> {
    list.iter().map(|s| s.to_string()).collect()
}

#[test]
fn tab_file_skips_comments_and_single_fields() {
    let rows = read_tab_file("# comment\ndog\tpes\tn:\nalone\n\ncat\tkočka\r\n#x\ty\n");
    assert_eq!(rows, vec![vec!["dog", "pes", "n:"], vec!["cat", "kočka"]]);
    assert!(read_tab_file("").is_empty());
}

#[test]
fn tags_map_to_classes() {
    assert_eq!(word_class_of_tag("n:"), WordClass::Noun);
    assert_eq!(word_class_of_tag("v:"), WordClass::Verb);
    assert_eq!(word_class_of_tag("adv:"), WordClass::Adverb);
    assert_eq!(word_class_of_tag("adj:"), WordClass::Adjective);
    assert_eq!(word_class_of_tag("pron:"), WordClass::Pronoun);
    assert_eq!(word_class_of_tag("prep:"), WordClass::Preposition);
    assert_eq!(word_class_of_tag(""), WordClass::Unknown);
    assert_eq!(word_class_of_tag("n"), WordClass::Unknown);
}

#[test]
fn bilingual_rows_register_meanings() {
    let mut d = Dictionary::new("en", "cs", "T", "A").unwrap();
    let rows = read_tab_file(" dog \t pes \tn:\tnote\nshort\tonly\nDog\tčokl\tn:\nrun\tběžet\tv:\n");
    read_czech(&mut d, &rows);
    assert_eq!(d.len(), 2);
    let dog = d.lookup("dog").unwrap();
    assert_eq!(dog.headword(), "dog");
    assert_eq!(dog.inflections(), &vec!["dogs", "Dogs"]);
    let nouns = &dog.classes()[0];
    assert_eq!(nouns.word_class(), WordClass::Noun);
    assert_eq!(nouns.meanings().len(), 1);
    assert_eq!(nouns.meanings()[0].translations(), &vec!["pes", "čokl"]);
    let run = d.lookup("run").unwrap();
    assert_eq!(run.inflections(), &vec!["runs", "running", "runned"]);
    assert!(d.lookup("short").is_none());
}

#[test]
fn pronunciation_rows_register_each_item_trimmed() {
    let mut d = Dictionary::new("en", "cs", "T", "A").unwrap();
    let rows = read_tab_file("dog\t/dɔɡ/, /dɑɡ/ \n cat \t/kæt/\n");
    read_pronunciation(&mut d, "US", &rows);
    let dog = d.lookup("dog").unwrap();
    assert_eq!(dog.pronunciations()[0].name(), "US");
    assert_eq!(dog.pronunciations()[0].items(), &vec!["/dɔɡ/", "/dɑɡ/"]);
    assert_eq!(d.lookup("CAT").unwrap().pronunciations()[0].items(), &vec!["/kæt/"]);
}

#[test]
fn command_line_defaults() {
    let c = CliConfig::new();
    assert_eq!(c.source_language, "en");
    assert_eq!(c.target_language, "cs");
    assert!(c.input_file_path.is_none() && c.output_path.is_none() && c.query.is_none());
    assert!(!c.force && !c.print_help);
    let d = CliConfig::default();
    assert_eq!(d.title, "");
    let c = CliConfig::build(args(&["prog"])).unwrap();
    assert!(c.print_help);
    let c = CliConfig::build(Vec::new()).unwrap();
    assert!(c.print_help);
}

#[test]
fn command_line_options() {
    let c = CliConfig::build(args(&[
        "prog", "-i", "in.txt", "-o", "out", "-ro", "rout", "-w", "wiki.bz2", "-s", "dog", "-wp",
        "Czech", "-p", " US :us.txt", "-p", "UK:uk.txt", "-f", "-sl", "de", "-tl", "en", "-t",
        "Title", "-rt", "Back", "-a", "Me", "-h",
    ]))
    .unwrap();
    assert_eq!(c.input_file_path.as_deref(), Some("in.txt"));
    assert_eq!(c.output_path.as_deref(), Some("out"));
    assert_eq!(c.reverse_output_path.as_deref(), Some("rout"));
    assert_eq!(c.wiki_file_path.as_deref(), Some("wiki.bz2"));
    assert_eq!(c.query.as_deref(), Some("dog"));
    assert_eq!(c.wiki_prefix.as_deref(), Some("Czech"));
    assert_eq!(
        c.pronunciation_files,
        vec![("US".to_string(), "us.txt".to_string()), ("UK".to_string(), "uk.txt".to_string())]
    );
    assert!(c.force && c.print_help);
    assert_eq!(c.source_language, "de");
    assert_eq!(c.target_language, "en");
    assert_eq!(c.title, "Title");
    assert_eq!(c.reverse_title.as_deref(), Some("Back"));
    assert_eq!(c.author, "Me");
}

#[test]
fn command_line_faults() {
    assert_eq!(CliConfig::build(args(&["prog", "-x"])).unwrap_err(), "Illegal argument");
    assert_eq!(CliConfig::build(args(&["prog", "-o"])).unwrap_err(), "Missing parameter");
    assert_eq!(CliConfig::build(args(&["prog", "-f", "-t"])).unwrap_err(), "Missing parameter");
    assert_eq!(
        CliConfig::build(args(&["prog", "-p", "nocolon"])).unwrap_err(),
        "Pronunciation must have 2 parts: '<name>:<filename>'"
    );
    assert_eq!(
        CliConfig::build(args(&["prog", "-p", "a:b:c"])).unwrap_err(),
        "Pronunciation must have 2 parts: '<name>:<filename>'"
    );
    assert_eq!(CliConfig::get_param_value(None).unwrap_err(), "Missing parameter");
    assert_eq!(CliConfig::get_param_value(Some("v".to_string())).unwrap(), "v");
    assert_eq!(CliConfig::get_pronunciation(None).unwrap_err(), "Missing parameter");
    assert!(CliConfig::help_text().contains("-wp     Wiki prefix"));
}

#[test]
fn build_reads_the_tabular_sources() {
    let c = CliConfig::build(args(&["prog", "-t", "T", "-a", "A"])).unwrap();
    let sources = vec![("US".to_string(), "dog\t/d/\n".to_string())];
    let d = Dictionary::build(&c, Some("dog\tpes\tn:\n"), &sources).unwrap();
    assert_eq!(d.len(), 1);
    assert_eq!(d.title(), "T");
    let dog = d.lookup("dog").unwrap();
    assert_eq!(dog.pronunciations()[0].items(), &vec!["/d/"]);
    assert_eq!(dog.classes()[0].meanings()[0].translations(), &vec!["pes"]);
}

#[test]
fn build_refuses_faulty_configurations() {
    let c = CliConfig::build(args(&["prog", "-tl", "de"])).unwrap();
    let e = Dictionary::build(&c, Some(""), &Vec::new()).err().unwrap();
    assert_eq!(e, BuildError::UnsupportedLanguages);
    assert_eq!(e.message("en", "de"), "Unsupported language combination: en-de");
    assert!(Dictionary::build(&c, None, &Vec::new()).is_ok());
    let c = CliConfig::build(args(&["prog", "-w", "dump.bz2"])).unwrap();
    let e = Dictionary::build(&c, None, &Vec::new()).err().unwrap();
    assert_eq!(e, BuildError::MissingWikiPrefix);
    assert_eq!(e.message("en", "cs"), "No wiki prefix specified.");
}
