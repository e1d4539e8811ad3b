use kindle_dict::dictionary::Dictionary;
use kindle_dict::kindle::{
    append_decimal, content_file_id, create_kindle_content_file,
    create_kindle_content_files, create_kindle_opf_file, format_classes, format_entry,
    format_headword, format_meanings, format_pronunciations, format_translations, manifest_path,
    to_kindle, ExportError, Target, BATCH_SIZE, CONTENT_HEAD, CONTENT_TAIL,
};
use kindle_dict::meaning::Meaning;
use kindle_dict::term::Term;
use kindle_dict::word_class::WordClass;
use kindle_dict::writer::escape_xml;

fn meaning(description: &str, translations: &[&str]) -> Meaning {
    let mut m = Meaning::new(description);
    for t in translations {
        m.add_translation(t);
    }
    m
}

#[test]
fn escape_replaces_the_five_reserved_characters() {
    assert_eq!(escape_xml("a & b"), "a &amp; b");
    assert_eq!(escape_xml("<tag>"), "&lt;tag&gt;");
    assert_eq!(escape_xml("it's \"x\""), "it&apos;s &quot;x&quot;");
    assert_eq!(escape_xml("&amp;"), "&amp;amp;");
    assert_eq!(escape_xml("plain"), "plain");
    assert_eq!(escape_xml(""), "");
}

#[test]
fn escape_agrees_with_chained_replacement() {
    for s in ["&<>'\"", "a&&b", "<<>>", "x'y\"z&", "&lt;", "ünï & cödé"] {
        let expected = s
            .replace("&", "&amp;")
            .replace("<", "&lt;")
            .replace(">", "&gt;")
            .replace("'", "&apos;")
            .replace("\"", "&quot;");
        assert_eq!(escape_xml(s), expected);
    }
}

#[test]
fn headword_without_inflections() {
    let t = Term::new("R&D");
    let mut out = String::from("x");
    format_headword(&mut out, &t);
    assert_eq!(out, "x<b><idx:orth>R&amp;D</idx:orth></b><br />");
}

#[test]
fn headword_with_inflections() {
    let mut t = Term::new("fly");
    t.add_inflections(&vec!["flies".to_string(), "fly's".to_string()]);
    let mut out = String::new();
    format_headword(&mut out, &t);
    assert_eq!(
        out,
        "<b><idx:orth>fly<idx:infl><idx:iform value=\"flies\" /><idx:iform value=\"fly&apos;s\" /></idx:infl></idx:orth></b><br />"
    );
}

#[test]
fn single_wiki_pronunciation_is_rendered_without_label() {
    let mut t = Term::new("dog");
    t.add_pronunciation("wiki", "/dɔɡ/");
    t.add_pronunciation("wiki", "/dɑɡ/");
    let mut out = String::new();
    format_pronunciations(&mut out, &t);
    assert_eq!(out, "/dɔɡ/, /dɑɡ/<br />\n");
}

#[test]
fn wiki_pronunciation_is_suppressed_beside_a_named_source() {
    let mut t = Term::new("dog");
    t.add_pronunciation("wiki", "/w/");
    t.add_pronunciation("US", "/dɔɡ/");
    let mut out = String::new();
    format_pronunciations(&mut out, &t);
    assert_eq!(out, "<i>US</i>: /dɔɡ/<br />\n");
}

#[test]
fn pronunciation_sources_come_in_name_order() {
    let mut t = Term::new("dog");
    t.add_pronunciation("US", "/a/");
    t.add_pronunciation("UK", "/b<c/");
    t.add_pronunciation("", "/n/");
    let mut out = String::new();
    format_pronunciations(&mut out, &t);
    assert_eq!(out, "/n/<br />\n<i>UK</i>: /b&lt;c/<br />\n<i>US</i>: /a/<br />\n");
}

#[test]
fn translations_are_joined_in_one_item() {
    let mut out = String::new();
    format_translations(&mut out, &vec!["pes".to_string(), "a<b".to_string()]);
    assert_eq!(out, "<li>pes | a&lt;b</li>\n");
}

#[test]
fn meanings_render_translations_then_glosses() {
    let mut t = Term::new("dog");
    t.add_meaning(WordClass::Noun, &meaning("animal", &["pes"]));
    t.add_meaning(WordClass::Noun, &meaning("", &["psisko", "pes"]));
    t.add_meaning(WordClass::Noun, &meaning("a \"guy\"", &[]));
    let mut out = String::new();
    format_meanings(&mut out, t.classes()[0].meanings());
    assert_eq!(
        out,
        "<ul>\n<li>pes | psisko</li>\n</ul>\n<ol>\n<li>animal</li>\n<li>a &quot;guy&quot;</li>\n</ol>\n"
    );
}

#[test]
fn meanings_without_translations_have_no_unordered_list() {
    let mut t = Term::new("dog");
    t.add_meaning(WordClass::Noun, &meaning("animal", &[]));
    let mut out = String::new();
    format_meanings(&mut out, t.classes()[0].meanings());
    assert_eq!(out, "<ol>\n<li>animal</li>\n</ol>\n");
}

#[test]
fn classes_come_in_their_order_and_skip_empty_ones() {
    let mut t = Term::new("run");
    t.add_meaning(WordClass::Noun, &meaning("", &["běh"]));
    t.add_meaning(WordClass::Verb, &meaning("", &["běžet"]));
    t.add_meaning(WordClass::Adverb, &meaning("", &[]));
    let mut out = String::new();
    format_classes(&mut out, &t);
    assert_eq!(
        out,
        "verb<ul>\n<li>běžet</li>\n</ul>\n<ol>\n</ol>\nnoun<ul>\n<li>běh</li>\n</ul>\n<ol>\n</ol>\n"
    );
}

#[test]
fn entry_wraps_the_parts() {
    let mut t = Term::new("dog");
    t.add_pronunciation("US", "/d/");
    let mut out = String::new();
    format_entry(&mut out, &t);
    assert_eq!(
        out,
        "\n        <idx:entry name=\"main\" scriptable=\"yes\" spell=\"yes\">\n<b><idx:orth>dog</idx:orth></b><br /><i>US</i>: /d/<br />\n\n</idx:entry>\n"
    );
}

#[test]
fn decimal_numerals_and_identifiers() {
    let mut out = String::from("n=");
    append_decimal(&mut out, 0);
    append_decimal(&mut out, 907);
    assert_eq!(out, "n=0907");
    assert_eq!(content_file_id(1), "content0001");
    assert_eq!(content_file_id(42), "content0042");
    assert_eq!(content_file_id(999), "content0999");
    assert_eq!(content_file_id(1000), "content1000");
    assert_eq!(content_file_id(12345), "content12345");
}

#[test]
fn empty_terms_are_left_out_of_the_export() {
    let mut d = Dictionary::new("en", "cs", "T", "A").unwrap();
    d.add_pronunciation("", "US", "/x/");
    assert_eq!(d.len(), 1);
    assert_eq!(d.non_empty_len(), 0);
    assert!(create_kindle_content_files(&d, "out").is_empty());
    d.add_pronunciation("dog", "US", "/d/");
    assert_eq!(d.non_empty_len(), 1);
    let files = create_kindle_content_files(&d, "out");
    assert_eq!(files, vec![("content0001".to_string(), "out/content0001.xhtml".to_string())]);
    let doc = create_kindle_content_file(&d, 0);
    assert!(doc.starts_with(CONTENT_HEAD));
    assert!(doc.ends_with(CONTENT_TAIL));
    assert_eq!(doc.matches("<idx:entry").count(), 1);
    assert!(doc.contains("<idx:orth>dog</idx:orth>"));
    let beyond = create_kindle_content_file(&d, 1);
    assert_eq!(beyond, format!("{}{}", CONTENT_HEAD, CONTENT_TAIL));
}

#[test]
fn thirty_thousand_and_one_terms_fill_two_documents() {
    let mut d = Dictionary::new("xx", "cs", "T", "A").unwrap();
    d.add_pronunciation("", "US", "/empty/");
    for i in 0..(BATCH_SIZE + 1) {
        d.add_pronunciation(&format!("w{}", i), "US", "/p/");
    }
    assert_eq!(d.len(), 30_002);
    assert_eq!(d.non_empty_len(), 30_001);
    let files = create_kindle_content_files(&d, "dir");
    assert_eq!(
        files,
        vec![
            ("content0001".to_string(), "dir/content0001.xhtml".to_string()),
            ("content0002".to_string(), "dir/content0002.xhtml".to_string()),
        ]
    );
    let first = create_kindle_content_file(&d, 0);
    let second = create_kindle_content_file(&d, 1);
    assert_eq!(first.matches("<idx:entry").count(), 30_000);
    assert_eq!(second.matches("<idx:entry").count(), 1);
    assert!(first.contains("<idx:orth>w0</idx:orth>"));
    assert!(first.contains("<idx:orth>w29999</idx:orth>"));
    assert!(!first.contains("<idx:orth>w30000</idx:orth>"));
    assert!(second.contains("<idx:orth>w30000</idx:orth>"));
    let opf = create_kindle_opf_file(&d, &files);
    assert_eq!(opf.matches("<item id=").count(), 2);
    assert_eq!(opf.matches("<itemref").count(), 2);
    let a = opf.find("<item id=\"content0001\" href=\"content0001.xhtml\"").unwrap();
    let b = opf.find("<item id=\"content0002\" href=\"content0002.xhtml\"").unwrap();
    let c = opf.find("<itemref idref=\"content0001\"/>").unwrap();
    let e = opf.find("<itemref idref=\"content0002\"/>").unwrap();
    assert!(a < b && b < c && c < e);
}

#[test]
fn manifest_holds_the_metadata_escaped() {
    let d = Dictionary::new("en", "cs", "A & B", "O'Neil").unwrap();
    let opf = create_kindle_opf_file(&d, &Vec::new());
    assert_eq!(
        opf,
        "<?xml version=\"1.0\"?>\n<package version=\"2.0\" xmlns=\"http://www.idpf.org/2007/opf\" unique-identifier=\"en-cs-dict\">\n    <metadata>\n        <dc:title>A &amp; B</dc:title>\n        <dc:creator opf:role=\"aut\">O&apos;Neil</dc:creator>\n        <dc:language>en</dc:language>\n        <meta name=\"cover\" content=\"my-cover-image\" />\n        <x-metadata>\n          <DictionaryInLanguage>en</DictionaryInLanguage>\n          <DictionaryOutLanguage>cs</DictionaryOutLanguage>\n        </x-metadata>\n    </metadata>\n    <manifest>\n        <item href=\"dict.png\" id=\"my-cover-image\" media-type=\"image/png\" />\n\n    </manifest>\n    <spine>\n\n    </spine>\n</package>\n"
    );
    assert_eq!(manifest_path("out"), "out/content.opf");
}

#[test]
fn reserved_characters_reach_the_output_only_escaped() {
    let mut d = Dictionary::new("en", "cs", "T", "A").unwrap();
    d.add_meaning("a<b", WordClass::Unknown, meaning("x > y & 'z'", &["\"q\""]));
    let doc = create_kindle_content_file(&d, 0);
    let body = &doc[CONTENT_HEAD.len()..doc.len() - CONTENT_TAIL.len()];
    assert!(body.contains("<idx:orth>a&lt;b</idx:orth>"));
    assert!(body.contains("<li>x &gt; y &amp; &apos;z&apos;</li>"));
    assert!(body.contains("<li>&quot;q&quot;</li>"));
    assert!(!body.contains("a<b"));
    assert!(!body.contains("'z'"));
}

#[test]
fn export_target_decision() {
    assert_eq!(to_kindle(Target::Missing, false), Ok(true));
    assert_eq!(to_kindle(Target::Missing, true), Ok(true));
    assert_eq!(to_kindle(Target::Directory, true), Ok(false));
    assert_eq!(to_kindle(Target::Directory, false), Err(ExportError::DirectoryExists));
    assert_eq!(to_kindle(Target::NotDirectory, true), Err(ExportError::NotDirectory));
    assert_eq!(
        ExportError::NotDirectory.message("out"),
        "out is a file, a directory expected."
    );
    assert_eq!(
        ExportError::DirectoryExists.message("out"),
        "out is an existing directory, use -f to force."
    );
}

#[test]
fn package_holds_documents_and_manifest() {
    let mut d = Dictionary::new("en", "cs", "T", "A").unwrap();
    d.add_pronunciation("dog", "US", "/d/");
    assert_eq!(
        d.to_kindle("out", Target::NotDirectory, true).err(),
        Some(ExportError::NotDirectory)
    );
    assert_eq!(
        d.to_kindle("out", Target::Directory, false).err(),
        Some(ExportError::DirectoryExists)
    );
    let p = d.to_kindle("out", Target::Directory, true).unwrap();
    assert!(!p.create_directory());
    let p = d.to_kindle("out", Target::Missing, false).unwrap();
    assert!(p.create_directory());
    assert_eq!(p.files(), &vec![("content0001".to_string(), "out/content0001.xhtml".to_string())]);
    assert_eq!(p.contents(), &vec![create_kindle_content_file(&d, 0)]);
    assert_eq!(p.manifest_path(), "out/content.opf");
    assert_eq!(p.manifest(), create_kindle_opf_file(&d, p.files()));
}
