//! The exporter: the documents of the e-reader dictionary package.
//!
//! The package is a set of content documents, each holding a batch of the
//! dictionary's non-empty terms, and one manifest that lists them. The
//! functions here produce the texts; writing them to files is left to the
//! caller.

use crate::dictionary::{non_empty_terms, Dictionary, DictionaryView};
use crate::meaning::{merge_into, merged, Meaning, MeaningView};
use crate::term::{
    class_views, meaning_views, source_views, term_views, ClassView, Pronunciations, SourceView,
    Term, TermView,
};
use crate::text::{join, joined, pair_views, push_char, same_text, texts};
use crate::writer::{append_escaped, escaped};
use vstd::prelude::*;
use vstd::string::StringExecFns;

verus! {

/// The number of terms in a content document, chosen to stay within the
/// reading device's limit on a document's size.
pub const BATCH_SIZE: usize = 30_000;

/// The opening of a content document.
pub const CONTENT_HEAD: &'static str =
    r#"<html xmlns:math="http://exslt.org/math" xmlns:svg="http://www.w3.org/2000/svg"
    xmlns:tl="https://kindlegen.s3.amazonaws.com/AmazonKindlePublishingGuidelines.pdf" xmlns:saxon="http://saxon.sf.net/"
    xmlns:xs="http://www.w3.org/2001/XMLSchema" xmlns:xsi="http://www.w3.org/2001/XMLSchema-instance"
    xmlns:cx="https://kindlegen.s3.amazonaws.com/AmazonKindlePublishingGuidelines.pdf"
    xmlns:dc="http://purl.org/dc/elements/1.1/"
    xmlns:mbp="https://kindlegen.s3.amazonaws.com/AmazonKindlePublishingGuidelines.pdf"
    xmlns:mmc="https://kindlegen.s3.amazonaws.com/AmazonKindlePublishingGuidelines.pdf"
    xmlns:idx="https://kindlegen.s3.amazonaws.com/AmazonKindlePublishingGuidelines.pdf">
<head>
    <meta http-equiv="Content-Type" content="text/html; charset=utf-8" />
</head>
<body>
    <mbp:frameset>
"#;

/// The closing of a content document.
pub const CONTENT_TAIL: &'static str = r#"
    </mbp:frameset>
</body>
</html>
"#;

/// The opening of a term's entry.
pub const ENTRY_OPEN: &'static str = r#"
        <idx:entry name="main" scriptable="yes" spell="yes">
"#;

/// The closing of a term's entry.
pub const ENTRY_CLOSE: &'static str = "\n</idx:entry>\n";

/// The manifest up to the title.
pub const OPF_HEAD: &'static str = r#"<?xml version="1.0"?>
<package version="2.0" xmlns="http://www.idpf.org/2007/opf" unique-identifier="en-cs-dict">
    <metadata>
        <dc:title>"#;

/// The manifest between the title and the author.
pub const OPF_AFTER_TITLE: &'static str = r#"</dc:title>
        <dc:creator opf:role="aut">"#;

/// The manifest between the author and the language.
pub const OPF_AFTER_AUTHOR: &'static str = r#"</dc:creator>
        <dc:language>"#;

/// The manifest between the language and the source language.
pub const OPF_AFTER_LANGUAGE: &'static str = r#"</dc:language>
        <meta name="cover" content="my-cover-image" />
        <x-metadata>
          <DictionaryInLanguage>"#;

/// The manifest between the source and the target language.
pub const OPF_AFTER_SOURCE: &'static str = r#"</DictionaryInLanguage>
          <DictionaryOutLanguage>"#;

/// The manifest between the target language and the list of documents.
pub const OPF_AFTER_TARGET: &'static str = r#"</DictionaryOutLanguage>
        </x-metadata>
    </metadata>
    <manifest>
        <item href="dict.png" id="my-cover-image" media-type="image/png" />
"#;

/// The manifest between the list of documents and the reading order.
pub const OPF_BEFORE_SPINE: &'static str = r#"
    </manifest>
    <spine>
"#;

/// The closing of the manifest.
pub const OPF_TAIL: &'static str = r#"
    </spine>
</package>
"#;

/// The index forms of a term's inflections.
pub open spec fn inflection_markup(forms: Seq<Seq<char>>) -> Seq<char>
    decreases forms.len(),
{
    if forms.len() == 0 {
        Seq::empty()
    } else {
        inflection_markup(forms.drop_last()) + "<idx:iform value=\""@ + escaped(forms.last())
            + "\" />"@
    }
}

/// The headword in bold, with the inflections, if any, as index forms.
pub open spec fn headword_markup(term: TermView) -> Seq<char> {
    "<b><idx:orth>"@ + escaped(term.headword) + (if term.inflections.len() > 0 {
        "<idx:infl>"@ + inflection_markup(term.inflections) + "</idx:infl>"@
    } else {
        Seq::empty()
    }) + "</idx:orth></b><br />"@
}

/// The line of one pronunciation source of a term with `count` sources. Where
/// a term has more than one source, the one named `wiki` has no line. The name
/// is shown unless it is empty or `wiki`.
pub open spec fn source_line(source: SourceView, count: nat) -> Seq<char> {
    if count > 1 && source.name == "wiki"@ {
        Seq::empty()
    } else {
        (if source.name.len() > 0 && source.name != "wiki"@ {
            "<i>"@ + escaped(source.name) + "</i>: "@
        } else {
            Seq::empty()
        }) + escaped(joined(source.items, ", "@)) + "<br />\n"@
    }
}

/// The lines of the given sources of a term with `count` sources.
pub open spec fn source_lines(sources: Seq<SourceView>, count: nat) -> Seq<char>
    decreases sources.len(),
{
    if sources.len() == 0 {
        Seq::empty()
    } else {
        source_lines(sources.drop_last(), count) + source_line(sources.last(), count)
    }
}

/// The pronunciation lines of a term, one for each source, in the order of the
/// sources' names.
pub open spec fn pronunciation_markup(term: TermView) -> Seq<char> {
    source_lines(term.pronunciations, term.pronunciations.len())
}

/// The translations of all the meanings, each once, in the order of first
/// occurrence.
pub open spec fn all_translations(meanings: Seq<MeaningView>) -> Seq<Seq<char>>
    decreases meanings.len(),
{
    if meanings.len() == 0 {
        Seq::empty()
    } else {
        merged(all_translations(meanings.drop_last()), meanings.last().translations)
    }
}

/// The list item that holds the translations.
pub open spec fn translations_markup(translations: Seq<Seq<char>>) -> Seq<char> {
    "<li>"@ + escaped(joined(translations, " | "@)) + "</li>\n"@
}

/// One list item for each gloss that is not empty, in the order of the ranks.
pub open spec fn glosses_markup(meanings: Seq<MeaningView>) -> Seq<char>
    decreases meanings.len(),
{
    if meanings.len() == 0 {
        Seq::empty()
    } else {
        glosses_markup(meanings.drop_last()) + (if meanings.last().description.len() == 0 {
            Seq::empty()
        } else {
            "<li>"@ + escaped(meanings.last().description) + "</li>\n"@
        })
    }
}

/// The translations of a category as an unordered list, if there are any, and
/// its glosses as an ordered list.
pub open spec fn meanings_markup(meanings: Seq<MeaningView>) -> Seq<char> {
    (if all_translations(meanings).len() > 0 {
        "<ul>\n"@ + translations_markup(all_translations(meanings)) + "</ul>\n"@
    } else {
        Seq::empty()
    }) + "<ol>\n"@ + glosses_markup(meanings) + "</ol>\n"@
}

/// Whether one of the meanings is not empty.
pub open spec fn has_content(meanings: Seq<MeaningView>) -> bool {
    exists|i: int| 0 <= i < meanings.len() && !(#[trigger] meanings[i]).is_empty()
}

/// The section of one category: its label and its meanings, or nothing where
/// every meaning is empty.
pub open spec fn class_markup(class: ClassView) -> Seq<char> {
    if has_content(class.meanings) {
        class.word_class.label() + meanings_markup(class.meanings)
    } else {
        Seq::empty()
    }
}

/// The sections of the categories, in their rendering order.
pub open spec fn classes_markup(classes: Seq<ClassView>) -> Seq<char>
    decreases classes.len(),
{
    if classes.len() == 0 {
        Seq::empty()
    } else {
        classes_markup(classes.drop_last()) + class_markup(classes.last())
    }
}

/// The entry of one term.
pub open spec fn entry_markup(term: TermView) -> Seq<char> {
    ENTRY_OPEN@ + headword_markup(term) + pronunciation_markup(term) + classes_markup(
        term.classes,
    ) + ENTRY_CLOSE@
}

/// The entries of the given terms, in order.
pub open spec fn entries_markup(terms: Seq<TermView>) -> Seq<char>
    decreases terms.len(),
{
    if terms.len() == 0 {
        Seq::empty()
    } else {
        entries_markup(terms.drop_last()) + entry_markup(terms.last())
    }
}

/// The smaller of a position and the length of a sequence.
pub open spec fn clip(position: int, len: nat) -> int {
    if position <= len {
        position
    } else {
        len as int
    }
}

/// The `k`-th batch of the given terms: those at positions `k * BATCH_SIZE` up
/// to, and not including, `(k + 1) * BATCH_SIZE`, as far as there are any.
pub open spec fn batch(terms: Seq<TermView>, k: nat) -> Seq<TermView> {
    terms.subrange(
        clip(k * BATCH_SIZE, terms.len()),
        clip((k + 1) * BATCH_SIZE, terms.len()),
    )
}

/// The number of batches that `n` terms fill.
pub open spec fn batch_count(n: nat) -> nat {
    ((n + BATCH_SIZE - 1) / (BATCH_SIZE as int)) as nat
}

/// The number of content documents: as many batches as the non-empty terms
/// fill, the last one possibly in part.
pub open spec fn document_count(entries: Seq<TermView>) -> nat {
    batch_count(non_empty_terms(entries).len())
}

/// The `k`-th content document of a dictionary.
pub open spec fn content_markup(entries: Seq<TermView>, k: nat) -> Seq<char> {
    CONTENT_HEAD@ + entries_markup(batch(non_empty_terms(entries), k)) + CONTENT_TAIL@
}

/// The decimal digit for a number below ten.
pub open spec fn digit(d: nat) -> char {
    if d == 0 {
        '0'
    } else if d == 1 {
        '1'
    } else if d == 2 {
        '2'
    } else if d == 3 {
        '3'
    } else if d == 4 {
        '4'
    } else if d == 5 {
        '5'
    } else if d == 6 {
        '6'
    } else if d == 7 {
        '7'
    } else if d == 8 {
        '8'
    } else {
        '9'
    }
}

/// The decimal numeral of a number.
pub open spec fn decimal(n: nat) -> Seq<char>
    decreases n,
{
    if n < 10 {
        seq![digit(n)]
    } else {
        decimal(n / 10).push(digit(n % 10))
    }
}

/// The decimal numeral of a number, with zeros in front up to four digits.
pub open spec fn zero_padded(n: nat) -> Seq<char> {
    if n < 10 {
        "000"@ + decimal(n)
    } else if n < 100 {
        "00"@ + decimal(n)
    } else if n < 1000 {
        "0"@ + decimal(n)
    } else {
        decimal(n)
    }
}

/// The identifier of the content document with the given number, counted
/// from 1.
pub open spec fn content_id(number: nat) -> Seq<char> {
    "content"@ + zero_padded(number)
}

/// The path of the content document with the given number.
pub open spec fn content_path(output_path: Seq<char>, number: nat) -> Seq<char> {
    output_path + "/"@ + content_id(number) + ".xhtml"@
}

/// The manifest's entry for one content document.
pub open spec fn manifest_item(id: Seq<char>) -> Seq<char> {
    "<item id=\""@ + escaped(id) + "\" href=\""@ + escaped(id)
        + ".xhtml\" media-type=\"application/xhtml+xml\" />\n"@
}

/// The manifest's entries for the content documents, in order.
pub open spec fn manifest_items(ids: Seq<Seq<char>>) -> Seq<char>
    decreases ids.len(),
{
    if ids.len() == 0 {
        Seq::empty()
    } else {
        manifest_items(ids.drop_last()) + manifest_item(ids.last())
    }
}

/// The reading order's entry for one content document.
pub open spec fn spine_item(id: Seq<char>) -> Seq<char> {
    "<itemref idref=\""@ + escaped(id) + "\"/>\n"@
}

/// The reading order's entries for the content documents, in order.
pub open spec fn spine_items(ids: Seq<Seq<char>>) -> Seq<char>
    decreases ids.len(),
{
    if ids.len() == 0 {
        Seq::empty()
    } else {
        spine_items(ids.drop_last()) + spine_item(ids.last())
    }
}

/// The manifest of a package with the given content documents.
pub open spec fn manifest_markup(d: DictionaryView, ids: Seq<Seq<char>>) -> Seq<char> {
    OPF_HEAD@ + escaped(d.title) + OPF_AFTER_TITLE@ + escaped(d.author) + OPF_AFTER_AUTHOR@
        + escaped(d.source_language) + OPF_AFTER_LANGUAGE@ + escaped(d.source_language)
        + OPF_AFTER_SOURCE@ + escaped(d.target_language) + OPF_AFTER_TARGET@ + manifest_items(ids)
        + OPF_BEFORE_SPINE@ + spine_items(ids) + OPF_TAIL@
}

/// The identifiers of a list of content documents.
pub open spec fn file_ids(files: Seq<(String, String)>) -> Seq<Seq<char>> {
    Seq::new(files.len(), |i: int| files[i].0@)
}

/// What stands at the place where the package is to be written.
#[derive(Debug, Clone, Copy, PartialEq, Eq, Structural)]
pub enum Target {
    /// Nothing: the directory has to be made.
    Missing,
    /// A directory.
    Directory,
    /// Something that is not a directory.
    NotDirectory,
}

/// Why a package cannot be written to the place given.
#[derive(Debug, Clone, Copy, PartialEq, Eq, Structural)]
pub enum ExportError {
    /// The place is taken by something that is not a directory.
    NotDirectory,
    /// The directory exists and overwriting was not asked for.
    DirectoryExists,
}

/// The text of an export error for the given place.
pub open spec fn export_error_text(error: ExportError, output_path: Seq<char>) -> Seq<char> {
    match error {
        ExportError::NotDirectory => output_path + " is a file, a directory expected."@,
        ExportError::DirectoryExists => output_path
            + " is an existing directory, use -f to force."@,
    }
}

impl ExportError {
    /// The message for the user.
    pub fn message(&self, output_path: &str) -> (r: String)
        ensures
            r@ == export_error_text(*self, output_path@),
    {
        let mut r = output_path.to_owned();
        match self {
            ExportError::NotDirectory => r.append(" is a file, a directory expected."),
            ExportError::DirectoryExists => r.append(
                " is an existing directory, use -f to force.",
            ),
        }
        r
    }
}

/// Decides whether a package may be written to a place: not where something
/// other than a directory stands, and into an existing directory only when
/// `force` is set. On success, says whether the directory has to be made.
pub fn to_kindle(target: Target, force: bool) -> (r: Result<bool, ExportError>)
    ensures
        r == (match target {
            Target::Missing => Ok::<bool, ExportError>(true),
            Target::NotDirectory => Err(ExportError::NotDirectory),
            Target::Directory => if force {
                Ok(false)
            } else {
                Err(ExportError::DirectoryExists)
            },
        }),
{
    match target {
        Target::Missing => Ok(true),
        Target::NotDirectory => Err(ExportError::NotDirectory),
        Target::Directory => if force {
            Ok(false)
        } else {
            Err(ExportError::DirectoryExists)
        },
    }
}

/// Appends the headword of a term with its inflections.
pub fn format_headword(out_str: &mut String, term: &Term)
    ensures
        final(out_str)@ == old(out_str)@ + headword_markup(term@),
{
    out_str.append("<b><idx:orth>");
    append_escaped(out_str, term.headword());
    let forms = term.inflections();
    if forms.len() > 0 {
        out_str.append("<idx:infl>");
        let ghost base = out_str@;
        let mut i: usize = 0;
        assert(texts(forms@).take(0) =~= Seq::<Seq<char>>::empty());
        assert(base + Seq::<char>::empty() =~= base);
        while i < forms.len()
            invariant
                i <= forms.len(),
                out_str@ == base + inflection_markup(texts(forms@).take(i as int)),
            decreases forms.len() - i,
        {
            let ghost before = out_str@;
            out_str.append("<idx:iform value=\"");
            append_escaped(out_str, forms[i].as_str());
            out_str.append("\" />");
            proof {
                let f = texts(forms@);
                assert(f.take(i + 1).drop_last() =~= f.take(i as int));
                assert(f.take(i + 1).last() == forms@[i as int]@);
                assert(out_str@ =~= base + inflection_markup(f.take(i + 1)));
            }
            i += 1;
        }
        assert(texts(forms@).take(forms.len() as int) =~= texts(forms@));
        out_str.append("</idx:infl>");
        out_str.append("</idx:orth></b><br />");
        assert(out_str@ =~= old(out_str)@ + headword_markup(term@));
    } else {
        out_str.append("</idx:orth></b><br />");
        assert(out_str@ =~= old(out_str)@ + headword_markup(term@));
    }
}

/// Appends the line of one pronunciation source.
fn format_source(out_str: &mut String, source: &Pronunciations, count: usize)
    ensures
        final(out_str)@ == old(out_str)@ + source_line(source@, count as nat),
{
    let name = source.name();
    let is_wiki = same_text(name, "wiki");
    if count > 1 && is_wiki {
        assert(out_str@ =~= old(out_str)@ + Seq::<char>::empty());
        return ;
    }
    if name.unicode_len() > 0 && !is_wiki {
        out_str.append("<i>");
        append_escaped(out_str, name);
        out_str.append("</i>: ");
    }
    let line = join(source.items(), ", ");
    append_escaped(out_str, line.as_str());
    out_str.append("<br />\n");
    assert(out_str@ =~= old(out_str)@ + source_line(source@, count as nat));
}

/// Appends the pronunciation lines of a term.
pub fn format_pronunciations(out_str: &mut String, term: &Term)
    ensures
        final(out_str)@ == old(out_str)@ + pronunciation_markup(term@),
{
    let sources = term.pronunciations();
    let n = sources.len();
    let ghost views = source_views(sources@);
    let mut i: usize = 0;
    assert(views.take(0) =~= Seq::<SourceView>::empty());
    assert(out_str@ + Seq::<char>::empty() =~= out_str@);
    while i < n
        invariant
            i <= n == sources.len(),
            views == source_views(sources@),
            out_str@ == old(out_str)@ + source_lines(views.take(i as int), n as nat),
        decreases n - i,
    {
        format_source(out_str, &sources[i], n);
        proof {
            assert(views.take(i + 1).drop_last() =~= views.take(i as int));
            assert(views.take(i + 1).last() == sources@[i as int]@);
            assert(out_str@ =~= old(out_str)@ + source_lines(views.take(i + 1), n as nat));
        }
        i += 1;
    }
    assert(views.take(n as int) =~= views);
}

/// Appends the list item that holds the translations.
pub fn format_translations(out_str: &mut String, translations: &Vec<String>)
    ensures
        final(out_str)@ == old(out_str)@ + translations_markup(texts(translations@)),
{
    let line = join(translations, " | ");
    out_str.append("<li>");
    append_escaped(out_str, line.as_str());
    out_str.append("</li>\n");
    assert(out_str@ =~= old(out_str)@ + translations_markup(texts(translations@)));
}

/// Collects the translations of all the meanings, each once.
pub fn collect_translations(meanings: &Vec<Meaning>) -> (r: Vec<String>)
    ensures
        texts(r@) == all_translations(meaning_views(meanings@)),
{
    let mut r: Vec<String> = Vec::new();
    let ghost views = meaning_views(meanings@);
    let mut i: usize = 0;
    assert(views.take(0) =~= Seq::<MeaningView>::empty());
    assert(texts(r@) =~= Seq::<Seq<char>>::empty());
    while i < meanings.len()
        invariant
            i <= meanings.len(),
            views == meaning_views(meanings@),
            texts(r@) == all_translations(views.take(i as int)),
        decreases meanings.len() - i,
    {
        merge_into(&mut r, meanings[i].translations());
        proof {
            assert(views.take(i + 1).drop_last() =~= views.take(i as int));
            assert(views.take(i + 1).last() == meanings@[i as int]@);
        }
        i += 1;
    }
    assert(views.take(meanings.len() as int) =~= views);
    r
}

/// Appends the translations and the glosses of one category.
pub fn format_meanings(out_str: &mut String, meanings: &Vec<Meaning>)
    ensures
        final(out_str)@ == old(out_str)@ + meanings_markup(meaning_views(meanings@)),
{
    let ghost views = meaning_views(meanings@);
    let translations = collect_translations(meanings);
    if translations.len() > 0 {
        out_str.append("<ul>\n");
        format_translations(out_str, &translations);
        out_str.append("</ul>\n");
    }
    out_str.append("<ol>\n");
    let ghost base = out_str@;
    let mut i: usize = 0;
    assert(views.take(0) =~= Seq::<MeaningView>::empty());
    assert(base + Seq::<char>::empty() =~= base);
    while i < meanings.len()
        invariant
            i <= meanings.len(),
            views == meaning_views(meanings@),
            out_str@ == base + glosses_markup(views.take(i as int)),
        decreases meanings.len() - i,
    {
        let description = meanings[i].description();
        if description.unicode_len() > 0 {
            out_str.append("<li>");
            append_escaped(out_str, description);
            out_str.append("</li>\n");
        }
        proof {
            assert(views.take(i + 1).drop_last() =~= views.take(i as int));
            assert(views.take(i + 1).last() == meanings@[i as int]@);
            assert(out_str@ =~= base + glosses_markup(views.take(i + 1)));
        }
        i += 1;
    }
    assert(views.take(meanings.len() as int) =~= views);
    out_str.append("</ol>\n");
    assert(out_str@ =~= old(out_str)@ + meanings_markup(views));
}

/// Whether one of the meanings is not empty.
pub fn any_content(meanings: &Vec<Meaning>) -> (r: bool)
    ensures
        r == has_content(meaning_views(meanings@)),
{
    let ghost views = meaning_views(meanings@);
    let mut i: usize = 0;
    while i < meanings.len()
        invariant
            i <= meanings.len(),
            views == meaning_views(meanings@),
            forall|j: int| 0 <= j < i ==> (#[trigger] views[j]).is_empty(),
        decreases meanings.len() - i,
    {
        if !meanings[i].is_empty() {
            assert(!views[i as int].is_empty());
            return true;
        }
        i += 1;
    }
    false
}

/// Appends the sections of a term's categories.
pub fn format_classes(out_str: &mut String, term: &Term)
    ensures
        final(out_str)@ == old(out_str)@ + classes_markup(term@.classes),
{
    let classes = term.classes();
    let ghost views = class_views(classes@);
    let mut i: usize = 0;
    assert(views.take(0) =~= Seq::<ClassView>::empty());
    assert(out_str@ + Seq::<char>::empty() =~= out_str@);
    while i < classes.len()
        invariant
            i <= classes.len(),
            views == class_views(classes@),
            out_str@ == old(out_str)@ + classes_markup(views.take(i as int)),
        decreases classes.len() - i,
    {
        let ghost before = out_str@;
        let meanings = classes[i].meanings();
        if any_content(meanings) {
            out_str.append(classes[i].word_class().as_str());
            format_meanings(out_str, meanings);
        }
        proof {
            assert(views.take(i + 1).drop_last() =~= views.take(i as int));
            assert(views.take(i + 1).last() == classes@[i as int]@);
            assert(out_str@ =~= before + class_markup(classes@[i as int]@));
            assert(out_str@ =~= old(out_str)@ + classes_markup(views.take(i + 1)));
        }
        i += 1;
    }
    assert(views.take(classes.len() as int) =~= views);
}

/// Appends the entry of one term.
pub fn format_entry(out_str: &mut String, term: &Term)
    ensures
        final(out_str)@ == old(out_str)@ + entry_markup(term@),
{
    out_str.append(ENTRY_OPEN);
    format_headword(out_str, term);
    format_pronunciations(out_str, term);
    format_classes(out_str, term);
    out_str.append(ENTRY_CLOSE);
    assert(out_str@ =~= old(out_str)@ + entry_markup(term@));
}

/// Appends the opening of a content document.
pub fn start_kindle_content_file(out_str: &mut String)
    ensures
        final(out_str)@ == old(out_str)@ + CONTENT_HEAD@,
{
    out_str.append(CONTENT_HEAD);
}

/// Appends the closing of a content document.
pub fn end_kindle_content_file(out_str: &mut String)
    ensures
        final(out_str)@ == old(out_str)@ + CONTENT_TAIL@,
{
    out_str.append(CONTENT_TAIL);
}

/// A batch grows by a term that is appended within its range, and by no other.
pub proof fn lemma_batch_push(terms: Seq<TermView>, term: TermView, k: nat)
    ensures
        batch(terms.push(term), k) == if terms.len() / (BATCH_SIZE as nat) == k {
            batch(terms, k).push(term)
        } else {
            batch(terms, k)
        },
{
    let n = terms.len();
    assert(n / 30000 == k <==> k * 30000 <= n < (k + 1) * 30000);
    if n / (BATCH_SIZE as nat) == k {
        assert(batch(terms.push(term), k) =~= batch(terms, k).push(term));
    } else {
        assert(batch(terms.push(term), k) =~= batch(terms, k));
    }
}

/// The text of the content document with the given index, counted from 0: the
/// entries of the non-empty terms of its batch between the fixed opening and
/// closing.
pub fn create_kindle_content_file(dict: &Dictionary, index: usize) -> (r: String)
    ensures
        r@ == content_markup(dict@.entries, index as nat),
{
    let terms = dict.terms();
    let ghost views = term_views(terms@);
    let mut out = String::new();
    start_kindle_content_file(&mut out);
    let ghost base = out@;
    let mut seen: usize = 0;
    let mut i: usize = 0;
    proof {
        assert(views.take(0) =~= Seq::<TermView>::empty());
        assert(batch(Seq::<TermView>::empty(), index as nat) =~= Seq::<TermView>::empty());
        assert(base + Seq::<char>::empty() =~= base);
    }
    while i < terms.len()
        invariant
            i <= terms.len(),
            views == term_views(terms@),
            seen <= i,
            seen == non_empty_terms(views.take(i as int)).len(),
            out@ == base + entries_markup(
                batch(non_empty_terms(views.take(i as int)), index as nat),
            ),
        decreases terms.len() - i,
    {
        proof {
            assert(views.take(i + 1).drop_last() =~= views.take(i as int));
            assert(views.take(i + 1).last() == terms@[i as int]@);
            lemma_batch_push(non_empty_terms(views.take(i as int)), terms@[i as int]@, index as nat);
        }
        if !terms[i].is_empty() {
            if seen / BATCH_SIZE == index {
                let ghost before = out@;
                let ghost b = batch(non_empty_terms(views.take(i as int)), index as nat);
                format_entry(&mut out, &terms[i]);
                proof {
                    assert(b.push(terms@[i as int]@).drop_last() =~= b);
                    assert(out@ =~= base + entries_markup(b.push(terms@[i as int]@)));
                }
            }
            seen += 1;
        }
        i += 1;
    }
    assert(views.take(terms.len() as int) =~= views);
    end_kindle_content_file(&mut out);
    assert(out@ =~= content_markup(dict@.entries, index as nat));
    out
}

/// The character of a decimal digit.
fn digit_char(d: usize) -> (c: char)
    requires
        d < 10,
    ensures
        c == digit(d as nat),
{
    if d == 0 {
        '0'
    } else if d == 1 {
        '1'
    } else if d == 2 {
        '2'
    } else if d == 3 {
        '3'
    } else if d == 4 {
        '4'
    } else if d == 5 {
        '5'
    } else if d == 6 {
        '6'
    } else if d == 7 {
        '7'
    } else if d == 8 {
        '8'
    } else {
        '9'
    }
}

/// Appends the decimal numeral of a number.
pub fn append_decimal(out_str: &mut String, n: usize)
    ensures
        final(out_str)@ == old(out_str)@ + decimal(n as nat),
    decreases n,
{
    if n >= 10 {
        append_decimal(out_str, n / 10);
    }
    push_char(out_str, digit_char(n % 10));
    assert(out_str@ =~= old(out_str)@ + decimal(n as nat));
}

/// The identifier of the content document with the given number.
pub fn content_file_id(number: usize) -> (r: String)
    ensures
        r@ == content_id(number as nat),
{
    let mut r = "content".to_owned();
    if number < 10 {
        r.append("000");
    } else if number < 100 {
        r.append("00");
    } else if number < 1000 {
        r.append("0");
    }
    append_decimal(&mut r, number);
    assert(r@ =~= content_id(number as nat));
    r
}

/// The identifiers and paths of the content documents of a dictionary, in the
/// order of their batches. The documents are numbered from 1.
pub fn create_kindle_content_files(dict: &Dictionary, output_path: &str) -> (r: Vec<
    (String, String),
>)
    ensures
        r@.len() == document_count(dict@.entries),
        forall|i: int|
            0 <= i < r@.len() ==> (#[trigger] r@[i]).0@ == content_id((i + 1) as nat) && r@[i].1@
                == content_path(output_path@, (i + 1) as nat),
{
    let total = dict.non_empty_len();
    let count = if total == 0 {
        0
    } else {
        (total - 1) / BATCH_SIZE + 1
    };
    assert(count == document_count(dict@.entries));
    let mut files: Vec<(String, String)> = Vec::new();
    let mut i: usize = 0;
    while i < count
        invariant
            i <= count,
            files@.len() == i,
            forall|j: int|
                0 <= j < i ==> (#[trigger] files@[j]).0@ == content_id((j + 1) as nat)
                    && files@[j].1@ == content_path(output_path@, (j + 1) as nat),
        decreases count - i,
    {
        let id = content_file_id(i + 1);
        let mut path = output_path.to_owned();
        path.append("/");
        path.append(id.as_str());
        path.append(".xhtml");
        assert(path@ =~= content_path(output_path@, (i + 1) as nat));
        files.push((id, path));
        i += 1;
    }
    files
}

/// The path of the manifest.
pub fn manifest_path(output_path: &str) -> (r: String)
    ensures
        r@ == output_path@ + "/content.opf"@,
{
    let mut r = output_path.to_owned();
    r.append("/content.opf");
    r
}

/// The text of the manifest: the title, the author and the languages of the
/// dictionary, then an entry in the list of documents and one in the reading
/// order for each content document, in the order given.
pub fn create_kindle_opf_file(dict: &Dictionary, files: &Vec<(String, String)>) -> (r: String)
    ensures
        r@ == manifest_markup(dict@, file_ids(files@)),
{
    let ghost ids = file_ids(files@);
    let mut out = String::new();
    out.append(OPF_HEAD);
    append_escaped(&mut out, dict.title());
    out.append(OPF_AFTER_TITLE);
    append_escaped(&mut out, dict.author());
    out.append(OPF_AFTER_AUTHOR);
    append_escaped(&mut out, dict.source_language());
    out.append(OPF_AFTER_LANGUAGE);
    append_escaped(&mut out, dict.source_language());
    out.append(OPF_AFTER_SOURCE);
    append_escaped(&mut out, dict.target_language());
    out.append(OPF_AFTER_TARGET);
    let ghost base = out@;
    let mut i: usize = 0;
    assert(ids.take(0) =~= Seq::<Seq<char>>::empty());
    assert(base + Seq::<char>::empty() =~= base);
    while i < files.len()
        invariant
            i <= files.len(),
            ids == file_ids(files@),
            out@ == base + manifest_items(ids.take(i as int)),
        decreases files.len() - i,
    {
        out.append("<item id=\"");
        append_escaped(&mut out, files[i].0.as_str());
        out.append("\" href=\"");
        append_escaped(&mut out, files[i].0.as_str());
        out.append(".xhtml\" media-type=\"application/xhtml+xml\" />\n");
        proof {
            assert(ids.take(i + 1).drop_last() =~= ids.take(i as int));
            assert(ids.take(i + 1).last() == files@[i as int].0@);
            assert(out@ =~= base + manifest_items(ids.take(i + 1)));
        }
        i += 1;
    }
    assert(ids.take(files.len() as int) =~= ids);
    out.append(OPF_BEFORE_SPINE);
    let ghost base2 = out@;
    let mut i: usize = 0;
    assert(base2 + Seq::<char>::empty() =~= base2);
    while i < files.len()
        invariant
            i <= files.len(),
            ids == file_ids(files@),
            out@ == base2 + spine_items(ids.take(i as int)),
        decreases files.len() - i,
    {
        out.append("<itemref idref=\"");
        append_escaped(&mut out, files[i].0.as_str());
        out.append("\"/>\n");
        proof {
            assert(ids.take(i + 1).drop_last() =~= ids.take(i as int));
            assert(ids.take(i + 1).last() == files@[i as int].0@);
            assert(out@ =~= base2 + spine_items(ids.take(i + 1)));
        }
        i += 1;
    }
    assert(ids.take(files.len() as int) =~= ids);
    out.append(OPF_TAIL);
    assert(out@ =~= manifest_markup(dict@, ids));
    out
}

/// The mathematical content of a [`Package`].
pub struct PackageView {
    /// Whether the output directory has to be made first.
    pub create_directory: bool,
    /// The identifier and the path of each content document.
    pub files: Seq<(Seq<char>, Seq<char>)>,
    /// The text of each content document.
    pub contents: Seq<Seq<char>>,
    pub manifest_path: Seq<char>,
    pub manifest: Seq<char>,
}

/// The identifiers of the content documents of a dictionary, in order.
pub open spec fn content_ids(entries: Seq<TermView>) -> Seq<Seq<char>> {
    Seq::new(document_count(entries), |i: int| content_id((i + 1) as nat))
}

/// The package of a dictionary for an output directory: one content document
/// for each batch of non-empty terms, numbered from 1, and a manifest that
/// lists them in that order.
pub open spec fn package_of(
    d: DictionaryView,
    output_path: Seq<char>,
    create_directory: bool,
) -> PackageView {
    PackageView {
        create_directory,
        files: Seq::new(
            document_count(d.entries),
            |i: int| (content_id((i + 1) as nat), content_path(output_path, (i + 1) as nat)),
        ),
        contents: Seq::new(
            document_count(d.entries),
            |i: int| content_markup(d.entries, i as nat),
        ),
        manifest_path: output_path + "/content.opf"@,
        manifest: manifest_markup(d, content_ids(d.entries)),
    }
}

/// A package, ready to be written.
#[derive(Debug)]
pub struct Package {
    create_directory: bool,
    files: Vec<(String, String)>,
    contents: Vec<String>,
    manifest_path: String,
    manifest: String,
}

impl View for Package {
    type V = PackageView;

    closed spec fn view(&self) -> PackageView {
        PackageView {
            create_directory: self.create_directory,
            files: pair_views(self.files@),
            contents: texts(self.contents@),
            manifest_path: self.manifest_path@,
            manifest: self.manifest@,
        }
    }
}

impl Package {
    /// Whether the output directory has to be made first.
    pub fn create_directory(&self) -> (r: bool)
        ensures
            r == self@.create_directory,
    {
        self.create_directory
    }

    /// The identifier and the path of each content document.
    pub fn files(&self) -> (r: &Vec<(String, String)>)
        ensures
            pair_views(r@) == self@.files,
    {
        &self.files
    }

    /// The text of each content document, in the order of the files.
    pub fn contents(&self) -> (r: &Vec<String>)
        ensures
            texts(r@) == self@.contents,
    {
        &self.contents
    }

    /// The path of the manifest.
    pub fn manifest_path(&self) -> (r: &str)
        ensures
            r@ == self@.manifest_path,
    {
        self.manifest_path.as_str()
    }

    /// The text of the manifest.
    pub fn manifest(&self) -> (r: &str)
        ensures
            r@ == self@.manifest,
    {
        self.manifest.as_str()
    }
}

impl Dictionary {
    /// The package of the dictionary for an output directory, given what
    /// stands at that place. Fails, before anything is rendered, where the
    /// place is taken by something that is not a directory, or by a directory
    /// while `force` is not set.
    pub fn to_kindle(&self, output_path: &str, target: Target, force: bool) -> (r: Result<
        Package,
        ExportError,
    >)
        ensures
            match target {
                Target::NotDirectory => r matches Err(e) && e == ExportError::NotDirectory,
                Target::Directory => if force {
                    r matches Ok(p) && p@ == package_of(self@, output_path@, false)
                } else {
                    r matches Err(e) && e == ExportError::DirectoryExists
                },
                Target::Missing => r matches Ok(p) && p@ == package_of(
                    self@,
                    output_path@,
                    true,
                ),
            },
    {
        let create_directory = match to_kindle(target, force) {
            Ok(create) => create,
            Err(e) => {
                return Err(e);
            },
        };
        let files = create_kindle_content_files(self, output_path);
        let mut contents: Vec<String> = Vec::new();
        let mut i: usize = 0;
        while i < files.len()
            invariant
                i <= files.len(),
                contents@.len() == i,
                forall|j: int|
                    0 <= j < i ==> (#[trigger] contents@[j])@ == content_markup(
                        self@.entries,
                        j as nat,
                    ),
            decreases files.len() - i,
        {
            contents.push(create_kindle_content_file(self, i));
            i += 1;
        }
        let manifest = create_kindle_opf_file(self, &files);
        let p = Package {
            create_directory,
            files,
            contents,
            manifest_path: manifest_path(output_path),
            manifest,
        };
        proof {
            let expected = package_of(self@, output_path@, create_directory);
            assert(file_ids(p.files@) =~= content_ids(self@.entries));
            assert(p@.files =~= expected.files);
            assert(p@.contents =~= expected.contents);
        }
        Ok(p)
    }
}

/// The exported terms of a concatenation are those of its parts.
pub proof fn lemma_non_empty_terms_concat(a: Seq<TermView>, b: Seq<TermView>)
    ensures
        non_empty_terms(a + b) == non_empty_terms(a) + non_empty_terms(b),
    decreases b.len(),
{
    if b.len() == 0 {
        assert(a + b =~= a);
        assert(non_empty_terms(a) + non_empty_terms(b) =~= non_empty_terms(a));
    } else {
        lemma_non_empty_terms_concat(a, b.drop_last());
        assert((a + b).drop_last() =~= a + b.drop_last());
        assert((a + b).last() == b.last());
        assert(non_empty_terms(a + b) =~= non_empty_terms(a) + non_empty_terms(b));
    }
}

/// No exported term is empty.
pub proof fn lemma_non_empty_terms(entries: Seq<TermView>)
    ensures
        non_empty_terms(entries).len() <= entries.len(),
        forall|i: int|
            0 <= i < non_empty_terms(entries).len() ==> !(#[trigger] non_empty_terms(
                entries,
            )[i]).is_empty(),
    decreases entries.len(),
{
    if entries.len() > 0 {
        lemma_non_empty_terms(entries.drop_last());
    }
}

/// An empty term takes no place in the export: wherever it stands among the
/// terms, the number of content documents and the text of each are what they
/// are without it.
pub proof fn lemma_empty_term_is_left_out(
    before: Seq<TermView>,
    term: TermView,
    after: Seq<TermView>,
    k: nat,
)
    requires
        term.is_empty(),
    ensures
        non_empty_terms(before + seq![term] + after) == non_empty_terms(before + after),
        document_count(before + seq![term] + after) == document_count(before + after),
        content_markup(before + seq![term] + after, k) == content_markup(before + after, k),
{
    lemma_non_empty_terms_concat(before + seq![term], after);
    lemma_non_empty_terms_concat(before, seq![term]);
    lemma_non_empty_terms_concat(before, after);
    assert(seq![term].drop_last() =~= Seq::<TermView>::empty());
    assert(non_empty_terms(seq![term].drop_last()) =~= Seq::<TermView>::empty());
    assert(non_empty_terms(seq![term]) =~= Seq::<TermView>::empty());
    assert(non_empty_terms(before) + Seq::<TermView>::empty() =~= non_empty_terms(before));
}

/// The first `count` batches of the given terms, one after the other.
pub open spec fn batches_joined(terms: Seq<TermView>, count: nat) -> Seq<TermView>
    decreases count,
{
    if count == 0 {
        Seq::empty()
    } else {
        batches_joined(terms, (count - 1) as nat) + batch(terms, (count - 1) as nat)
    }
}

/// The first `count` batches hold the first `count * BATCH_SIZE` terms, as far
/// as there are that many.
pub proof fn lemma_batches_joined(terms: Seq<TermView>, count: nat)
    ensures
        batches_joined(terms, count) == terms.take(clip(count * BATCH_SIZE, terms.len())),
    decreases count,
{
    if count == 0 {
        assert(terms.take(0) =~= Seq::<TermView>::empty());
    } else {
        lemma_batches_joined(terms, (count - 1) as nat);
        assert((count - 1) * 30000 + 30000 == count * 30000);
        assert(batches_joined(terms, count) =~= terms.take(
            clip(count * BATCH_SIZE, terms.len()),
        ));
    }
}

/// The batches part the terms: every batch but the last holds exactly
/// `BATCH_SIZE` terms, the last holds at least one and no more than that,
/// there is none beyond the last, and the batches one after the other are the
/// terms in their order.
pub proof fn lemma_batches(terms: Seq<TermView>)
    ensures
        forall|k: nat|
            k + 1 < batch_count(terms.len()) ==> (#[trigger] batch(terms, k)).len() == BATCH_SIZE,
        forall|k: nat|
            k + 1 == batch_count(terms.len()) ==> 1 <= (#[trigger] batch(terms, k)).len()
                <= BATCH_SIZE && batch(terms, k).len() == terms.len() - k * BATCH_SIZE,
        forall|k: nat| k >= batch_count(terms.len()) ==> (#[trigger] batch(terms, k)).len() == 0,
        batches_joined(terms, batch_count(terms.len())) == terms,
{
    let n = terms.len();
    let c = batch_count(n);
    assert(c * 30000 >= n && (c == 0 || (c - 1) * 30000 < n));
    assert forall|k: nat| k + 1 < c implies (#[trigger] batch(terms, k)).len() == BATCH_SIZE by {
        assert((k + 1) * 30000 <= (c - 1) * 30000) by (nonlinear_arith)
            requires
                k + 1 <= c - 1,
        ;
        assert((k + 1) * 30000 == k * 30000 + 30000);
    }
    assert forall|k: nat| k + 1 == c implies 1 <= (#[trigger] batch(terms, k)).len() <= BATCH_SIZE
        && batch(terms, k).len() == n - k * BATCH_SIZE by {
        assert((k + 1) * 30000 == k * 30000 + 30000);
    }
    assert forall|k: nat| k >= c implies (#[trigger] batch(terms, k)).len() == 0 by {
        assert(k * 30000 >= c * 30000) by (nonlinear_arith)
            requires
                k >= c,
        ;
        assert((k + 1) * 30000 == k * 30000 + 30000);
    }
    lemma_batches_joined(terms, c);
    assert(terms.take(n as int) =~= terms);
}

/// Where a term has two pronunciation sources, one of them `wiki`, only the
/// line of the other is rendered.
pub proof fn lemma_wiki_line_suppressed(term: TermView, named: SourceView, wiki: SourceView)
    requires
        wiki.name == "wiki"@,
        named.name != "wiki"@,
        term.pronunciations == seq![named, wiki] || term.pronunciations == seq![wiki, named],
    ensures
        pronunciation_markup(term) == source_line(named, 2),
        source_line(named, 2) == (if named.name.len() > 0 {
            "<i>"@ + escaped(named.name) + "</i>: "@
        } else {
            Seq::empty()
        }) + escaped(joined(named.items, ", "@)) + "<br />\n"@,
{
    let s = term.pronunciations;
    assert(s.drop_last().drop_last() =~= Seq::<SourceView>::empty());
    assert(source_lines(s.drop_last().drop_last(), 2) =~= Seq::<char>::empty());
    assert(source_lines(s.drop_last(), 2) =~= source_line(s[0], 2));
    assert(source_lines(s, 2) =~= source_line(s[0], 2) + source_line(s[1], 2));
    assert(pronunciation_markup(term) =~= source_line(named, 2));
}

} // verus!
