//! The markup-dump reader: from the events of an XML export to the facts of
//! its pages.
//!
//! The caller decodes the archive and reads the XML events one by one; the
//! reader here keeps the state of the current page, and when a page ends it
//! extracts the page's pronunciations and translations into the dictionary.

use crate::dictionary::{Dictionary, DictionaryView};
use crate::meaning::{Meaning, MeaningView};
use crate::pattern::{
    all_matches, compile, first_group, is_match, pattern_all_matches, pattern_compiles,
    pattern_first_group, pattern_matches, pattern_source,
};
use crate::text::{
    contains_char, fold_case, has_prefix, lines, lines_of, lowercase, same_text, split, split_on,
    starts_with, texts, trim, trimmed,
};
use crate::word_class::WordClass;
use regex::Regex;
use vstd::prelude::*;
use vstd::string::StringExecFns;

verus! {

/// A template marker: two opening braces, the fields, two closing braces.
pub const RE_DATA: &'static str = r"\{\{(.*?)}}";

/// The title of a page that holds the translations of another.
pub const RE_TRANSLATIONS_TITLE: &'static str = r"^([^/]+)/translations$";

/// The heading of a language section.
pub const RE_LANGUAGE: &'static str = r"^==([^=]+)==$";

/// The beginning of the pattern for a line of translations.
pub const RE_PREFIX_HEAD: &'static str = "^\\*.?\\s";

/// The pattern that recognises a line of translations into the language that
/// the dump calls `lang_prefix`.
pub open spec fn prefix_pattern(lang_prefix: Seq<char>) -> Seq<char> {
    RE_PREFIX_HEAD@ + lang_prefix + ":"@
}

/// What a text of the XML export stands for once its entities are resolved;
/// `None` where it holds an entity that is unknown or not closed.
pub uninterp spec fn xml_unescaped(raw: Seq<char>) -> Option<Seq<char>>;

/// `quick_xml::escape::unescape`: resolves the entities and character
/// references of a text, or fails on one that is unknown or not closed. The
/// result depends on the text alone.
#[verifier::external_body]
pub(crate) fn unescape(raw: &str) -> (r: Option<String>)
    ensures
        match r {
            Some(s) => xml_unescaped(raw@) == Some(s@),
            None => xml_unescaped(raw@) is None,
        },
{
    quick_xml::escape::unescape(raw).ok().map(|c| c.into_owned())
}

/// The compiled expressions of the page extractor.
#[derive(Debug)]
pub struct Re {
    lang_prefix: String,
    data: Regex,
    translations_title: Regex,
    language: Regex,
    prefix: Regex,
}

/// Whether the patterns of the page extractor compile for a language prefix.
pub open spec fn page_patterns_compile(lang_prefix: Seq<char>) -> bool {
    &&& pattern_compiles(RE_DATA@)
    &&& pattern_compiles(RE_TRANSLATIONS_TITLE@)
    &&& pattern_compiles(RE_LANGUAGE@)
    &&& pattern_compiles(prefix_pattern(lang_prefix))
}

impl Re {
    /// The language prefix that the expressions were made for.
    pub closed spec fn language_prefix(&self) -> Seq<char> {
        self.lang_prefix@
    }

    /// Each field holds the expression of its pattern.
    pub closed spec fn wf(&self) -> bool {
        &&& pattern_source(self.data) == RE_DATA@
        &&& pattern_source(self.translations_title) == RE_TRANSLATIONS_TITLE@
        &&& pattern_source(self.language) == RE_LANGUAGE@
        &&& pattern_source(self.prefix) == prefix_pattern(self.lang_prefix@)
    }

    /// Compiles the expressions of the page extractor. The language prefix
    /// becomes part of a pattern, as it is written.
    pub fn new(lang_prefix: &str) -> (r: Option<Re>)
        ensures
            r is Some <==> page_patterns_compile(lang_prefix@),
            r matches Some(re) ==> re.wf() && re.language_prefix() == lang_prefix@,
    {
        let mut prefix = RE_PREFIX_HEAD.to_owned();
        prefix.append(lang_prefix);
        prefix.append(":");
        let data = compile(RE_DATA)?;
        let translations_title = compile(RE_TRANSLATIONS_TITLE)?;
        let language = compile(RE_LANGUAGE)?;
        let prefix = compile(prefix.as_str())?;
        Some(Re { lang_prefix: lang_prefix.to_owned(), data, translations_title, language, prefix })
    }
}

/// The state of the page extractor between two markers.
pub struct ScanView {
    pub dict: DictionaryView,
    /// The category of the meanings that follow.
    pub word_class: WordClass,
    /// The meaning that is being collected.
    pub meaning: MeaningView,
    /// The current language section, in lower case; empty before the first.
    pub language: Seq<char>,
    /// Whether a section of another language was reached.
    pub stopped: bool,
}

/// The dictionary after the pending meaning is registered, if it is not empty.
pub open spec fn flushed(
    d: DictionaryView,
    headword: Seq<char>,
    word_class: WordClass,
    meaning: MeaningView,
) -> DictionaryView {
    if meaning.is_empty() {
        d
    } else {
        d.with_meaning(headword, word_class, meaning)
    }
}

/// The dictionary after those of the given fields that start with `/`, each
/// trimmed, are registered as pronunciations of the source `wiki`.
pub open spec fn with_wiki_pronunciations(
    d: DictionaryView,
    headword: Seq<char>,
    fields: Seq<Seq<char>>,
) -> DictionaryView
    decreases fields.len(),
{
    if fields.len() == 0 {
        d
    } else {
        let before = with_wiki_pronunciations(d, headword, fields.drop_last());
        if has_prefix(trimmed(fields.last()), "/"@) {
            before.with_pronunciation(headword, "wiki"@, trimmed(fields.last()))
        } else {
            before
        }
    }
}

/// The fields of a marker from the third on.
pub open spec fn fields_after_second(parts: Seq<Seq<char>>) -> Seq<Seq<char>> {
    if parts.len() > 2 {
        parts.skip(2)
    } else {
        Seq::empty()
    }
}

/// The category that a marker sets, if it sets one.
pub open spec fn class_of_marker(control: Seq<char>) -> Option<WordClass> {
    if control == "en-noun"@ {
        Some(WordClass::Noun)
    } else if control == "en-pron"@ {
        Some(WordClass::Pronoun)
    } else if control == "en-adv"@ {
        Some(WordClass::Adverb)
    } else if control == "en-det"@ {
        Some(WordClass::Determiner)
    } else if control == "en-con"@ {
        Some(WordClass::LinkingWord)
    } else if control == "en-verb"@ {
        Some(WordClass::Verb)
    } else if control == "en-adj"@ {
        Some(WordClass::Adjective)
    } else if control == "en-prep"@ {
        Some(WordClass::Preposition)
    } else {
        None
    }
}

/// The state after one marker with the given fields, on a line that matches
/// the translation prefix or not. The first field, trimmed, selects what is
/// done.
pub open spec fn after_marker(
    s: ScanView,
    headword: Seq<char>,
    parts: Seq<Seq<char>>,
    line_matches_prefix: bool,
) -> ScanView {
    if parts.len() == 0 {
        s
    } else if trimmed(parts[0]) == "IPA"@ {
        if (parts.len() > 1 && parts[1] != s.dict.source_language) || s.language != "english"@ {
            s
        } else {
            ScanView {
                dict: with_wiki_pronunciations(s.dict, headword, fields_after_second(parts)),
                ..s
            }
        }
    } else if trimmed(parts[0]) == "trans-top"@ {
        ScanView {
            dict: flushed(s.dict, headword, s.word_class, s.meaning),
            meaning: if parts.len() >= 2 && s.language == "english"@ {
                MeaningView::new(trimmed(parts[1]))
            } else {
                MeaningView::new(Seq::empty())
            },
            ..s
        }
    } else if trimmed(parts[0]) == "trans-bottom"@ {
        if s.meaning.is_empty() {
            s
        } else {
            ScanView {
                dict: flushed(s.dict, headword, s.word_class, s.meaning),
                meaning: MeaningView::new(Seq::empty()),
                ..s
            }
        }
    } else if class_of_marker(trimmed(parts[0])) is Some {
        ScanView { word_class: class_of_marker(trimmed(parts[0]))->0, ..s }
    } else if parts.len() > 2 && line_matches_prefix {
        ScanView { meaning: s.meaning.with_translation(trimmed(parts[2])), ..s }
    } else {
        s
    }
}

/// The fields of a marker: what stands between its braces, split at the
/// vertical bars.
pub open spec fn marker_fields(marker: Seq<char>) -> Seq<Seq<char>> {
    match pattern_first_group(RE_DATA@, marker) {
        Some(inner) => split_on(inner, '|'),
        None => Seq::empty(),
    }
}

/// The state after the markers of one line, in order.
pub open spec fn after_markers(
    s: ScanView,
    headword: Seq<char>,
    markers: Seq<Seq<char>>,
    line_matches_prefix: bool,
) -> ScanView
    decreases markers.len(),
{
    if markers.len() == 0 {
        s
    } else {
        after_marker(
            after_markers(s, headword, markers.drop_last(), line_matches_prefix),
            headword,
            marker_fields(markers.last()),
            line_matches_prefix,
        )
    }
}

/// The language section after a line: that of the line's heading, in lower
/// case, if the line is a heading.
pub open spec fn language_after(language: Seq<char>, line: Seq<char>) -> Seq<char> {
    match pattern_first_group(RE_LANGUAGE@, line) {
        Some(name) => lowercase(name),
        None => language,
    }
}

/// Whether the section is one of another language than English.
pub open spec fn is_foreign(language: Seq<char>) -> bool {
    language.len() > 0 && language != "english"@
}

/// The state after one line: the scan stops at the heading of a section of
/// another language; otherwise the markers of the line are applied.
pub open spec fn after_line(
    s: ScanView,
    headword: Seq<char>,
    line: Seq<char>,
    lang_prefix: Seq<char>,
) -> ScanView {
    let language = language_after(s.language, line);
    if is_foreign(language) {
        ScanView { language, stopped: true, ..s }
    } else {
        after_markers(
            ScanView { language, ..s },
            headword,
            pattern_all_matches(RE_DATA@, line),
            pattern_matches(prefix_pattern(lang_prefix), line),
        )
    }
}

/// The state after the given lines, in order; once the scan has stopped, the
/// lines that follow change nothing.
pub open spec fn after_lines(
    s: ScanView,
    headword: Seq<char>,
    lines: Seq<Seq<char>>,
    lang_prefix: Seq<char>,
) -> ScanView
    decreases lines.len(),
{
    if lines.len() == 0 {
        s
    } else {
        let before = after_lines(s, headword, lines.drop_last(), lang_prefix);
        if before.stopped {
            before
        } else {
            after_line(before, headword, lines.last(), lang_prefix)
        }
    }
}

/// The headword of a page: its title, trimmed, without a trailing
/// `/translations`.
pub open spec fn page_headword(title: Seq<char>) -> Seq<char> {
    match pattern_first_group(RE_TRANSLATIONS_TITLE@, trimmed(title)) {
        Some(word) => word,
        None => trimmed(title),
    }
}

/// The state in which the scan of a page starts.
pub open spec fn scan_start(d: DictionaryView) -> ScanView {
    ScanView {
        dict: d,
        word_class: WordClass::Unknown,
        meaning: MeaningView::new(Seq::empty()),
        language: Seq::empty(),
        stopped: false,
    }
}

/// The dictionary after the facts of the given lines of a page are extracted.
pub open spec fn with_page_lines(
    d: DictionaryView,
    headword: Seq<char>,
    lines: Seq<Seq<char>>,
    lang_prefix: Seq<char>,
) -> DictionaryView {
    let s = after_lines(scan_start(d), headword, lines, lang_prefix);
    flushed(s.dict, headword, s.word_class, s.meaning)
}

/// The dictionary after the facts of a page are extracted.
pub open spec fn with_page(
    d: DictionaryView,
    title: Seq<char>,
    content: Seq<char>,
    lang_prefix: Seq<char>,
) -> DictionaryView {
    with_page_lines(d, page_headword(title), lines_of(content), lang_prefix)
}

/// Once the scan has stopped, further lines change nothing.
pub proof fn lemma_after_lines_stopped(
    s: ScanView,
    headword: Seq<char>,
    lines: Seq<Seq<char>>,
    lang_prefix: Seq<char>,
    i: int,
)
    requires
        0 <= i <= lines.len(),
        after_lines(s, headword, lines.take(i), lang_prefix).stopped,
    ensures
        after_lines(s, headword, lines, lang_prefix) == after_lines(
            s,
            headword,
            lines.take(i),
            lang_prefix,
        ),
    decreases lines.len() - i,
{
    if i == lines.len() {
        assert(lines.take(i) =~= lines);
    } else {
        assert(lines.take(i + 1).drop_last() =~= lines.take(i));
        lemma_after_lines_stopped(s, headword, lines, lang_prefix, i + 1);
    }
}

/// A page whose first line is the heading of a section of another language
/// than English leaves the dictionary as it was.
pub proof fn lemma_foreign_first_heading(
    d: DictionaryView,
    headword: Seq<char>,
    lines: Seq<Seq<char>>,
    lang_prefix: Seq<char>,
)
    requires
        lines.len() > 0,
        is_foreign(language_after(Seq::empty(), lines[0])),
    ensures
        with_page_lines(d, headword, lines, lang_prefix) == d,
{
    let s = scan_start(d);
    assert(lines.take(1).drop_last() =~= Seq::<Seq<char>>::empty());
    assert(lines.take(1).last() == lines[0]);
    assert(after_lines(s, headword, lines.take(1).drop_last(), lang_prefix) == s);
    assert(after_lines(s, headword, lines.take(1), lang_prefix) == after_line(
        s,
        headword,
        lines[0],
        lang_prefix,
    ));
    lemma_after_lines_stopped(s, headword, lines, lang_prefix, 1);
}

/// What the lines after the heading of a foreign section hold is never read:
/// the page gives what its lines before that heading give.
pub proof fn lemma_foreign_heading_ends_page(
    d: DictionaryView,
    headword: Seq<char>,
    lines: Seq<Seq<char>>,
    lang_prefix: Seq<char>,
    k: int,
)
    requires
        0 <= k < lines.len(),
        is_foreign(
            language_after(
                after_lines(scan_start(d), headword, lines.take(k), lang_prefix).language,
                lines[k],
            ),
        ),
    ensures
        with_page_lines(d, headword, lines, lang_prefix) == with_page_lines(
            d,
            headword,
            lines.take(k),
            lang_prefix,
        ),
{
    let s = scan_start(d);
    let before = after_lines(s, headword, lines.take(k), lang_prefix);
    assert(lines.take(k + 1).drop_last() =~= lines.take(k));
    assert(lines.take(k + 1).last() == lines[k]);
    if before.stopped {
        lemma_after_lines_stopped(s, headword, lines, lang_prefix, k);
    } else {
        lemma_after_lines_stopped(s, headword, lines, lang_prefix, k + 1);
    }
}

/// The state of the page extractor between two markers, but for the
/// dictionary.
pub struct Scan {
    word_class: WordClass,
    meaning: Meaning,
    language: String,
}

impl Scan {
    /// The state together with a dictionary.
    pub closed spec fn view_with(&self, d: DictionaryView, stopped: bool) -> ScanView {
        ScanView {
            dict: d,
            word_class: self.word_class,
            meaning: self.meaning@,
            language: self.language@,
            stopped,
        }
    }

    /// The state in which the scan of a page starts.
    pub fn new() -> (r: Scan)
        ensures
            forall|d: DictionaryView| #[trigger] r.view_with(d, false) == scan_start(d),
    {
        let r = Scan {
            word_class: WordClass::Unknown,
            meaning: Meaning::new(""),
            language: String::new(),
        };
        proof {
            reveal_strlit("");
            assert(""@ =~= Seq::<char>::empty());
        }
        r
    }

    /// The category of the meanings that follow.
    pub fn word_class(&self) -> (r: WordClass)
        ensures
            forall|d: DictionaryView, b: bool| r == (#[trigger] self.view_with(d, b)).word_class,
    {
        self.word_class
    }

    /// The meaning that is being collected.
    pub fn meaning(&self) -> (r: &Meaning)
        ensures
            forall|d: DictionaryView, b: bool| r@ == (#[trigger] self.view_with(d, b)).meaning,
    {
        &self.meaning
    }

    /// Enters the language section with the given name, as its heading does.
    pub fn enter_section(&mut self, name: &str)
        ensures
            forall|d: DictionaryView, b: bool| #[trigger]
                final(self).view_with(d, b) == (ScanView {
                    language: lowercase(name@),
                    ..old(self).view_with(d, b)
                }),
    {
        self.language = fold_case(name);
    }

    /// Whether the current section is one of another language than English.
    pub fn in_foreign_section(&self) -> (r: bool)
        ensures
            forall|d: DictionaryView, b: bool|
                r == is_foreign((#[trigger] self.view_with(d, b)).language),
    {
        self.language.as_str().unicode_len() > 0 && !same_text(self.language.as_str(), "english")
    }
}

/// A meaning without gloss and translation.
fn empty_meaning() -> (r: Meaning)
    ensures
        r@ == MeaningView::new(Seq::empty()),
        r@.wf(),
{
    proof {
        reveal_strlit("");
        assert(""@ =~= Seq::<char>::empty());
    }
    Meaning::new("")
}

/// Registers the pending meaning, if it is not empty.
fn flush(dict: &mut Dictionary, headword: &str, scan: &Scan)
    requires
        old(dict).wf(),
        scan.meaning@.wf(),
    ensures
        final(dict).wf(),
        final(dict)@ == flushed(old(dict)@, headword@, scan.word_class, scan.meaning@),
{
    if !scan.meaning.is_empty() {
        dict.add_meaning(headword, scan.word_class, scan.meaning.duplicate());
    }
}

/// The category that a marker sets, if it sets one.
pub fn word_class_of_marker(control: &str) -> (r: Option<WordClass>)
    ensures
        r == class_of_marker(control@),
{
    if same_text(control, "en-noun") {
        Some(WordClass::Noun)
    } else if same_text(control, "en-pron") {
        Some(WordClass::Pronoun)
    } else if same_text(control, "en-adv") {
        Some(WordClass::Adverb)
    } else if same_text(control, "en-det") {
        Some(WordClass::Determiner)
    } else if same_text(control, "en-con") {
        Some(WordClass::LinkingWord)
    } else if same_text(control, "en-verb") {
        Some(WordClass::Verb)
    } else if same_text(control, "en-adj") {
        Some(WordClass::Adjective)
    } else if same_text(control, "en-prep") {
        Some(WordClass::Preposition)
    } else {
        None
    }
}

/// Applies one marker, given by its fields, to the state of the scan.
/// `line_matches_prefix` says whether the marker's line is one of translations
/// into the target language.
pub fn apply_marker(
    dict: &mut Dictionary,
    scan: &mut Scan,
    headword: &str,
    parts: &Vec<String>,
    line_matches_prefix: bool,
)
    requires
        old(dict).wf(),
        old(scan).view_with(old(dict)@, false).meaning.wf(),
    ensures
        final(dict).wf(),
        final(scan).view_with(final(dict)@, false).meaning.wf(),
        final(scan).view_with(final(dict)@, false) == after_marker(
            old(scan).view_with(old(dict)@, false),
            headword@,
            texts(parts@),
            line_matches_prefix,
        ),
{
    if parts.len() == 0 {
        return ;
    }
    let ghost fields = texts(parts@);
    assert(fields[0] == parts@[0]@);
    let control = trim(parts[0].as_str());
    if same_text(control.as_str(), "IPA") {
        if parts.len() > 1 && !same_text(parts[1].as_str(), dict.source_language()) {
            assert(fields[1] == parts@[1]@);
            return ;
        }
        if parts.len() > 1 {
            assert(fields[1] == parts@[1]@);
        }
        if !same_text(scan.language.as_str(), "english") {
            return ;
        }
        let ghost rest = fields_after_second(fields);
        let ghost start = dict@;
        let mut i: usize = 2;
        assert(rest.take(0) =~= Seq::<Seq<char>>::empty());
        while i < parts.len()
            invariant
                2 <= i,
                parts.len() > 2 ==> i <= parts.len(),
                fields == texts(parts@),
                rest == fields_after_second(fields),
                dict.wf(),
                parts.len() > 2 ==> dict@ == with_wiki_pronunciations(
                    start,
                    headword@,
                    rest.take(i - 2),
                ),
                parts.len() <= 2 ==> dict@ == start,
            decreases parts.len() - i,
        {
            proof {
                assert(rest.take(i - 2 + 1).drop_last() =~= rest.take(i - 2));
                assert(rest.take(i - 2 + 1).last() == parts@[i as int]@);
            }
            let pronunciation = trim(parts[i].as_str());
            if starts_with(pronunciation.as_str(), "/") {
                dict.add_pronunciation(headword, "wiki", pronunciation.as_str());
            }
            i += 1;
        }
        proof {
            if parts.len() > 2 {
                assert(rest.take(parts.len() - 2) =~= rest);
            }
        }
    } else if same_text(control.as_str(), "trans-top") {
        flush(dict, headword, scan);
        if parts.len() >= 2 && same_text(scan.language.as_str(), "english") {
            assert(fields[1] == parts@[1]@);
            let description = trim(parts[1].as_str());
            scan.meaning = Meaning::new(description.as_str());
            assert(scan.meaning@.translations.no_duplicates());
        } else {
            scan.meaning = empty_meaning();
        }
    } else if same_text(control.as_str(), "trans-bottom") {
        if !scan.meaning.is_empty() {
            flush(dict, headword, scan);
            scan.meaning = empty_meaning();
        }
    } else {
        match word_class_of_marker(control.as_str()) {
            Some(word_class) => {
                scan.word_class = word_class;
            },
            None => {
                if parts.len() > 2 && line_matches_prefix {
                    assert(fields[2] == parts@[2]@);
                    let translation = trim(parts[2].as_str());
                    scan.meaning.add_translation(translation.as_str());
                }
            },
        }
    }
}

/// The mathematical content of a [`Page`].
pub struct PageView {
    pub title: Seq<char>,
    pub content: Seq<char>,
}

/// A page of the dump: its title and its text.
#[derive(Debug)]
pub struct Page {
    title: String,
    content: String,
}

impl View for Page {
    type V = PageView;

    closed spec fn view(&self) -> PageView {
        PageView { title: self.title@, content: self.content@ }
    }
}

impl Page {
    /// A page without title and text.
    pub fn empty() -> (r: Page)
        ensures
            r@ == (PageView { title: Seq::empty(), content: Seq::empty() }),
    {
        Page { title: String::new(), content: String::new() }
    }

    /// A page with the given title and text.
    pub fn new(title: &str, content: &str) -> (r: Page)
        ensures
            r@ == (PageView { title: title@, content: content@ }),
    {
        Page { title: title.to_owned(), content: content.to_owned() }
    }

    /// The title.
    pub fn title(&self) -> (r: &str)
        ensures
            r@ == self@.title,
    {
        self.title.as_str()
    }

    /// The text.
    pub fn content(&self) -> (r: &str)
        ensures
            r@ == self@.content,
    {
        self.content.as_str()
    }
}

/// Extracts the facts of one page into the dictionary: the pronunciations and
/// the translations of its English section. The scan ends at the heading of
/// the first section of another language.
pub fn read_wiki_page(dict: &mut Dictionary, page: &Page, re: &Re)
    requires
        old(dict).wf(),
        re.wf(),
    ensures
        final(dict).wf(),
        final(dict)@ == with_page(
            old(dict)@,
            page@.title,
            page@.content,
            re.language_prefix(),
        ),
{
    let title = trim(page.title());
    let headword = match first_group(&re.translations_title, title.as_str()) {
        Some(word) => word,
        None => title,
    };
    let mut scan = Scan::new();
    let all = lines(page.content());
    let ghost line_views = texts(all@);
    let ghost start = scan_start(old(dict)@);
    let ghost lang_prefix = re.language_prefix();
    let mut stopped = false;
    let mut i: usize = 0;
    assert(line_views.take(0) =~= Seq::<Seq<char>>::empty());
    assert(scan.view_with(dict@, false) == start);
    while i < all.len() && !stopped
        invariant
            i <= all.len(),
            line_views == texts(all@),
            re.wf(),
            lang_prefix == re.language_prefix(),
            dict.wf(),
            scan.meaning@.wf(),
            scan.view_with(dict@, stopped) == after_lines(
                start,
                headword@,
                line_views.take(i as int),
                lang_prefix,
            ),
        decreases all.len() - i,
    {
        proof {
            assert(line_views.take(i + 1).drop_last() =~= line_views.take(i as int));
            assert(line_views.take(i + 1).last() == all@[i as int]@);
        }
        let line = all[i].as_str();
        match first_group(&re.language, line) {
            Some(name) => {
                scan.enter_section(name.as_str());
            },
            None => {},
        }
        if scan.in_foreign_section() {
            stopped = true;
        } else {
            let markers = all_matches(&re.data, line);
            let line_matches_prefix = is_match(&re.prefix, line);
            let ghost marker_views = texts(markers@);
            let ghost line_start = scan.view_with(dict@, false);
            let mut j: usize = 0;
            assert(marker_views.take(0) =~= Seq::<Seq<char>>::empty());
            while j < markers.len()
                invariant
                    j <= markers.len(),
                    marker_views == texts(markers@),
                    re.wf(),
                    dict.wf(),
                    scan.meaning@.wf(),
                    scan.view_with(dict@, false) == after_markers(
                        line_start,
                        headword@,
                        marker_views.take(j as int),
                        line_matches_prefix,
                    ),
                decreases markers.len() - j,
            {
                proof {
                    assert(marker_views.take(j + 1).drop_last() =~= marker_views.take(j as int));
                    assert(marker_views.take(j + 1).last() == markers@[j as int]@);
                }
                match first_group(&re.data, markers[j].as_str()) {
                    Some(inner) => {
                        let parts = split(inner.as_str(), '|');
                        apply_marker(dict, &mut scan, headword.as_str(), &parts, line_matches_prefix);
                    },
                    None => {},
                }
                j += 1;
            }
            assert(marker_views.take(markers.len() as int) =~= marker_views);
        }
        i += 1;
    }
    proof {
        if stopped {
            lemma_after_lines_stopped(start, headword@, line_views, lang_prefix, i as int);
        } else {
            assert(line_views.take(i as int) =~= line_views);
        }
    }
    flush(dict, headword.as_str(), &scan);
}

/// Where the reader stands within a page.
#[derive(Debug, Clone, Copy, PartialEq, Eq, Structural)]
pub enum State {
    Outside,
    Page,
    Title,
    Content,
}

/// The mathematical content of an [`XmlEvent`].
pub enum XmlEventView {
    Start(Seq<char>),
    End(Seq<char>),
    Text(Seq<char>),
    Eof,
    Other,
}

/// An event of the XML stream, as far as the reader looks at it.
#[derive(Debug)]
pub enum XmlEvent {
    /// An opening tag, with the element's name.
    Start(String),
    /// A closing tag, with the element's name.
    End(String),
    /// Character data, with its entities not yet resolved.
    Text(String),
    /// The end of the stream.
    Eof,
    /// Any other event.
    Other,
}

impl View for XmlEvent {
    type V = XmlEventView;

    open spec fn view(&self) -> XmlEventView {
        match self {
            XmlEvent::Start(name) => XmlEventView::Start(name@),
            XmlEvent::End(name) => XmlEventView::End(name@),
            XmlEvent::Text(raw) => XmlEventView::Text(raw@),
            XmlEvent::Eof => XmlEventView::Eof,
            XmlEvent::Other => XmlEventView::Other,
        }
    }
}

/// The state of the reader: where it stands, and the page read so far.
pub struct ReaderView {
    pub state: State,
    pub title: Seq<char>,
    pub content: Seq<char>,
}

/// Why the stream cannot be read.
#[derive(Debug, Clone, Copy, PartialEq, Eq, Structural)]
pub enum WikiError {
    /// A text holds an entity that cannot be resolved.
    Malformed,
    /// The language prefix does not make a pattern.
    Prefix,
}

/// Whether an event makes the run fail: a text with an entity that cannot be
/// resolved.
pub open spec fn event_fails(event: XmlEventView) -> bool {
    event matches XmlEventView::Text(raw) && xml_unescaped(raw) is None
}

/// Whether an event hands the current page to the page extractor: the end of a
/// page whose title holds no colon.
pub open spec fn event_emits(r: ReaderView, event: XmlEventView) -> bool {
    event matches XmlEventView::End(name) && name == "page"@ && !r.title.contains(':')
}

/// The reader after an event that does not fail.
pub open spec fn reader_after(r: ReaderView, event: XmlEventView) -> ReaderView {
    match event {
        XmlEventView::Start(name) => if name == "page"@ {
            ReaderView { state: State::Page, title: Seq::empty(), content: Seq::empty() }
        } else if name == "title"@ {
            ReaderView { state: State::Title, title: Seq::empty(), ..r }
        } else if name == "text"@ {
            ReaderView { state: State::Content, content: Seq::empty(), ..r }
        } else {
            r
        },
        XmlEventView::End(name) => if name == "page"@ {
            ReaderView { state: State::Outside, ..r }
        } else if name == "title"@ || name == "text"@ {
            ReaderView { state: State::Page, ..r }
        } else {
            r
        },
        XmlEventView::Text(raw) => match xml_unescaped(raw) {
            Some(text) => if r.state == State::Title {
                ReaderView { title: r.title + text, ..r }
            } else if r.state == State::Content {
                ReaderView { content: r.content + text, ..r }
            } else {
                r
            },
            None => r,
        },
        XmlEventView::Eof => r,
        XmlEventView::Other => r,
    }
}

/// A page whose title holds a colon is never handed to the page extractor.
pub proof fn lemma_namespace_page_is_passed_over(r: ReaderView, event: XmlEventView)
    requires
        r.title.contains(':'),
    ensures
        !event_emits(r, event),
{
}

/// The reader of a dump: a state machine over the events of the XML stream.
pub struct WikiReader {
    state: State,
    page: Page,
    re: Re,
}

impl View for WikiReader {
    type V = ReaderView;

    closed spec fn view(&self) -> ReaderView {
        ReaderView { state: self.state, title: self.page@.title, content: self.page@.content }
    }
}

impl WikiReader {
    /// The language prefix that the reader was made for.
    pub closed spec fn language_prefix(&self) -> Seq<char> {
        self.re.language_prefix()
    }

    /// The expressions are those of the page extractor.
    pub closed spec fn wf(&self) -> bool {
        self.re.wf()
    }

    /// A reader before the first event. It can be made exactly when the
    /// patterns of the page extractor compile for the language prefix.
    pub fn new(lang_prefix: &str) -> (r: Option<WikiReader>)
        ensures
            r is Some <==> page_patterns_compile(lang_prefix@),
            r matches Some(reader) ==> reader.wf() && reader.language_prefix() == lang_prefix@
                && reader@ == (ReaderView {
                state: State::Outside,
                title: Seq::empty(),
                content: Seq::empty(),
            }),
    {
        let re = Re::new(lang_prefix)?;
        Some(WikiReader { state: State::Outside, page: Page::empty(), re })
    }

    /// Where the reader stands.
    pub fn state(&self) -> (r: State)
        ensures
            r == self@.state,
    {
        self.state
    }

    /// The page read so far.
    pub fn page(&self) -> (r: &Page)
        ensures
            r@.title == self@.title,
            r@.content == self@.content,
    {
        &self.page
    }

    /// Takes one event of the stream. A text whose entities cannot be resolved
    /// fails and changes nothing. Otherwise the reader moves on, the page that
    /// ends with the event is extracted into the dictionary unless its title
    /// holds a colon, and the result says whether more events are expected:
    /// `false` at the end of the stream.
    pub fn feed(&mut self, dict: &mut Dictionary, event: &XmlEvent) -> (r: Result<bool, WikiError>)
        requires
            old(self).wf(),
            old(dict).wf(),
        ensures
            final(self).wf(),
            final(dict).wf(),
            final(self).language_prefix() == old(self).language_prefix(),
            event_fails(event@) ==> r == Err::<bool, WikiError>(WikiError::Malformed)
                && final(self)@ == old(self)@ && final(dict)@ == old(dict)@,
            !event_fails(event@) ==> r == Ok::<bool, WikiError>(!(event@ is Eof)) && final(self)@
                == reader_after(old(self)@, event@) && final(dict)@ == (if event_emits(
                old(self)@,
                event@,
            ) {
                with_page(
                    old(dict)@,
                    old(self)@.title,
                    old(self)@.content,
                    old(self).language_prefix(),
                )
            } else {
                old(dict)@
            }),
    {
        match event {
            XmlEvent::Eof => Ok(false),
            XmlEvent::Other => Ok(true),
            XmlEvent::Start(name) => {
                if same_text(name.as_str(), "page") {
                    self.state = State::Page;
                    self.page = Page::empty();
                } else if same_text(name.as_str(), "title") {
                    self.state = State::Title;
                    self.page.title = String::new();
                } else if same_text(name.as_str(), "text") {
                    self.state = State::Content;
                    self.page.content = String::new();
                }
                Ok(true)
            },
            XmlEvent::End(name) => {
                if same_text(name.as_str(), "page") {
                    self.state = State::Outside;
                    if !contains_char(self.page.title(), ':') {
                        read_wiki_page(dict, &self.page, &self.re);
                    }
                } else if same_text(name.as_str(), "title") || same_text(name.as_str(), "text") {
                    self.state = State::Page;
                }
                Ok(true)
            },
            XmlEvent::Text(raw) => {
                match unescape(raw.as_str()) {
                    None => Err(WikiError::Malformed),
                    Some(text) => {
                        match self.state {
                            State::Title => {
                                self.page.title.append(text.as_str());
                            },
                            State::Content => {
                                self.page.content.append(text.as_str());
                            },
                            _ => {},
                        }
                        Ok(true)
                    },
                }
            },
        }
    }
}

/// A run of the reader over a stream: the reader, the dictionary, and whether
/// the run has ended, at the end of the stream or by a failure.
pub struct RunView {
    pub reader: ReaderView,
    pub dict: DictionaryView,
    pub ended: bool,
    pub failed: bool,
}

/// The run after one event.
pub open spec fn run_after(run: RunView, event: XmlEventView, lang_prefix: Seq<char>) -> RunView {
    if event_fails(event) {
        RunView { ended: true, failed: true, ..run }
    } else {
        RunView {
            reader: reader_after(run.reader, event),
            dict: if event_emits(run.reader, event) {
                with_page(run.dict, run.reader.title, run.reader.content, lang_prefix)
            } else {
                run.dict
            },
            ended: event is Eof,
            failed: false,
        }
    }
}

/// The run after the given events, in order; once it has ended, the events
/// that follow change nothing.
pub open spec fn run_after_all(
    run: RunView,
    events: Seq<XmlEventView>,
    lang_prefix: Seq<char>,
) -> RunView
    decreases events.len(),
{
    if events.len() == 0 {
        run
    } else {
        let before = run_after_all(run, events.drop_last(), lang_prefix);
        if before.ended {
            before
        } else {
            run_after(before, events.last(), lang_prefix)
        }
    }
}

/// The run before the first event.
pub open spec fn run_start(d: DictionaryView) -> RunView {
    RunView {
        reader: ReaderView { state: State::Outside, title: Seq::empty(), content: Seq::empty() },
        dict: d,
        ended: false,
        failed: false,
    }
}

/// The views of a sequence of events.
pub open spec fn event_views(events: Seq<XmlEvent>) -> Seq<XmlEventView> {
    Seq::new(events.len(), |i: int| events[i]@)
}

/// Once a run has ended, further events change nothing.
pub proof fn lemma_run_ended(
    run: RunView,
    events: Seq<XmlEventView>,
    lang_prefix: Seq<char>,
    i: int,
)
    requires
        0 <= i <= events.len(),
        run_after_all(run, events.take(i), lang_prefix).ended,
    ensures
        run_after_all(run, events, lang_prefix) == run_after_all(
            run,
            events.take(i),
            lang_prefix,
        ),
    decreases events.len() - i,
{
    if i == events.len() {
        assert(events.take(i) =~= events);
    } else {
        assert(events.take(i + 1).drop_last() =~= events.take(i));
        lemma_run_ended(run, events, lang_prefix, i + 1);
    }
}

/// Reads the events of a dump into the dictionary, up to the end of the
/// stream or to the first failure. Nothing is read where the language prefix
/// does not make a pattern. After a failure the dictionary holds the pages
/// that ended before it.
pub fn read_wiki(dict: &mut Dictionary, events: &Vec<XmlEvent>, prefix: &str) -> (r: Result<
    (),
    WikiError,
>)
    requires
        old(dict).wf(),
    ensures
        final(dict).wf(),
        !page_patterns_compile(prefix@) ==> r == Err::<(), WikiError>(WikiError::Prefix)
            && final(dict)@ == old(dict)@,
        page_patterns_compile(prefix@) ==> final(dict)@ == run_after_all(
            run_start(old(dict)@),
            event_views(events@),
            prefix@,
        ).dict && r == (if run_after_all(
            run_start(old(dict)@),
            event_views(events@),
            prefix@,
        ).failed {
            Err::<(), WikiError>(WikiError::Malformed)
        } else {
            Ok::<(), WikiError>(())
        }),
{
    let mut reader = match WikiReader::new(prefix) {
        Some(reader) => reader,
        None => {
            return Err(WikiError::Prefix);
        },
    };
    let ghost views = event_views(events@);
    let ghost start = run_start(old(dict)@);
    let mut ended = false;
    let mut failed = false;
    let mut i: usize = 0;
    assert(views.take(0) =~= Seq::<XmlEventView>::empty());
    while i < events.len() && !ended
        invariant
            i <= events.len(),
            views == event_views(events@),
            reader.wf(),
            reader.language_prefix() == prefix@,
            dict.wf(),
            failed ==> ended,
            run_after_all(start, views.take(i as int), prefix@) == (RunView {
                reader: reader@,
                dict: dict@,
                ended,
                failed,
            }),
        decreases events.len() - i,
    {
        proof {
            assert(views.take(i + 1).drop_last() =~= views.take(i as int));
            assert(views.take(i + 1).last() == events@[i as int]@);
        }
        match reader.feed(dict, &events[i]) {
            Ok(more) => {
                ended = !more;
            },
            Err(_) => {
                ended = true;
                failed = true;
            },
        }
        i += 1;
    }
    proof {
        if ended {
            lemma_run_ended(start, views, prefix@, i as int);
        } else {
            assert(views.take(i as int) =~= views);
        }
    }
    if failed {
        Err(WikiError::Malformed)
    } else {
        Ok(())
    }
}

} // verus!
