//! The tabular sources: a bilingual word list and pronunciation lists.
//!
//! Both are tab-delimited texts. The functions here take the text, or its
//! rows; reading the files is left to the caller.

use crate::dictionary::{Dictionary, DictionaryView};
use crate::meaning::{Meaning, MeaningView};
use crate::text::{
    has_prefix, lines, lines_of, same_text, split, split_on, starts_with, texts, trim, trimmed,
};
use crate::word_class::WordClass;
use vstd::prelude::*;

verus! {

/// The views of a sequence of rows.
pub open spec fn row_views(rows: Seq<Vec<String>>) -> Seq<Seq<Seq<char>>> {
    Seq::new(rows.len(), |i: int| texts(rows[i]@))
}

/// Whether a line gives a row: it is no comment and has more than one field.
pub open spec fn is_row(line: Seq<char>) -> bool {
    !has_prefix(line, "#"@) && split_on(line, '\t').len() > 1
}

/// The rows of the given lines: the fields of each line that gives a row.
pub open spec fn rows_of_lines(lines: Seq<Seq<char>>) -> Seq<Seq<Seq<char>>>
    decreases lines.len(),
{
    if lines.len() == 0 {
        Seq::empty()
    } else if is_row(lines.last()) {
        rows_of_lines(lines.drop_last()).push(split_on(lines.last(), '\t'))
    } else {
        rows_of_lines(lines.drop_last())
    }
}

/// The rows of a tab-delimited text.
pub open spec fn tab_rows(contents: Seq<char>) -> Seq<Seq<Seq<char>>> {
    rows_of_lines(lines_of(contents))
}

/// The category that a tag of the bilingual list stands for.
pub open spec fn class_of_tag(tag: Seq<char>) -> WordClass {
    if tag == "n:"@ {
        WordClass::Noun
    } else if tag == "v:"@ {
        WordClass::Verb
    } else if tag == "adv:"@ {
        WordClass::Adverb
    } else if tag == "adj:"@ {
        WordClass::Adjective
    } else if tag == "pron:"@ {
        WordClass::Pronoun
    } else if tag == "prep:"@ {
        WordClass::Preposition
    } else {
        WordClass::Unknown
    }
}

/// The dictionary after one row of the bilingual list: a row of fewer than
/// three fields changes nothing; any other registers a meaning without gloss
/// whose one translation is the second field, under the headword of the first
/// field and the category of the third.
pub open spec fn with_czech_row(d: DictionaryView, row: Seq<Seq<char>>) -> DictionaryView {
    if row.len() < 3 {
        d
    } else {
        d.with_meaning(
            trimmed(row[0]),
            class_of_tag(row[2]),
            MeaningView::new(Seq::empty()).with_translation(trimmed(row[1])),
        )
    }
}

/// The dictionary after the rows of a bilingual list, in order.
pub open spec fn with_czech_rows(d: DictionaryView, rows: Seq<Seq<Seq<char>>>) -> DictionaryView
    decreases rows.len(),
{
    if rows.len() == 0 {
        d
    } else {
        with_czech_row(with_czech_rows(d, rows.drop_last()), rows.last())
    }
}

/// The dictionary after the given pronunciations of a headword are registered
/// under a source, each trimmed, in order.
pub open spec fn with_pronunciations(
    d: DictionaryView,
    headword: Seq<char>,
    name: Seq<char>,
    items: Seq<Seq<char>>,
) -> DictionaryView
    decreases items.len(),
{
    if items.len() == 0 {
        d
    } else {
        with_pronunciations(d, headword, name, items.drop_last()).with_pronunciation(
            headword,
            name,
            trimmed(items.last()),
        )
    }
}

/// The dictionary after one row of a pronunciation list: the second field
/// holds the pronunciations of the first, separated by commas. A row of fewer
/// than two fields changes nothing.
pub open spec fn with_pronunciation_row(
    d: DictionaryView,
    name: Seq<char>,
    row: Seq<Seq<char>>,
) -> DictionaryView {
    if row.len() < 2 {
        d
    } else {
        with_pronunciations(d, trimmed(row[0]), name, split_on(row[1], ','))
    }
}

/// The dictionary after the rows of a pronunciation list, in order.
pub open spec fn with_pronunciation_rows(
    d: DictionaryView,
    name: Seq<char>,
    rows: Seq<Seq<Seq<char>>>,
) -> DictionaryView
    decreases rows.len(),
{
    if rows.len() == 0 {
        d
    } else {
        with_pronunciation_row(with_pronunciation_rows(d, name, rows.drop_last()), name, rows.last())
    }
}

/// Splits a tab-delimited text into rows. Lines that start with `#` and lines
/// with a single field are left out.
pub fn read_tab_file(contents: &str) -> (r: Vec<Vec<String>>)
    ensures
        row_views(r@) == tab_rows(contents@),
{
    let all = lines(contents);
    let ghost views = texts(all@);
    let mut rows: Vec<Vec<String>> = Vec::new();
    let mut i: usize = 0;
    assert(views.take(0) =~= Seq::<Seq<char>>::empty());
    assert(row_views(rows@) =~= Seq::<Seq<Seq<char>>>::empty());
    while i < all.len()
        invariant
            i <= all.len(),
            views == texts(all@),
            row_views(rows@) == rows_of_lines(views.take(i as int)),
        decreases all.len() - i,
    {
        proof {
            assert(views.take(i + 1).drop_last() =~= views.take(i as int));
            assert(views.take(i + 1).last() == all@[i as int]@);
        }
        let line = all[i].as_str();
        if !starts_with(line, "#") {
            let fields = split(line, '\t');
            if fields.len() > 1 {
                let ghost before = rows@;
                rows.push(fields);
                assert(row_views(rows@) =~= row_views(before).push(texts(fields@)));
            }
        }
        i += 1;
    }
    assert(views.take(all.len() as int) =~= views);
    rows
}

/// The category that a tag of the bilingual list stands for.
pub fn word_class_of_tag(tag: &str) -> (r: WordClass)
    ensures
        r == class_of_tag(tag@),
{
    if same_text(tag, "n:") {
        WordClass::Noun
    } else if same_text(tag, "v:") {
        WordClass::Verb
    } else if same_text(tag, "adv:") {
        WordClass::Adverb
    } else if same_text(tag, "adj:") {
        WordClass::Adjective
    } else if same_text(tag, "pron:") {
        WordClass::Pronoun
    } else if same_text(tag, "prep:") {
        WordClass::Preposition
    } else {
        WordClass::Unknown
    }
}

/// Registers the rows of a bilingual word list. A row of fewer than three
/// fields is passed over.
pub fn read_czech(dict: &mut Dictionary, rows: &Vec<Vec<String>>)
    requires
        old(dict).wf(),
    ensures
        final(dict).wf(),
        final(dict)@ == with_czech_rows(old(dict)@, row_views(rows@)),
{
    let ghost views = row_views(rows@);
    let mut i: usize = 0;
    assert(views.take(0) =~= Seq::<Seq<Seq<char>>>::empty());
    while i < rows.len()
        invariant
            i <= rows.len(),
            views == row_views(rows@),
            dict.wf(),
            dict@ == with_czech_rows(old(dict)@, views.take(i as int)),
        decreases rows.len() - i,
    {
        proof {
            assert(views.take(i + 1).drop_last() =~= views.take(i as int));
            assert(views.take(i + 1).last() == texts(rows@[i as int]@));
        }
        let line = &rows[i];
        if line.len() >= 3 {
            let mut meaning = Meaning::new("");
            let translation = trim(line[1].as_str());
            meaning.add_translation(translation.as_str());
            let word_class = word_class_of_tag(line[2].as_str());
            let headword = trim(line[0].as_str());
            proof {
                reveal_strlit("");
                assert(""@ =~= Seq::<char>::empty());
            }
            dict.add_meaning(headword.as_str(), word_class, meaning);
        }
        i += 1;
    }
    assert(views.take(rows.len() as int) =~= views);
}

/// Registers the rows of a pronunciation list under the source `name`. A row
/// of fewer than two fields is passed over.
pub fn read_pronunciation(dict: &mut Dictionary, name: &str, rows: &Vec<Vec<String>>)
    requires
        old(dict).wf(),
    ensures
        final(dict).wf(),
        final(dict)@ == with_pronunciation_rows(old(dict)@, name@, row_views(rows@)),
{
    let ghost views = row_views(rows@);
    let mut i: usize = 0;
    assert(views.take(0) =~= Seq::<Seq<Seq<char>>>::empty());
    while i < rows.len()
        invariant
            i <= rows.len(),
            views == row_views(rows@),
            dict.wf(),
            dict@ == with_pronunciation_rows(old(dict)@, name@, views.take(i as int)),
        decreases rows.len() - i,
    {
        proof {
            assert(views.take(i + 1).drop_last() =~= views.take(i as int));
            assert(views.take(i + 1).last() == texts(rows@[i as int]@));
        }
        let line = &rows[i];
        if line.len() >= 2 {
            let headword = trim(line[0].as_str());
            let items = split(line[1].as_str(), ',');
            let ghost start = dict@;
            let ghost item_views = texts(items@);
            let mut j: usize = 0;
            assert(item_views.take(0) =~= Seq::<Seq<char>>::empty());
            while j < items.len()
                invariant
                    j <= items.len(),
                    item_views == texts(items@),
                    dict.wf(),
                    dict@ == with_pronunciations(
                        start,
                        headword@,
                        name@,
                        item_views.take(j as int),
                    ),
                decreases items.len() - j,
            {
                proof {
                    assert(item_views.take(j + 1).drop_last() =~= item_views.take(j as int));
                    assert(item_views.take(j + 1).last() == items@[j as int]@);
                }
                let pronunciation = trim(items[j].as_str());
                dict.add_pronunciation(headword.as_str(), name, pronunciation.as_str());
                j += 1;
            }
            assert(item_views.take(items.len() as int) =~= item_views);
        }
        i += 1;
    }
    assert(views.take(rows.len() as int) =~= views);
}

} // verus!
