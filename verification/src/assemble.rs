//! Building a dictionary from a configuration and its tabular sources.

use crate::cli_config::{CliConfig, ConfigView};
use crate::dictionary::{Dictionary, DictionaryView};
use crate::inflection::rule_patterns_compile;
use crate::reader::{
    read_czech, read_pronunciation, read_tab_file, tab_rows, with_czech_rows,
    with_pronunciation_rows,
};
use crate::text::{pair_views, same_text};
use vstd::prelude::*;
use vstd::string::StringExecFns;

verus! {

/// Why a dictionary cannot be built from a configuration.
#[derive(Debug, Clone, Copy, PartialEq, Eq, Structural)]
pub enum BuildError {
    /// There is a bilingual list, and the languages are not English and Czech.
    UnsupportedLanguages,
    /// There is a markup dump without the prefix of its translation lines.
    MissingWikiPrefix,
    /// The patterns of the inflection rules were not accepted.
    Patterns,
}

/// The text of a build error.
pub open spec fn build_error_text(
    error: BuildError,
    source_language: Seq<char>,
    target_language: Seq<char>,
) -> Seq<char> {
    match error {
        BuildError::UnsupportedLanguages => "Unsupported language combination: "@
            + source_language + "-"@ + target_language,
        BuildError::MissingWikiPrefix => "No wiki prefix specified."@,
        BuildError::Patterns => "The inflection patterns were not accepted."@,
    }
}

impl BuildError {
    /// The message for the user.
    pub fn message(&self, source_language: &str, target_language: &str) -> (r: String)
        ensures
            r@ == build_error_text(*self, source_language@, target_language@),
    {
        match self {
            BuildError::UnsupportedLanguages => {
                let mut r = "Unsupported language combination: ".to_owned();
                r.append(source_language);
                r.append("-");
                r.append(target_language);
                r
            },
            BuildError::MissingWikiPrefix => "No wiki prefix specified.".to_owned(),
            BuildError::Patterns => "The inflection patterns were not accepted.".to_owned(),
        }
    }
}

/// What is wrong with a configuration, if anything, given whether there is a
/// bilingual list. The faults are looked for in this order, before anything is
/// read into a dictionary.
pub open spec fn build_fault(cfg: ConfigView, has_input: bool) -> Option<BuildError> {
    if has_input && !(cfg.source_language == "en"@ && cfg.target_language == "cs"@) {
        Some(BuildError::UnsupportedLanguages)
    } else if cfg.wiki_file_path is Some && cfg.wiki_prefix is None {
        Some(BuildError::MissingWikiPrefix)
    } else if !rule_patterns_compile() {
        Some(BuildError::Patterns)
    } else {
        None
    }
}

/// The dictionary of a configuration before anything is read into it.
pub open spec fn empty_dictionary(cfg: ConfigView) -> DictionaryView {
    DictionaryView {
        source_language: cfg.source_language,
        target_language: cfg.target_language,
        title: cfg.title,
        author: cfg.author,
        entries: Seq::empty(),
    }
}

/// The dictionary after an optional bilingual list, given by its text.
pub open spec fn with_input(d: DictionaryView, input: Option<Seq<char>>) -> DictionaryView {
    match input {
        Some(contents) => with_czech_rows(d, tab_rows(contents)),
        None => d,
    }
}

/// The dictionary after the given pronunciation lists, each a source's name
/// and the text of its list, in order.
pub open spec fn with_pronunciation_sources(
    d: DictionaryView,
    sources: Seq<(Seq<char>, Seq<char>)>,
) -> DictionaryView
    decreases sources.len(),
{
    if sources.len() == 0 {
        d
    } else {
        with_pronunciation_rows(
            with_pronunciation_sources(d, sources.drop_last()),
            sources.last().0,
            tab_rows(sources.last().1),
        )
    }
}

impl Dictionary {
    /// Builds the dictionary of a configuration from its tabular sources: the
    /// text of the bilingual list, if there is one, and the pronunciation
    /// lists, each with its source's name and its text. A faulty configuration
    /// is refused before anything is read. The markup dump, if there is one,
    /// is read into the result afterwards.
    pub fn build(cfg: &CliConfig, input: Option<&str>, pronunciations: &Vec<(String, String)>) -> (r:
        Result<Dictionary, BuildError>)
        ensures
            match build_fault(cfg@, input is Some) {
                Some(error) => r == Err::<Dictionary, BuildError>(error),
                None => r matches Ok(d) && d.wf() && d@ == with_pronunciation_sources(
                    with_input(
                        empty_dictionary(cfg@),
                        match input {
                            Some(contents) => Some(contents@),
                            None => None,
                        },
                    ),
                    pair_views(pronunciations@),
                ),
            },
    {
        if input.is_some() && !(same_text(cfg.source_language.as_str(), "en") && same_text(
            cfg.target_language.as_str(),
            "cs",
        )) {
            return Err(BuildError::UnsupportedLanguages);
        }
        if cfg.wiki_file_path.is_some() && cfg.wiki_prefix.is_none() {
            return Err(BuildError::MissingWikiPrefix);
        }
        let mut dict = match Dictionary::new(
            cfg.source_language.as_str(),
            cfg.target_language.as_str(),
            cfg.title.as_str(),
            cfg.author.as_str(),
        ) {
            Some(d) => d,
            None => {
                return Err(BuildError::Patterns);
            },
        };
        match input {
            Some(contents) => {
                let rows = read_tab_file(contents);
                read_czech(&mut dict, &rows);
            },
            None => {},
        }
        let ghost sources = pair_views(pronunciations@);
        let ghost start = dict@;
        let mut i: usize = 0;
        assert(sources.take(0) =~= Seq::<(Seq<char>, Seq<char>)>::empty());
        while i < pronunciations.len()
            invariant
                i <= pronunciations.len(),
                sources == pair_views(pronunciations@),
                dict.wf(),
                dict@ == with_pronunciation_sources(start, sources.take(i as int)),
            decreases pronunciations.len() - i,
        {
            proof {
                assert(sources.take(i + 1).drop_last() =~= sources.take(i as int));
                assert(sources.take(i + 1).last() == (
                    pronunciations@[i as int].0@,
                    pronunciations@[i as int].1@,
                ));
            }
            let rows = read_tab_file(pronunciations[i].1.as_str());
            read_pronunciation(&mut dict, pronunciations[i].0.as_str(), &rows);
            i += 1;
        }
        assert(sources.take(pronunciations.len() as int) =~= sources);
        Ok(dict)
    }
}

} // verus!
