//! Grammatical categories.

use vstd::prelude::*;

verus! {

/// The grammatical category of a meaning. The variants are listed in the order
/// in which a term's sections are rendered.
#[derive(Eq, Hash, PartialEq, PartialOrd, Ord, Debug, Clone, Copy, Structural)]
pub enum WordClass {
    Verb,
    Noun,
    Adjective,
    Adverb,
    Preposition,
    Determiner,
    Pronoun,
    LinkingWord,
    Unknown,
}

impl WordClass {
    /// The display label of the category.
    pub open spec fn label(self) -> Seq<char> {
        match self {
            WordClass::Noun => "noun"@,
            WordClass::Verb => "verb"@,
            WordClass::Adjective => "adjective"@,
            WordClass::Adverb => "adverb"@,
            WordClass::Determiner => "determiner"@,
            WordClass::LinkingWord => "linking"@,
            WordClass::Preposition => "preposition"@,
            WordClass::Pronoun => "pronoun"@,
            WordClass::Unknown => "other"@,
        }
    }

    /// The position of the category in the rendering order.
    pub open spec fn rank(self) -> nat {
        match self {
            WordClass::Verb => 0,
            WordClass::Noun => 1,
            WordClass::Adjective => 2,
            WordClass::Adverb => 3,
            WordClass::Preposition => 4,
            WordClass::Determiner => 5,
            WordClass::Pronoun => 6,
            WordClass::LinkingWord => 7,
            WordClass::Unknown => 8,
        }
    }

    /// The display label of the category.
    pub fn as_str(&self) -> (r: &'static str)
        ensures
            r@ == self.label(),
    {
        match self {
            WordClass::Noun => "noun",
            WordClass::Verb => "verb",
            WordClass::Adjective => "adjective",
            WordClass::Adverb => "adverb",
            WordClass::Determiner => "determiner",
            WordClass::LinkingWord => "linking",
            WordClass::Preposition => "preposition",
            WordClass::Pronoun => "pronoun",
            WordClass::Unknown => "other",
        }
    }

    /// The position of the category in the rendering order.
    pub fn position(&self) -> (r: u8)
        ensures
            r == self.rank(),
    {
        match self {
            WordClass::Verb => 0,
            WordClass::Noun => 1,
            WordClass::Adjective => 2,
            WordClass::Adverb => 3,
            WordClass::Preposition => 4,
            WordClass::Determiner => 5,
            WordClass::Pronoun => 6,
            WordClass::LinkingWord => 7,
            WordClass::Unknown => 8,
        }
    }
}

/// Two categories with the same position are the same category.
pub proof fn lemma_rank_injective(a: WordClass, b: WordClass)
    requires
        a.rank() == b.rank(),
    ensures
        a == b,
{
}

} // verus!
