//! The dictionary: terms keyed by their case-folded headwords, and the
//! operations that merge new facts into it.

use crate::inflection::{
    en_irregular_verbs, inflect, inflections_of, irregular_verbs_of, irregular_views,
    rule_patterns_compile, IrregularVerb, WordRegex,
};
use crate::meaning::{Meaning, MeaningView};
use crate::search::{first_where, lemma_first_where, lemma_first_where_is};
use crate::term::{meaning_position, term_views, Term, TermView};
use crate::text::{fold_case, lowercase, same_text};
use crate::word_class::WordClass;
use vstd::hash_map::StringHashMap;
use vstd::prelude::*;

verus! {

/// The mathematical content of a [`Dictionary`].
pub struct DictionaryView {
    pub source_language: Seq<char>,
    pub target_language: Seq<char>,
    pub title: Seq<char>,
    pub author: Seq<char>,
    /// The terms, in the order in which their keys were first seen.
    pub entries: Seq<TermView>,
}

/// The terms that are exported: those that are not empty, in their order.
pub open spec fn non_empty_terms(entries: Seq<TermView>) -> Seq<TermView>
    decreases entries.len(),
{
    if entries.len() == 0 {
        Seq::empty()
    } else if entries.last().is_empty() {
        non_empty_terms(entries.drop_last())
    } else {
        non_empty_terms(entries.drop_last()).push(entries.last())
    }
}

impl DictionaryView {
    /// The place of the term with the given key, or the number of terms if there
    /// is none.
    pub open spec fn slot(self, key: Seq<char>) -> int {
        first_where(self.entries, |t: TermView| t.key() == key)
    }

    /// Every term is well formed and no key occurs twice.
    pub open spec fn wf(self) -> bool {
        &&& forall|i: int| 0 <= i < self.entries.len() ==> (#[trigger] self.entries[i]).wf()
        &&& forall|i: int, j: int|
            0 <= i < j < self.entries.len() ==> (#[trigger] self.entries[i]).key() != (
            #[trigger] self.entries[j]).key()
    }

    /// The term that a word resolves to, by its case-folded form.
    pub open spec fn lookup(self, word: Seq<char>) -> Option<TermView> {
        let i = self.slot(lowercase(word));
        if 0 <= i < self.entries.len() {
            Some(self.entries[i])
        } else {
            None
        }
    }

    /// The term that a fact about `headword` is merged into: the one it
    /// resolves to, or a fresh term with this headword.
    pub open spec fn entry_for(self, headword: Seq<char>) -> TermView {
        match self.lookup(headword) {
            Some(t) => t,
            None => TermView::new(headword),
        }
    }

    /// The dictionary with `term` in the place that `headword` resolves to, or
    /// at the end if it resolves to none.
    pub open spec fn with_entry(self, headword: Seq<char>, term: TermView) -> DictionaryView {
        let i = self.slot(lowercase(headword));
        if 0 <= i < self.entries.len() {
            DictionaryView { entries: self.entries.update(i, term), ..self }
        } else {
            DictionaryView { entries: self.entries.push(term), ..self }
        }
    }

    /// The dictionary after a pronunciation is registered.
    pub open spec fn with_pronunciation(
        self,
        headword: Seq<char>,
        name: Seq<char>,
        pronunciation: Seq<char>,
    ) -> DictionaryView {
        self.with_entry(headword, self.entry_for(headword).with_pronunciation(name, pronunciation))
    }

    /// The forms derived from a headword of the given category in this
    /// dictionary's source language.
    pub open spec fn inflections(self, headword: Seq<char>, word_class: WordClass) -> Seq<
        Seq<char>,
    > {
        inflections_of(
            self.source_language,
            headword,
            word_class,
            irregular_verbs_of(self.source_language),
        )
    }

    /// The dictionary after a meaning is registered: the term gains the derived
    /// forms and the meaning.
    pub open spec fn with_meaning(
        self,
        headword: Seq<char>,
        word_class: WordClass,
        m: MeaningView,
    ) -> DictionaryView {
        self.with_entry(
            headword,
            self.entry_for(headword).with_inflections(
                self.inflections(headword, word_class),
            ).with_meaning(word_class, m),
        )
    }

    /// The rank that `m` has, or would get, under `word_class` of the term that
    /// `headword` resolves to; 0 where there is no such term.
    pub open spec fn meaning_position(
        self,
        headword: Seq<char>,
        word_class: WordClass,
        m: MeaningView,
    ) -> nat {
        match self.lookup(headword) {
            Some(t) => meaning_position(t, word_class, m),
            None => 0,
        }
    }
}

/// The aggregate dictionary.
pub struct Dictionary {
    source_language: String,
    target_language: String,
    title: String,
    author: String,
    terms: Vec<Term>,
    index: StringHashMap<usize>,
    re: WordRegex,
    irregular_verbs: Vec<IrregularVerb>,
}

impl View for Dictionary {
    type V = DictionaryView;

    closed spec fn view(&self) -> DictionaryView {
        DictionaryView {
            source_language: self.source_language@,
            target_language: self.target_language@,
            title: self.title@,
            author: self.author@,
            entries: term_views(self.terms@),
        }
    }
}

impl Dictionary {
    /// The index maps each key to the place of its term, and the rules are those
    /// of the source language.
    pub closed spec fn inv(&self) -> bool {
        &&& forall|i: int|
            0 <= i < self.terms@.len() ==> self.index@.contains_key(
                (#[trigger] self.terms@[i])@.key(),
            ) && self.index@[self.terms@[i]@.key()] == i
        &&& forall|k: Seq<char>| #[trigger]
            self.index@.contains_key(k) ==> self.index@[k] < self.terms@.len()
                && self.terms@[self.index@[k] as int]@.key() == k
        &&& self.re.wf()
        &&& irregular_views(self.irregular_verbs@) == irregular_verbs_of(self.source_language@)
    }

    /// The dictionary is well formed, inside and out.
    pub open spec fn wf(&self) -> bool {
        self@.wf() && self.inv()
    }

    /// An empty dictionary. It can be made exactly when the patterns of the
    /// inflection rules compile.
    pub fn new(source_language: &str, target_language: &str, title: &str, author: &str) -> (r:
        Option<Dictionary>)
        ensures
            r is Some <==> rule_patterns_compile(),
            r matches Some(d) ==> d.wf() && d@ == (DictionaryView {
                source_language: source_language@,
                target_language: target_language@,
                title: title@,
                author: author@,
                entries: Seq::empty(),
            }),
    {
        let re = WordRegex::new()?;
        let d = Dictionary {
            source_language: source_language.to_owned(),
            target_language: target_language.to_owned(),
            title: title.to_owned(),
            author: author.to_owned(),
            terms: Vec::new(),
            index: StringHashMap::new(),
            re,
            irregular_verbs: Self::generate_irregular_verbs(source_language),
        };
        assert(d@.entries =~= Seq::empty());
        Some(d)
    }

    /// The irregular verbs of a source language.
    pub fn generate_irregular_verbs(source_language: &str) -> (r: Vec<IrregularVerb>)
        ensures
            irregular_views(r@) == irregular_verbs_of(source_language@),
    {
        if same_text(source_language, "en") {
            Self::en_get_irregular_verbs()
        } else {
            let r: Vec<IrregularVerb> = Vec::new();
            assert(irregular_views(r@) =~= Seq::empty());
            r
        }
    }

    /// The English irregular verbs.
    pub fn en_get_irregular_verbs() -> (r: Vec<IrregularVerb>)
        ensures
            irregular_views(r@) == en_irregular_verbs(),
    {
        let mut verbs: Vec<IrregularVerb> = Vec::new();
        let mut forms: Vec<String> = Vec::new();
        forms.push("arose".to_owned());
        forms.push("arisen".to_owned());
        verbs.push(IrregularVerb::new("arise", forms));
        let mut forms: Vec<String> = Vec::new();
        forms.push("was".to_owned());
        forms.push("were".to_owned());
        forms.push("been".to_owned());
        forms.push("am".to_owned());
        forms.push("are".to_owned());
        forms.push("is".to_owned());
        verbs.push(IrregularVerb::new("be", forms));
        let mut forms: Vec<String> = Vec::new();
        forms.push("bore".to_owned());
        forms.push("borne".to_owned());
        verbs.push(IrregularVerb::new("bear", forms));
        proof {
            let v = irregular_views(verbs@);
            let e = en_irregular_verbs();
            assert(v[0].forms =~= e[0].forms);
            assert(v[1].forms =~= e[1].forms);
            assert(v[2].forms =~= e[2].forms);
            assert(v =~= e);
        }
        verbs
    }

    /// The key of a word: its case-folded form.
    pub fn word_to_key(word: &str) -> (r: String)
        ensures
            r@ == lowercase(word@),
    {
        fold_case(word)
    }

    /// The number of terms, empty ones included.
    pub fn len(&self) -> (r: usize)
        ensures
            r == self@.entries.len(),
    {
        self.terms.len()
    }

    /// The terms, in the order in which their keys were first seen.
    pub fn terms(&self) -> (r: &Vec<Term>)
        ensures
            term_views(r@) == self@.entries,
    {
        &self.terms
    }

    /// The number of terms that are exported: those that are not empty.
    pub fn non_empty_len(&self) -> (r: usize)
        ensures
            r == non_empty_terms(self@.entries).len(),
    {
        let terms = self.terms();
        let ghost views = term_views(terms@);
        let mut seen: usize = 0;
        let mut i: usize = 0;
        assert(views.take(0) =~= Seq::<TermView>::empty());
        while i < terms.len()
            invariant
                i <= terms.len(),
                views == term_views(terms@),
                seen <= i,
                seen == non_empty_terms(views.take(i as int)).len(),
            decreases terms.len() - i,
        {
            proof {
                assert(views.take(i + 1).drop_last() =~= views.take(i as int));
                assert(views.take(i + 1).last() == terms@[i as int]@);
            }
            if !terms[i].is_empty() {
                seen += 1;
            }
            i += 1;
        }
        assert(views.take(terms.len() as int) =~= views);
        seen
    }

    /// The code of the source language.
    pub fn source_language(&self) -> (r: &str)
        ensures
            r@ == self@.source_language,
    {
        self.source_language.as_str()
    }

    /// The code of the target language.
    pub fn target_language(&self) -> (r: &str)
        ensures
            r@ == self@.target_language,
    {
        self.target_language.as_str()
    }

    /// The display title.
    pub fn title(&self) -> (r: &str)
        ensures
            r@ == self@.title,
    {
        self.title.as_str()
    }

    /// The author.
    pub fn author(&self) -> (r: &str)
        ensures
            r@ == self@.author,
    {
        self.author.as_str()
    }

    /// The place of the term with the given key, if there is one.
    fn find(&self, key: &str) -> (r: Option<usize>)
        requires
            self.inv(),
        ensures
            match r {
                Some(i) => i < self.terms@.len() && self@.slot(key@) == i,
                None => self@.slot(key@) == self.terms@.len(),
            },
    {
        let ghost views = term_views(self.terms@);
        let ghost p = |t: TermView| t.key() == key@;
        match self.index.get(key) {
            Some(i) => {
                proof {
                    assert(p(views[*i as int]));
                    assert forall|j: int| 0 <= j < *i implies !p(#[trigger] views[j]) by {
                        assert(views[j] == self.terms@[j]@);
                    }
                    lemma_first_where_is(views, p, *i as int);
                }
                Some(*i)
            },
            None => {
                proof {
                    assert forall|j: int| 0 <= j < views.len() implies !p(#[trigger] views[j]) by {
                        assert(views[j] == self.terms@[j]@);
                    }
                    lemma_first_where_is(views, p, views.len() as int);
                }
                None
            },
        }
    }

    /// The term that a word resolves to, by its case-folded form.
    pub fn lookup(&self, word: &str) -> (r: Option<&Term>)
        requires
            self.wf(),
        ensures
            match r {
                Some(t) => self@.lookup(word@) == Some(t@) && t@.wf(),
                None => self@.lookup(word@) is None,
            },
    {
        let key = Self::word_to_key(word);
        match self.find(key.as_str()) {
            Some(i) => {
                assert(term_views(self.terms@)[i as int] == self.terms@[i as int]@);
                Some(&self.terms[i])
            },
            None => None,
        }
    }

    /// Finds the term that `headword` resolves to, or adds a fresh one.
    fn find_or_create(&mut self, headword: &str) -> (i: usize)
        requires
            old(self).wf(),
        ensures
            final(self).wf(),
            i == old(self)@.slot(lowercase(headword@)),
            i < final(self).terms@.len(),
            final(self)@ == old(self)@.with_entry(headword@, old(self)@.entry_for(headword@)),
            final(self)@.entries[i as int] == old(self)@.entry_for(headword@),
            final(self)@.entries[i as int].key() == lowercase(headword@),
    {
        let key = Self::word_to_key(headword);
        let ghost views = term_views(self.terms@);
        match self.find(key.as_str()) {
            Some(i) => {
                assert(self@.entries.update(i as int, views[i as int]) =~= self@.entries);
                proof {
                    lemma_first_where(views, |t: TermView| t.key() == lowercase(headword@));
                }
                i
            },
            None => {
                let i = self.terms.len();
                let term = Term::new(headword);
                self.terms.push(term);
                self.index.insert(key, i);
                proof {
                    assert(term_views(self.terms@) =~= views.push(TermView::new(headword@)));
                    lemma_first_where(views, |t: TermView| t.key() == lowercase(headword@));
                    assert forall|j: int| 0 <= j < i implies old(self).terms@[j]@.key()
                        != lowercase(headword@) by {
                        assert(views[j] == old(self).terms@[j]@);
                    }
                    assert forall|j: int| 0 <= j < self.terms@.len() implies self.index@.contains_key(
                        (#[trigger] self.terms@[j])@.key(),
                    ) && self.index@[self.terms@[j]@.key()] == j by {
                        if j < i {
                            assert(self.terms@[j] == old(self).terms@[j]);
                        }
                    }
                    assert forall|k: Seq<char>| #[trigger]
                        self.index@.contains_key(k) implies self.index@[k] < self.terms@.len()
                        && self.terms@[self.index@[k] as int]@.key() == k by {
                        if k != lowercase(headword@) {
                            assert(old(self).index@.contains_key(k));
                            assert(self.terms@[self.index@[k] as int] == old(self).terms@[old(
                                self,
                            ).index@[k] as int]);
                        }
                    }
                    assert forall|a: int| 0 <= a < self@.entries.len() implies (
                    #[trigger] self@.entries[a]).wf() by {
                        if a < i {
                            assert(self@.entries[a] == old(self)@.entries[a]);
                        }
                    }
                    assert forall|a: int, b: int| 0 <= a < b < self@.entries.len() implies (
                    #[trigger] self@.entries[a]).key() != (#[trigger] self@.entries[b]).key() by {
                        assert(self@.entries[a] == old(self)@.entries[a]);
                        if b < i {
                            assert(self@.entries[b] == old(self)@.entries[b]);
                        }
                    }
                }
                i
            },
        }
    }

    /// Re-establishes the invariant after the term at `i` changed without
    /// changing its headword.
    proof fn lemma_replaced(old_d: Dictionary, new_d: Dictionary, i: int, term: TermView)
        requires
            old_d.wf(),
            0 <= i < old_d.terms@.len(),
            new_d.terms@.len() == old_d.terms@.len(),
            forall|j: int|
                0 <= j < old_d.terms@.len() && j != i ==> new_d.terms@[j] == old_d.terms@[j],
            new_d.terms@[i]@ == term,
            term.wf(),
            term.headword == old_d.terms@[i]@.headword,
            new_d.index == old_d.index,
            new_d.re == old_d.re,
            new_d.irregular_verbs == old_d.irregular_verbs,
            new_d.source_language == old_d.source_language,
            new_d.target_language == old_d.target_language,
            new_d.title == old_d.title,
            new_d.author == old_d.author,
        ensures
            new_d.wf(),
            new_d@ == (DictionaryView { entries: old_d@.entries.update(i, term), ..old_d@ }),
    {
        assert(new_d@.entries =~= old_d@.entries.update(i, term));
        assert forall|j: int| 0 <= j < new_d.terms@.len() implies new_d.index@.contains_key(
            (#[trigger] new_d.terms@[j])@.key(),
        ) && new_d.index@[new_d.terms@[j]@.key()] == j by {
            assert(new_d.terms@[j]@.key() == old_d.terms@[j]@.key());
        }
        assert forall|k: Seq<char>| #[trigger]
            new_d.index@.contains_key(k) implies new_d.index@[k] < new_d.terms@.len()
            && new_d.terms@[new_d.index@[k] as int]@.key() == k by {
            let j = old_d.index@[k] as int;
            assert(new_d.terms@[j]@.key() == old_d.terms@[j]@.key());
        }
        assert forall|a: int| 0 <= a < new_d@.entries.len() implies (
        #[trigger] new_d@.entries[a]).wf() by {
            if a != i {
                assert(new_d@.entries[a] == old_d@.entries[a]);
            }
        }
        assert forall|a: int, b: int| 0 <= a < b < new_d@.entries.len() implies (
        #[trigger] new_d@.entries[a]).key() != (#[trigger] new_d@.entries[b]).key() by {
            assert(new_d@.entries[a].key() == old_d@.entries[a].key());
            assert(new_d@.entries[b].key() == old_d@.entries[b].key());
        }
    }

    /// Appends a pronunciation to the list that the source `name` has for the
    /// headword.
    pub fn add_pronunciation(&mut self, headword: &str, name: &str, pronunciation: &str)
        requires
            old(self).wf(),
        ensures
            final(self).wf(),
            final(self)@ == old(self)@.with_pronunciation(headword@, name@, pronunciation@),
    {
        let i = self.find_or_create(headword);
        let ghost mid = *self;
        assert(mid@.entries[i as int] == mid.terms@[i as int]@);
        self.terms[i].add_pronunciation(name, pronunciation);
        proof {
            let term = old(self)@.entry_for(headword@).with_pronunciation(name@, pronunciation@);
            Self::lemma_replaced(mid, *self, i as int, term);
            assert(self@.entries =~= old(self)@.with_pronunciation(
                headword@,
                name@,
                pronunciation@,
            ).entries);
        }
    }

    /// The rank that the meaning has, or would get, under the category of the
    /// term that the headword resolves to.
    pub fn get_meaning_position(&self, headword: &str, word_class: &WordClass, meaning: &Meaning) -> (r:
        usize)
        requires
            self.wf(),
        ensures
            r == self@.meaning_position(headword@, *word_class, meaning@),
    {
        match self.lookup(headword) {
            Some(term) => term.meaning_position(*word_class, meaning),
            None => 0,
        }
    }

    /// Registers a meaning: the term of the headword gains the forms derived
    /// from it and the meaning, merged by its case-folded gloss.
    pub fn add_meaning(&mut self, headword: &str, word_class: WordClass, meaning: Meaning)
        requires
            old(self).wf(),
            meaning@.wf(),
        ensures
            final(self).wf(),
            final(self)@ == old(self)@.with_meaning(headword@, word_class, meaning@),
    {
        let i = self.find_or_create(headword);
        let ghost mid = *self;
        assert(mid@.entries[i as int] == mid.terms@[i as int]@);
        let inflections = inflect(
            self.source_language.as_str(),
            headword,
            word_class,
            &self.re,
            &self.irregular_verbs,
        );
        self.terms[i].add_inflections(&inflections);
        self.terms[i].add_meaning(word_class, &meaning);
        proof {
            let term = old(self)@.entry_for(headword@).with_inflections(
                old(self)@.inflections(headword@, word_class),
            ).with_meaning(word_class, meaning@);
            Self::lemma_replaced(mid, *self, i as int, term);
            assert(self@.entries =~= old(self)@.with_meaning(
                headword@,
                word_class,
                meaning@,
            ).entries);
        }
    }
}

/// A term put in the place of a headword is what every word with the same
/// case-folded form resolves to, and it stands where the headword resolved to
/// before.
pub proof fn lemma_with_entry_lookup(
    d: DictionaryView,
    h1: Seq<char>,
    h2: Seq<char>,
    term: TermView,
)
    requires
        lowercase(h1) == lowercase(h2),
        term.key() == lowercase(h1),
    ensures
        d.with_entry(h1, term).lookup(h2) == Some(term),
        d.with_entry(h1, term).slot(lowercase(h2)) == d.slot(lowercase(h1)),
{
    let key = lowercase(h1);
    let p = |t: TermView| t.key() == key;
    let i = d.slot(key);
    let after = d.with_entry(h1, term).entries;
    lemma_first_where(d.entries, p);
    assert(p(after[i]));
    assert forall|j: int| 0 <= j < i implies !p(#[trigger] after[j]) by {
        assert(after[j] == d.entries[j]);
    }
    lemma_first_where_is(after, p, i);
}

/// The term that a fact about a headword is merged into has the headword's
/// key.
pub proof fn lemma_entry_for_key(d: DictionaryView, headword: Seq<char>)
    ensures
        d.entry_for(headword).key() == lowercase(headword),
{
    lemma_first_where(d.entries, |t: TermView| t.key() == lowercase(headword));
}

/// Headwords that are equal after case-folding name one term: they resolve to
/// the same term, and a fact registered under one of them is found under the
/// other, in the term that both resolve to, without a second term being made.
pub proof fn lemma_same_key_same_term(
    d: DictionaryView,
    h1: Seq<char>,
    h2: Seq<char>,
    name: Seq<char>,
    pronunciation: Seq<char>,
    word_class: WordClass,
    m: MeaningView,
)
    requires
        lowercase(h1) == lowercase(h2),
    ensures
        d.lookup(h1) == d.lookup(h2),
        d.with_pronunciation(h1, name, pronunciation).lookup(h2) == Some(
            d.entry_for(h1).with_pronunciation(name, pronunciation),
        ),
        d.with_meaning(h1, word_class, m).lookup(h2) == Some(
            d.entry_for(h1).with_inflections(d.inflections(h1, word_class)).with_meaning(
                word_class,
                m,
            ),
        ),
        d.with_pronunciation(h1, name, pronunciation).with_pronunciation(
            h2,
            name,
            pronunciation,
        ).entries.len() == d.with_pronunciation(h1, name, pronunciation).entries.len(),
        d.with_meaning(h1, word_class, m).with_meaning(h2, word_class, m).entries.len()
            == d.with_meaning(h1, word_class, m).entries.len(),
{
    lemma_entry_for_key(d, h1);
    let t1 = d.entry_for(h1).with_pronunciation(name, pronunciation);
    let t2 = d.entry_for(h1).with_inflections(d.inflections(h1, word_class)).with_meaning(
        word_class,
        m,
    );
    lemma_with_entry_lookup(d, h1, h2, t1);
    lemma_with_entry_lookup(d, h1, h2, t2);
    let d1 = d.with_pronunciation(h1, name, pronunciation);
    let d2 = d.with_meaning(h1, word_class, m);
    lemma_first_where(d1.entries, |t: TermView| t.key() == lowercase(h2));
    lemma_first_where(d2.entries, |t: TermView| t.key() == lowercase(h2));
}

/// Registering the same meaning under the same headword and category a second
/// time leaves the dictionary as it was after the first time: no translation
/// is added and no rank changes.
pub proof fn lemma_with_meaning_twice(
    d: DictionaryView,
    headword: Seq<char>,
    word_class: WordClass,
    m: MeaningView,
)
    requires
        d.wf(),
    ensures
        d.with_meaning(headword, word_class, m).with_meaning(headword, word_class, m)
            == d.with_meaning(headword, word_class, m),
{
    let forms = d.inflections(headword, word_class);
    let base = d.entry_for(headword);
    let t1 = base.with_inflections(forms).with_meaning(word_class, m);
    let d1 = d.with_meaning(headword, word_class, m);
    lemma_entry_for_key(d, headword);
    lemma_with_entry_lookup(d, headword, headword, t1);
    lemma_first_where(d.entries, |t: TermView| t.key() == lowercase(headword));
    assert(base.wf()) by {
        assert(TermView::new(headword).inflections.no_duplicates());
    }
    crate::meaning::lemma_merged_idempotent(base.inflections, forms);
    crate::term::lemma_with_class_meaning_twice(base.classes, word_class, m);
    assert(d1.entry_for(headword) == t1);
    assert(d1.inflections(headword, word_class) == forms);
    assert(t1.with_inflections(forms).with_meaning(word_class, m) == t1);
    assert(d1.with_entry(headword, t1).entries =~= d1.entries);
}

} // verus!
