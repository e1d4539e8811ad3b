//! One lexical entry: a headword with its inflections, pronunciations and
//! meanings.

use crate::meaning::{lemma_merged, merge_into, merged, Meaning, MeaningView};
use crate::search::{first_where, lemma_first_where, lemma_first_where_is};
use crate::text::{
    comes_before, lemma_text_before_total, lemma_text_before_transitive, lowercase, same_text,
    text_before, texts,
};
use crate::word_class::WordClass;
use vstd::prelude::*;

verus! {

/// The pronunciations that one source gives for a headword.
pub struct SourceView {
    pub name: Seq<char>,
    /// In the order of arrival; repetitions are kept.
    pub items: Seq<Seq<char>>,
}

/// The meanings of a headword under one grammatical category.
pub struct ClassView {
    pub word_class: WordClass,
    /// In the order of their display ranks.
    pub meanings: Seq<MeaningView>,
}

/// The mathematical content of a [`Term`].
pub struct TermView {
    /// The headword, as first written.
    pub headword: Seq<char>,
    /// The inflected forms, without repetition, in the order of first arrival.
    pub inflections: Seq<Seq<char>>,
    /// One entry for each source, ordered by the source's name.
    pub pronunciations: Seq<SourceView>,
    /// One entry for each category, in the rendering order of the categories.
    pub classes: Seq<ClassView>,
}

/// Where the source `name` stands, or belongs, among sources ordered by name.
pub open spec fn source_slot(sources: Seq<SourceView>, name: Seq<char>) -> int {
    first_where(sources, |e: SourceView| !text_before(e.name, name))
}

/// Where the category stands, or belongs, among categories in rendering order.
pub open spec fn class_slot(classes: Seq<ClassView>, word_class: WordClass) -> int {
    first_where(classes, |e: ClassView| e.word_class.rank() >= word_class.rank())
}

/// The place of the meaning with the given key, or the number of meanings if
/// there is none.
pub open spec fn meaning_slot(meanings: Seq<MeaningView>, key: Seq<char>) -> int {
    first_where(meanings, |m: MeaningView| m.key() == key)
}

/// The sources are ordered by name, so no name occurs twice.
pub open spec fn sources_sorted(sources: Seq<SourceView>) -> bool {
    forall|j: int, k: int|
        0 <= j < k < sources.len() ==> text_before(
            (#[trigger] sources[j]).name,
            (#[trigger] sources[k]).name,
        )
}

/// The categories are in rendering order, so none occurs twice.
pub open spec fn classes_sorted(classes: Seq<ClassView>) -> bool {
    forall|j: int, k: int|
        0 <= j < k < classes.len() ==> (#[trigger] classes[j]).word_class.rank() < (
        #[trigger] classes[k]).word_class.rank()
}

/// Each meaning stands at its display rank, and no key occurs twice.
pub open spec fn meanings_wf(meanings: Seq<MeaningView>) -> bool {
    &&& forall|i: int|
        0 <= i < meanings.len() ==> (#[trigger] meanings[i]).wf() && meanings[i].order == i
    &&& forall|i: int, j: int|
        0 <= i < j < meanings.len() ==> (#[trigger] meanings[i]).key() != (
        #[trigger] meanings[j]).key()
}

/// The sources after one more pronunciation from the source `name`.
pub open spec fn with_pronunciation(
    sources: Seq<SourceView>,
    name: Seq<char>,
    pronunciation: Seq<char>,
) -> Seq<SourceView> {
    let i = source_slot(sources, name);
    if 0 <= i < sources.len() && sources[i].name == name {
        sources.update(i, SourceView { name, items: sources[i].items.push(pronunciation) })
    } else {
        sources.insert(i, SourceView { name, items: seq![pronunciation] })
    }
}

/// The meanings of one category after `m` is registered: merged into the
/// meaning with the same key, which keeps its gloss and rank, or added at the
/// next free rank.
pub open spec fn with_meaning(meanings: Seq<MeaningView>, m: MeaningView) -> Seq<MeaningView> {
    let i = meaning_slot(meanings, m.key());
    if 0 <= i < meanings.len() {
        meanings.update(i, meanings[i].absorb(m))
    } else {
        meanings.push(
            MeaningView {
                order: meanings.len(),
                description: m.description,
                translations: merged(Seq::empty(), m.translations),
            },
        )
    }
}

/// The categories after `m` is registered under `word_class`.
pub open spec fn with_class_meaning(
    classes: Seq<ClassView>,
    word_class: WordClass,
    m: MeaningView,
) -> Seq<ClassView> {
    let i = class_slot(classes, word_class);
    if 0 <= i < classes.len() && classes[i].word_class == word_class {
        classes.update(i, ClassView { word_class, meanings: with_meaning(classes[i].meanings, m) })
    } else {
        classes.insert(i, ClassView { word_class, meanings: with_meaning(Seq::empty(), m) })
    }
}

/// The rank that `m` has, or would get, under `word_class` of `term`: the rank
/// of the meaning with the same key, else the number of meanings of the
/// category, and 0 where the term has no such category.
pub open spec fn meaning_position(term: TermView, word_class: WordClass, m: MeaningView) -> nat {
    let c = class_slot(term.classes, word_class);
    if 0 <= c < term.classes.len() && term.classes[c].word_class == word_class {
        let meanings = term.classes[c].meanings;
        let i = meaning_slot(meanings, m.key());
        if 0 <= i < meanings.len() {
            meanings[i].order
        } else {
            meanings.len()
        }
    } else {
        0
    }
}

impl TermView {
    /// A term with nothing registered yet.
    pub open spec fn new(headword: Seq<char>) -> TermView {
        TermView {
            headword,
            inflections: Seq::empty(),
            pronunciations: Seq::empty(),
            classes: Seq::empty(),
        }
    }

    /// The key under which the term is found: its case-folded headword.
    pub open spec fn key(self) -> Seq<char> {
        lowercase(self.headword)
    }

    /// No inflection occurs twice, the sources and the categories are in
    /// order, and the meanings of each category are well formed.
    pub open spec fn wf(self) -> bool {
        &&& self.inflections.no_duplicates()
        &&& sources_sorted(self.pronunciations)
        &&& classes_sorted(self.classes)
        &&& forall|i: int|
            0 <= i < self.classes.len() ==> meanings_wf((#[trigger] self.classes[i]).meanings)
    }

    /// A term is empty, and left out of every export, when it has no headword
    /// or neither a pronunciation nor a meaning.
    pub open spec fn is_empty(self) -> bool {
        self.headword.len() == 0 || (self.pronunciations.len() == 0 && self.classes.len() == 0)
    }

    /// The term after one more pronunciation from the source `name`.
    pub open spec fn with_pronunciation(self, name: Seq<char>, pronunciation: Seq<char>) -> TermView {
        TermView {
            pronunciations: with_pronunciation(self.pronunciations, name, pronunciation),
            ..self
        }
    }

    /// The term with the forms that it does not have yet.
    pub open spec fn with_inflections(self, forms: Seq<Seq<char>>) -> TermView {
        TermView { inflections: merged(self.inflections, forms), ..self }
    }

    /// The term after `m` is registered under `word_class`.
    pub open spec fn with_meaning(self, word_class: WordClass, m: MeaningView) -> TermView {
        TermView { classes: with_class_meaning(self.classes, word_class, m), ..self }
    }
}

/// Registering a pronunciation keeps the sources ordered by name.
pub proof fn lemma_with_pronunciation_sorted(
    sources: Seq<SourceView>,
    name: Seq<char>,
    pronunciation: Seq<char>,
)
    requires
        sources_sorted(sources),
    ensures
        sources_sorted(with_pronunciation(sources, name, pronunciation)),
{
    let p = |e: SourceView| !text_before(e.name, name);
    let i = source_slot(sources, name);
    let r = with_pronunciation(sources, name, pronunciation);
    lemma_first_where(sources, p);
    if 0 <= i < sources.len() && sources[i].name == name {
        assert forall|j: int, k: int| 0 <= j < k < r.len() implies text_before(
            (#[trigger] r[j]).name,
            (#[trigger] r[k]).name,
        ) by {
            assert(r[j].name == sources[j].name);
            assert(r[k].name == sources[k].name);
        }
    } else {
        assert forall|j: int, k: int| 0 <= j < k < r.len() implies text_before(
            (#[trigger] r[j]).name,
            (#[trigger] r[k]).name,
        ) by {
            if k < i {
                assert(r[j] == sources[j] && r[k] == sources[k]);
            } else if k == i {
                assert(r[j] == sources[j]);
                assert(!p(sources[j]));
            } else if j < i {
                assert(r[j] == sources[j] && r[k] == sources[k - 1]);
                if j < k - 1 {
                } else {
                    assert(false);
                }
            } else {
                assert(r[k] == sources[k - 1]);
                assert(p(sources[i]));
                lemma_text_before_total(sources[i].name, name);
                if j == i {
                    if k - 1 > i {
                        lemma_text_before_transitive(name, sources[i].name, sources[k - 1].name);
                    }
                } else {
                    assert(r[j] == sources[j - 1]);
                }
            }
        }
    }
}

/// Registering a meaning keeps each meaning at its rank and the keys distinct.
pub proof fn lemma_with_meaning_wf(meanings: Seq<MeaningView>, m: MeaningView)
    requires
        meanings_wf(meanings),
    ensures
        meanings_wf(with_meaning(meanings, m)),
{
    let p = |x: MeaningView| x.key() == m.key();
    let i = meaning_slot(meanings, m.key());
    let r = with_meaning(meanings, m);
    lemma_first_where(meanings, p);
    if 0 <= i < meanings.len() {
        lemma_merged(meanings[i].translations, m.translations);
        assert forall|a: int, b: int| 0 <= a < b < r.len() implies (#[trigger] r[a]).key() != (
        #[trigger] r[b]).key() by {
            assert(r[a].key() == meanings[a].key());
            assert(r[b].key() == meanings[b].key());
        }
        assert forall|a: int| 0 <= a < r.len() implies (#[trigger] r[a]).wf() && r[a].order
            == a by {
            if a != i {
                assert(r[a] == meanings[a]);
            }
        }
    } else {
        assert(Seq::<Seq<char>>::empty().no_duplicates());
        lemma_merged(Seq::empty(), m.translations);
        assert forall|a: int, b: int| 0 <= a < b < r.len() implies (#[trigger] r[a]).key() != (
        #[trigger] r[b]).key() by {
            assert(r[a] == meanings[a]);
            if b < meanings.len() {
                assert(r[b] == meanings[b]);
            } else {
                assert(!p(meanings[a]));
            }
        }
        assert forall|a: int| 0 <= a < r.len() implies (#[trigger] r[a]).wf() && r[a].order
            == a by {
            if a < meanings.len() {
                assert(r[a] == meanings[a]);
            }
        }
    }
}

/// Registering a meaning keeps the categories in order and their meanings
/// well formed.
pub proof fn lemma_with_class_meaning_wf(
    classes: Seq<ClassView>,
    word_class: WordClass,
    m: MeaningView,
)
    requires
        classes_sorted(classes),
        forall|i: int| 0 <= i < classes.len() ==> meanings_wf((#[trigger] classes[i]).meanings),
    ensures
        classes_sorted(with_class_meaning(classes, word_class, m)),
        forall|i: int|
            0 <= i < with_class_meaning(classes, word_class, m).len() ==> meanings_wf(
                (#[trigger] with_class_meaning(classes, word_class, m)[i]).meanings,
            ),
{
    let p = |e: ClassView| e.word_class.rank() >= word_class.rank();
    let i = class_slot(classes, word_class);
    let r = with_class_meaning(classes, word_class, m);
    lemma_first_where(classes, p);
    if 0 <= i < classes.len() && classes[i].word_class == word_class {
        lemma_with_meaning_wf(classes[i].meanings, m);
        assert forall|j: int, k: int| 0 <= j < k < r.len() implies (
        #[trigger] r[j]).word_class.rank() < (#[trigger] r[k]).word_class.rank() by {
            assert(r[j].word_class == classes[j].word_class);
            assert(r[k].word_class == classes[k].word_class);
        }
        assert forall|a: int| 0 <= a < r.len() implies meanings_wf((#[trigger] r[a]).meanings) by {
            if a != i {
                assert(r[a] == classes[a]);
            }
        }
    } else {
        assert(meanings_wf(Seq::<MeaningView>::empty()));
        lemma_with_meaning_wf(Seq::empty(), m);
        assert forall|j: int, k: int| 0 <= j < k < r.len() implies (
        #[trigger] r[j]).word_class.rank() < (#[trigger] r[k]).word_class.rank() by {
            if k < i {
                assert(r[j] == classes[j] && r[k] == classes[k]);
            } else if k == i {
                assert(r[j] == classes[j]);
                assert(!p(classes[j]));
            } else if j < i {
                assert(r[j] == classes[j] && r[k] == classes[k - 1]);
            } else {
                assert(r[k] == classes[k - 1]);
                assert(p(classes[i]));
                if classes[i].word_class.rank() == word_class.rank() {
                    crate::word_class::lemma_rank_injective(classes[i].word_class, word_class);
                }
                if j > i {
                    assert(r[j] == classes[j - 1]);
                }
            }
        }
        assert forall|a: int| 0 <= a < r.len() implies meanings_wf((#[trigger] r[a]).meanings) by {
            if a < i {
                assert(r[a] == classes[a]);
            } else if a > i {
                assert(r[a] == classes[a - 1]);
            }
        }
    }
}

/// The pronunciations that one source gives for a headword.
#[derive(Debug)]
pub struct Pronunciations {
    name: String,
    items: Vec<String>,
}

impl View for Pronunciations {
    type V = SourceView;

    closed spec fn view(&self) -> SourceView {
        SourceView { name: self.name@, items: texts(self.items@) }
    }
}

impl Pronunciations {
    /// The name of the source.
    pub fn name(&self) -> (r: &str)
        ensures
            r@ == self@.name,
    {
        self.name.as_str()
    }

    /// The pronunciations, in the order of arrival.
    pub fn items(&self) -> (r: &Vec<String>)
        ensures
            texts(r@) == self@.items,
    {
        &self.items
    }

    fn push(&mut self, pronunciation: &str)
        ensures
            final(self)@ == (SourceView {
                name: old(self)@.name,
                items: old(self)@.items.push(pronunciation@),
            }),
    {
        let ghost before = self.items@;
        self.items.push(pronunciation.to_owned());
        assert(texts(self.items@) == texts(before).push(pronunciation@));
    }
}

/// The views of a sequence of meanings.
pub open spec fn meaning_views(v: Seq<Meaning>) -> Seq<MeaningView> {
    Seq::new(v.len(), |i: int| v[i]@)
}

/// The views of a sequence of sources.
pub open spec fn source_views(v: Seq<Pronunciations>) -> Seq<SourceView> {
    Seq::new(v.len(), |i: int| v[i]@)
}

/// The views of a sequence of terms.
pub open spec fn term_views(v: Seq<Term>) -> Seq<TermView> {
    Seq::new(v.len(), |i: int| v[i]@)
}

/// The views of a sequence of categories.
pub open spec fn class_views(v: Seq<ClassMeanings>) -> Seq<ClassView> {
    Seq::new(v.len(), |i: int| v[i]@)
}

/// The meanings of a headword under one grammatical category.
#[derive(Debug)]
pub struct ClassMeanings {
    word_class: WordClass,
    meanings: Vec<Meaning>,
}

impl View for ClassMeanings {
    type V = ClassView;

    closed spec fn view(&self) -> ClassView {
        ClassView { word_class: self.word_class, meanings: meaning_views(self.meanings@) }
    }
}

impl ClassMeanings {
    /// The category.
    pub fn word_class(&self) -> (r: WordClass)
        ensures
            r == self@.word_class,
    {
        self.word_class
    }

    /// The meanings, in the order of their ranks.
    pub fn meanings(&self) -> (r: &Vec<Meaning>)
        ensures
            meaning_views(r@) == self@.meanings,
    {
        &self.meanings
    }

    /// The rank that `m` has, or would get, among the meanings.
    fn position_of(&self, m: &Meaning) -> (r: usize)
        ensures
            r == (if 0 <= meaning_slot(self@.meanings, m@.key()) < self@.meanings.len() {
                self@.meanings[meaning_slot(self@.meanings, m@.key())].order
            } else {
                self@.meanings.len()
            }),
    {
        let key = m.key();
        let ghost views = meaning_views(self.meanings@);
        let ghost p = |x: MeaningView| x.key() == m@.key();
        let n = self.meanings.len();
        let mut i: usize = 0;
        while i < n
            invariant
                i <= n == self.meanings.len(),
                views == meaning_views(self.meanings@),
                key@ == m@.key(),
                p == |x: MeaningView| x.key() == m@.key(),
                forall|j: int| 0 <= j < i ==> !p(#[trigger] views[j]),
            decreases n - i,
        {
            let k = self.meanings[i].key();
            if same_text(k.as_str(), key.as_str()) {
                proof {
                    assert(p(views[i as int]));
                    lemma_first_where_is(views, p, i as int);
                }
                return self.meanings[i].order();
            }
            assert(!p(views[i as int]));
            i += 1;
        }
        proof {
            lemma_first_where_is(views, p, i as int);
        }
        n
    }

    fn add(&mut self, m: &Meaning)
        requires
            meanings_wf(old(self)@.meanings),
            m@.wf(),
        ensures
            final(self)@ == (ClassView {
                word_class: old(self)@.word_class,
                meanings: with_meaning(old(self)@.meanings, m@),
            }),
    {
        let key = m.key();
        let ghost views = meaning_views(self.meanings@);
        let ghost p = |x: MeaningView| x.key() == m@.key();
        let n = self.meanings.len();
        let mut i: usize = 0;
        let mut found = false;
        while i < n && !found
            invariant
                found ==> i < n && p(views[i as int]),
                i <= n == self.meanings.len(),
                views == meaning_views(self.meanings@),
                key@ == m@.key(),
                p == |x: MeaningView| x.key() == m@.key(),
                forall|j: int| 0 <= j < i ==> !p(#[trigger] views[j]),
            decreases n - i + (if found { 0int } else { 1int }),
        {
            let k = self.meanings[i].key();
            if same_text(k.as_str(), key.as_str()) {
                found = true;
            } else {
                assert(!p(views[i as int]));
                i += 1;
            }
        }
        proof {
            lemma_first_where_is(views, p, i as int);
        }
        if i < n {
            self.meanings[i].absorb(m);
            assert(meaning_views(self.meanings@) =~= views.update(
                i as int,
                views[i as int].absorb(m@),
            ));
        } else {
            let mut fresh = Meaning::new(m.description());
            fresh.absorb(m);
            fresh.set_order(n);
            self.meanings.push(fresh);
            assert(meaning_views(self.meanings@) =~= views.push(fresh@));
        }
    }
}

/// One lexical entry.
#[derive(Debug)]
pub struct Term {
    headword: String,
    inflections: Vec<String>,
    pronunciations: Vec<Pronunciations>,
    classes: Vec<ClassMeanings>,
}

impl View for Term {
    type V = TermView;

    closed spec fn view(&self) -> TermView {
        TermView {
            headword: self.headword@,
            inflections: texts(self.inflections@),
            pronunciations: source_views(self.pronunciations@),
            classes: class_views(self.classes@),
        }
    }
}

impl Term {
    /// A term with the given headword and nothing else.
    pub fn new(headword: &str) -> (r: Term)
        ensures
            r@ == TermView::new(headword@),
            r@.wf(),
    {
        let r = Term {
            headword: headword.to_owned(),
            inflections: Vec::new(),
            pronunciations: Vec::new(),
            classes: Vec::new(),
        };
        assert(r@.inflections =~= Seq::empty());
        assert(r@.pronunciations =~= Seq::empty());
        assert(r@.classes =~= Seq::empty());
        r
    }

    /// Whether the term is left out of every export.
    pub fn is_empty(&self) -> (r: bool)
        ensures
            r == self@.is_empty(),
    {
        if self.headword.as_str().unicode_len() == 0 {
            return true;
        }
        if self.pronunciations.len() == 0 && self.classes.len() == 0 {
            return true;
        }
        false
    }

    /// The headword, as first written.
    pub fn headword(&self) -> (r: &str)
        ensures
            r@ == self@.headword,
    {
        self.headword.as_str()
    }

    /// The inflected forms.
    pub fn inflections(&self) -> (r: &Vec<String>)
        ensures
            texts(r@) == self@.inflections,
    {
        &self.inflections
    }

    /// The pronunciations, one entry for each source, ordered by name.
    pub fn pronunciations(&self) -> (r: &Vec<Pronunciations>)
        ensures
            source_views(r@) == self@.pronunciations,
    {
        &self.pronunciations
    }

    /// The meanings, one entry for each category, in rendering order.
    pub fn classes(&self) -> (r: &Vec<ClassMeanings>)
        ensures
            class_views(r@) == self@.classes,
    {
        &self.classes
    }

    /// The rank that `m` has, or would get, under `word_class`.
    pub fn meaning_position(&self, word_class: WordClass, m: &Meaning) -> (r: usize)
        requires
            self@.wf(),
        ensures
            r == meaning_position(self@, word_class, m@),
    {
        let ghost views = class_views(self.classes@);
        let ghost p = |e: ClassView| e.word_class.rank() >= word_class.rank();
        let n = self.classes.len();
        let mut i: usize = 0;
        let mut found = false;
        while i < n && !found
            invariant
                found ==> i < n && p(views[i as int]),
                i <= n == self.classes.len(),
                views == class_views(self.classes@),
                p == |e: ClassView| e.word_class.rank() >= word_class.rank(),
                forall|j: int| 0 <= j < i ==> !p(#[trigger] views[j]),
            decreases n - i + (if found { 0int } else { 1int }),
        {
            if self.classes[i].word_class().position() >= word_class.position() {
                found = true;
            } else {
                assert(!p(views[i as int]));
                i += 1;
            }
        }
        proof {
            lemma_first_where_is(views, p, i as int);
        }
        if i < n && self.classes[i].word_class().position() == word_class.position() {
            proof {
                crate::word_class::lemma_rank_injective(views[i as int].word_class, word_class);
            }
            self.classes[i].position_of(m)
        } else {
            0
        }
    }

    /// Appends a pronunciation to the list of the source `name`.
    pub fn add_pronunciation(&mut self, name: &str, pronunciation: &str)
        requires
            old(self)@.wf(),
        ensures
            final(self)@.wf(),
            final(self)@ == old(self)@.with_pronunciation(name@, pronunciation@),
    {
        let ghost views = source_views(self.pronunciations@);
        let ghost p = |e: SourceView| !text_before(e.name, name@);
        let n = self.pronunciations.len();
        let mut i: usize = 0;
        let mut found = false;
        while i < n && !found
            invariant
                found ==> i < n && p(views[i as int]),
                i <= n == self.pronunciations.len(),
                views == source_views(self.pronunciations@),
                p == |e: SourceView| !text_before(e.name, name@),
                forall|j: int| 0 <= j < i ==> !p(#[trigger] views[j]),
            decreases n - i + (if found { 0int } else { 1int }),
        {
            if !comes_before(self.pronunciations[i].name(), name) {
                found = true;
            } else {
                assert(!p(views[i as int]));
                i += 1;
            }
        }
        proof {
            lemma_first_where_is(views, p, i as int);
            lemma_with_pronunciation_sorted(views, name@, pronunciation@);
        }
        if i < n && same_text(self.pronunciations[i].name(), name) {
            self.pronunciations[i].push(pronunciation);
            assert(source_views(self.pronunciations@) =~= with_pronunciation(
                views,
                name@,
                pronunciation@,
            ));
        } else {
            let mut items: Vec<String> = Vec::new();
            items.push(pronunciation.to_owned());
            let entry = Pronunciations { name: name.to_owned(), items };
            assert(entry@.items =~= seq![pronunciation@]);
            self.pronunciations.insert(i, entry);
            assert(source_views(self.pronunciations@) =~= with_pronunciation(
                views,
                name@,
                pronunciation@,
            ));
        }
    }

    /// Adds the forms that the term does not have yet.
    pub fn add_inflections(&mut self, forms: &Vec<String>)
        requires
            old(self)@.wf(),
        ensures
            final(self)@.wf(),
            final(self)@ == old(self)@.with_inflections(texts(forms@)),
    {
        proof {
            lemma_merged(texts(self.inflections@), texts(forms@));
        }
        merge_into(&mut self.inflections, forms);
    }

    /// Registers a meaning under a category.
    pub fn add_meaning(&mut self, word_class: WordClass, m: &Meaning)
        requires
            old(self)@.wf(),
            m@.wf(),
        ensures
            final(self)@.wf(),
            final(self)@ == old(self)@.with_meaning(word_class, m@),
    {
        let ghost views = class_views(self.classes@);
        let ghost p = |e: ClassView| e.word_class.rank() >= word_class.rank();
        let n = self.classes.len();
        let mut i: usize = 0;
        let mut found = false;
        while i < n && !found
            invariant
                found ==> i < n && p(views[i as int]),
                i <= n == self.classes.len(),
                views == class_views(self.classes@),
                p == |e: ClassView| e.word_class.rank() >= word_class.rank(),
                forall|j: int| 0 <= j < i ==> !p(#[trigger] views[j]),
            decreases n - i + (if found { 0int } else { 1int }),
        {
            if self.classes[i].word_class().position() >= word_class.position() {
                found = true;
            } else {
                assert(!p(views[i as int]));
                i += 1;
            }
        }
        proof {
            lemma_first_where_is(views, p, i as int);
            lemma_with_class_meaning_wf(views, word_class, m@);
        }
        if i < n && self.classes[i].word_class().position() == word_class.position() {
            proof {
                crate::word_class::lemma_rank_injective(views[i as int].word_class, word_class);
                assert(meanings_wf(views[i as int].meanings));
            }
            self.classes[i].add(m);
            assert(class_views(self.classes@) =~= with_class_meaning(views, word_class, m@));
        } else {
            let mut entry = ClassMeanings { word_class, meanings: Vec::new() };
            assert(entry@.meanings =~= Seq::empty());
            entry.add(m);
            self.classes.insert(i, entry);
            assert(class_views(self.classes@) =~= with_class_meaning(views, word_class, m@));
        }
    }
}

/// Registering under a category the meaning that was just registered there
/// changes nothing: the meaning is found again, keeps its gloss and rank, and
/// has all the translations already.
pub proof fn lemma_with_meaning_twice(meanings: Seq<MeaningView>, m: MeaningView)
    requires
        meanings_wf(meanings),
    ensures
        with_meaning(with_meaning(meanings, m), m) == with_meaning(meanings, m),
{
    let p = |x: MeaningView| x.key() == m.key();
    let i = meaning_slot(meanings, m.key());
    let once = with_meaning(meanings, m);
    lemma_first_where(meanings, p);
    assert(p(once[i]));
    assert forall|j: int| 0 <= j < i implies !p(#[trigger] once[j]) by {
        assert(once[j] == meanings[j]);
    }
    lemma_first_where_is(once, p, i);
    if 0 <= i < meanings.len() {
        crate::meaning::lemma_merged_idempotent(meanings[i].translations, m.translations);
    } else {
        assert(Seq::<Seq<char>>::empty().no_duplicates());
        crate::meaning::lemma_merged_idempotent(Seq::empty(), m.translations);
    }
    assert(with_meaning(once, m) =~= once);
}

/// Registering a meaning changes the rank of no meaning that was there, and
/// leaves the registered meaning with exactly the translations that it had
/// before and those that came with `m`, none of them twice.
pub proof fn lemma_with_meaning_keeps_ranks(meanings: Seq<MeaningView>, m: MeaningView)
    requires
        meanings_wf(meanings),
    ensures
        with_meaning(meanings, m).len() >= meanings.len(),
        forall|j: int|
            0 <= j < meanings.len() ==> (#[trigger] with_meaning(meanings, m)[j]).order
                == meanings[j].order && with_meaning(meanings, m)[j].description
                == meanings[j].description,
        ({
            let i = meaning_slot(meanings, m.key());
            let merged_in = with_meaning(meanings, m)[i];
            let had = if i < meanings.len() {
                meanings[i].translations
            } else {
                Seq::empty()
            };
            &&& 0 <= i < with_meaning(meanings, m).len()
            &&& merged_in.key() == m.key()
            &&& merged_in.translations.no_duplicates()
            &&& forall|t: Seq<char>| #[trigger]
                merged_in.translations.contains(t) <==> had.contains(t) || m.translations.contains(
                    t,
                )
        }),
{
    let p = |x: MeaningView| x.key() == m.key();
    let i = meaning_slot(meanings, m.key());
    lemma_first_where(meanings, p);
    if 0 <= i < meanings.len() {
        lemma_merged(meanings[i].translations, m.translations);
    } else {
        assert(Seq::<Seq<char>>::empty().no_duplicates());
        lemma_merged(Seq::empty(), m.translations);
    }
}

/// Registering under a term's category the meaning that was just registered
/// there changes nothing.
pub proof fn lemma_with_class_meaning_twice(
    classes: Seq<ClassView>,
    word_class: WordClass,
    m: MeaningView,
)
    requires
        classes_sorted(classes),
        forall|i: int| 0 <= i < classes.len() ==> meanings_wf((#[trigger] classes[i]).meanings),
    ensures
        with_class_meaning(with_class_meaning(classes, word_class, m), word_class, m)
            == with_class_meaning(classes, word_class, m),
{
    let p = |e: ClassView| e.word_class.rank() >= word_class.rank();
    let i = class_slot(classes, word_class);
    let once = with_class_meaning(classes, word_class, m);
    lemma_first_where(classes, p);
    assert(p(once[i]));
    assert forall|j: int| 0 <= j < i implies !p(#[trigger] once[j]) by {
        assert(once[j] == classes[j]);
    }
    lemma_first_where_is(once, p, i);
    if 0 <= i < classes.len() && classes[i].word_class == word_class {
        lemma_with_meaning_twice(classes[i].meanings, m);
    } else {
        assert(meanings_wf(Seq::<MeaningView>::empty()));
        lemma_with_meaning_twice(Seq::empty(), m);
    }
    assert(with_class_meaning(once, word_class, m) =~= once);
}

} // verus!
