//! The reverse view of a dictionary: its translations as headwords, and its
//! headwords as their translations.

use crate::dictionary::{Dictionary, DictionaryView};
use crate::inflection::rule_patterns_compile;
use crate::meaning::{Meaning, MeaningView};
use crate::meaning::lemma_merged;
use crate::search::lemma_first_where;
use crate::term::{
    class_slot, class_views, meaning_slot, meaning_views, meanings_wf, term_views,
    with_class_meaning, with_meaning, ClassView, Term, TermView,
};
use crate::text::{lowercase, texts};
use crate::word_class::WordClass;
use vstd::prelude::*;

verus! {

/// One translation of a dictionary: under `headword`, a meaning of the
/// category `word_class` with the gloss `description` has it.
pub struct Fact {
    pub translation: Seq<char>,
    pub word_class: WordClass,
    pub description: Seq<char>,
    pub headword: Seq<char>,
}

/// The translations of one meaning, in their order.
pub open spec fn meaning_facts(headword: Seq<char>, word_class: WordClass, m: MeaningView) -> Seq<
    Fact,
> {
    Seq::new(
        m.translations.len(),
        |k: int|
            Fact {
                translation: m.translations[k],
                word_class,
                description: m.description,
                headword,
            },
    )
}

/// The translations of the given meanings of one category, in order.
pub open spec fn meanings_facts(
    headword: Seq<char>,
    word_class: WordClass,
    meanings: Seq<MeaningView>,
) -> Seq<Fact>
    decreases meanings.len(),
{
    if meanings.len() == 0 {
        Seq::empty()
    } else {
        meanings_facts(headword, word_class, meanings.drop_last()) + meaning_facts(
            headword,
            word_class,
            meanings.last(),
        )
    }
}

/// The translations of the given categories of one term, in order.
pub open spec fn classes_facts(headword: Seq<char>, classes: Seq<ClassView>) -> Seq<Fact>
    decreases classes.len(),
{
    if classes.len() == 0 {
        Seq::empty()
    } else {
        classes_facts(headword, classes.drop_last()) + meanings_facts(
            headword,
            classes.last().word_class,
            classes.last().meanings,
        )
    }
}

/// The translations of the given terms, in order.
pub open spec fn terms_facts(entries: Seq<TermView>) -> Seq<Fact>
    decreases entries.len(),
{
    if entries.len() == 0 {
        Seq::empty()
    } else {
        terms_facts(entries.drop_last()) + classes_facts(
            entries.last().headword,
            entries.last().classes,
        )
    }
}

/// The meaning that a translation becomes in the reverse view: the gloss of
/// the meaning that it came from, with the headword as its one translation.
pub open spec fn back_reference(f: Fact) -> MeaningView {
    MeaningView::new(f.description).with_translation(f.headword)
}

/// The dictionary after each of the given translations is registered as a
/// headword whose meaning refers back to where it came from.
pub open spec fn with_facts(d: DictionaryView, facts: Seq<Fact>) -> DictionaryView
    decreases facts.len(),
{
    if facts.len() == 0 {
        d
    } else {
        with_facts(d, facts.drop_last()).with_meaning(
            facts.last().translation,
            facts.last().word_class,
            back_reference(facts.last()),
        )
    }
}

/// The reverse view of a dictionary under a new title: the languages change
/// places, and every translation becomes a headword.
pub open spec fn reversed(d: DictionaryView, title: Seq<char>) -> DictionaryView {
    with_facts(
        DictionaryView {
            source_language: d.target_language,
            target_language: d.source_language,
            title,
            author: d.author,
            entries: Seq::empty(),
        },
        terms_facts(d.entries),
    )
}

/// Whether a term has a translation.
pub open spec fn is_translated(term: TermView) -> bool {
    classes_facts(term.headword, term.classes).len() > 0
}

/// The number of the given terms that have a translation.
pub open spec fn translated_count(entries: Seq<TermView>) -> nat
    decreases entries.len(),
{
    if entries.len() == 0 {
        0
    } else {
        translated_count(entries.drop_last()) + (if is_translated(entries.last()) {
            1nat
        } else {
            0nat
        })
    }
}

/// Registers the translations of one meaning in the reverse view.
fn reverse_meaning(
    target: &mut Dictionary,
    headword: &str,
    word_class: WordClass,
    meaning: &Meaning,
    Ghost(done): Ghost<Seq<Fact>>,
    Ghost(start): Ghost<DictionaryView>,
)
    requires
        old(target).wf(),
        old(target)@ == with_facts(start, done),
    ensures
        final(target).wf(),
        final(target)@ == with_facts(start, done + meaning_facts(headword@, word_class, meaning@)),
{
    let translations = meaning.translations();
    let ghost facts = meaning_facts(headword@, word_class, meaning@);
    let mut k: usize = 0;
    assert(done + facts.take(0) =~= done);
    while k < translations.len()
        invariant
            k <= translations.len(),
            texts(translations@) == meaning@.translations,
            facts == meaning_facts(headword@, word_class, meaning@),
            target.wf(),
            target@ == with_facts(start, done + facts.take(k as int)),
        decreases translations.len() - k,
    {
        let mut back = Meaning::new(meaning.description());
        back.add_translation(headword);
        proof {
            let now = done + facts.take(k + 1);
            assert(now.drop_last() =~= done + facts.take(k as int));
            assert(now.last() == facts[k as int]);
            assert(texts(translations@)[k as int] == translations@[k as int]@);
        }
        target.add_meaning(translations[k].as_str(), word_class, back);
        k += 1;
    }
    assert(facts.take(translations.len() as int) =~= facts);
}

/// Registers the translations of one term in the reverse view.
fn reverse_term(
    target: &mut Dictionary,
    term: &Term,
    Ghost(done): Ghost<Seq<Fact>>,
    Ghost(start): Ghost<DictionaryView>,
)
    requires
        old(target).wf(),
        old(target)@ == with_facts(start, done),
    ensures
        final(target).wf(),
        final(target)@ == with_facts(start, done + classes_facts(term@.headword, term@.classes)),
{
    let headword = term.headword();
    let classes = term.classes();
    let ghost views = class_views(classes@);
    let mut i: usize = 0;
    proof {
        assert(views.take(0) =~= Seq::<ClassView>::empty());
        assert(done + Seq::<Fact>::empty() =~= done);
    }
    while i < classes.len()
        invariant
            i <= classes.len(),
            views == class_views(classes@),
            headword@ == term@.headword,
            target.wf(),
            target@ == with_facts(start, done + classes_facts(headword@, views.take(i as int))),
        decreases classes.len() - i,
    {
        let word_class = classes[i].word_class();
        let meanings = classes[i].meanings();
        let ghost mviews = meaning_views(meanings@);
        let ghost before = done + classes_facts(headword@, views.take(i as int));
        let mut j: usize = 0;
        proof {
            assert(mviews.take(0) =~= Seq::<MeaningView>::empty());
            assert(before + Seq::<Fact>::empty() =~= before);
        }
        while j < meanings.len()
            invariant
                j <= meanings.len(),
                mviews == meaning_views(meanings@),
                target.wf(),
                target@ == with_facts(
                    start,
                    before + meanings_facts(headword@, word_class, mviews.take(j as int)),
                ),
            decreases meanings.len() - j,
        {
            let ghost sofar = before + meanings_facts(headword@, word_class, mviews.take(j as int));
            reverse_meaning(target, headword, word_class, &meanings[j], Ghost(sofar), Ghost(start));
            proof {
                assert(mviews.take(j + 1).drop_last() =~= mviews.take(j as int));
                assert(mviews.take(j + 1).last() == meanings@[j as int]@);
                assert(sofar + meaning_facts(headword@, word_class, meanings@[j as int]@)
                    =~= before + meanings_facts(headword@, word_class, mviews.take(j + 1)));
            }
            j += 1;
        }
        proof {
            assert(mviews.take(meanings.len() as int) =~= mviews);
            assert(views.take(i + 1).drop_last() =~= views.take(i as int));
            assert(views.take(i + 1).last() == classes@[i as int]@);
            assert(before + meanings_facts(headword@, word_class, mviews) =~= done
                + classes_facts(headword@, views.take(i + 1)));
        }
        i += 1;
    }
    assert(views.take(classes.len() as int) =~= views);
}

/// Whether one of the meanings has a translation.
fn any_translation(
    meanings: &Vec<Meaning>,
    Ghost(headword): Ghost<Seq<char>>,
    Ghost(word_class): Ghost<WordClass>,
) -> (r: bool)
    ensures
        r == (meanings_facts(headword, word_class, meaning_views(meanings@)).len() > 0),
{
    let ghost mviews = meaning_views(meanings@);
    let mut j: usize = 0;
    assert(mviews.take(0) =~= Seq::<MeaningView>::empty());
    while j < meanings.len()
        invariant
            j <= meanings.len(),
            mviews == meaning_views(meanings@),
            meanings_facts(headword, word_class, mviews.take(j as int)).len() == 0,
        decreases meanings.len() - j,
    {
        proof {
            assert(mviews.take(j + 1).drop_last() =~= mviews.take(j as int));
            assert(mviews.take(j + 1).last() == meanings@[j as int]@);
        }
        if meanings[j].translations().len() > 0 {
            proof {
                lemma_meanings_facts_grow(headword, word_class, mviews, j + 1);
            }
            return true;
        }
        j += 1;
    }
    assert(mviews.take(meanings.len() as int) =~= mviews);
    false
}

/// Whether a term has a translation.
pub fn has_translation(term: &Term) -> (r: bool)
    ensures
        r == is_translated(term@),
{
    let classes = term.classes();
    let ghost headword = term@.headword;
    let ghost views = class_views(classes@);
    let mut i: usize = 0;
    assert(views.take(0) =~= Seq::<ClassView>::empty());
    while i < classes.len()
        invariant
            i <= classes.len(),
            views == class_views(classes@),
            views == term@.classes,
            headword == term@.headword,
            classes_facts(headword, views.take(i as int)).len() == 0,
        decreases classes.len() - i,
    {
        proof {
            assert(views.take(i + 1).drop_last() =~= views.take(i as int));
            assert(views.take(i + 1).last() == classes@[i as int]@);
        }
        if any_translation(
            classes[i].meanings(),
            Ghost(headword),
            Ghost(classes@[i as int]@.word_class),
        ) {
            proof {
                lemma_classes_facts_grow(headword, views, i + 1);
            }
            return true;
        }
        i += 1;
    }
    assert(views.take(classes.len() as int) =~= views);
    false
}

/// The translations of more meanings are no fewer.
pub proof fn lemma_meanings_facts_grow(
    headword: Seq<char>,
    word_class: WordClass,
    meanings: Seq<MeaningView>,
    j: int,
)
    requires
        0 <= j <= meanings.len(),
    ensures
        meanings_facts(headword, word_class, meanings.take(j)).len() <= meanings_facts(
            headword,
            word_class,
            meanings,
        ).len(),
    decreases meanings.len() - j,
{
    if j == meanings.len() {
        assert(meanings.take(j) =~= meanings);
    } else {
        assert(meanings.take(j + 1).drop_last() =~= meanings.take(j));
        lemma_meanings_facts_grow(headword, word_class, meanings, j + 1);
    }
}

/// The translations of more categories are no fewer.
pub proof fn lemma_classes_facts_grow(headword: Seq<char>, classes: Seq<ClassView>, i: int)
    requires
        0 <= i <= classes.len(),
    ensures
        classes_facts(headword, classes.take(i)).len() <= classes_facts(headword, classes).len(),
    decreases classes.len() - i,
{
    if i == classes.len() {
        assert(classes.take(i) =~= classes);
    } else {
        assert(classes.take(i + 1).drop_last() =~= classes.take(i));
        lemma_classes_facts_grow(headword, classes, i + 1);
    }
}

impl Dictionary {
    /// The number of terms that have a translation.
    pub fn translations_len(&self) -> (r: usize)
        ensures
            r == translated_count(self@.entries),
    {
        let terms = self.terms();
        let ghost views = term_views(terms@);
        let mut count: usize = 0;
        let mut i: usize = 0;
        assert(views.take(0) =~= Seq::<TermView>::empty());
        while i < terms.len()
            invariant
                i <= terms.len(),
                views == term_views(terms@),
                count <= i,
                count == translated_count(views.take(i as int)),
            decreases terms.len() - i,
        {
            proof {
                assert(views.take(i + 1).drop_last() =~= views.take(i as int));
                assert(views.take(i + 1).last() == terms@[i as int]@);
            }
            if has_translation(&terms[i]) {
                count += 1;
            }
            i += 1;
        }
        assert(views.take(terms.len() as int) =~= views);
        count
    }

    /// The reverse view under a new title: a dictionary from the target
    /// language to the source language, in which every translation is a
    /// headword; under the category and the gloss that it was given for, it
    /// has the headword that it translates. It can be made exactly when the
    /// patterns of the inflection rules compile.
    pub fn reverse(&self, title: &str) -> (r: Option<Dictionary>)
        requires
            self.wf(),
        ensures
            r is Some <==> rule_patterns_compile(),
            r matches Some(d) ==> d.wf() && d@ == reversed(self@, title@),
    {
        let mut target = Dictionary::new(
            self.target_language(),
            self.source_language(),
            title,
            self.author(),
        )?;
        let terms = self.terms();
        let ghost views = term_views(terms@);
        let ghost start = target@;
        let mut i: usize = 0;
        assert(views.take(0) =~= Seq::<TermView>::empty());
        while i < terms.len()
            invariant
                i <= terms.len(),
                views == term_views(terms@),
                target.wf(),
                target@ == with_facts(start, terms_facts(views.take(i as int))),
            decreases terms.len() - i,
        {
            let ghost done = terms_facts(views.take(i as int));
            reverse_term(&mut target, &terms[i], Ghost(done), Ghost(start));
            proof {
                assert(views.take(i + 1).drop_last() =~= views.take(i as int));
                assert(views.take(i + 1).last() == terms@[i as int]@);
            }
            i += 1;
        }
        assert(views.take(terms.len() as int) =~= views);
        Some(target)
    }
}

/// Whether one of the meanings has the given key and the given translation.
pub open spec fn meanings_have(meanings: Seq<MeaningView>, key: Seq<char>, x: Seq<char>) -> bool {
    exists|i: int|
        0 <= i < meanings.len() && (#[trigger] meanings[i]).key() == key
            && meanings[i].translations.contains(x)
}

/// Whether the category has a meaning with the given key and translation.
pub open spec fn classes_have(
    classes: Seq<ClassView>,
    word_class: WordClass,
    key: Seq<char>,
    x: Seq<char>,
) -> bool {
    exists|c: int|
        0 <= c < classes.len() && (#[trigger] classes[c]).word_class == word_class
            && meanings_have(classes[c].meanings, key, x)
}

/// Whether the dictionary holds the back-reference of a translation: a term
/// keyed by the translation which has, under the same category and the
/// case-folded gloss, the original headword as a translation.
pub open spec fn records(d: DictionaryView, f: Fact) -> bool {
    exists|e: int|
        0 <= e < d.entries.len() && (#[trigger] d.entries[e]).key() == lowercase(f.translation)
            && classes_have(d.entries[e].classes, f.word_class, lowercase(f.description), f.headword)
}

/// Registering a meaning loses no translation of the category.
pub proof fn lemma_with_meaning_keeps(
    meanings: Seq<MeaningView>,
    m: MeaningView,
    key: Seq<char>,
    x: Seq<char>,
)
    requires
        meanings_wf(meanings),
        meanings_have(meanings, key, x),
    ensures
        meanings_have(with_meaning(meanings, m), key, x),
{
    let i = choose|i: int|
        0 <= i < meanings.len() && (#[trigger] meanings[i]).key() == key
            && meanings[i].translations.contains(x);
    let s = meaning_slot(meanings, m.key());
    let after = with_meaning(meanings, m);
    lemma_first_where(meanings, |t: MeaningView| t.key() == m.key());
    if 0 <= s < meanings.len() {
        lemma_merged(meanings[s].translations, m.translations);
    }
    assert(after[i].key() == key && after[i].translations.contains(x));
}

/// A registered meaning has each of its translations.
pub proof fn lemma_with_meaning_has(meanings: Seq<MeaningView>, m: MeaningView, x: Seq<char>)
    requires
        meanings_wf(meanings),
        m.translations.contains(x),
    ensures
        meanings_have(with_meaning(meanings, m), m.key(), x),
{
    let s = meaning_slot(meanings, m.key());
    let after = with_meaning(meanings, m);
    lemma_first_where(meanings, |t: MeaningView| t.key() == m.key());
    if 0 <= s < meanings.len() {
        lemma_merged(meanings[s].translations, m.translations);
    } else {
        assert(Seq::<Seq<char>>::empty().no_duplicates());
        lemma_merged(Seq::empty(), m.translations);
    }
    assert(after[s].key() == m.key() && after[s].translations.contains(x));
}

/// Registering a meaning loses no translation of the term.
pub proof fn lemma_with_class_meaning_keeps(
    classes: Seq<ClassView>,
    word_class: WordClass,
    m: MeaningView,
    other: WordClass,
    key: Seq<char>,
    x: Seq<char>,
)
    requires
        forall|i: int| 0 <= i < classes.len() ==> meanings_wf((#[trigger] classes[i]).meanings),
        classes_have(classes, other, key, x),
    ensures
        classes_have(with_class_meaning(classes, word_class, m), other, key, x),
{
    let c = choose|c: int|
        0 <= c < classes.len() && (#[trigger] classes[c]).word_class == other && meanings_have(
            classes[c].meanings,
            key,
            x,
        );
    let s = class_slot(classes, word_class);
    let after = with_class_meaning(classes, word_class, m);
    lemma_first_where(classes, |e: ClassView| e.word_class.rank() >= word_class.rank());
    if 0 <= s < classes.len() && classes[s].word_class == word_class {
        if c == s {
            lemma_with_meaning_keeps(classes[s].meanings, m, key, x);
        }
        assert(after[c].word_class == other && meanings_have(after[c].meanings, key, x));
    } else {
        let c2 = if c < s {
            c
        } else {
            c + 1
        };
        assert(after[c2] == classes[c]);
        assert(after[c2].word_class == other && meanings_have(after[c2].meanings, key, x));
    }
}

/// A meaning registered under a category has each of its translations there.
pub proof fn lemma_with_class_meaning_has(
    classes: Seq<ClassView>,
    word_class: WordClass,
    m: MeaningView,
    x: Seq<char>,
)
    requires
        forall|i: int| 0 <= i < classes.len() ==> meanings_wf((#[trigger] classes[i]).meanings),
        m.translations.contains(x),
    ensures
        classes_have(with_class_meaning(classes, word_class, m), word_class, m.key(), x),
{
    let s = class_slot(classes, word_class);
    let after = with_class_meaning(classes, word_class, m);
    lemma_first_where(classes, |e: ClassView| e.word_class.rank() >= word_class.rank());
    if 0 <= s < classes.len() && classes[s].word_class == word_class {
        lemma_with_meaning_has(classes[s].meanings, m, x);
    } else {
        assert(meanings_wf(Seq::<MeaningView>::empty()));
        lemma_with_meaning_has(Seq::empty(), m, x);
    }
    assert(after[s].word_class == word_class && meanings_have(after[s].meanings, m.key(), x));
}

/// Registering a meaning keeps a dictionary well formed.
pub proof fn lemma_with_meaning_wf(
    d: DictionaryView,
    headword: Seq<char>,
    word_class: WordClass,
    m: MeaningView,
)
    requires
        d.wf(),
    ensures
        d.with_meaning(headword, word_class, m).wf(),
{
    let base = d.entry_for(headword);
    let forms = d.inflections(headword, word_class);
    let term = base.with_inflections(forms).with_meaning(word_class, m);
    let s = d.slot(lowercase(headword));
    let after = d.with_meaning(headword, word_class, m);
    lemma_first_where(d.entries, |t: TermView| t.key() == lowercase(headword));
    crate::dictionary::lemma_entry_for_key(d, headword);
    assert(base.wf()) by {
        assert(TermView::new(headword).inflections.no_duplicates());
    }
    lemma_merged(base.inflections, forms);
    crate::term::lemma_with_class_meaning_wf(base.classes, word_class, m);
    assert(term.wf());
    assert forall|i: int| 0 <= i < after.entries.len() implies (
    #[trigger] after.entries[i]).wf() by {
        if i != s {
            assert(after.entries[i] == d.entries[i]);
        }
    }
    assert forall|i: int, j: int| 0 <= i < j < after.entries.len() implies (
    #[trigger] after.entries[i]).key() != (#[trigger] after.entries[j]).key() by {
        if i != s && i < d.entries.len() {
            assert(after.entries[i] == d.entries[i]);
        }
        if j != s && j < d.entries.len() {
            assert(after.entries[j] == d.entries[j]);
        }
    }
}

/// Registering a meaning loses no back-reference.
pub proof fn lemma_with_meaning_keeps_records(
    d: DictionaryView,
    headword: Seq<char>,
    word_class: WordClass,
    m: MeaningView,
    f: Fact,
)
    requires
        d.wf(),
        records(d, f),
    ensures
        records(d.with_meaning(headword, word_class, m), f),
{
    let e = choose|e: int|
        0 <= e < d.entries.len() && (#[trigger] d.entries[e]).key() == lowercase(f.translation)
            && classes_have(
            d.entries[e].classes,
            f.word_class,
            lowercase(f.description),
            f.headword,
        );
    let s = d.slot(lowercase(headword));
    let after = d.with_meaning(headword, word_class, m);
    lemma_first_where(d.entries, |t: TermView| t.key() == lowercase(headword));
    if e == s {
        lemma_with_class_meaning_keeps(
            d.entries[e].classes,
            word_class,
            m,
            f.word_class,
            lowercase(f.description),
            f.headword,
        );
    }
    assert(after.entries[e].key() == lowercase(f.translation) && classes_have(
        after.entries[e].classes,
        f.word_class,
        lowercase(f.description),
        f.headword,
    ));
}

/// A registered back-reference is held.
pub proof fn lemma_with_fact_records(d: DictionaryView, f: Fact)
    requires
        d.wf(),
    ensures
        records(d.with_meaning(f.translation, f.word_class, back_reference(f)), f),
{
    let m = back_reference(f);
    let s = d.slot(lowercase(f.translation));
    let base = d.entry_for(f.translation);
    let after = d.with_meaning(f.translation, f.word_class, m);
    lemma_first_where(d.entries, |t: TermView| t.key() == lowercase(f.translation));
    crate::dictionary::lemma_entry_for_key(d, f.translation);
    assert(Seq::<Seq<char>>::empty().no_duplicates());
    lemma_merged(Seq::empty(), seq![f.headword]);
    assert(seq![f.headword][0] == f.headword);
    assert(m.translations.contains(f.headword));
    lemma_with_class_meaning_has(base.classes, f.word_class, m, f.headword);
    assert(after.entries[s].key() == lowercase(f.translation) && classes_have(
        after.entries[s].classes,
        f.word_class,
        lowercase(f.description),
        f.headword,
    ));
}

/// After the given translations are registered, the back-reference of each is
/// held.
pub proof fn lemma_with_facts_records(d: DictionaryView, facts: Seq<Fact>)
    requires
        d.wf(),
    ensures
        with_facts(d, facts).wf(),
        forall|n: int| 0 <= n < facts.len() ==> records(with_facts(d, facts), #[trigger] facts[n]),
    decreases facts.len(),
{
    if facts.len() > 0 {
        let front = facts.drop_last();
        let f = facts.last();
        let before = with_facts(d, front);
        lemma_with_facts_records(d, front);
        lemma_with_meaning_wf(before, f.translation, f.word_class, back_reference(f));
        lemma_with_fact_records(before, f);
        assert forall|n: int| 0 <= n < facts.len() implies records(
            with_facts(d, facts),
            #[trigger] facts[n],
        ) by {
            if n < front.len() {
                assert(front[n] == facts[n]);
                lemma_with_meaning_keeps_records(
                    before,
                    f.translation,
                    f.word_class,
                    back_reference(f),
                    facts[n],
                );
            }
        }
    }
}

/// The translation at the given place of a dictionary is among its
/// translations.
pub proof fn lemma_fact_listed(entries: Seq<TermView>, e: int, c: int, j: int, k: int)
    requires
        0 <= e < entries.len(),
        0 <= c < entries[e].classes.len(),
        0 <= j < entries[e].classes[c].meanings.len(),
        0 <= k < entries[e].classes[c].meanings[j].translations.len(),
    ensures
        terms_facts(entries).contains(
            Fact {
                translation: entries[e].classes[c].meanings[j].translations[k],
                word_class: entries[e].classes[c].word_class,
                description: entries[e].classes[c].meanings[j].description,
                headword: entries[e].headword,
            },
        ),
    decreases entries.len(), entries[e].classes.len(), entries[e].classes[c].meanings.len(),
{
    let term = entries[e];
    let class = term.classes[c];
    let m = class.meanings[j];
    let f = Fact {
        translation: m.translations[k],
        word_class: class.word_class,
        description: m.description,
        headword: term.headword,
    };
    let of_meaning = meaning_facts(term.headword, class.word_class, m);
    assert(of_meaning[k] == f);
    lemma_meanings_facts_listed(term.headword, class.word_class, class.meanings, j, f);
    lemma_classes_facts_listed(term.headword, term.classes, c, f);
    lemma_terms_facts_listed(entries, e, f);
}

/// What one of the meanings gives is among what all of them give.
pub proof fn lemma_meanings_facts_listed(
    headword: Seq<char>,
    word_class: WordClass,
    meanings: Seq<MeaningView>,
    j: int,
    f: Fact,
)
    requires
        0 <= j < meanings.len(),
        meaning_facts(headword, word_class, meanings[j]).contains(f),
    ensures
        meanings_facts(headword, word_class, meanings).contains(f),
    decreases meanings.len(),
{
    let front = meanings_facts(headword, word_class, meanings.drop_last());
    let tail = meaning_facts(headword, word_class, meanings.last());
    if j == meanings.len() - 1 {
        let n = choose|n: int| 0 <= n < tail.len() && tail[n] == f;
        assert((front + tail)[front.len() + n] == f);
    } else {
        assert(meanings.drop_last()[j] == meanings[j]);
        lemma_meanings_facts_listed(headword, word_class, meanings.drop_last(), j, f);
        let n = choose|n: int| 0 <= n < front.len() && front[n] == f;
        assert((front + tail)[n] == f);
    }
}

/// What one of the categories gives is among what all of them give.
pub proof fn lemma_classes_facts_listed(
    headword: Seq<char>,
    classes: Seq<ClassView>,
    c: int,
    f: Fact,
)
    requires
        0 <= c < classes.len(),
        meanings_facts(headword, classes[c].word_class, classes[c].meanings).contains(f),
    ensures
        classes_facts(headword, classes).contains(f),
    decreases classes.len(),
{
    let front = classes_facts(headword, classes.drop_last());
    let tail = meanings_facts(headword, classes.last().word_class, classes.last().meanings);
    if c == classes.len() - 1 {
        let n = choose|n: int| 0 <= n < tail.len() && tail[n] == f;
        assert((front + tail)[front.len() + n] == f);
    } else {
        assert(classes.drop_last()[c] == classes[c]);
        lemma_classes_facts_listed(headword, classes.drop_last(), c, f);
        let n = choose|n: int| 0 <= n < front.len() && front[n] == f;
        assert((front + tail)[n] == f);
    }
}

/// What one of the terms gives is among what all of them give.
pub proof fn lemma_terms_facts_listed(entries: Seq<TermView>, e: int, f: Fact)
    requires
        0 <= e < entries.len(),
        classes_facts(entries[e].headword, entries[e].classes).contains(f),
    ensures
        terms_facts(entries).contains(f),
    decreases entries.len(),
{
    let front = terms_facts(entries.drop_last());
    let tail = classes_facts(entries.last().headword, entries.last().classes);
    if e == entries.len() - 1 {
        let n = choose|n: int| 0 <= n < tail.len() && tail[n] == f;
        assert((front + tail)[front.len() + n] == f);
    } else {
        assert(entries.drop_last()[e] == entries[e]);
        lemma_terms_facts_listed(entries.drop_last(), e, f);
        let n = choose|n: int| 0 <= n < front.len() && front[n] == f;
        assert((front + tail)[n] == f);
    }
}

/// The reverse view loses no translation: each translation string of the
/// dictionary resolves, in the reverse view, to a term that has, under the
/// same category and the same case-folded gloss, the headword that the
/// translation was given for.
pub proof fn lemma_reverse_keeps_translations(
    d: DictionaryView,
    title: Seq<char>,
    e: int,
    c: int,
    j: int,
    k: int,
)
    requires
        0 <= e < d.entries.len(),
        0 <= c < d.entries[e].classes.len(),
        0 <= j < d.entries[e].classes[c].meanings.len(),
        0 <= k < d.entries[e].classes[c].meanings[j].translations.len(),
    ensures
        reversed(d, title).wf(),
        reversed(d, title).lookup(d.entries[e].classes[c].meanings[j].translations[k]) is Some,
        classes_have(
            reversed(d, title).lookup(
                d.entries[e].classes[c].meanings[j].translations[k],
            )->0.classes,
            d.entries[e].classes[c].word_class,
            lowercase(d.entries[e].classes[c].meanings[j].description),
            d.entries[e].headword,
        ),
{
    let f = Fact {
        translation: d.entries[e].classes[c].meanings[j].translations[k],
        word_class: d.entries[e].classes[c].word_class,
        description: d.entries[e].classes[c].meanings[j].description,
        headword: d.entries[e].headword,
    };
    let start = DictionaryView {
        source_language: d.target_language,
        target_language: d.source_language,
        title,
        author: d.author,
        entries: Seq::empty(),
    };
    let facts = terms_facts(d.entries);
    let r = reversed(d, title);
    lemma_fact_listed(d.entries, e, c, j, k);
    let n = choose|n: int| 0 <= n < facts.len() && facts[n] == f;
    lemma_with_facts_records(start, facts);
    assert(records(r, facts[n]));
    let w = choose|w: int|
        0 <= w < r.entries.len() && (#[trigger] r.entries[w]).key() == lowercase(f.translation)
            && classes_have(
            r.entries[w].classes,
            f.word_class,
            lowercase(f.description),
            f.headword,
        );
    let p = |t: TermView| t.key() == lowercase(f.translation);
    assert(p(r.entries[w]));
    assert forall|i: int| 0 <= i < w implies !p(#[trigger] r.entries[i]) by {}
    crate::search::lemma_first_where_is(r.entries, p, w);
}

} // verus!
