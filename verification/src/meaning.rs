//! One sense of a headword under a grammatical category.

use crate::text::{fold_case, lowercase, same_text, texts};
use vstd::prelude::*;

verus! {

/// The mathematical content of a [`Meaning`].
pub struct MeaningView {
    /// The display rank, fixed when the meaning is first registered.
    pub order: nat,
    /// The gloss, as first written.
    pub description: Seq<char>,
    /// The translations, without repetition, in the order of first arrival.
    pub translations: Seq<Seq<char>>,
}

/// `old` followed by those elements of `new` that it does not hold yet, each
/// once, in their order.
pub open spec fn merged(old: Seq<Seq<char>>, new: Seq<Seq<char>>) -> Seq<Seq<char>>
    decreases new.len(),
{
    if new.len() == 0 {
        old
    } else {
        let m = merged(old, new.drop_last());
        if m.contains(new.last()) {
            m
        } else {
            m.push(new.last())
        }
    }
}

impl MeaningView {
    /// A meaning with the given gloss, no translation and rank 0.
    pub open spec fn new(description: Seq<char>) -> MeaningView {
        MeaningView { order: 0, description, translations: Seq::empty() }
    }

    /// The key under which meanings of one category are merged.
    pub open spec fn key(self) -> Seq<char> {
        lowercase(self.description)
    }

    /// The translations never repeat.
    pub open spec fn wf(self) -> bool {
        self.translations.no_duplicates()
    }

    /// Neither a gloss nor a translation.
    pub open spec fn is_empty(self) -> bool {
        self.description.len() == 0 && self.translations.len() == 0
    }

    /// The meaning with one more translation, unless it is already there.
    pub open spec fn with_translation(self, t: Seq<char>) -> MeaningView {
        MeaningView { translations: merged(self.translations, seq![t]), ..self }
    }

    /// The meaning with the translations of `other` merged in.
    pub open spec fn absorb(self, other: MeaningView) -> MeaningView {
        MeaningView { translations: merged(self.translations, other.translations), ..self }
    }
}

/// Merging keeps what was there, adds nothing twice and keeps the set exact:
/// the result holds an element exactly when one of the two sequences does.
pub proof fn lemma_merged(old: Seq<Seq<char>>, new: Seq<Seq<char>>)
    requires
        old.no_duplicates(),
    ensures
        merged(old, new).no_duplicates(),
        old.len() <= merged(old, new).len() <= old.len() + new.len(),
        merged(old, new).take(old.len() as int) == old,
        forall|t: Seq<char>| #[trigger]
            merged(old, new).contains(t) <==> old.contains(t) || new.contains(t),
    decreases new.len(),
{
    let r = merged(old, new);
    if new.len() == 0 {
        assert(r.take(old.len() as int) == old);
    } else {
        let front = new.drop_last();
        let m = merged(old, front);
        lemma_merged(old, front);
        assert(r.take(old.len() as int) == m.take(old.len() as int));
        assert forall|t: Seq<char>| #[trigger] r.contains(t) <==> old.contains(t) || new.contains(
            t,
        ) by {
            if new.contains(t) {
                let i = choose|i: int| 0 <= i < new.len() && new[i] == t;
                if i < new.len() - 1 {
                    assert(front[i] == t);
                } else if !m.contains(t) {
                    assert(r[m.len() as int] == t);
                }
            }
            if front.contains(t) {
                let i = choose|i: int| 0 <= i < front.len() && front[i] == t;
                assert(new[i] == t);
            }
            if m.contains(t) {
                let i = choose|i: int| 0 <= i < m.len() && m[i] == t;
                assert(r[i] == t);
            }
            if r.contains(t) && !m.contains(t) {
                let i = choose|i: int| 0 <= i < r.len() && r[i] == t;
                if i < m.len() {
                    assert(m[i] == t);
                }
                assert(new[new.len() - 1] == t);
            }
        }
    }
}

/// Merging the same translations a second time changes nothing.
pub proof fn lemma_merged_idempotent(old: Seq<Seq<char>>, new: Seq<Seq<char>>)
    requires
        old.no_duplicates(),
    ensures
        merged(merged(old, new), new) == merged(old, new),
{
    lemma_merged(old, new);
    lemma_merged_absorbed(merged(old, new), new);
}

/// Merging in what is already there changes nothing.
pub proof fn lemma_merged_absorbed(old: Seq<Seq<char>>, new: Seq<Seq<char>>)
    requires
        forall|i: int| 0 <= i < new.len() ==> old.contains(#[trigger] new[i]),
    ensures
        merged(old, new) == old,
    decreases new.len(),
{
    if new.len() > 0 {
        assert forall|i: int| 0 <= i < new.drop_last().len() implies old.contains(
            #[trigger] new.drop_last()[i],
        ) by {
            assert(new.drop_last()[i] == new[i]);
        }
        lemma_merged_absorbed(old, new.drop_last());
        assert(old.contains(new[new.len() - 1]));
    }
}

/// One sense of a headword: a gloss, its translations and its display rank.
#[derive(Debug, Clone)]
pub struct Meaning {
    order: usize,
    description: String,
    translations: Vec<String>,
}

impl View for Meaning {
    type V = MeaningView;

    closed spec fn view(&self) -> MeaningView {
        MeaningView {
            order: self.order as nat,
            description: self.description@,
            translations: texts(self.translations@),
        }
    }
}

/// Whether `list` holds a string with the characters of `t`.
pub fn holds(list: &Vec<String>, t: &str) -> (r: bool)
    ensures
        r == texts(list@).contains(t@),
{
    let mut i: usize = 0;
    while i < list.len()
        invariant
            i <= list.len(),
            forall|j: int| 0 <= j < i ==> texts(list@)[j] != t@,
        decreases list.len() - i,
    {
        if same_text(list[i].as_str(), t) {
            assert(texts(list@)[i as int] == t@);
            return true;
        }
        i += 1;
    }
    false
}

/// Appends to `list` the strings of `new` that it does not hold yet.
pub fn merge_into(list: &mut Vec<String>, new: &Vec<String>)
    ensures
        texts(final(list)@) == merged(texts(old(list)@), texts(new@)),
{
    let mut i: usize = 0;
    assert(texts(new@).take(0) =~= Seq::<Seq<char>>::empty());
    while i < new.len()
        invariant
            i <= new.len(),
            texts(list@) == merged(texts(old(list)@), texts(new@).take(i as int)),
        decreases new.len() - i,
    {
        proof {
            let n = texts(new@);
            assert(n.take(i + 1).drop_last() == n.take(i as int));
            assert(n.take(i + 1).last() == new@[i as int]@);
        }
        if !holds(list, new[i].as_str()) {
            let ghost before = list@;
            list.push(new[i].clone());
            assert(texts(list@) == texts(before).push(new@[i as int]@));
        }
        i += 1;
    }
    assert(texts(new@).take(new.len() as int) == texts(new@));
}

impl Meaning {
    /// A meaning with the given gloss, no translation and rank 0.
    pub fn new(description: &str) -> (r: Meaning)
        ensures
            r@.wf(),
            r@ == MeaningView::new(description@),
    {
        let r = Meaning {
            order: 0,
            description: description.to_owned(),
            translations: Vec::new(),
        };
        assert(texts(r.translations@) =~= Seq::<Seq<char>>::empty());
        r
    }

    /// Adds a translation unless the meaning already has it.
    pub fn add_translation(&mut self, translation: &str)
        requires
            old(self)@.wf(),
        ensures
            final(self)@.wf(),
            final(self)@ == old(self)@.with_translation(translation@),
    {
        let ghost before = texts(self.translations@);
        proof {
            lemma_merged(before, seq![translation@]);
            assert(seq![translation@].drop_last() =~= Seq::<Seq<char>>::empty());
            assert(merged(before, seq![translation@].drop_last()) == before);
            assert(seq![translation@].last() == translation@);
        }
        if !holds(&self.translations, translation) {
            self.translations.push(translation.to_owned());
            assert(texts(self.translations@) == before.push(translation@));
        }
    }

    /// Whether the meaning has neither a gloss nor a translation.
    pub fn is_empty(&self) -> (r: bool)
        ensures
            r == self@.is_empty(),
    {
        self.description.as_str().unicode_len() == 0 && self.translations.len() == 0
    }

    /// The display rank.
    pub fn order(&self) -> (r: usize)
        ensures
            r == self@.order,
    {
        self.order
    }

    /// The gloss.
    pub fn description(&self) -> (r: &str)
        ensures
            r@ == self@.description,
    {
        self.description.as_str()
    }

    /// The translations, in the order of first arrival.
    pub fn translations(&self) -> (r: &Vec<String>)
        ensures
            texts(r@) == self@.translations,
    {
        &self.translations
    }

    /// The key under which the meaning is merged with others of its category.
    pub fn key(&self) -> (r: String)
        ensures
            r@ == self@.key(),
    {
        fold_case(self.description.as_str())
    }

    /// A copy of the meaning.
    pub fn duplicate(&self) -> (r: Meaning)
        requires
            self@.wf(),
        ensures
            r@.wf(),
            r@ == self@,
    {
        let mut translations: Vec<String> = Vec::new();
        let mut i: usize = 0;
        while i < self.translations.len()
            invariant
                i <= self.translations.len(),
                texts(translations@) == texts(self.translations@).take(i as int),
            decreases self.translations.len() - i,
        {
            let ghost before = translations@;
            translations.push(self.translations[i].clone());
            proof {
                let all = texts(self.translations@);
                assert(texts(translations@) == texts(before).push(all[i as int]));
                assert(all.take(i + 1) == all.take(i as int).push(all[i as int]));
            }
            i += 1;
        }
        assert(texts(self.translations@).take(self.translations.len() as int) == texts(
            self.translations@,
        ));
        Meaning { order: self.order, description: self.description.clone(), translations }
    }

    /// Merges the translations of `other` into this meaning.
    pub(crate) fn absorb(&mut self, other: &Meaning)
        requires
            old(self)@.wf(),
        ensures
            final(self)@.wf(),
            final(self)@ == old(self)@.absorb(other@),
    {
        proof {
            lemma_merged(texts(self.translations@), texts(other.translations@));
        }
        merge_into(&mut self.translations, &other.translations);
    }

    /// Sets the display rank.
    pub(crate) fn set_order(&mut self, order: usize)
        requires
            old(self)@.wf(),
        ensures
            final(self)@.wf(),
            final(self)@ == (MeaningView { order: order as nat, ..old(self)@ }),
    {
        self.order = order;
    }
}

} // verus!
