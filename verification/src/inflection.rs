//! The inflection engine: the surface forms of a headword.
//!
//! Only English has rules. Each rule is chosen by what a handful of regular
//! expressions find in the headword; the functions named `*_rule` say which
//! form follows from which findings.

use crate::pattern::{
    compile, first_group, is_match, pattern_compiles, pattern_first_group, pattern_matches,
    pattern_source,
};
use crate::search::{first_where, lemma_first_where_is};
use crate::text::{ends_with, fold_case, has_suffix, lowercase, same_text, texts};
use crate::word_class::WordClass;
use regex::Regex;
use vstd::prelude::*;
use vstd::string::StringExecFns;

verus! {

/// A word ending in `e`; the group is what precedes the `e`.
pub const EN_RE_E: &'static str = "(.*)e$";

/// A word ending in a consonant and `ie`; the group is what precedes the `ie`.
pub const EN_RE_IE: &'static str = "(.*[bcdfghjklmnpqrstvwxyz])ie$";

/// A word ending in a sibilant.
pub const EN_RE_S: &'static str = "(s|sh|ch|x)$";

/// A word ending in `o`.
pub const EN_RE_O: &'static str = "o$";

/// A word ending in `y`.
pub const EN_RE_Y: &'static str = "y$";

/// A word ending in a consonant and `y`; the group is what precedes the `y`.
pub const EN_RE_Y_WITH_CONSONANT: &'static str = "(.*[bcdfghjklmnpqrstvwxyz])y$";

/// A word ending in a vowel and one consonant that doubles before a suffix;
/// the group is that consonant.
pub const EN_RE_VOWEL_AND_CONSONANT: &'static str = ".*[aeiou]([bcdfghjklmnpqrstvwxz])$";

/// The compiled expressions of the English rules.
#[derive(Debug)]
pub struct WordRegex {
    en_re_e: Regex,
    en_re_ie: Regex,
    en_re_s: Regex,
    en_re_o: Regex,
    en_re_y: Regex,
    en_re_y_with_consonant: Regex,
    en_re_verb_ends_with_vowel_and_consonant: Regex,
}

/// Whether every pattern of the English rules compiles.
pub open spec fn rule_patterns_compile() -> bool {
    &&& pattern_compiles(EN_RE_E@)
    &&& pattern_compiles(EN_RE_IE@)
    &&& pattern_compiles(EN_RE_S@)
    &&& pattern_compiles(EN_RE_O@)
    &&& pattern_compiles(EN_RE_Y@)
    &&& pattern_compiles(EN_RE_Y_WITH_CONSONANT@)
    &&& pattern_compiles(EN_RE_VOWEL_AND_CONSONANT@)
}

impl WordRegex {
    /// Each field holds the expression of its pattern.
    pub closed spec fn wf(&self) -> bool {
        &&& pattern_source(self.en_re_e) == EN_RE_E@
        &&& pattern_source(self.en_re_ie) == EN_RE_IE@
        &&& pattern_source(self.en_re_s) == EN_RE_S@
        &&& pattern_source(self.en_re_o) == EN_RE_O@
        &&& pattern_source(self.en_re_y) == EN_RE_Y@
        &&& pattern_source(self.en_re_y_with_consonant) == EN_RE_Y_WITH_CONSONANT@
        &&& pattern_source(self.en_re_verb_ends_with_vowel_and_consonant)
            == EN_RE_VOWEL_AND_CONSONANT@
    }

    /// Compiles the expressions of the English rules.
    pub fn new() -> (r: Option<WordRegex>)
        ensures
            r is Some <==> rule_patterns_compile(),
            r matches Some(re) ==> re.wf(),
    {
        let en_re_e = compile(EN_RE_E)?;
        let en_re_ie = compile(EN_RE_IE)?;
        let en_re_s = compile(EN_RE_S)?;
        let en_re_o = compile(EN_RE_O)?;
        let en_re_y = compile(EN_RE_Y)?;
        let en_re_y_with_consonant = compile(EN_RE_Y_WITH_CONSONANT)?;
        let en_re_verb_ends_with_vowel_and_consonant = compile(EN_RE_VOWEL_AND_CONSONANT)?;
        Some(
            WordRegex {
                en_re_e,
                en_re_ie,
                en_re_s,
                en_re_o,
                en_re_y,
                en_re_y_with_consonant,
                en_re_verb_ends_with_vowel_and_consonant,
            },
        )
    }
}

/// An irregular verb with its irregular forms.
pub struct IrregularView {
    pub base: Seq<char>,
    pub forms: Seq<Seq<char>>,
}

/// An irregular verb with its irregular forms.
#[derive(Debug)]
pub struct IrregularVerb {
    base: String,
    forms: Vec<String>,
}

impl View for IrregularVerb {
    type V = IrregularView;

    closed spec fn view(&self) -> IrregularView {
        IrregularView { base: self.base@, forms: texts(self.forms@) }
    }
}

impl IrregularVerb {
    /// An entry of the table: a base form, in lower case, and its forms.
    pub fn new(base: &str, forms: Vec<String>) -> (r: IrregularVerb)
        ensures
            r@ == (IrregularView { base: base@, forms: texts(forms@) }),
    {
        IrregularVerb { base: base.to_owned(), forms }
    }

    /// The verb's base form, in lower case.
    pub fn base(&self) -> (r: &str)
        ensures
            r@ == self@.base,
    {
        self.base.as_str()
    }

    /// The irregular forms.
    pub fn forms(&self) -> (r: &Vec<String>)
        ensures
            texts(r@) == self@.forms,
    {
        &self.forms
    }
}

/// The views of a table of irregular verbs.
pub open spec fn irregular_views(v: Seq<IrregularVerb>) -> Seq<IrregularView> {
    Seq::new(v.len(), |i: int| v[i]@)
}

/// The English irregular verbs.
pub open spec fn en_irregular_verbs() -> Seq<IrregularView> {
    seq![
        IrregularView { base: "arise"@, forms: seq!["arose"@, "arisen"@] },
        IrregularView {
            base: "be"@,
            forms: seq!["was"@, "were"@, "been"@, "am"@, "are"@, "is"@],
        },
        IrregularView { base: "bear"@, forms: seq!["bore"@, "borne"@] },
    ]
}

/// The irregular verbs of a source language: only English has any.
pub open spec fn irregular_verbs_of(source_language: Seq<char>) -> Seq<IrregularView> {
    if source_language == "en"@ {
        en_irregular_verbs()
    } else {
        Seq::empty()
    }
}

/// The irregular forms listed for `key`, if it is listed.
pub open spec fn irregular_forms(table: Seq<IrregularView>, key: Seq<char>) -> Option<
    Seq<Seq<char>>,
> {
    let i = first_where(table, |e: IrregularView| e.base == key);
    if 0 <= i < table.len() {
        Some(table[i].forms)
    } else {
        None
    }
}

/// The nouns in `o` that take `es`.
pub open spec fn takes_es(headword: Seq<char>) -> bool {
    ||| headword == "hero"@
    ||| headword == "potato"@
    ||| headword == "tomato"@
    ||| headword == "go"@
    ||| headword == "do"@
}

/// The `s` form (plural, or third person singular) that follows from what the
/// expressions found: a sibilant ending, an ending in `o`, an ending in `y`,
/// and the stem before a `y` that follows a consonant.
pub open spec fn s_rule(
    headword: Seq<char>,
    sibilant: bool,
    ends_in_o: bool,
    ends_in_y: bool,
    y_stem: Option<Seq<char>>,
) -> Seq<char> {
    if sibilant {
        headword + "es"@
    } else if ends_in_o {
        if takes_es(headword) {
            headword + "es"@
        } else {
            headword + "s"@
        }
    } else if ends_in_y && y_stem is Some {
        y_stem->0 + "ies"@
    } else {
        headword + "s"@
    }
}

/// The `ing` form that follows from what the expressions found: the stem
/// before `ie` after a consonant, the stem before a final `e`, and the final
/// consonant that doubles.
pub open spec fn ing_rule(
    headword: Seq<char>,
    ie_stem: Option<Seq<char>>,
    e_stem: Option<Seq<char>>,
    doubled: Option<Seq<char>>,
) -> Seq<char> {
    if has_suffix(headword, "ee"@) {
        headword + "ing"@
    } else if ie_stem is Some {
        ie_stem->0 + "ying"@
    } else if e_stem is Some {
        e_stem->0 + "ing"@
    } else if doubled is Some {
        headword + doubled->0 + "ing"@
    } else {
        headword + "ing"@
    }
}

/// The regular past form that follows from what the expressions found: the
/// stem before a `y` that follows a consonant, and the final consonant that
/// doubles.
pub open spec fn ed_rule(
    headword: Seq<char>,
    y_stem: Option<Seq<char>>,
    doubled: Option<Seq<char>>,
) -> Seq<char> {
    if has_suffix(headword, "e"@) {
        headword + "d"@
    } else if y_stem is Some {
        y_stem->0 + "ied"@
    } else if doubled is Some {
        headword + doubled->0 + "ed"@
    } else {
        headword + "ed"@
    }
}

/// The `s` form of an English word.
pub open spec fn s_form(headword: Seq<char>) -> Seq<char> {
    s_rule(
        headword,
        pattern_matches(EN_RE_S@, headword),
        pattern_matches(EN_RE_O@, headword),
        pattern_matches(EN_RE_Y@, headword),
        pattern_first_group(EN_RE_Y_WITH_CONSONANT@, headword),
    )
}

/// The `ing` form of an English verb.
pub open spec fn ing_form(headword: Seq<char>) -> Seq<char> {
    ing_rule(
        headword,
        pattern_first_group(EN_RE_IE@, headword),
        pattern_first_group(EN_RE_E@, headword),
        pattern_first_group(EN_RE_VOWEL_AND_CONSONANT@, headword),
    )
}

/// The regular past form of an English verb.
pub open spec fn ed_form(headword: Seq<char>) -> Seq<char> {
    ed_rule(
        headword,
        pattern_first_group(EN_RE_Y_WITH_CONSONANT@, headword),
        pattern_first_group(EN_RE_VOWEL_AND_CONSONANT@, headword),
    )
}

/// The past forms of an English verb: the listed forms of an irregular verb,
/// verbatim and nothing else, or the one regular form.
pub open spec fn past_forms(headword: Seq<char>, table: Seq<IrregularView>) -> Seq<Seq<char>> {
    match irregular_forms(table, lowercase(headword)) {
        Some(forms) => forms,
        None => seq![ed_form(headword)],
    }
}

/// The forms of a noun: its plural, where the source language is English.
pub open spec fn noun_forms(source_language: Seq<char>, headword: Seq<char>) -> Seq<Seq<char>> {
    if source_language == "en"@ {
        seq![s_form(headword)]
    } else {
        Seq::empty()
    }
}

/// The forms of a verb: the third person singular, the present participle and
/// the past forms, where the source language is English.
pub open spec fn verb_forms(
    source_language: Seq<char>,
    headword: Seq<char>,
    table: Seq<IrregularView>,
) -> Seq<Seq<char>> {
    if source_language == "en"@ {
        seq![s_form(headword), ing_form(headword)] + past_forms(headword, table)
    } else {
        Seq::empty()
    }
}

/// The forms derived from a headword of the given category: those of a noun
/// or of a verb, and none for any other category.
pub open spec fn inflections_of(
    source_language: Seq<char>,
    headword: Seq<char>,
    word_class: WordClass,
    table: Seq<IrregularView>,
) -> Seq<Seq<char>> {
    if word_class == WordClass::Noun {
        noun_forms(source_language, headword)
    } else if word_class == WordClass::Verb {
        verb_forms(source_language, headword, table)
    } else {
        Seq::empty()
    }
}

/// `a` followed by `b`.
fn concat(a: &str, b: &str) -> (r: String)
    ensures
        r@ == a@ + b@,
{
    let mut r = a.to_owned();
    r.append(b);
    r
}

/// Whether the noun is one of those in `o` that take `es`.
pub fn en_takes_es(headword: &str) -> (r: bool)
    ensures
        r == takes_es(headword@),
{
    same_text(headword, "hero") || same_text(headword, "potato") || same_text(headword, "tomato")
        || same_text(headword, "go") || same_text(headword, "do")
}

/// Forms the `s` form from what the expressions found in the headword.
pub fn apply_s_rule(
    headword: &str,
    sibilant: bool,
    ends_in_o: bool,
    ends_in_y: bool,
    y_stem: &Option<String>,
) -> (r: String)
    ensures
        r@ == s_rule(
            headword@,
            sibilant,
            ends_in_o,
            ends_in_y,
            match y_stem {
                Some(s) => Some(s@),
                None => None,
            },
        ),
{
    if sibilant {
        concat(headword, "es")
    } else if ends_in_o {
        if en_takes_es(headword) {
            concat(headword, "es")
        } else {
            concat(headword, "s")
        }
    } else if ends_in_y {
        match y_stem {
            Some(stem) => concat(stem.as_str(), "ies"),
            None => concat(headword, "s"),
        }
    } else {
        concat(headword, "s")
    }
}

/// Forms the `ing` form from what the expressions found in the headword.
pub fn apply_ing_rule(
    headword: &str,
    ie_stem: &Option<String>,
    e_stem: &Option<String>,
    doubled: &Option<String>,
) -> (r: String)
    ensures
        r@ == ing_rule(
            headword@,
            match ie_stem {
                Some(s) => Some(s@),
                None => None,
            },
            match e_stem {
                Some(s) => Some(s@),
                None => None,
            },
            match doubled {
                Some(s) => Some(s@),
                None => None,
            },
        ),
{
    if ends_with(headword, "ee") {
        return concat(headword, "ing");
    }
    if let Some(stem) = ie_stem {
        return concat(stem.as_str(), "ying");
    }
    if let Some(stem) = e_stem {
        return concat(stem.as_str(), "ing");
    }
    if let Some(c) = doubled {
        let mut r = concat(headword, c.as_str());
        r.append("ing");
        return r;
    }
    concat(headword, "ing")
}

/// Forms the regular past form from what the expressions found in the
/// headword.
pub fn apply_ed_rule(headword: &str, y_stem: &Option<String>, doubled: &Option<String>) -> (r:
    String)
    ensures
        r@ == ed_rule(
            headword@,
            match y_stem {
                Some(s) => Some(s@),
                None => None,
            },
            match doubled {
                Some(s) => Some(s@),
                None => None,
            },
        ),
{
    if ends_with(headword, "e") {
        return concat(headword, "d");
    }
    if let Some(stem) = y_stem {
        return concat(stem.as_str(), "ied");
    }
    if let Some(c) = doubled {
        let mut r = concat(headword, c.as_str());
        r.append("ed");
        return r;
    }
    concat(headword, "ed")
}

/// Appends the `s` form of the headword.
pub fn en_add_s(inflections: &mut Vec<String>, headword: &str, re: &WordRegex)
    requires
        re.wf(),
    ensures
        texts(final(inflections)@) == texts(old(inflections)@).push(s_form(headword@)),
{
    let sibilant = is_match(&re.en_re_s, headword);
    let ends_in_o = is_match(&re.en_re_o, headword);
    let ends_in_y = is_match(&re.en_re_y, headword);
    let y_stem = first_group(&re.en_re_y_with_consonant, headword);
    let form = apply_s_rule(headword, sibilant, ends_in_o, ends_in_y, &y_stem);
    let ghost before = inflections@;
    inflections.push(form);
    assert(texts(inflections@) =~= texts(before).push(s_form(headword@)));
}

/// Appends the `ing` form of the headword.
pub fn en_add_ing(inflections: &mut Vec<String>, headword: &str, re: &WordRegex)
    requires
        re.wf(),
    ensures
        texts(final(inflections)@) == texts(old(inflections)@).push(ing_form(headword@)),
{
    let ie_stem = first_group(&re.en_re_ie, headword);
    let e_stem = first_group(&re.en_re_e, headword);
    let doubled = first_group(&re.en_re_verb_ends_with_vowel_and_consonant, headword);
    let form = apply_ing_rule(headword, &ie_stem, &e_stem, &doubled);
    let ghost before = inflections@;
    inflections.push(form);
    assert(texts(inflections@) =~= texts(before).push(ing_form(headword@)));
}

/// Looks a verb up in the table of irregular verbs.
pub fn find_irregular<'a>(irregular: &'a Vec<IrregularVerb>, key: &str) -> (r: Option<
    &'a Vec<String>,
>)
    ensures
        match r {
            Some(forms) => irregular_forms(irregular_views(irregular@), key@) == Some(
                texts(forms@),
            ),
            None => irregular_forms(irregular_views(irregular@), key@) is None,
        },
{
    let ghost views = irregular_views(irregular@);
    let ghost p = |e: IrregularView| e.base == key@;
    let mut i: usize = 0;
    while i < irregular.len()
        invariant
            i <= irregular.len(),
            views == irregular_views(irregular@),
            p == |e: IrregularView| e.base == key@,
            forall|j: int| 0 <= j < i ==> !p(#[trigger] views[j]),
        decreases irregular.len() - i,
    {
        if same_text(irregular[i].base(), key) {
            proof {
                assert(p(views[i as int]));
                lemma_first_where_is(views, p, i as int);
            }
            return Some(irregular[i].forms());
        }
        assert(!p(views[i as int]));
        i += 1;
    }
    proof {
        lemma_first_where_is(views, p, i as int);
    }
    None
}

/// Appends the past forms of the headword: the listed forms of an irregular
/// verb, or the regular form.
pub fn en_add_ed(
    inflections: &mut Vec<String>,
    headword: &str,
    re: &WordRegex,
    irregular: &Vec<IrregularVerb>,
)
    requires
        re.wf(),
    ensures
        texts(final(inflections)@) == texts(old(inflections)@) + past_forms(
            headword@,
            irregular_views(irregular@),
        ),
{
    let key = fold_case(headword);
    let ghost before = inflections@;
    match find_irregular(irregular, key.as_str()) {
        Some(forms) => {
            let mut i: usize = 0;
            assert(texts(forms@).take(0) =~= Seq::<Seq<char>>::empty());
            assert(texts(before) + Seq::<Seq<char>>::empty() =~= texts(before));
            while i < forms.len()
                invariant
                    i <= forms.len(),
                    texts(inflections@) == texts(before) + texts(forms@).take(i as int),
                decreases forms.len() - i,
            {
                let ghost now = inflections@;
                inflections.push(forms[i].clone());
                proof {
                    assert(texts(inflections@) =~= texts(now).push(forms@[i as int]@));
                    assert(texts(forms@).take(i + 1) =~= texts(forms@).take(i as int).push(
                        forms@[i as int]@,
                    ));
                }
                i += 1;
            }
            assert(texts(forms@).take(forms.len() as int) == texts(forms@));
        },
        None => {
            let y_stem = first_group(&re.en_re_y_with_consonant, headword);
            let doubled = first_group(&re.en_re_verb_ends_with_vowel_and_consonant, headword);
            let form = apply_ed_rule(headword, &y_stem, &doubled);
            inflections.push(form);
            assert(texts(inflections@) =~= texts(before) + seq![ed_form(headword@)]);
        },
    }
}

/// Appends the plural of a noun, where the source language has a rule.
pub fn pluralize(
    inflections: &mut Vec<String>,
    source_language: &str,
    headword: &str,
    re: &WordRegex,
)
    requires
        re.wf(),
    ensures
        texts(final(inflections)@) == texts(old(inflections)@) + noun_forms(
            source_language@,
            headword@,
        ),
{
    if same_text(source_language, "en") {
        en_add_s(inflections, headword, re);
        assert(texts(inflections@) =~= texts(old(inflections)@) + seq![s_form(headword@)]);
    } else {
        assert(texts(inflections@) =~= texts(old(inflections)@) + Seq::<Seq<char>>::empty());
    }
}

/// Appends the forms of a verb, where the source language has rules.
pub fn inflect_verb(
    inflections: &mut Vec<String>,
    source_language: &str,
    headword: &str,
    re: &WordRegex,
    irregular: &Vec<IrregularVerb>,
)
    requires
        re.wf(),
    ensures
        texts(final(inflections)@) == texts(old(inflections)@) + verb_forms(
            source_language@,
            headword@,
            irregular_views(irregular@),
        ),
{
    if same_text(source_language, "en") {
        en_add_s(inflections, headword, re);
        en_add_ing(inflections, headword, re);
        en_add_ed(inflections, headword, re, irregular);
        assert(texts(inflections@) =~= texts(old(inflections)@) + (seq![
            s_form(headword@),
            ing_form(headword@),
        ] + past_forms(headword@, irregular_views(irregular@))));
    } else {
        assert(texts(inflections@) =~= texts(old(inflections)@) + Seq::<Seq<char>>::empty());
    }
}

/// The surface forms derived from a headword of the given category. A source
/// language without rules, or a category without forms, gives none.
pub fn inflect(
    source_language: &str,
    headword: &str,
    word_class: WordClass,
    re: &WordRegex,
    irregular: &Vec<IrregularVerb>,
) -> (r: Vec<String>)
    requires
        re.wf(),
    ensures
        texts(r@) == inflections_of(
            source_language@,
            headword@,
            word_class,
            irregular_views(irregular@),
        ),
{
    let mut inflections: Vec<String> = Vec::new();
    assert(texts(inflections@) =~= Seq::<Seq<char>>::empty());
    match word_class {
        WordClass::Noun => {
            pluralize(&mut inflections, source_language, headword, re);
            assert(texts(inflections@) =~= inflections_of(
                source_language@,
                headword@,
                word_class,
                irregular_views(irregular@),
            ));
        },
        WordClass::Verb => {
            inflect_verb(&mut inflections, source_language, headword, re, irregular);
            assert(texts(inflections@) =~= inflections_of(
                source_language@,
                headword@,
                word_class,
                irregular_views(irregular@),
            ));
        },
        _ => {},
    }
    inflections
}

} // verus!
