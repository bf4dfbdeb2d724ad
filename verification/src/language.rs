//! The language that translations are looked up in.
//!
//! gettext resolves translations through the POSIX locale variables, which an ordinary session on
//! this platform does not set, so they are seeded from the languages that the system prefers.
//! Both variables matter: `LANGUAGE` is the priority list gettext prefers, and `LANG` keeps the
//! locale from looking like "C", which would make gettext ignore `LANGUAGE` altogether.

use vstd::prelude::*;
use vstd::string::*;

use crate::text::join_text;

verus! {

/// An environment variable that a session chooses its locale with.
#[derive(Debug, Clone, Copy, PartialEq, Eq, Structural)]
pub enum LocaleVariable {
    Language,
    LcAll,
    Lang,
}

impl LocaleVariable {
    pub open spec fn spec_name(self) -> Seq<char> {
        match self {
            LocaleVariable::Language => "LANGUAGE"@,
            LocaleVariable::LcAll => "LC_ALL"@,
            LocaleVariable::Lang => "LANG"@,
        }
    }

    /// The name of the variable.
    pub fn name(self) -> (name: &'static str)
        ensures
            name@ == self.spec_name(),
            self is Language ==> name@ == "LANGUAGE"@,
            self is LcAll ==> name@ == "LC_ALL"@,
            self is Lang ==> name@ == "LANG"@,
    {
        match self {
            LocaleVariable::Language => "LANGUAGE",
            LocaleVariable::LcAll => "LC_ALL",
            LocaleVariable::Lang => "LANG",
        }
    }

    /// The variables to look at before anything is seeded: all there are.
    pub fn all() -> (variables: Vec<LocaleVariable>)
        ensures
            variables@ == seq![
                LocaleVariable::Language,
                LocaleVariable::LcAll,
                LocaleVariable::Lang,
            ],
            forall|variable: LocaleVariable| #[trigger] variables@.contains(variable),
    {
        let variables: Vec<LocaleVariable> = vec![
            LocaleVariable::Language,
            LocaleVariable::LcAll,
            LocaleVariable::Lang,
        ];
        assert forall|variable: LocaleVariable| #[trigger] variables@.contains(variable) by {
            match variable {
                LocaleVariable::Language => assert(variables@[0] == variable),
                LocaleVariable::LcAll => assert(variables@[1] == variable),
                LocaleVariable::Lang => assert(variables@[2] == variable),
            }
        }
        variables
    }
}

/// Which of the locale variables the session has set.
#[derive(Debug, Clone, Copy, PartialEq, Eq, Structural)]
pub struct LocaleVariables {
    pub language: bool,
    pub lc_all: bool,
    pub lang: bool,
}

impl LocaleVariables {
    /// The session has set this one.
    pub open spec fn has(self, variable: LocaleVariable) -> bool {
        match variable {
            LocaleVariable::Language => self.language,
            LocaleVariable::LcAll => self.lc_all,
            LocaleVariable::Lang => self.lang,
        }
    }

    pub open spec fn spec_any_set(self) -> bool {
        self.language || self.lc_all || self.lang
    }

    /// No variable is set.
    pub fn none() -> (variables: Self)
        ensures
            forall|variable: LocaleVariable| !variables.has(variable),
            !variables.language && !variables.lc_all && !variables.lang,
    {
        LocaleVariables { language: false, lc_all: false, lang: false }
    }

    /// Notes that the variable is set.
    pub fn insert(&mut self, variable: LocaleVariable)
        ensures
            forall|other: LocaleVariable|
                final(self).has(other) <==> other == variable || old(self).has(other),
            final(self).language == (old(self).language || variable is Language),
            final(self).lc_all == (old(self).lc_all || variable is LcAll),
            final(self).lang == (old(self).lang || variable is Lang),
    {
        match variable {
            LocaleVariable::Language => self.language = true,
            LocaleVariable::LcAll => self.lc_all = true,
            LocaleVariable::Lang => self.lang = true,
        }
    }

    /// Whether the session chose a locale by itself.
    pub fn any_set(self) -> (set: bool)
        ensures
            set == self.spec_any_set(),
            set == (self.language || self.lc_all || self.lang),
            set <==> exists|variable: LocaleVariable| self.has(variable),
    {
        assert(self.language == self.has(LocaleVariable::Language));
        assert(self.lc_all == self.has(LocaleVariable::LcAll));
        assert(self.lang == self.has(LocaleVariable::Lang));
        self.language || self.lc_all || self.lang
    }
}

/// The values for the variables `LANG` and `LANGUAGE`.
#[derive(Debug)]
pub struct LanguageSeed {
    pub lang: String,
    pub language: String,
}

/// The variables to set for a seed, each with its value, in the order in which they are set.
pub fn settings(seed: LanguageSeed) -> (settings: Vec<(LocaleVariable, String)>)
    ensures
        settings@.len() == 2,
        settings@[0].0 is Lang,
        settings@[0].1@ == seed.lang@,
        settings@[1].0 is Language,
        settings@[1].1@ == seed.language@,
{
    vec![(LocaleVariable::Lang, seed.lang), (LocaleVariable::Language, seed.language)]
}

/// The name is that of a language to translate to.
pub open spec fn usable(name: Seq<char>) -> bool {
    name.len() > 0 && name != "C"@
}

/// The usable ones among the names, in their order.
pub open spec fn usable_names(names: Seq<Seq<char>>) -> Seq<Seq<char>> {
    names.filter(|name: Seq<char>| usable(name))
}

fn is_usable(name: &str) -> (answer: bool)
    ensures
        answer == usable(name@),
        answer <==> name@.len() > 0 && name@ != "C"@,
{
    proof {
        reveal_strlit("C");
    }
    let len: usize = name.unicode_len();
    if len == 1 {
        let c = name.get_char(0);
        assert(name@ == "C"@ <==> c == 'C') by {
            if c == 'C' {
                assert(name@ =~= "C"@);
            }
        }
        c != 'C'
    } else {
        len != 0
    }
}

/// What the locale variables are to be set to, given those that the session has set and the names
/// of the languages that the system prefers, best first. Nothing is set where the session chose a
/// locale by itself, nor where no usable name is left.
pub fn seed_language(present: LocaleVariables, names: Vec<String>) -> (seed: Option<LanguageSeed>)
    ensures
        seed is Some <==> !present.spec_any_set() && usable_names(
            crate::text::views(names@),
        ).len() > 0,
        seed matches Some(seed) ==> {
            &&& seed.lang@ == usable_names(crate::text::views(names@))[0]
            &&& seed.language@ == crate::text::joined(
                usable_names(crate::text::views(names@)),
                ":"@,
            )
        },
        seed is Some <==> !present.language && !present.lc_all && !present.lang && (exists|k: int|
            0 <= k < names@.len() && (#[trigger] names@[k])@.len() > 0 && names@[k]@ != "C"@),
        seed matches Some(seed) ==> exists|k: int|
            {
                &&& 0 <= k < names@.len()
                &&& (#[trigger] names@[k])@ == seed.lang@
                &&& names@[k]@.len() > 0
                &&& names@[k]@ != "C"@
                &&& forall|i: int|
                    0 <= i < k ==> (#[trigger] names@[i])@.len() == 0 || names@[i]@ == "C"@
            },
{
    proof {
        lemma_first_usable(crate::text::views(names@));
        lemma_some_usable_string(names@);
    }
    if present.any_set() {
        return None;
    }
    let ghost all = crate::text::views(names@);
    let mut kept: Vec<String> = Vec::new();
    let mut i: usize = 0;
    assert(crate::text::views(kept@) =~= usable_names(all.take(0))) by {
        reveal(Seq::filter);
    }
    while i < names.len()
        invariant
            i <= names@.len(),
            all == crate::text::views(names@),
            crate::text::views(kept@) == usable_names(all.take(i as int)),
        decreases names@.len() - i,
    {
        let ghost before = kept@;
        if is_usable(names[i].as_str()) {
            kept.push(names[i].clone());
        }
        i = i + 1;
        assert(crate::text::views(kept@) =~= usable_names(all.take(i as int))) by {
            reveal(Seq::filter);
            assert(all.take(i as int).drop_last() =~= all.take(i - 1));
            if usable(names@[i - 1]@) {
                assert(crate::text::views(kept@) =~= crate::text::views(before).push(
                    names@[i - 1]@,
                ));
            }
        }
    }
    assert(all.take(i as int) =~= all);
    if kept.len() == 0 {
        return None;
    }
    let language = join_text(&kept, ":");
    let lang = kept[0].clone();
    proof {
        let k = choose|k: int|
            {
                &&& 0 <= k < all.len()
                &&& (#[trigger] all[k]) == usable_names(all)[0]
                &&& all[k].len() > 0
                &&& all[k] != "C"@
                &&& forall|i: int| 0 <= i < k ==> (#[trigger] all[i]).len() == 0 || all[i] == "C"@
            };
        assert(names@[k]@ == lang@);
        assert forall|i: int| 0 <= i < k implies (#[trigger] names@[i])@.len() == 0 || names@[i]@
            == "C"@ by {
            assert(all[i] == names@[i]@);
        }
    }
    Some(LanguageSeed { lang, language })
}

/// A name is usable exactly where it is neither empty nor "C".
pub proof fn lemma_usable_is_neither_empty_nor_c(name: Seq<char>)
    ensures
        usable(name) <==> name.len() > 0 && name != "C"@,
{
}

/// Of no names none are kept. A further name is kept behind the others, and is left out exactly
/// where it is empty or "C".
pub proof fn lemma_usable_one_more_name(names: Seq<Seq<char>>, name: Seq<char>)
    ensures
        usable_names(Seq::<Seq<char>>::empty()) == Seq::<Seq<char>>::empty(),
        usable_names(names.push(name)) == (if name.len() == 0 || name == "C"@ {
            usable_names(names)
        } else {
            usable_names(names).push(name)
        }),
{
    reveal(Seq::filter);
    assert(names.push(name).drop_last() =~= names);
    assert(Seq::<Seq<char>>::empty().filter(|name: Seq<char>| usable(name)) =~= Seq::<
        Seq<char>,
    >::empty());
}

/// The first name kept is the first one that is neither empty nor "C", and there is one to keep
/// exactly where there is such a name.
pub proof fn lemma_first_usable(names: Seq<Seq<char>>)
    ensures
        usable_names(names).len() > 0 <==> exists|k: int|
            0 <= k < names.len() && (#[trigger] names[k]).len() > 0 && names[k] != "C"@,
        usable_names(names).len() > 0 ==> exists|k: int|
            {
                &&& 0 <= k < names.len()
                &&& (#[trigger] names[k]) == usable_names(names)[0]
                &&& names[k].len() > 0
                &&& names[k] != "C"@
                &&& forall|i: int| 0 <= i < k ==> (#[trigger] names[i]).len() == 0 || names[i]
                    == "C"@
            },
    decreases names.len(),
{
    if names.len() == 0 {
        reveal(Seq::filter);
    } else {
        let before = names.drop_last();
        let last = names.last();
        lemma_first_usable(before);
        lemma_usable_one_more_name(before, last);
        assert(names =~= before.push(last));
        assert(forall|k: int| 0 <= k < before.len() ==> #[trigger] before[k] == names[k]);
        if usable_names(before).len() > 0 {
            let k = choose|k: int|
                {
                    &&& 0 <= k < before.len()
                    &&& (#[trigger] before[k]) == usable_names(before)[0]
                    &&& before[k].len() > 0
                    &&& before[k] != "C"@
                    &&& forall|i: int| 0 <= i < k ==> (#[trigger] before[i]).len() == 0 || before[i]
                        == "C"@
                };
            assert(names[k] == usable_names(names)[0]);
            assert forall|i: int| 0 <= i < k implies (#[trigger] names[i]).len() == 0 || names[i]
                == "C"@ by {
                assert(before[i] == names[i]);
            }
        } else {
            assert forall|i: int| 0 <= i < before.len() implies (#[trigger] names[i]).len() == 0
                || names[i] == "C"@ by {
                assert(before[i] == names[i]);
            }
            if last.len() > 0 && last != "C"@ {
                assert(names[names.len() - 1] == usable_names(names)[0]);
            }
        }
    }
}

/// The same of a list of strings.
proof fn lemma_some_usable_string(names: Seq<String>)
    ensures
        (exists|k: int|
            0 <= k < names.len() && (#[trigger] names[k])@.len() > 0 && names[k]@ != "C"@) <==> (
        exists|k: int|
            0 <= k < names.len() && (#[trigger] crate::text::views(names)[k]).len() > 0
                && crate::text::views(names)[k] != "C"@),
{
    let all = crate::text::views(names);
    if exists|k: int|
        0 <= k < names.len() && (#[trigger] names[k])@.len() > 0 && names[k]@ != "C"@ {
        let k = choose|k: int|
            0 <= k < names.len() && (#[trigger] names[k])@.len() > 0 && names[k]@ != "C"@;
        assert(all[k] == names[k]@);
    }
    if exists|k: int| 0 <= k < names.len() && (#[trigger] all[k]).len() > 0 && all[k] != "C"@ {
        let k = choose|k: int|
            0 <= k < names.len() && (#[trigger] all[k]).len() > 0 && all[k] != "C"@;
        assert(all[k] == names[k]@);
    }
}

/// Every name that is neither empty nor "C" is an entry of the list in `LANGUAGE`: the list is the
/// name with nothing or a colon beside it on either side.
pub proof fn lemma_language_has_every_name(names: Seq<Seq<char>>, k: int)
    requires
        0 <= k < names.len(),
        names[k].len() > 0,
        names[k] != "C"@,
    ensures
        usable_names(names).len() > 0,
        exists|before: Seq<char>, after: Seq<char>|
            {
                &&& crate::text::joined(usable_names(names), ":"@) == #[trigger] (before + names[k]
                    + after)
                &&& before.len() == 0 || before.last() == ':'
                &&& after.len() == 0 || after.first() == ':'
            },
    decreases names.len(),
{
    reveal_strlit(":");
    assert(":"@ =~= seq![':']);
    let front = names.drop_last();
    let last = names.last();
    let kept = usable_names(front);
    let mark = ":"@;
    lemma_usable_one_more_name(front, last);
    assert(names =~= front.push(last));
    let list = crate::text::joined(usable_names(names), mark);
    let name = names[k];
    if k == front.len() {
        if kept.len() == 0 {
            assert(usable_names(names) =~= seq![name]);
            crate::text::lemma_joined_few(name, mark);
            assert(list =~= Seq::<char>::empty() + name + Seq::<char>::empty());
        } else {
            crate::text::lemma_joined_one_more(kept, name, mark);
            let before = crate::text::joined(kept, mark) + mark;
            assert(before.last() == ':');
            assert(list =~= before + name + Seq::<char>::empty());
        }
    } else {
        assert(front[k] == name);
        lemma_language_has_every_name(front, k);
        let old_list = crate::text::joined(kept, mark);
        let (before, after) = choose|before: Seq<char>, after: Seq<char>|
            {
                &&& old_list == #[trigger] (before + front[k] + after)
                &&& before.len() == 0 || before.last() == ':'
                &&& after.len() == 0 || after.first() == ':'
            };
        if last.len() == 0 || last == "C"@ {
            assert(list == before + name + after);
        } else {
            crate::text::lemma_joined_one_more(kept, last, mark);
            let more = after + mark + last;
            assert(more.first() == ':');
            assert(list =~= before + name + more);
        }
    }
}

/// A session has a variable exactly where the field for it says so.
pub proof fn lemma_locale_variables(present: LocaleVariables)
    ensures
        present.has(LocaleVariable::Language) == present.language,
        present.has(LocaleVariable::LcAll) == present.lc_all,
        present.has(LocaleVariable::Lang) == present.lang,
        present.spec_any_set() <==> present.language || present.lc_all || present.lang,
{
}

/// The variables have the names that gettext knows them by.
pub proof fn lemma_locale_variable_names(variable: LocaleVariable)
    ensures
        variable is Language ==> variable.spec_name() == "LANGUAGE"@,
        variable is LcAll ==> variable.spec_name() == "LC_ALL"@,
        variable is Lang ==> variable.spec_name() == "LANG"@,
{
}

/// Exactly the usable ones among the names are kept.
pub proof fn lemma_usable_names(names: Seq<Seq<char>>)
    ensures
        forall|name: Seq<char>|
            #![trigger usable_names(names).contains(name)]
            usable_names(names).contains(name) <==> names.contains(name) && usable(name),
    decreases names.len(),
{
    reveal(Seq::filter);
    let kept = usable_names(names);
    if names.len() > 0 {
        let before = names.drop_last();
        let last = names.last();
        lemma_usable_names(before);
        assert forall|name: Seq<char>| kept.contains(name) <==> names.contains(name) && usable(
            name,
        ) by {
            lemma_push_contains(before, last, name);
            lemma_push_contains(usable_names(before), last, name);
            assert(kept == if usable(last) {
                usable_names(before).push(last)
            } else {
                usable_names(before)
            });
        }
    }
}

proof fn lemma_push_contains(names: Seq<Seq<char>>, last: Seq<char>, name: Seq<char>)
    ensures
        names.push(last).contains(name) <==> names.contains(name) || name == last,
{
    if names.contains(name) {
        let k = choose|k: int| 0 <= k < names.len() && names[k] == name;
        assert(names.push(last)[k] == name);
    }
    if name == last {
        assert(names.push(last)[names.len() as int] == name);
    }
}

/// Where the variables are seeded, `LANG` is the best language on the list in `LANGUAGE`: it names
/// one, so the locale does not look like "C", and the list starts with it.
pub proof fn lemma_lang_leads_language(names: Seq<Seq<char>>)
    requires
        usable_names(names).len() > 0,
    ensures
        usable(usable_names(names)[0]),
        usable_names(names)[0].is_prefix_of(crate::text::joined(usable_names(names), ":"@)),
{
    lemma_usable_names(names);
}

/// The list in `LANGUAGE`, taken apart at its colons, gives the usable names in their order.
pub proof fn lemma_language_lists_names(names: Seq<Seq<char>>)
    requires
        usable_names(names).len() > 0,
        forall|k: int|
            0 <= k < usable_names(names).len() ==> !(#[trigger] usable_names(names)[k]).contains(
                ':',
            ),
    ensures
        crate::text::pieces(crate::text::joined(usable_names(names), ":"@), ":"@) == usable_names(
            names,
        ),
{
    reveal_strlit(":");
    assert(":"@ =~= seq![':']);
    crate::text::lemma_pieces_undo_joined(usable_names(names), ':');
}

} // verus!
