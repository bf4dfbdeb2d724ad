use tsukimi::language::{seed_language, settings, LocaleVariable, LocaleVariables};

const UNSET: LocaleVariables = LocaleVariables { language: false, lc_all: false, lang: false };

fn names(list: &[&str]) -> Vec<String> {
    list.iter().map(|name| name.to_string()).collect()
}

#[test]
fn both_variables_are_seeded_from_the_usable_names() {
    let seed = seed_language(UNSET, names(&["de_DE.UTF-8", "", "de_DE", "de", "C"])).unwrap();
    assert_eq!(seed.lang, "de_DE.UTF-8");
    assert_eq!(seed.language, "de_DE.UTF-8:de_DE:de");
    assert!(seed.language.starts_with(&seed.lang));
    let listed: Vec<&str> = seed.language.split(':').collect();
    assert_eq!(listed, vec!["de_DE.UTF-8", "de_DE", "de"]);
}

#[test]
fn a_single_name_is_the_whole_list() {
    let seed = seed_language(UNSET, names(&["C", "ja"])).unwrap();
    assert_eq!(seed.lang, "ja");
    assert_eq!(seed.language, "ja");
}

#[test]
fn a_locale_that_the_session_chose_is_left_alone() {
    for present in [
        LocaleVariables { language: true, ..UNSET },
        LocaleVariables { lc_all: true, ..UNSET },
        LocaleVariables { lang: true, ..UNSET },
    ] {
        assert!(present.any_set());
        assert!(seed_language(present, names(&["de"])).is_none());
    }
    assert!(!UNSET.any_set());
}

#[test]
fn nothing_is_seeded_without_a_usable_name() {
    assert!(seed_language(UNSET, names(&[])).is_none());
    assert!(seed_language(UNSET, names(&["", "C", ""])).is_none());
}

#[test]
fn only_the_plain_c_locale_is_dropped() {
    let seed = seed_language(UNSET, names(&["C.UTF-8", "c", "CC"])).unwrap();
    assert_eq!(seed.language, "C.UTF-8:c:CC");
}

#[test]
fn locale_variables_have_their_names() {
    let names: Vec<&str> = LocaleVariable::all().iter().map(|variable| variable.name()).collect();
    assert_eq!(names, vec!["LANGUAGE", "LC_ALL", "LANG"]);
}

#[test]
fn each_variable_is_noted_by_itself() {
    assert_eq!(LocaleVariables::none(), UNSET);
    let mut present = LocaleVariables::none();
    present.insert(LocaleVariable::LcAll);
    assert_eq!(present, LocaleVariables { lc_all: true, ..UNSET });
    present.insert(LocaleVariable::Lang);
    present.insert(LocaleVariable::Lang);
    assert_eq!(present, LocaleVariables { lc_all: true, lang: true, ..UNSET });
    present.insert(LocaleVariable::Language);
    assert_eq!(present, LocaleVariables { language: true, lc_all: true, lang: true });
}

#[test]
fn a_seed_goes_to_its_two_variables() {
    let seed = seed_language(UNSET, names(&["de_DE", "de"])).unwrap();
    assert_eq!(
        settings(seed),
        vec![
            (LocaleVariable::Lang, "de_DE".to_string()),
            (LocaleVariable::Language, "de_DE:de".to_string()),
        ]
    );
}
