use tsukimi::text::{append_number, contains_text, join_text, replace_text};

#[test]
fn contains_agrees_with_the_standard_search() {
    let texts = ["", "a", "ab", "aab", "aaab", "x@APPDIR@y", "@APPDIR", "äöü", "日本語@"];
    let patterns = ["", "a", "ab", "aab", "@APPDIR@", "ö", "@", "本語"];
    for text in texts {
        for pattern in patterns {
            assert_eq!(contains_text(text, pattern), text.contains(pattern), "{text:?} {pattern:?}");
        }
    }
}

#[test]
fn replace_agrees_with_the_standard_replacement() {
    let texts = ["", "a", "aaa", "aaaa", "abab", "xaby", "@APPDIR@@APPDIR@", "äaä", "日aa本a"];
    let patterns = ["a", "aa", "ab", "@APPDIR@", "ä"];
    let with = ["", "a", "bb", "C:/Ünïcode", "@"];
    for text in texts {
        for pattern in patterns {
            for new in with {
                assert_eq!(replace_text(text, pattern, new), text.replace(pattern, new));
            }
        }
    }
}

#[test]
fn replacing_takes_occurrences_from_the_left() {
    assert_eq!(replace_text("aaa", "aa", "b"), "ba");
    assert_eq!(replace_text("abc", "b", "-"), "a-c");
}

#[test]
fn replacing_a_pattern_by_itself_changes_nothing() {
    let text = "one@APPDIR@two@APPDIR@";
    assert_eq!(replace_text(text, "@APPDIR@", "@APPDIR@"), text);
}

#[test]
fn joining_puts_the_separator_between() {
    let none: Vec<String> = vec![];
    assert_eq!(join_text(&none, ":"), "");
    assert_eq!(join_text(&vec!["de".to_string()], ":"), "de");
    assert_eq!(join_text(&vec!["de_DE".to_string(), "".to_string(), "de".to_string()], ":"), "de_DE::de");
}

#[test]
fn joined_parts_come_back_when_taken_apart() {
    let parts = vec!["zh_CN".to_string(), "zh".to_string(), "en".to_string()];
    let joined = join_text(&parts, ":");
    let apart: Vec<String> = joined.split(':').map(|part| part.to_string()).collect();
    assert_eq!(apart, parts);
}

#[test]
fn numbers_are_written_in_decimal() {
    for n in [0, 1, 9, 10, 11, 99, 100, 120, -1, -10, -18, 2147483647, -2147483648] {
        let mut text = String::from("code ");
        append_number(&mut text, n);
        assert_eq!(text, format!("code {n}"));
    }
}
