use venv_locator::text::{
    chars_of, contains, contains_folded, eq_ignoring_case, eq_text, find, fold_chars, replace,
    stands_at, string_of, to_lower,
};

#[test]
fn to_lower_folds_only_ascii_capitals() {
    assert_eq!(to_lower('A'), 'a');
    assert_eq!(to_lower('Z'), 'z');
    assert_eq!(to_lower('m'), 'm');
    assert_eq!(to_lower('@'), '@');
    assert_eq!(to_lower('['), '[');
    assert_eq!(to_lower('É'), 'É');
}

#[test]
fn chars_and_strings_convert_both_ways() {
    let v = chars_of("héllo");
    assert_eq!(v, vec!['h', 'é', 'l', 'l', 'o']);
    assert_eq!(string_of(&v, 1, 4), "éll");
    assert_eq!(string_of(&v, 2, 2), "");
    assert_eq!(string_of(&v, 0, 5), "héllo");
}

#[test]
fn fold_chars_lowers_each_character() {
    assert_eq!(fold_chars(&chars_of("TeMp Dir")), chars_of("temp dir"));
}

#[test]
fn stands_at_compares_in_place() {
    let hay = chars_of("abcabc");
    let needle = chars_of("bc");
    assert!(!stands_at(&hay, &needle, 0));
    assert!(stands_at(&hay, &needle, 1));
    assert!(stands_at(&hay, &needle, 4));
}

#[test]
fn find_gives_the_first_place() {
    let hay = chars_of("abcabc");
    assert_eq!(find(&hay, &chars_of("bc")), Some(1));
    assert_eq!(find(&hay, &chars_of("")), Some(0));
    assert_eq!(find(&hay, &chars_of("cb")), None);
    assert_eq!(find(&hay, &chars_of("abcabcd")), None);
    assert_eq!(find(&chars_of(""), &chars_of("")), Some(0));
}

#[test]
fn contains_is_case_sensitive() {
    assert!(contains("home = uv 0.4", "uv"));
    assert!(!contains("home = UV 0.4", "uv"));
    assert!(contains("anything", ""));
    assert!(!contains("", "uv"));
}

#[test]
fn contains_folded_ignores_ascii_case_of_the_hay() {
    assert!(contains_folded("MyTEMPdir", "temp"));
    assert!(contains_folded(".Cache", "cache"));
    assert!(!contains_folded("projects", "tmp"));
}

#[test]
fn eq_ignoring_case_matches_letters_of_any_script() {
    assert!(eq_ignoring_case("Proj1", "pROJ1"));
    assert!(eq_ignoring_case("é", "É"));
    assert!(eq_ignoring_case("ÉLAN", "élan"));
    assert!(eq_ignoring_case("ΑΘΗΝΑ", "αθηνα"));
    assert!(eq_ignoring_case("Überprüfung", "ÜBERPRÜFUNG"));
    assert!(eq_ignoring_case("", ""));
}

#[test]
fn eq_ignoring_case_tells_different_names_apart() {
    assert!(!eq_ignoring_case("proj1", "proj"));
    assert!(!eq_ignoring_case("elan", "élan"));
    assert!(!eq_ignoring_case("proj 1", "proj1"));
    assert!(!eq_ignoring_case("a", ""));
}

#[test]
fn eq_text_is_exact() {
    assert!(eq_text("pyvenv.cfg", "pyvenv.cfg"));
    assert!(!eq_text("pyvenv.cfg", "Pyvenv.cfg"));
    assert!(!eq_text("a", "ab"));
}

#[test]
fn replace_swaps_every_occurrence() {
    assert_eq!(replace("%H%\\a;%H%\\b", "%H%", "C:\\me"), "C:\\me\\a;C:\\me\\b");
    assert_eq!(replace("aaa", "aa", "b"), "ba");
    assert_eq!(replace("abc", "", "x"), "abc");
    assert_eq!(replace("abc", "abcd", "x"), "abc");
    assert_eq!(replace("", "a", "x"), "");
    assert_eq!(replace("xax", "a", ""), "xx");
}
