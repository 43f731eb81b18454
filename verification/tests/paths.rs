use venv_locator::paths::{base_name, join, parent, separates};

#[test]
fn both_slashes_separate() {
    assert!(separates('\\'));
    assert!(separates('/'));
    assert!(!separates(':'));
}

#[test]
fn join_sets_one_backslash() {
    assert_eq!(join("C:\\Users\\me", "venv"), "C:\\Users\\me\\venv");
    assert_eq!(join("C:\\Users\\me\\", "venv"), "C:\\Users\\me\\venv");
    assert_eq!(join("/home/me/", "venv"), "/home/me/venv");
    assert_eq!(join("", "venv"), "venv");
    assert_eq!(join("C:\\x", ""), "C:\\x\\");
}

#[test]
fn base_name_is_the_final_segment() {
    assert_eq!(base_name("C:\\Users\\me\\venv\\proj1"), Some("proj1".to_string()));
    assert_eq!(base_name("~/venv/proj1"), Some("proj1".to_string()));
    assert_eq!(base_name("proj1"), Some("proj1".to_string()));
    assert_eq!(base_name("C:\\a\\my env\\\\"), Some("my env".to_string()));
}

#[test]
fn base_name_is_missing_without_a_segment() {
    assert_eq!(base_name(""), None);
    assert_eq!(base_name("/"), None);
    assert_eq!(base_name("\\\\"), None);
}

#[test]
fn parent_drops_the_final_segment() {
    assert_eq!(parent("C:\\a\\b\\pyvenv.cfg"), Some("C:\\a\\b".to_string()));
    assert_eq!(parent("~/venv/proj1/pyvenv.cfg"), Some("~/venv/proj1".to_string()));
    assert_eq!(parent("C:\\a\\b\\"), Some("C:\\a".to_string()));
    assert_eq!(parent("a//b"), Some("a".to_string()));
}

#[test]
fn parent_keeps_a_root_and_may_be_empty() {
    assert_eq!(parent("/pyvenv.cfg"), Some("/".to_string()));
    assert_eq!(parent("pyvenv.cfg"), Some("".to_string()));
    assert_eq!(parent(""), None);
    assert_eq!(parent("/"), None);
}

#[test]
fn a_dot_at_the_end_stands_for_the_directory_before_it() {
    assert_eq!(base_name("C:\\e\\x\\."), Some("x".to_string()));
    assert_eq!(base_name("C:\\e\\x\\.\\"), Some("x".to_string()));
    assert_eq!(base_name("x/./."), Some("x".to_string()));
    assert_eq!(base_name("."), None);
    assert_eq!(base_name("./"), None);
    assert_eq!(base_name("C:\\e\\x."), Some("x.".to_string()));
    assert_eq!(base_name("C:\\e\\.x"), Some(".x".to_string()));
    assert_eq!(parent("C:\\e\\x\\."), Some("C:\\e".to_string()));
    assert_eq!(parent("C:\\e\\.\\x"), Some("C:\\e".to_string()));
}

#[test]
fn two_dots_name_nothing() {
    assert_eq!(base_name("C:\\e\\.."), None);
    assert_eq!(base_name("C:\\e\\..\\"), None);
    assert_eq!(base_name(".."), None);
    assert_eq!(base_name("C:\\e\\..."), Some("...".to_string()));
    assert_eq!(base_name("C:\\e\\..x"), Some("..x".to_string()));
    assert_eq!(parent("C:\\e\\.."), Some("C:\\e".to_string()));
}
