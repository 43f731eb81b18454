use venv_locator::dirs::{cache_file, config_file, expand_home, predefined_dirs, search_dirs};

#[test]
fn predefined_list_has_twenty_five_entries_in_order() {
    let dirs = predefined_dirs(Some("C:\\Users\\me"));
    let expected = vec![
        "C:\\Users\\me",
        "C:\\Users\\me\\.venv",
        "C:\\Users\\me\\venv",
        "C:\\Users\\me\\.venvs",
        "C:\\Users\\me\\venvs",
        "C:\\Users\\me\\code",
        "C:\\Users\\me\\code\\.venv",
        "C:\\Users\\me\\code\\venv",
        "C:\\Users\\me\\code\\.venvs",
        "C:\\Users\\me\\code\\venvs",
        "C:\\Users\\me\\code\\python",
        "C:\\Users\\me\\code\\python\\.venv",
        "C:\\Users\\me\\code\\python\\venv",
        "C:\\Users\\me\\code\\python\\.venvs",
        "C:\\Users\\me\\code\\python\\venvs",
        "C:\\Users\\me\\AppData\\Local\\Programs",
        "C:\\Users\\me\\AppData\\Local\\Programs\\.venv",
        "C:\\Users\\me\\AppData\\Local\\Programs\\venv",
        "C:\\Users\\me\\AppData\\Local\\Programs\\.venvs",
        "C:\\Users\\me\\AppData\\Local\\Programs\\venvs",
        "C:\\Users\\me\\AppData\\Local\\Programs\\Python",
        "C:\\Users\\me\\AppData\\Local\\Programs\\Python\\.venv",
        "C:\\Users\\me\\AppData\\Local\\Programs\\Python\\venv",
        "C:\\Users\\me\\AppData\\Local\\Programs\\Python\\.venvs",
        "C:\\Users\\me\\AppData\\Local\\Programs\\Python\\venvs",
    ];
    assert_eq!(dirs.len(), 25);
    assert_eq!(dirs, expected);
}

#[test]
fn predefined_list_is_empty_without_a_home() {
    assert!(predefined_dirs(None).is_empty());
}

#[test]
fn expand_home_replaces_the_token() {
    assert_eq!(expand_home("%USERPROFILE%\\projects", "C:\\Users\\me"), "C:\\Users\\me\\projects");
    assert_eq!(expand_home("C:\\dev\\python", "C:\\Users\\me"), "C:\\dev\\python");
    assert_eq!(expand_home("%userprofile%\\x", "C:\\Users\\me"), "%userprofile%\\x");
    assert_eq!(expand_home("%USERPROFILE%;%USERPROFILE%", "H"), "H;H");
}

#[test]
fn configured_list_is_taken_as_it_is() {
    let configured = vec![
        "%USERPROFILE%\\projects".to_string(),
        "C:\\dev\\python".to_string(),
        "Z:\\does\\not\\exist".to_string(),
    ];
    let dirs = search_dirs(Some("C:\\Users\\me"), Some(&configured));
    assert_eq!(dirs, vec!["C:\\Users\\me\\projects", "C:\\dev\\python", "Z:\\does\\not\\exist"]);
}

#[test]
fn nothing_is_searched_without_a_home() {
    let configured = vec!["%USERPROFILE%\\projects".to_string(), "C:\\dev".to_string()];
    let nothing: Vec<String> = Vec::new();
    assert_eq!(search_dirs(None, Some(&configured)), nothing);
    assert_eq!(search_dirs(None, Some(&nothing)), nothing);
    assert_eq!(search_dirs(None, None), nothing);
}

#[test]
fn empty_or_missing_configuration_falls_back() {
    let none: Vec<String> = Vec::new();
    assert_eq!(search_dirs(Some("C:\\Users\\me"), Some(&none)), predefined_dirs(Some("C:\\Users\\me")));
    assert_eq!(search_dirs(Some("C:\\Users\\me"), None), predefined_dirs(Some("C:\\Users\\me")));
    assert!(search_dirs(None, None).is_empty());
}

#[test]
fn files_have_their_fixed_places() {
    assert_eq!(
        config_file(Some("C:\\Users\\me")),
        Some("C:\\Users\\me\\.config\\python_venv_config.toml".to_string())
    );
    assert_eq!(config_file(None), None);
    assert_eq!(cache_file("C:\\Temp"), "C:\\Temp\\python_venv_cache.txt");
}
