use venv_locator::environment::{name_keys, EnvKind, Environment};

#[test]
fn kinds_have_their_labels() {
    assert_eq!(EnvKind::Venv.as_str(), "venv");
    assert_eq!(EnvKind::Conda.as_str(), "conda");
    assert_eq!(EnvKind::Uv.as_str(), "uv");
    assert_eq!(EnvKind::Unknown.as_str(), "unknown");
}

#[test]
fn labels_read_back() {
    assert_eq!(EnvKind::from_label("venv"), Some(EnvKind::Venv));
    assert_eq!(EnvKind::from_label("conda"), Some(EnvKind::Conda));
    assert_eq!(EnvKind::from_label("uv"), Some(EnvKind::Uv));
    assert_eq!(EnvKind::from_label("unknown"), Some(EnvKind::Unknown));
    assert_eq!(EnvKind::from_label("Venv"), None);
    assert_eq!(EnvKind::from_label(""), None);
    assert_eq!(EnvKind::from_label("pipenv"), None);
}

#[test]
fn every_label_reads_back_as_its_kind() {
    for kind in [EnvKind::Venv, EnvKind::Conda, EnvKind::Uv, EnvKind::Unknown] {
        assert_eq!(EnvKind::from_label(kind.as_str()), Some(kind));
    }
}

#[test]
fn new_and_duplicate_keep_the_fields() {
    let e = Environment::new("proj1", EnvKind::Uv, "C:\\venvs\\proj1");
    assert_eq!(e.name, "proj1");
    assert_eq!(e.kind, EnvKind::Uv);
    assert_eq!(e.location, "C:\\venvs\\proj1");
    assert_eq!(e.duplicate(), e);
}

#[test]
fn name_keys_are_the_names_in_lower_case() {
    let envs = vec![
        Environment::new("Proj1", EnvKind::Venv, "C:\\V\\Proj1"),
        Environment::new("ÉLAN", EnvKind::Uv, "D:\\ÉLAN"),
        Environment::new("already", EnvKind::Conda, "D:\\already"),
    ];
    assert_eq!(name_keys(&envs), vec!["proj1", "élan", "already"]);
    assert!(name_keys(&Vec::new()).is_empty());
}
