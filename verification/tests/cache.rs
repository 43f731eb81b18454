use venv_locator::cache::{decode, encode, CacheError, Fault};
use venv_locator::environment::{EnvKind, Environment};

fn round_trip(envs: Vec<Environment>) {
    let text = encode(&envs);
    let read = decode(&text);
    assert_eq!(read, Ok(envs));
    assert_eq!(encode(&read.unwrap()), text);
}

#[test]
fn encode_writes_one_line_per_record() {
    let envs = vec![
        Environment::new("proj1", EnvKind::Venv, "C:\\Users\\me\\venv\\proj1"),
        Environment::new("sci", EnvKind::Conda, "D:\\envs\\sci"),
    ];
    assert_eq!(
        encode(&envs),
        "proj1|venv|C:\\Users\\me\\venv\\proj1\nsci|conda|D:\\envs\\sci\n"
    );
}

#[test]
fn encode_of_nothing_is_empty() {
    assert_eq!(encode(&Vec::new()), "");
}

#[test]
fn encode_writes_special_characters_as_two() {
    let envs = vec![Environment::new("a|b", EnvKind::Uv, "C:\\100%\\x\ny\r")];
    assert_eq!(encode(&envs), "a%pb|uv|C:\\100%%\\x%ny%r\n");
}

#[test]
fn decode_reads_the_records_in_order() {
    let read = decode("proj1|venv|C:\\v\\proj1\nfast|uv|C:\\v\\fast\nold|unknown|C:\\v\\old\n");
    assert_eq!(
        read,
        Ok(vec![
            Environment::new("proj1", EnvKind::Venv, "C:\\v\\proj1"),
            Environment::new("fast", EnvKind::Uv, "C:\\v\\fast"),
            Environment::new("old", EnvKind::Unknown, "C:\\v\\old"),
        ])
    );
}

#[test]
fn decode_reads_a_last_line_without_line_feed() {
    assert_eq!(
        decode("a|venv|C:\\a\nb|venv|C:\\b"),
        Ok(vec![
            Environment::new("a", EnvKind::Venv, "C:\\a"),
            Environment::new("b", EnvKind::Venv, "C:\\b"),
        ])
    );
}

#[test]
fn decode_of_empty_text_is_no_record() {
    assert_eq!(decode(""), Ok(Vec::new()));
}

#[test]
fn decode_reads_escapes_back() {
    assert_eq!(
        decode("a%pb|uv|C:\\100%%\\x%ny%r\n"),
        Ok(vec![Environment::new("a|b", EnvKind::Uv, "C:\\100%\\x\ny\r")])
    );
}

#[test]
fn decode_reports_a_wrong_number_of_fields() {
    assert_eq!(decode("only-a-name\n"), Err(CacheError { record: 0, fault: Fault::FieldCount }));
    assert_eq!(
        decode("a|venv|C:\\a\nb|venv\n"),
        Err(CacheError { record: 1, fault: Fault::FieldCount })
    );
    assert_eq!(
        decode("a|venv|C:\\a|more\n"),
        Err(CacheError { record: 0, fault: Fault::FieldCount })
    );
    assert_eq!(decode("\n"), Err(CacheError { record: 0, fault: Fault::FieldCount }));
    assert_eq!(
        decode("a|venv|C:\\a\n\nb|venv|C:\\b\n"),
        Err(CacheError { record: 1, fault: Fault::FieldCount })
    );
}

#[test]
fn decode_reports_an_unknown_kind() {
    assert_eq!(decode("a|pipenv|C:\\a\n"), Err(CacheError { record: 0, fault: Fault::Kind }));
    assert_eq!(
        decode("a|venv|C:\\a\nb|VENV|C:\\b\n"),
        Err(CacheError { record: 1, fault: Fault::Kind })
    );
}

#[test]
fn decode_reports_a_bad_escape() {
    assert_eq!(decode("a%|venv|C:\\a\n"), Err(CacheError { record: 0, fault: Fault::Escape }));
    assert_eq!(decode("a%zb|venv|C:\\a\n"), Err(CacheError { record: 0, fault: Fault::Escape }));
    assert_eq!(
        decode("a|venv|C:\\a\nb|venv|C:\\50%\n"),
        Err(CacheError { record: 1, fault: Fault::Escape })
    );
}

#[test]
fn decode_reports_the_first_fault_only() {
    assert_eq!(
        decode("a|nokind|C:\\%\nb\n"),
        Err(CacheError { record: 0, fault: Fault::Kind })
    );
    assert_eq!(
        decode("a%|nokind|C:\\a\n"),
        Err(CacheError { record: 0, fault: Fault::Escape })
    );
}

#[test]
fn decode_does_not_read_json() {
    let legacy = "[\n  {\n    \"name\": \"a\",\n    \"env_type\": \"venv\",\n    \"path\": \"C:\\\\a\"\n  }\n]";
    assert_eq!(decode(legacy), Err(CacheError { record: 0, fault: Fault::FieldCount }));
}

#[test]
fn round_trip_of_no_record() {
    round_trip(Vec::new());
}

#[test]
fn round_trip_of_one_record() {
    round_trip(vec![Environment::new("proj1", EnvKind::Venv, "C:\\Users\\me\\venv\\proj1")]);
}

#[test]
fn round_trip_of_records_with_spaces() {
    round_trip(vec![
        Environment::new("my project", EnvKind::Venv, "C:\\Users\\John Smith\\my envs\\my project"),
        Environment::new(" lead", EnvKind::Conda, "D:\\Program Files\\envs\\ lead"),
        Environment::new("trail ", EnvKind::Unknown, "D:\\x y z\\trail "),
    ]);
}

#[test]
fn round_trip_of_records_with_special_characters() {
    round_trip(vec![
        Environment::new("a|b", EnvKind::Uv, "C:\\100%\\a|b"),
        Environment::new("%p", EnvKind::Venv, "%%n\n\r|"),
        Environment::new("", EnvKind::Unknown, ""),
        Environment::new("ünï", EnvKind::Conda, "C:\\Üsers\\日本語"),
    ]);
}

#[test]
fn round_trip_keeps_duplicates_and_order() {
    round_trip(vec![
        Environment::new("b", EnvKind::Venv, "C:\\2\\b"),
        Environment::new("a", EnvKind::Venv, "C:\\1\\a"),
        Environment::new("b", EnvKind::Venv, "C:\\2\\b"),
    ]);
}
