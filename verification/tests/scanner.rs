use venv_locator::classifier::Probe;
use venv_locator::environment::{EnvKind, Environment};
use venv_locator::scanner::{
    collect, is_excluded, is_marker, is_pruned, scan_target, scan_targets,
};

fn probe(entry_point: bool, conda_marker: bool, config: Option<&str>) -> Probe {
    Probe { entry_point, conda_marker, config: config.map(|s| s.to_string()) }
}

fn places(paths: &[&str]) -> Vec<String> {
    paths.iter().map(|p| p.to_string()).collect()
}

#[test]
fn noisy_names_are_pruned() {
    assert!(is_pruned("Temp"));
    assert!(is_pruned("my_temp_files"));
    assert!(is_pruned(".cache"));
    assert!(is_pruned("__pycache__"));
    assert!(is_pruned("TMP"));
    assert!(is_pruned("node_modules"));
    assert!(is_pruned("$RECYCLE.BIN"));
    assert!(is_pruned("System Volume Information"));
}

#[test]
fn other_names_are_walked() {
    assert!(!is_pruned("venv"));
    assert!(!is_pruned("proj1"));
    assert!(!is_pruned("Node_Modules"));
    assert!(!is_pruned("$recycle.bin"));
    assert!(!is_pruned("pyvenv.cfg"));
    assert!(!is_pruned(""));
}

#[test]
fn only_the_configuration_file_marks() {
    assert!(is_marker("pyvenv.cfg"));
    assert!(!is_marker("PYVENV.CFG"));
    assert!(!is_marker("pyvenv.cfg.bak"));
    assert!(!is_marker("activate.bat"));
}

#[test]
fn excluded_paths_hold_a_noisy_segment() {
    assert!(is_excluded("C:\\Users\\me\\Temp\\env"));
    assert!(is_excluded("C:\\Users\\me\\CACHE\\env"));
    assert!(is_excluded("C:\\x\\tmp\\y\\env"));
    assert!(is_excluded("C:\\web\\node_modules\\pkg\\env"));
    assert!(is_excluded("C:\\web\\my_node_modules_copy"));
    assert!(!is_excluded("C:\\Users\\me\\venv\\proj1"));
    assert!(!is_excluded("C:\\Users\\me\\temp"));
    assert!(!is_excluded("C:\\Users\\me\\template\\env"));
}

#[test]
fn scan_target_is_the_directory_of_the_marker() {
    assert_eq!(
        scan_target("C:\\Users\\me\\venv\\proj1\\pyvenv.cfg"),
        Some("C:\\Users\\me\\venv\\proj1".to_string())
    );
    assert_eq!(scan_target("C:\\Users\\me\\tmp\\e\\pyvenv.cfg"), None);
    assert_eq!(scan_target(""), None);
}

#[test]
fn scan_targets_keep_the_order_of_the_walk() {
    let markers = vec![
        "C:\\u\\b\\pyvenv.cfg".to_string(),
        "C:\\u\\cache\\x\\pyvenv.cfg".to_string(),
        "C:\\u\\a\\pyvenv.cfg".to_string(),
    ];
    assert_eq!(scan_targets(&markers), vec!["C:\\u\\b", "C:\\u\\a"]);
    assert!(scan_targets(&Vec::new()).is_empty());
}

#[test]
fn collect_keeps_what_classifies() {
    let locations = places(&["C:\\u\\a", "C:\\u\\b", "C:\\u\\c", "C:\\u\\d"]);
    let probes = vec![
        probe(true, false, None),
        probe(false, false, Some("home = x")),
        probe(true, true, None),
        probe(true, false, Some("uv = 0.4")),
    ];
    assert_eq!(
        collect(&locations, &probes),
        vec![
            Environment::new("a", EnvKind::Venv, "C:\\u\\a"),
            Environment::new("c", EnvKind::Conda, "C:\\u\\c"),
            Environment::new("d", EnvKind::Uv, "C:\\u\\d"),
        ]
    );
    assert!(collect(&Vec::new(), &Vec::new()).is_empty());
}

#[test]
fn collect_goes_by_the_index_and_leaves_out_what_has_no_partner() {
    let locations = places(&["C:\\u\\a", "C:\\u\\b", "C:\\u\\c"]);
    let probes = vec![probe(false, false, None), probe(true, false, None)];
    assert_eq!(
        collect(&locations, &probes),
        vec![Environment::new("b", EnvKind::Venv, "C:\\u\\b")]
    );
    let more = vec![probe(true, false, None), probe(true, false, None)];
    assert_eq!(
        collect(&places(&["C:\\u\\a"]), &more),
        vec![Environment::new("a", EnvKind::Venv, "C:\\u\\a")]
    );
    assert!(collect(&locations, &Vec::new()).is_empty());
}

#[test]
fn full_scan_includes_a_plain_environment_below_home() {
    let markers = places(&[
        "~/docs/pyvenv.cfg",
        "~/venv/proj1/pyvenv.cfg",
        "~/work/old/pyvenv.cfg",
    ]);
    let targets = scan_targets(&markers);
    assert_eq!(targets, vec!["~/docs", "~/venv/proj1", "~/work/old"]);
    let probes = vec![
        probe(false, false, Some("stray file")),
        probe(true, false, Some("home = /usr/bin\n")),
        probe(true, false, None),
    ];
    let found = collect(&targets, &probes);
    let wanted = Environment::new("proj1", EnvKind::Venv, "~/venv/proj1");
    assert_eq!(found.iter().filter(|e| **e == wanted).count(), 1);
}

#[test]
fn full_scan_on_windows_paths_leaves_excluded_directories_out() {
    let markers = places(&[
        "C:\\Users\\me\\venv\\proj1\\pyvenv.cfg",
        "C:\\Users\\me\\Tmp\\old\\pyvenv.cfg",
        "C:\\Users\\me\\web\\node_modules\\tool\\pyvenv.cfg",
    ]);
    let targets = scan_targets(&markers);
    assert_eq!(targets, vec!["C:\\Users\\me\\venv\\proj1"]);
    let found = collect(&targets, &vec![probe(true, false, None)]);
    assert_eq!(
        found,
        vec![Environment::new("proj1", EnvKind::Venv, "C:\\Users\\me\\venv\\proj1")]
    );
}

#[test]
fn node_modules_is_never_descended_into() {
    assert!(is_pruned("node_modules"));
    let markers = places(&[
        "C:\\Users\\me\\web\\node_modules\\tool\\pyvenv.cfg",
        "C:\\Users\\me\\node_modules\\pyvenv.cfg",
        "~/web/node_modules/tool/pyvenv.cfg",
    ]);
    let targets = scan_targets(&markers);
    assert!(targets.is_empty());
    assert!(collect(&targets, &vec![probe(true, false, None); 3]).is_empty());
}
