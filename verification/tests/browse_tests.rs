use artifact::browse::{record_scan_path, BrowseHistory, SCAN_LOG_CAPACITY};
use artifact::settings::{enabled_language_labels, enabled_rules_from_config, set_language_enabled};
use std::collections::VecDeque;

#[test]
fn browser_history_moves_back_and_forward() {
    let mut h = BrowseHistory::open("/home/u".to_string(), vec!["/home".to_string(), "/".to_string()]);
    assert!(h.can_go_back());
    assert!(!h.can_go_forward());
    assert!(h.go_back());
    assert_eq!(h.path(), "/home");
    assert!(h.go_forward());
    assert_eq!(h.path(), "/home/u");
    h.navigate("/home/u/src".to_string());
    assert!(!h.can_go_forward());
    assert!(h.go_back());
    assert_eq!(h.path(), "/home/u");
    assert!(h.go_back());
    assert!(h.go_back());
    assert_eq!(h.path(), "/");
    assert!(!h.go_back());
    assert_eq!(h.path(), "/");
}

#[test]
fn scan_log_is_capped_and_skips_empty() {
    let mut log = VecDeque::new();
    record_scan_path(&mut log, String::new());
    assert!(log.is_empty());
    for i in 0..(SCAN_LOG_CAPACITY + 5) {
        record_scan_path(&mut log, format!("/p{i}"));
    }
    assert_eq!(log.len(), SCAN_LOG_CAPACITY);
    assert_eq!(log.front().unwrap(), "/p5");
    assert_eq!(log.back().unwrap(), &format!("/p{}", SCAN_LOG_CAPACITY + 4));
}

#[test]
fn config_languages_select_rules() {
    let all = enabled_rules_from_config(&None);
    assert_eq!(all.len(), 16);
    let some = enabled_rules_from_config(&Some(vec!["Python".to_string(), "Rust".to_string()]));
    assert_eq!(some, vec!["rust_target", "python_venv", "python_venv_alt", "pycache"]);
    assert!(enabled_rules_from_config(&Some(vec![])).is_empty());
}

#[test]
fn labels_round_trip_through_config() {
    let names = enabled_rules_from_config(&Some(vec!["Elixir".to_string(), "Node".to_string()]));
    let labels = enabled_language_labels(&names);
    assert_eq!(labels, vec!["Node", "Elixir"]);
    let again = enabled_rules_from_config(&Some(labels));
    assert_eq!(again, names);
}

#[test]
fn language_toggle_adds_and_removes_all_its_rules() {
    let mut enabled = vec!["node_modules".to_string()];
    set_language_enabled(&mut enabled, "Python", true);
    let mut sorted = enabled.clone();
    sorted.sort();
    assert_eq!(sorted, vec!["node_modules", "pycache", "python_venv", "python_venv_alt"]);
    set_language_enabled(&mut enabled, "Python", true);
    assert_eq!(enabled.len(), 4);
    set_language_enabled(&mut enabled, "Python", false);
    assert_eq!(enabled, vec!["node_modules"]);
    set_language_enabled(&mut enabled, "Klingon", true);
    assert_eq!(enabled, vec!["node_modules"]);
}
