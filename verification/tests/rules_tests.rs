use artifact::rules::{all_rules, find, match_dir, RuleConfidence};
use std::collections::HashSet;

#[test]
fn rule_names_are_unique() {
    let rules = all_rules();
    let names: Vec<_> = rules.iter().map(|r| r.name).collect();
    let unique: HashSet<_> = names.iter().collect();
    assert_eq!(names.len(), unique.len(), "duplicate rule names found");
}

#[test]
fn node_modules_rule_exists() {
    let rule = find("node_modules").expect("node_modules rule missing");
    assert_eq!(rule.dir_name, "node_modules");
    assert!(rule.markers.contains(&"package.json"));
}

#[test]
fn rust_target_rule_exists() {
    let rule = find("rust_target").expect("rust_target rule missing");
    assert_eq!(rule.dir_name, "target");
    assert!(rule.markers.contains(&"Cargo.toml"));
}

#[test]
fn all_rules_have_nonempty_name_and_dir() {
    for rule in all_rules() {
        assert!(!rule.name.is_empty(), "rule has empty name");
        assert!(!rule.dir_name.is_empty(), "rule {} has empty dir_name", rule.name);
        assert!(!rule.language.is_empty(), "rule {} has empty language", rule.name);
    }
}

#[test]
fn generic_rules_do_not_allow_orphan_without_marker() {
    for name in ["rust_target", "dotnet_bin", "dotnet_obj", "python_venv_alt"] {
        let rule = find(name).unwrap();
        assert!(!rule.allow_orphan_without_marker, "{name} is too generic");
    }
}

#[test]
fn rules_declare_confidence() {
    for rule in all_rules() {
        assert!(matches!(
            rule.confidence,
            RuleConfidence::High | RuleConfidence::Medium | RuleConfidence::Low
        ));
    }
}

#[test]
fn find_unknown_rule_is_none() {
    assert!(find("no_such_rule").is_none());
    assert!(find("").is_none());
}

#[test]
fn only_node_modules_admits_orphans() {
    let orphan_capable: Vec<_> = all_rules()
        .into_iter()
        .filter(|r| r.allow_orphan_without_marker)
        .map(|r| r.name)
        .collect();
    assert_eq!(orphan_capable, vec!["node_modules"]);
    for rule in all_rules() {
        if rule.allow_orphan_without_marker {
            assert!(!rule.markers.is_empty());
        }
    }
}

#[test]
fn match_dir_checks_markers_in_rule_order() {
    // `target` needs Cargo.toml; the check is asked about the rule's markers.
    let hit = match_dir("target", |markers: &'static [&'static str]| markers.contains(&"Cargo.toml"));
    assert_eq!(hit.map(|r| r.name), Some("rust_target"));
    let miss = match_dir("target", |_m: &'static [&'static str]| false);
    assert!(miss.is_none());
    // A rule without markers matches unconditionally.
    let pycache = match_dir("__pycache__", |_m: &'static [&'static str]| false);
    assert_eq!(pycache.map(|r| r.name), Some("pycache"));
    assert!(match_dir("src", |_m: &'static [&'static str]| true).is_none());
}
