use artifact::directory_item::{DirectoryItem, DirectoryType};
use artifact::error::ArtifactError;
use artifact::rules::{all_rules, find};
use artifact::scanner::{
    accepts_candidate, any_name_ends_with, candidate_rules, check_artifact_match, check_artifact_path,
    collection_cap, first_match, is_excluded_dir, is_extension_marker, is_scannable, match_rule,
    rank_results, PathFacts, Platform, Scanner,
};

fn item(path: &str, size: u64) -> DirectoryItem {
    let rule = find("node_modules").unwrap();
    DirectoryItem::new(path.to_string(), DirectoryType::new(rule), size, None, None, None, false)
}

fn dir_facts() -> PathFacts {
    PathFacts { exists: true, is_symlink: false, is_dir: true }
}

#[test]
fn scanner_new_enables_every_rule() {
    let s = Scanner::new("/home/user".to_string());
    assert_eq!(s.root(), "/home/user");
    assert_eq!(s.enabled_rules().len(), all_rules().len());
    assert_eq!(s.max_results(), None);
    let s = s.with_max_results(5);
    assert_eq!(s.max_results(), Some(5));
    assert_eq!(s.enabled_rules().len(), all_rules().len());
}

#[test]
fn scanner_with_enabled_keeps_table_order_and_skips_unknown() {
    let s = Scanner::with_enabled("/r".to_string(), &["rust_target", "bogus", "node_modules"]);
    let names: Vec<_> = s.enabled_rules().iter().map(|r| r.name).collect();
    assert_eq!(names, vec!["node_modules", "rust_target"]);
    let none = Scanner::with_enabled("/r".to_string(), &[]);
    assert!(none.enabled_rules().is_empty());
}

#[test]
fn excluded_dirs_depend_on_platform() {
    assert!(is_excluded_dir("Library", Platform::MacOs));
    assert!(!is_excluded_dir("Library", Platform::Linux));
    assert!(is_excluded_dir("proc", Platform::Linux));
    assert!(is_excluded_dir("$Recycle.Bin", Platform::Windows));
    assert!(is_excluded_dir("Program Files (x86)", Platform::Windows));
    assert!(!is_excluded_dir("proc", Platform::Other));
    assert!(!is_excluded_dir("src", Platform::MacOs));
}

#[test]
fn hidden_dirs_are_kept_only_when_a_rule_names_them() {
    let enabled = all_rules();
    assert!(is_scannable(".venv", &enabled, Platform::Linux));
    assert!(is_scannable(".next", &enabled, Platform::Linux));
    assert!(!is_scannable(".git", &enabled, Platform::Linux));
    assert!(is_scannable("projects", &enabled, Platform::Linux));
    assert!(!is_scannable("dev", &enabled, Platform::Linux));
    let only_node = Scanner::with_enabled("/".to_string(), &["node_modules"]);
    assert!(!is_scannable(".venv", only_node.enabled_rules(), Platform::Linux));
}

#[test]
fn candidate_rules_share_the_directory_name() {
    let enabled = all_rules();
    let c: Vec<_> = candidate_rules("target", &enabled).iter().map(|r| r.name).collect();
    assert_eq!(c, vec!["rust_target"]);
    assert!(candidate_rules("src", &enabled).is_empty());
}

#[test]
fn match_rule_covers_each_outcome() {
    let node = find("node_modules").unwrap();
    let m = match_rule(node, &vec![true]).unwrap();
    assert!(!m.is_orphaned);
    let m = match_rule(node, &vec![false]).unwrap();
    assert!(m.is_orphaned);
    let rust = find("rust_target").unwrap();
    assert!(match_rule(rust, &vec![false]).is_none());
    assert!(match_rule(rust, &vec![true]).is_some());
    let pycache = find("pycache").unwrap();
    let m = match_rule(pycache, &vec![]).unwrap();
    assert!(!m.is_orphaned);
    let venv = find("python_venv").unwrap();
    assert!(match_rule(venv, &vec![false, false, true]).is_some());
    assert!(match_rule(venv, &vec![false, false, false]).is_none());
}

#[test]
fn generic_target_without_marker_does_not_match() {
    for name in ["target", "bin", "obj", "venv"] {
        let enabled = all_rules();
        let cands = candidate_rules(name, &enabled);
        let answers: Vec<Vec<bool>> = cands.iter().map(|r| vec![false; r.markers.len()]).collect();
        assert!(first_match(&cands, &answers).is_none(), "{name} must need a marker");
    }
}

#[test]
fn first_match_takes_the_first_matching_candidate() {
    let enabled = all_rules();
    let cands = candidate_rules("node_modules", &enabled);
    let m = first_match(&cands, &vec![vec![false]]).unwrap();
    assert_eq!(m.rule.name, "node_modules");
    assert!(m.is_orphaned);
}

#[test]
fn extension_markers_are_recognised() {
    assert!(is_extension_marker(".csproj"));
    assert!(is_extension_marker(".tf"));
    assert!(!is_extension_marker("Cargo.toml"));
    assert!(!is_extension_marker(""));
    assert!(!is_extension_marker("./x"));
    let names = vec!["MyApp.csproj".to_string(), "README.md".to_string()];
    assert!(any_name_ends_with(&names, ".csproj"));
    assert!(!any_name_ends_with(&names, ".fsproj"));
    assert!(!any_name_ends_with(&vec![], ".csproj"));
}

#[test]
fn collection_cap_bounds_candidates() {
    assert_eq!(collection_cap(None), None);
    assert_eq!(collection_cap(Some(0)), Some(1));
    assert_eq!(collection_cap(Some(2)), Some(32));
    assert_eq!(collection_cap(Some(usize::MAX)), Some(usize::MAX));
    assert!(accepts_candidate(31, Some(32)));
    assert!(!accepts_candidate(32, Some(32)));
    assert!(accepts_candidate(1_000_000, None));
}

#[test]
fn max_results_keeps_largest_in_order() {
    let items = vec![item("/small", 64), item("/large", 1024), item("/medium", 256), item("/tie", 256)];
    let ranked = rank_results(items, Some(3));
    let paths: Vec<_> = ranked.iter().map(|d| d.path.as_str()).collect();
    assert_eq!(paths, vec!["/large", "/medium", "/tie"]);
    let all = rank_results(vec![item("/a", 1), item("/b", 2)], None);
    assert_eq!(all.iter().map(|d| d.size_bytes).collect::<Vec<_>>(), vec![2, 1]);
    assert!(rank_results(vec![item("/a", 1)], Some(0)).is_empty());
}

fn scan_message(e: ArtifactError) -> String {
    match e {
        ArtifactError::Scan(m) => format!("scan:{m}"),
        ArtifactError::Path(m) => format!("path:{m}"),
        other => format!("other:{}", other.message()),
    }
}

#[test]
fn validation_reports_each_stage() {
    let missing = PathFacts { exists: false, is_symlink: false, is_dir: false };
    let e = check_artifact_path(missing, "/p/node_modules", Some("node_modules"), true, "node_modules").unwrap_err();
    assert_eq!(scan_message(e), "scan:Path no longer exists: /p/node_modules");
    let link = PathFacts { exists: true, is_symlink: true, is_dir: false };
    let e = check_artifact_path(link, "/p/link", Some("link"), true, "node_modules").unwrap_err();
    assert_eq!(scan_message(e), "scan:Refusing symlink path: /p/link");
    let file = PathFacts { exists: true, is_symlink: false, is_dir: false };
    let e = check_artifact_path(file, "/p/f", Some("f"), true, "node_modules").unwrap_err();
    assert_eq!(scan_message(e), "scan:Path is no longer a directory: /p/f");
    let e = check_artifact_path(dir_facts(), "/", None, false, "node_modules").unwrap_err();
    assert_eq!(scan_message(e), "path:Path has no directory name: /");
    let e = check_artifact_path(dir_facts(), "x", Some("x"), false, "node_modules").unwrap_err();
    assert_eq!(scan_message(e), "path:Path has no parent: x");
    let e = check_artifact_path(dir_facts(), "/p/x", Some("x"), true, "nope").unwrap_err();
    assert_eq!(scan_message(e), "scan:Unknown artifact rule: nope");
    let e = check_artifact_path(dir_facts(), "/p/build", Some("build"), true, "node_modules").unwrap_err();
    assert_eq!(scan_message(e), "scan:Directory name no longer matches rule node_modules: /p/build");
    let rule = check_artifact_path(dir_facts(), "/p/node_modules", Some("node_modules"), true, "node_modules").unwrap();
    assert_eq!(rule.name, "node_modules");
}

#[test]
fn validation_rejects_changed_rule_state() {
    let rule = find("node_modules").unwrap();
    // Scanned with its marker, marker now gone: the orphan status changed.
    let e = check_artifact_match(rule, &vec![false], false, "node_modules", "/p/node_modules").unwrap_err();
    assert_eq!(scan_message(e), "scan:Path orphan status changed before delete: /p/node_modules");
    assert!(check_artifact_match(rule, &vec![true], false, "node_modules", "/p/node_modules").is_ok());
    let rust = find("rust_target").unwrap();
    let e = check_artifact_match(rust, &vec![false], false, "rust_target", "/p/target").unwrap_err();
    assert_eq!(scan_message(e), "scan:Path no longer satisfies rule rust_target: /p/target");
}
