use artifact::history::{format_number, group_into_runs, manifests_to_prune, HistoryEntry};

fn rec(path: &str, size: i64, at: i64) -> HistoryEntry {
    HistoryEntry { path: path.to_string(), size_bytes: size, deleted_at: at }
}

#[test]
fn format_number_small_values_unchanged() {
    assert_eq!(format_number(0), "0");
    assert_eq!(format_number(42), "42");
    assert_eq!(format_number(999), "999");
}

#[test]
fn format_number_inserts_separators() {
    assert_eq!(format_number(1_000), "1,000");
    assert_eq!(format_number(12_345), "12,345");
    assert_eq!(format_number(1_234_567), "1,234,567");
}

#[test]
fn group_into_runs_empty() {
    assert!(group_into_runs(Vec::new()).is_empty());
}

#[test]
fn group_into_runs_folds_close_deletions() {
    let records = vec![rec("/a", 10, 1_000), rec("/b", 20, 990), rec("/c", 5, 980)];
    let runs = group_into_runs(records);
    assert_eq!(runs.len(), 1);
    assert_eq!(runs[0].entries.len(), 3);
    assert_eq!(runs[0].total_bytes, 35);
    assert_eq!(runs[0].started_at, 980);
}

#[test]
fn group_into_runs_splits_distant_deletions() {
    let records = vec![rec("/a", 10, 1_000), rec("/b", 20, 500)];
    let runs = group_into_runs(records);
    assert_eq!(runs.len(), 2);
    assert_eq!(runs[0].total_bytes, 10);
    assert_eq!(runs[1].total_bytes, 20);
}

#[test]
fn manifests_to_prune_under_limit_keeps_all() {
    let names = vec!["delete-100.toml".into(), "delete-200.toml".into()];
    assert!(manifests_to_prune(names, 50).is_empty());
}

#[test]
fn manifests_to_prune_removes_oldest_over_limit() {
    let names: Vec<String> = (0..5).map(|i| format!("delete-{}.toml", 1000 + i)).collect();
    let mut pruned = manifests_to_prune(names, 2);
    pruned.sort();
    assert_eq!(
        pruned,
        vec![
            "delete-1000.toml".to_string(),
            "delete-1001.toml".to_string(),
            "delete-1002.toml".to_string(),
        ]
    );
}

#[test]
fn manifests_to_prune_sorts_by_width_then_lex() {
    let names = vec![
        "delete-9999.toml".into(),
        "delete-10000000.toml".into(),
        "delete-10000001.toml".into(),
    ];
    let pruned = manifests_to_prune(names, 2);
    assert_eq!(pruned, vec!["delete-9999.toml".to_string()]);
}

#[test]
fn manifests_to_prune_ignores_unrelated_files() {
    let names = vec![
        "delete-1.toml".into(),
        "delete-2.toml".into(),
        "delete-3.toml".into(),
        "README.md".into(),
        "notes.txt".into(),
    ];
    let pruned = manifests_to_prune(names, 1);
    let mut sorted = pruned.clone();
    sorted.sort();
    assert_eq!(sorted, vec!["delete-1.toml".to_string(), "delete-2.toml".to_string()]);
    assert!(!pruned.iter().any(|n| n == "README.md" || n == "notes.txt"));
}

#[test]
fn runs_partition_the_entries_in_order() {
    let records = vec![
        rec("/a", 1, 5_000),
        rec("/b", 2, 4_990),
        rec("/c", 3, 3_000),
        rec("/d", 4, 2_950),
        rec("/e", 5, 100),
    ];
    let runs = group_into_runs(records.iter().map(|e| e.duplicate()).collect());
    let flattened: Vec<String> = runs.iter().flat_map(|r| r.entries.iter().map(|e| e.path.clone())).collect();
    assert_eq!(flattened, vec!["/a", "/b", "/c", "/d", "/e"]);
    let total: i64 = runs.iter().map(|r| r.total_bytes).sum();
    assert_eq!(total, 15);
    assert_eq!(runs.len(), 3);
    assert_eq!(runs[0].started_at, 4_990);
    assert_eq!(runs[1].started_at, 2_950);
    assert_eq!(runs[2].started_at, 100);
    for run in &runs {
        assert!(!run.entries.is_empty());
        assert_eq!(run.total_bytes, run.entries.iter().map(|e| e.size_bytes).sum::<i64>());
    }
}

#[test]
fn run_window_is_measured_from_the_run_start() {
    // 1000 -> 940 is exactly the window; 880 is 60s from the moved start.
    let runs = group_into_runs(vec![rec("/a", 1, 1_000), rec("/b", 1, 940), rec("/c", 1, 880)]);
    assert_eq!(runs.len(), 1);
    assert_eq!(runs[0].started_at, 880);
    let runs = group_into_runs(vec![rec("/a", 1, 1_000), rec("/b", 1, 939)]);
    assert_eq!(runs.len(), 2);
}

#[test]
fn grouped_number_strips_to_plain_digits() {
    for n in [0usize, 7, 999, 1_000, 1_001, 999_999, 1_000_000, 123_456_789] {
        let s = format_number(n);
        assert_eq!(s.replace(',', ""), n.to_string());
    }
}

#[test]
fn manifests_prune_keeps_zero() {
    let names = vec!["delete-2.toml".to_string(), "delete-1.toml".to_string()];
    assert_eq!(manifests_to_prune(names, 0), vec!["delete-1.toml".to_string(), "delete-2.toml".to_string()]);
}
