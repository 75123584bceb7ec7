use artifact::config::{constrained_log_level, constrained_max_results, default_log_level, default_max_results, default_true, DatabaseConfig, DeleteMode, LoggingConfig};
use artifact::directory_item::{DirectoryItem, DirectoryType};
use artifact::display::{
    entry_type_label, format_run_time, format_unix_time, summarize_artifacts, summarize_artifacts_checked, summary_windows, total_size_fits, truncate_end,
    summarize_languages, ArtifactBucket, center_button_label, scan_button_enabled, selected_segments,
    selection_percent, status_label, ScanState, results_state_text, purge_enabled, purge_action_label,
    safety_notice, last_cleanup_text,
};
use artifact::error::ArtifactError;
use artifact::notices::{
    cleanup_notice, manifest_blocked_notice, notice_is_stale, scan_complete_notice, scan_failed_notice,
    settings_failed_notice, settings_saved_notice, NoticeKind,
};
use artifact::rules::{all_rules, find, ColorHint};
use artifact::utils::{ancestor_refusal, first_symlinked_ancestor, format_size, removal_refusal};

fn item(rule: &str, size: u64) -> DirectoryItem {
    DirectoryItem::new(format!("/x/{rule}"), DirectoryType::new(find(rule).unwrap()), size, None, None, None, false)
}

#[test]
fn truncate_end_ascii_shorter_than_max_is_unchanged() {
    assert_eq!(truncate_end("short", 10), "short");
}

#[test]
fn truncate_end_ascii_truncates_with_ellipsis() {
    assert_eq!(truncate_end("abcdefghij", 6), "abc...");
}

#[test]
fn truncate_end_multibyte_does_not_panic() {
    let cjk = "路径/项目/构建输出目录名称很长";
    let out = truncate_end(cjk, 6);
    assert!(out.ends_with("..."));
    assert_eq!(out.chars().count(), 6);
}

#[test]
fn truncate_end_emoji_does_not_panic() {
    let emoji = "📁📂🗂️🧱🧰🔧🪛🧲🗑️📦";
    let out = truncate_end(emoji, 5);
    assert!(out.ends_with("..."));
}

#[test]
fn truncate_end_accented_path() {
    let accented = "/Users/José/Développement/café/artéfacts";
    let out = truncate_end(accented, 12);
    assert!(out.ends_with("..."));
    assert_eq!(out.chars().count(), 12);
}

#[test]
fn truncate_end_tiny_limits() {
    assert_eq!(truncate_end("abcdef", 2), "...");
    assert_eq!(truncate_end("ab", 2), "ab");
    assert_eq!(truncate_end("", 0), "");
}

#[test]
fn format_size_bytes() {
    assert_eq!(format_size(0), "0 B");
    assert_eq!(format_size(1023), "1023 B");
    assert_eq!(format_size(1024), "1 KiB");
    assert_eq!(format_size(1024 * 1024), "1 MiB");
    assert_eq!(format_size(1024 * 1024 * 1024), "1 GiB");
}

#[test]
fn entry_labels_for_common_kinds() {
    let label = |name: &str| entry_type_label(DirectoryType::new(find(name).unwrap()));
    assert_eq!(label("rust_target"), "Build Output");
    assert_eq!(label("python_venv"), "Python Venv");
    assert_eq!(label("python_venv_alt"), "Python Venv");
    assert_eq!(label("pycache"), "Python");
    assert_eq!(label("next_cache"), "NextJS");
    assert_eq!(label("composer_vendor"), "Vendor");
    assert_eq!(label("node_modules"), "NodeJS");
    assert_eq!(label("elixir_deps"), "Elixir");
    assert_eq!(label("dotnet_bin"), ".NET");
}

#[test]
fn run_headings_show_relative_age() {
    assert_eq!(format_run_time(1_000, 1_030), "RUN @ 1000 // just now");
    assert_eq!(format_run_time(1_000, 1_060), "RUN @ 1000 // 1m ago");
    assert_eq!(format_run_time(0, 7_200), "RUN @ 0 // 2h ago");
    assert_eq!(format_run_time(0, 3 * 86_400 + 5), "RUN @ 0 // 3d ago");
    assert_eq!(format_run_time(0, 15 * 86_400), "RUN @ 0 // 2w ago");
    assert_eq!(format_run_time(-5, -5), "RUN @ -5 // just now");
    assert_eq!(format_run_time(100, 0), "RUN @ 100 // just now");
    assert_eq!(format_run_time(i64::MIN, i64::MAX), format!("RUN @ {} // {}w ago", i64::MIN, u64::MAX / 604_800));
    assert!(format_unix_time(0).starts_with("RUN @ 0 // "));
    assert!(format_unix_time(0).ends_with("w ago"));
}

#[test]
fn summary_windows_pad_to_four() {
    let buckets = vec![
        ArtifactBucket { label: "NODE".to_string(), size_bytes: 5 },
        ArtifactBucket { label: "RUST".to_string(), size_bytes: 3 },
    ];
    let w = summary_windows(&buckets);
    let labels: Vec<_> = w.iter().map(|b| b.label.as_str()).collect();
    assert_eq!(labels, vec!["W1", "W2", "W3", "W4"]);
    assert_eq!(w.iter().map(|b| b.size_bytes).collect::<Vec<_>>(), vec![5, 3, 0, 0]);
    let many: Vec<_> = (0..6).map(|i| ArtifactBucket { label: format!("L{i}"), size_bytes: i }).collect();
    assert_eq!(summary_windows(&many).iter().map(|b| b.size_bytes).collect::<Vec<_>>(), vec![0, 1, 2, 3]);
}

#[test]
fn artifacts_summarized_by_language() {
    let items = vec![
        item("python_venv", 5),
        item("node_modules", 10),
        item("pycache", 7),
        item("rust_target", 12),
        item("elixir_deps", 12),
    ];
    let buckets = summarize_artifacts(&items);
    let pairs: Vec<_> = buckets.iter().map(|b| (b.label.as_str(), b.size_bytes)).collect();
    assert_eq!(pairs, vec![("ELIXIR", 12), ("PYTHON", 12), ("RUST", 12), ("NODE", 10)]);
    assert!(summarize_artifacts(&vec![]).is_empty());
}

#[test]
fn scan_notices() {
    let n = scan_complete_notice(1_234, 1024);
    assert_eq!(n.kind, NoticeKind::Success);
    assert_eq!(n.title, "SCAN COMPLETE");
    assert_eq!(n.message, "Found 1,234 artifacts totaling 1 KiB.");
    let f = scan_failed_notice("Scan failed: boom".to_string());
    assert_eq!(f.kind, NoticeKind::Error);
    assert_eq!(f.title, "SCAN FAILED");
    assert_eq!(f.message, "Scan failed: boom");
}

#[test]
fn cleanup_notices_cover_each_outcome() {
    let (n, e) = cleanup_notice(DeleteMode::Trash, 1_500, false, 0);
    assert_eq!(n.kind, NoticeKind::Success);
    assert_eq!(n.title, "CLEANUP COMPLETE");
    assert_eq!(n.message, "Moved selected artifacts to Trash. 1,500 items processed.");
    assert!(e.is_none());
    let (n, _) = cleanup_notice(DeleteMode::Permanent, 2, true, 0);
    assert_eq!(n.title, "CLEANUP CANCELLED");
    assert_eq!(n.message, "Permanently deleted selected artifacts. 2 items processed. Cancelled before finishing.");
    let (n, e) = cleanup_notice(DeleteMode::Trash, 1, true, 3);
    assert_eq!(n.kind, NoticeKind::Error);
    assert_eq!(n.title, "CLEANUP INCOMPLETE");
    assert_eq!(
        n.message,
        "Failed to delete 3 directories; see details below for the affected paths and reasons. Cancelled."
    );
    assert_eq!(e.as_deref(), Some("Failed to delete 3 directories"));
    let (n, e) = manifest_blocked_notice("disk full");
    assert_eq!(n.title, "CLEANUP BLOCKED");
    assert_eq!(n.message, "Could not write deletion manifest: disk full");
    assert_eq!(e, "Could not write deletion manifest");
    let s = settings_saved_notice();
    assert_eq!(s.message, "Scan preferences were updated for future runs.");
    let (f, e) = settings_failed_notice("read-only".to_string());
    assert_eq!(f.title, "SETTINGS NOT SAVED");
    assert_eq!(f.message, "read-only");
    assert_eq!(e, "Failed to save settings");
    assert!(!notice_is_stale(7_999));
    assert!(notice_is_stale(8_000));
}

#[test]
fn config_defaults_and_constraints() {
    assert_eq!(default_max_results(), 10_000);
    assert_eq!(default_log_level(), "info");
    assert!(default_true());
    let logging = LoggingConfig::default();
    assert_eq!(logging.log_level, "info");
    assert!(logging.log_to_file);
    assert!(logging.log_to_stdout);
    assert!(!logging.json_format);
    assert!(DatabaseConfig::default().data_dir.is_none());
    assert_eq!(DeleteMode::default(), DeleteMode::Trash);
    for level in ["error", "warn", "info", "debug", "trace"] {
        assert_eq!(constrained_log_level(&level.to_string()), level);
    }
    assert_eq!(constrained_log_level(&"INVALID_LEVEL".to_string()), "info");
    assert_eq!(constrained_max_results(0), 1);
    assert_eq!(constrained_max_results(7), 7);
}

#[test]
fn error_messages_name_their_kind() {
    assert_eq!(ArtifactError::Scan("x".to_string()).user_message(), "Scan failed: x");
    assert_eq!(ArtifactError::Path("p".to_string()).user_message(), "Path error: p");
    assert_eq!(ArtifactError::Configuration("c".to_string()).user_message(), "Configuration problem: c");
    assert_eq!(ArtifactError::DatabaseInit("d".to_string()).user_message(), "Could not initialize database: d");
    assert_eq!(ArtifactError::DatabaseConnection("d".to_string()).user_message(), "Database connection failed: d");
    assert_eq!(ArtifactError::DatabaseQuery("q".to_string()).user_message(), "Database query failed: q");
    assert_eq!(ArtifactError::Scan("x".to_string()).message(), "Scan error: x");
    assert_eq!(ArtifactError::DatabaseQuery("q".to_string()).message(), "Database query error: q");
    let io: ArtifactError = std::io::Error::new(std::io::ErrorKind::Other, "disk gone").into();
    assert_eq!(io.user_message(), "IO error: disk gone");
    assert_eq!(io.message(), "IO error: disk gone");
}

#[test]
fn removal_refusals() {
    assert_eq!(removal_refusal(true, false, "/l").as_deref(), Some("refusing to delete through a symlink: /l"));
    assert_eq!(removal_refusal(false, false, "/f").as_deref(), Some("refusing to delete a non-directory: /f"));
    assert!(removal_refusal(false, true, "/d").is_none());
    assert_eq!(first_symlinked_ancestor(&vec![Some(false), None, Some(true), Some(true)]), Some(2));
    assert_eq!(first_symlinked_ancestor(&vec![Some(false), None]), None);
    assert_eq!(ancestor_refusal("/evil"), "refusing to delete: ancestor path is now a symlink: /evil");
}

#[test]
fn languages_summarized_in_table_order() {
    let pairs: Vec<(&'static str, bool)> = all_rules()
        .iter()
        .map(|r| (r.name, r.name != "pycache" && r.language != "Rust"))
        .collect();
    let rows = summarize_languages(&pairs);
    let labels: Vec<_> = rows.iter().map(|r| r.label).collect();
    assert_eq!(
        labels,
        vec!["Node", "Rust", "Python", "Next.js", "Nuxt", "Parcel", "Gradle", ".NET", "Elixir", "PHP", "Xcode", "Terraform"]
    );
    let python = rows.iter().find(|r| r.label == "Python").unwrap();
    assert_eq!((python.enabled_count, python.total_count, python.enabled), (2, 3, false));
    let rust = rows.iter().find(|r| r.label == "Rust").unwrap();
    assert_eq!((rust.enabled_count, rust.total_count, rust.enabled), (0, 1, false));
    let node = &rows[0];
    assert!(node.enabled);
    assert_eq!(node.color_hint, ColorHint::Green);
    let some = summarize_languages(&vec![("dotnet_obj", true), ("bogus", true), ("node_modules", false)]);
    let pairs: Vec<_> = some.iter().map(|r| (r.label, r.enabled_count, r.total_count)).collect();
    assert_eq!(pairs, vec![("Node", 0, 1), (".NET", 1, 1)]);
}

#[test]
fn dashboard_labels_follow_scan_state() {
    assert_eq!(status_label(ScanState::Idle), "System_Ready");
    assert_eq!(status_label(ScanState::Scanning), "Scan_Active");
    assert_eq!(status_label(ScanState::Complete), "Scan_Complete");
    assert_eq!(center_button_label(ScanState::Idle), "Initiate Scan");
    assert_eq!(center_button_label(ScanState::Scanning), "Scanning");
    assert_eq!(center_button_label(ScanState::Complete), "Results");
    assert!(scan_button_enabled(ScanState::Idle));
    assert!(!scan_button_enabled(ScanState::Scanning));
    assert!(scan_button_enabled(ScanState::Complete));
}

#[test]
fn selection_meter_counts_started_fifteens() {
    assert_eq!(selection_percent(0, 0), 0);
    assert_eq!(selection_percent(1, 3), 33);
    assert_eq!(selection_percent(3, 3), 100);
    assert_eq!(selected_segments(0, 0), 0);
    assert_eq!(selected_segments(0, 5), 1);
    assert_eq!(selected_segments(15, 5), 1);
    assert_eq!(selected_segments(16, 5), 2);
    assert_eq!(selected_segments(33, 3), 3);
    assert_eq!(selected_segments(100, 3), 7);
}

#[test]
fn checked_summary_refuses_overflowing_totals() {
    let items = vec![item("node_modules", 10), item("rust_target", 5)];
    assert!(total_size_fits(&items));
    let buckets = summarize_artifacts_checked(&items).unwrap();
    let pairs: Vec<_> = buckets.iter().map(|b| (b.label.as_str(), b.size_bytes)).collect();
    assert_eq!(pairs, vec![("NODE", 10), ("RUST", 5)]);
    let huge = vec![item("node_modules", u64::MAX), item("rust_target", 1)];
    assert!(!total_size_fits(&huge));
    assert!(summarize_artifacts_checked(&huge).is_none());
}

#[test]
fn results_sidebar_texts_follow_state() {
    assert_eq!(results_state_text(ScanState::Idle), "Idle");
    assert_eq!(results_state_text(ScanState::Scanning), "Scanning");
    assert_eq!(results_state_text(ScanState::Complete), "Ready");
    assert!(purge_enabled(1, false));
    assert!(!purge_enabled(0, false));
    assert!(!purge_enabled(10, true));
    assert_eq!(purge_action_label(DeleteMode::Trash, false), "Move To Trash");
    assert_eq!(purge_action_label(DeleteMode::Permanent, false), "Delete Permanently");
    assert_eq!(purge_action_label(DeleteMode::Permanent, true), "Deleting...");
    assert!(safety_notice(DeleteMode::Trash).contains("moved to Trash"));
    assert!(safety_notice(DeleteMode::Permanent).ends_with("This action cannot be undone."));
    assert_eq!(last_cleanup_text(0), "None yet");
    assert_eq!(last_cleanup_text(3), "Recorded");
}
