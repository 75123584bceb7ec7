use artifact::database::{
    allocate_id, backup_suffix, cleanup_cutoff, decimal_text, deletion_statistics, init_err, needs_backup,
    newer_version_error, record_metadata, run_migrations, runs_from_records, schema_action, stale_keys,
    total_space_freed, DeletionRecord, SchemaAction, DB_FILE, SCHEMA_VERSION, plan_record,
};
use artifact::directory_item::DirectoryType;
use artifact::error::ArtifactError;
use artifact::rules::find;

fn sample_record() -> DeletionRecord {
    let rule = find("node_modules").unwrap();
    DeletionRecord::new(
        "/tmp/myproject/node_modules".to_string(),
        DirectoryType::new(rule),
        512 * 1024 * 1024,
        Some("/tmp/myproject".to_string()),
        Some("myproject".to_string()),
    )
}

fn stored(id: i64, dir_type: &str, size: i64, at: i64) -> DeletionRecord {
    DeletionRecord::from_parts(id, format!("/p/{id}"), dir_type.to_string(), size, None, None, at, "{}".to_string())
}

#[test]
fn metadata_is_valid_json_for_all_inputs() {
    let rec = sample_record();
    let parsed: serde_json::Value = serde_json::from_str(&rec.metadata).unwrap();
    assert_eq!(parsed["version"], SCHEMA_VERSION);
}

#[test]
fn metadata_escapes_hostnames() {
    let m = record_metadata(&Some("a\"b\\c\n".to_string()));
    let parsed: serde_json::Value = serde_json::from_str(&m).unwrap();
    assert_eq!(parsed["version"], 1);
    assert_eq!(parsed["hostname"], "a\"b\\c\n");
    assert_eq!(record_metadata(&None), "{\"version\":1,\"hostname\":null}");
    assert_eq!(record_metadata(&Some("box".to_string())), "{\"version\":1,\"hostname\":\"box\"}");
}

#[test]
fn new_record_is_unstored() {
    let rec = sample_record();
    assert_eq!(rec.id(), 0);
    assert_eq!(rec.dir_type, "node_modules");
    assert_eq!(rec.size_bytes, 512 * 1024 * 1024);
    assert_eq!(rec.project_root.as_deref(), Some("/tmp/myproject"));
    assert!(rec.deleted_at > 0);
    let s = rec.stored_as(7);
    assert_eq!(s.id(), 7);
    assert_eq!(s.path, rec.path);
}

#[test]
fn ids_start_at_one_and_advance() {
    assert_eq!(allocate_id(None), (1, 2));
    assert_eq!(allocate_id(Some(41)), (41, 42));
}

#[test]
fn schema_versions_are_classified() {
    assert_eq!(schema_action(None), SchemaAction::Stamp);
    assert_eq!(schema_action(Some(SCHEMA_VERSION)), SchemaAction::UpToDate);
    assert_eq!(schema_action(Some(0)), SchemaAction::Migrate(0));
    assert_eq!(schema_action(Some(999)), SchemaAction::Reject(999));
}

#[test]
fn rejects_unsupported_schema_version_message() {
    match newer_version_error(999) {
        ArtifactError::DatabaseInit(m) => {
            assert!(m.contains("newer than supported"), "unexpected error message: {m}");
            assert_eq!(
                m,
                "Database schema version 999 is newer than supported (this build supports up to 1); please upgrade the application"
            );
        }
        other => panic!("unexpected error: {}", other.message()),
    }
}

#[test]
fn migrations_reach_the_current_version() {
    assert_eq!(run_migrations(0).ok(), Some(SCHEMA_VERSION));
    assert_eq!(run_migrations(1).ok(), Some(SCHEMA_VERSION));
    match run_migrations(5) {
        Err(ArtifactError::DatabaseInit(m)) => assert_eq!(m, "No migration path from schema version 5 to 1"),
        _ => panic!("expected a migration error"),
    }
}

#[test]
fn backups_only_for_other_versions() {
    assert!(!needs_backup(false, Some(999)));
    assert!(!needs_backup(true, None));
    assert!(!needs_backup(true, Some(SCHEMA_VERSION)));
    assert!(needs_backup(true, Some(999)));
    assert_eq!(backup_suffix(Some(999), 1700000000), ".bak-999-1700000000");
    assert_eq!(backup_suffix(None, 5), ".bak-unknown-5");
    assert_eq!(format!("{DB_FILE}{}", backup_suffix(Some(2), 3)), "artifact.redb.bak-2-3");
}

#[test]
fn statistics_sum_and_skip_corrupt_rows() {
    let rows = vec![
        Some(stored(1, "node_modules", 512, 10)),
        None,
        Some(stored(2, "node_modules", 1024, 20)),
        Some(stored(3, "rust_target", 100, 30)),
    ];
    assert_eq!(total_space_freed(&rows), 1636);
    let stats = deletion_statistics(&rows);
    assert_eq!(stats.total_deletions, 3);
    assert_eq!(stats.total_space_freed, 1636);
    assert!(stats.contains_type("node_modules"));
    assert_eq!(stats.by_type("node_modules"), Some((2, 1536)));
    assert_eq!(stats.by_type("rust_target"), Some((1, 100)));
    assert_eq!(stats.by_type("pycache"), None);
    let counts: i64 = stats.deletions_by_type.iter().map(|t| t.count).sum();
    let bytes: i64 = stats.deletions_by_type.iter().map(|t| t.bytes).sum();
    assert_eq!(counts, stats.total_deletions);
    assert_eq!(bytes, stats.total_space_freed);
    let empty = deletion_statistics(&Vec::new());
    assert_eq!(empty.total_deletions, 0);
    assert!(empty.deletions_by_type.is_empty());
}

#[test]
fn cleanup_selects_records_before_the_cutoff() {
    assert_eq!(cleanup_cutoff(1_000_000, 10), Some(1_000_000 - 864_000));
    assert_eq!(cleanup_cutoff(100, -1), None);
    assert_eq!(cleanup_cutoff(100, i64::MIN), None);
    let index = vec![(5, 1), (10, 2), (10, 3), (20, 4), (i64::MAX, 5)];
    assert_eq!(stale_keys(&index, Some(10)), vec![(5, 1)]);
    assert_eq!(stale_keys(&index, Some(21)), vec![(5, 1), (10, 2), (10, 3), (20, 4)]);
    assert!(stale_keys(&index, Some(0)).is_empty());
    // A negative day count removes every record, future-dated ones too.
    assert_eq!(stale_keys(&index, cleanup_cutoff(100, -1)), index);
}

#[test]
fn decimal_and_init_errors() {
    assert_eq!(decimal_text(0), "0");
    assert_eq!(decimal_text(18446744073709551615), "18446744073709551615");
    match init_err("broken".to_string()) {
        ArtifactError::DatabaseInit(m) => assert_eq!(m, "broken"),
        _ => panic!("wrong kind"),
    }
}

#[test]
fn records_group_into_history_runs() {
    let records = vec![stored(3, "node_modules", 10, 1_000), stored(2, "node_modules", 20, 990), stored(1, "pycache", 5, 100)];
    let runs = runs_from_records(records);
    assert_eq!(runs.len(), 2);
    assert_eq!(runs[0].total_bytes, 30);
    assert_eq!(runs[0].entries[0].path, "/p/3");
    assert_eq!(runs[1].started_at, 100);
}

#[test]
fn statistics_sums_correctly() {
    let first = sample_record().stored_as(1);
    let second = sample_record().stored_as(2);
    let rows = vec![Some(first), Some(second)];
    let stats = deletion_statistics(&rows);
    assert_eq!(stats.total_deletions, 2);
    assert_eq!(stats.total_space_freed, 2 * (512 * 1024 * 1024));
    assert!(stats.contains_type("node_modules"));
}

#[test]
fn aggregations_skip_corrupt_records() {
    // A row that does not decode is handed over as `None`.
    let good = sample_record().stored_as(1);
    let good_size = good.size_bytes;
    let rows = vec![Some(good), None];
    assert_eq!(total_space_freed(&rows), good_size);
    let stats = deletion_statistics(&rows);
    assert_eq!(stats.total_deletions, 1);
    assert_eq!(stats.total_space_freed, good_size);
    assert!(stats.contains_type("node_modules"));
}

#[test]
fn metadata_escapes_control_characters() {
    let m = record_metadata(&Some("a\u{1}\u{8}\t\n\u{c}\r\u{1f}\"\\é\u{7f}".to_string()));
    assert_eq!(
        m,
        "{\"version\":1,\"hostname\":\"a\\u0001\\b\\t\\n\\f\\r\\u001f\\\"\\\\é\u{7f}\"}"
    );
}

#[test]
fn record_at_fixes_every_field() {
    let rule = find("pycache").unwrap();
    let r = DeletionRecord::at(
        "/p/__pycache__".to_string(),
        DirectoryType::new(rule),
        77,
        None,
        Some("p".to_string()),
        1_700_000_000,
        &None,
    );
    assert_eq!(r.id(), 0);
    assert_eq!(r.dir_type, "pycache");
    assert_eq!(r.deleted_at, 1_700_000_000);
    assert_eq!(r.size_bytes, 77);
    assert_eq!(r.metadata, "{\"version\":1,\"hostname\":null}");
}

#[test]
fn successive_allocations_count_up_from_one() {
    let mut stored: Option<u64> = None;
    let mut ids = Vec::new();
    for _ in 0..5 {
        let (id, next) = allocate_id(stored);
        ids.push(id);
        stored = Some(next);
    }
    assert_eq!(ids, vec![1, 2, 3, 4, 5]);
    assert_eq!(stored, Some(6));
}

#[test]
fn successive_records_get_rising_ids() {
    let record = sample_record();
    let mut stored_next: Option<u64> = None;
    let mut ids = Vec::new();
    for _ in 0..3 {
        let w = plan_record(stored_next, &record);
        assert_eq!(w.stored.id(), w.id as i64);
        assert_eq!(w.stored.path, record.path);
        assert_eq!(w.stored.deleted_at, record.deleted_at);
        assert_eq!(w.stored.metadata, record.metadata);
        ids.push(w.id);
        stored_next = Some(w.next);
    }
    assert_eq!(ids, vec![1, 2, 3]);
}
