use artifact::config::{DeleteMode, ScanConfig};
use artifact::directory_item::{days_between, DirectoryItem, DirectoryType, NANOS_PER_DAY};
use artifact::rules::all_rules;
use artifact::utils::format_number;
use std::time::{SystemTime, UNIX_EPOCH};

fn with_modified(last_modified: Option<i128>) -> DirectoryItem {
    let rule = all_rules()[0];
    DirectoryItem::new("/tmp/x".to_string(), DirectoryType::new(rule), 0, last_modified, None, None, false)
}

fn now_nanos() -> i128 {
    SystemTime::now().duration_since(UNIX_EPOCH).unwrap().as_nanos() as i128
}

#[test]
fn scan_config_default_delete_mode_is_trash() {
    let config = ScanConfig::default();
    assert_eq!(config.delete_mode, DeleteMode::Trash);
}

#[test]
fn days_since_modified_none_when_missing() {
    assert_eq!(with_modified(None).days_since_modified(), None);
}

#[test]
fn days_since_modified_past() {
    let three_days = now_nanos() - (3 * 86_400 + 100) * 1_000_000_000;
    let item = with_modified(Some(three_days));
    assert_eq!(item.days_since_modified(), Some(3));
}

#[test]
fn days_since_modified_future_is_zero() {
    let future = now_nanos() + 365 * 86_400 * 1_000_000_000;
    let item = with_modified(Some(future));
    assert_eq!(item.days_since_modified(), Some(0));
}

#[test]
fn format_number_matches_history_impl() {
    assert_eq!(format_number(0), "0");
    assert_eq!(format_number(1_234_567), "1,234,567");
}

#[test]
fn days_between_whole_days_and_future() {
    assert_eq!(days_between(10 * NANOS_PER_DAY, 3 * NANOS_PER_DAY), 7);
    assert_eq!(days_between(10 * NANOS_PER_DAY, 3 * NANOS_PER_DAY + 1), 6);
    assert_eq!(days_between(0, 5), 0);
    assert_eq!(days_between(5, 5), 0);
}

#[test]
fn directory_type_name_round_trips() {
    for rule in all_rules() {
        let t = DirectoryType::from_name(rule.name).expect("built-in name resolves");
        assert_eq!(t.name(), rule.name);
        assert_eq!(t.display_text(), rule.dir_name);
    }
    assert!(DirectoryType::from_name("unknown").is_none());
}
