use artifact::cleanup::{operation_id, operation_id_for, plan_cleanup, CleanupRun, DeletionManifest};
use artifact::config::DeleteMode;
use artifact::directory_item::{DirectoryItem, DirectoryType};
use artifact::rules::find;
use artifact::session::Results;

fn item(path: &str, size: u64, orphan: bool) -> DirectoryItem {
    let rule = find("node_modules").unwrap();
    DirectoryItem::new(path.to_string(), DirectoryType::new(rule), size, None, Some("/proj".to_string()), None, orphan)
}

fn loaded() -> Results {
    let mut r = Results::new(false);
    r.load(vec![item("/a", 10, false), item("/b", 20, true), item("/c", 30, false)]);
    r
}

#[test]
fn load_sets_totals() {
    let r = loaded();
    assert_eq!(r.total_size(), 60);
    assert_eq!(r.selected_size(), 0);
    assert_eq!(r.directories().len(), 3);
}

#[test]
fn selection_tracks_selected_size() {
    let mut r = loaded();
    assert!(r.toggle_selection_by_path("/b"));
    assert_eq!(r.selected_size(), 20);
    assert!(r.set_selected("/c", true));
    assert_eq!(r.selected_size(), 50);
    assert!(!r.toggle_selection_by_path("/missing"));
    assert!(r.toggle_selection(0));
    assert_eq!(r.selected_size(), 60);
    assert!(!r.toggle_selection(9));
    r.deselect_all();
    assert_eq!(r.selected_size(), 0);
}

#[test]
fn toggling_twice_restores_selection() {
    let mut r = loaded();
    r.toggle_selection_by_path("/a");
    r.toggle_selection_by_path("/a");
    assert_eq!(r.selected_size(), 0);
    assert!(r.directories().iter().all(|d| !d.selected));
}

#[test]
fn orphan_filter_limits_visible_and_select_all() {
    let mut r = loaded();
    r.toggle_orphaned_only();
    assert!(r.show_orphaned_only());
    assert_eq!(r.visible_indices(), vec![1]);
    r.select_all_visible();
    assert_eq!(r.selected_size(), 20);
    r.toggle_orphaned_only();
    assert_eq!(r.visible_indices(), vec![0, 1, 2]);
    r.select_all_visible();
    assert_eq!(r.selected_size(), 60);
}

#[test]
fn deletion_updates_results() {
    let mut r = loaded();
    r.set_selected("/a", true);
    r.set_selected("/c", true);
    let picked: Vec<_> = r.selected_items().iter().map(|d| d.path.clone()).collect();
    assert_eq!(picked, vec!["/a", "/c"]);
    r.item_deleted("/a");
    assert_eq!(r.deleted_count(), 1);
    assert_eq!(r.directories().len(), 2);
    r.delete_finished();
    assert_eq!(r.total_size(), 50);
    assert_eq!(r.selected_size(), 0);
    r.clear();
    assert!(r.directories().is_empty());
    assert_eq!(r.total_size(), 0);
}

#[test]
fn cleanup_plan_needs_a_selection_and_no_running_cleanup() {
    let mut r = loaded();
    assert!(plan_cleanup(&r, false).is_none());
    r.set_selected("/b", true);
    assert!(plan_cleanup(&r, true).is_none());
    let plan = plan_cleanup(&r, false).unwrap();
    assert_eq!(plan.len(), 1);
    assert_eq!(plan[0].path, "/b");
}

#[test]
fn cleanup_run_hands_out_items_until_cancelled() {
    let items = vec![item("/a", 1, false), item("/b", 2, false), item("/c", 3, false)];
    let manifest = DeletionManifest::created("delete-1".to_string(), 1, "/".to_string(), DeleteMode::Trash, &items);
    let mut run = CleanupRun::start(&manifest, items);
    let first = run.next_item(false).unwrap();
    assert_eq!(first.path, "/a");
    run.item_removed();
    let second = run.next_item(false).unwrap();
    assert_eq!(second.path, "/b");
    // /b failed: not counted.
    assert!(run.next_item(true).is_none());
    assert!(run.next_item(false).is_none());
    assert_eq!(run.outcome(), (1, true));

    let one = vec![item("/x", 1, false)];
    let manifest = DeletionManifest::created("delete-2".to_string(), 1, "/".to_string(), DeleteMode::Trash, &one);
    let mut all = CleanupRun::start(&manifest, one);
    assert!(all.next_item(false).is_some());
    all.item_removed();
    assert!(all.next_item(false).is_none());
    assert_eq!(all.outcome(), (1, false));
}

#[test]
fn manifest_records_selected_items() {
    let items = vec![item("/a", 10, false), item("/b", 20, true)];
    let m = DeletionManifest::created("delete-5".to_string(), 42, "/root".to_string(), DeleteMode::Trash, &items);
    assert_eq!(m.total_items, 2);
    assert_eq!(m.total_bytes, 30);
    assert_eq!(m.created_at, 42);
    assert_eq!(m.items[1].path, "/b");
    assert_eq!(m.items[1].rule_name, "node_modules");
    assert!(m.items[1].is_orphaned);
    assert_eq!(m.items[0].project_root.as_deref(), Some("/proj"));
    let now = DeletionManifest::new("delete-6".to_string(), "/root".to_string(), DeleteMode::Permanent, &items);
    assert!(now.created_at > 0);
    assert_eq!(now.delete_mode, DeleteMode::Permanent);
}

#[test]
fn operation_ids_carry_the_time() {
    assert_eq!(operation_id_for(0), "delete-0");
    assert_eq!(operation_id_for(1_700_000_000_123_456_789), "delete-1700000000123456789");
    let id = operation_id();
    assert!(id.starts_with("delete-"));
    assert!(id["delete-".len()..].chars().all(|c| c.is_ascii_digit()));
}

#[test]
fn paths_match_by_components() {
    let mut r = loaded();
    assert!(r.toggle_selection_by_path("/b/"));
    assert_eq!(r.selected_size(), 20);
    assert!(r.set_selected("//c/.", true));
    assert_eq!(r.selected_size(), 50);
    assert!(!r.toggle_selection_by_path("b"));
    r.item_deleted("/a//");
    assert_eq!(r.directories().len(), 2);
    assert_eq!(r.directories()[0].path, "/b");
}
