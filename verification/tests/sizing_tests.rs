use artifact::browse::{browse_entries, browser_order, BrowseEntry};
use artifact::sizing::DiskUsage;

fn entry(name: &str) -> BrowseEntry {
    BrowseEntry { name: name.to_string(), path: format!("/r/{name}") }
}

#[test]
fn hard_links_are_counted_once() {
    let mut u = DiskUsage::new();
    u.add_file(8, 1, 1, 10);
    assert_eq!(u.total(), 4096);
    u.add_file(8, 2, 1, 11);
    u.add_file(8, 2, 1, 11);
    u.add_file(8, 3, 1, 11);
    assert_eq!(u.total(), 8192);
    // Same inode number on another device is another file.
    u.add_file(1, 2, 2, 11);
    assert_eq!(u.total(), 8704);
    // A single-link file is always counted, even with a repeated inode.
    u.add_file(1, 1, 1, 10);
    assert_eq!(u.total(), 9216);
}

#[test]
fn usage_saturates_blocks_and_wraps_total() {
    let mut u = DiskUsage::new();
    u.add_file(u64::MAX, 1, 0, 0);
    assert_eq!(u.total(), u64::MAX);
    u.add_length(2);
    assert_eq!(u.total(), 1);
}

#[test]
fn browser_lists_visible_dirs_case_insensitively() {
    let dirs = vec![entry("zebra"), entry(".hidden"), entry("Apple"), entry("apple"), entry("banana")];
    let names: Vec<_> = browser_order(dirs).into_iter().map(|e| e.name).collect();
    assert_eq!(names, vec!["Apple", "apple", "banana", "zebra"]);
    let mixed: Vec<_> = browser_order(vec![entry("Zoo"), entry("apple")]).into_iter().map(|e| e.name).collect();
    assert_eq!(mixed, vec!["apple", "Zoo"]);
    let lines = browse_entries(Some("/".to_string()), vec![entry("a")]);
    assert_eq!(lines[0].name, "..");
    assert_eq!(lines[0].path, "/");
    assert_eq!(lines[1].name, "a");
    assert_eq!(browse_entries(None, vec![entry("a")]).len(), 1);
}
