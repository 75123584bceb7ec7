use artifact::paths::{path_eq, path_parts};

fn parts(s: &str) -> Vec<String> {
    path_parts(s).iter().map(|p| p.iter().collect()).collect()
}

#[test]
fn components_of_path_text() {
    assert_eq!(parts("/a/b"), vec!["/", "a", "b"]);
    assert_eq!(parts("/a//b/./c/"), vec!["/", "a", "b", "c"]);
    assert_eq!(parts("./x"), vec![".", "x"]);
    assert_eq!(parts("a/../b"), vec!["a", "..", "b"]);
    assert_eq!(parts(".hidden"), vec![".hidden"]);
    assert!(parts("").is_empty());
}

#[test]
fn equal_paths_by_components() {
    assert!(path_eq("/a/b", "/a//b/"));
    assert!(path_eq("/a/./b", "/a/b"));
    assert!(path_eq("a/b", "a/b/."));
    assert!(!path_eq("/a/b", "a/b"));
    assert!(!path_eq("./a", "a"));
    assert!(!path_eq("/a/b", "/a/bc"));
    assert!(!path_eq("/a/..", "/"));
}
