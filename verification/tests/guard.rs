use dsh_desktop::guard::{path_starts_with, within_allowed_roots};

#[test]
fn prefix_match_respects_component_boundary() {
    let inside = "/data/app/dependencies/dsh";
    let root = "/data/app";
    assert!(path_starts_with(inside, root, false));
    let sibling = "/data/app2/x";
    assert!(!path_starts_with(sibling, root, false));
}

#[test]
fn repeated_and_trailing_separators_do_not_matter() {
    assert!(path_starts_with("/data//app/x", "/data/app/", false));
    assert!(path_starts_with("/data/app", "/data/app", false));
    assert!(!path_starts_with("/data", "/data/app", false));
}

#[test]
fn relative_paths_are_not_under_absolute_roots() {
    assert!(!path_starts_with("data/app/x", "/data/app", false));
    assert!(path_starts_with("data/app/x", "data", false));
}

#[test]
fn windows_separators_split_components() {
    assert!(path_starts_with(r"C:\Users\person\AppData\Desktop\logs", r"C:\Users\person", true));
    assert!(!path_starts_with(r"C:\Users\personal\x", r"C:\Users\person", true));
}

#[test]
fn any_allowed_root_admits_a_path() {
    let roots = vec!["/home/u/Downloads".to_string(), "/home/u/.dsh".to_string()];
    assert!(within_allowed_roots("/home/u/.dsh/logs/a.log", &roots, false));
    assert!(!within_allowed_roots("/home/u/.dshx/a.log", &roots, false));
    assert!(!within_allowed_roots("/etc/passwd", &Vec::new(), false));
}

#[test]
fn backslashes_separate_names_only_on_windows() {
    assert!(!path_starts_with(r"/a\b", "/a", false));
    assert!(path_starts_with(r"/a\b", "/a", true));
    assert!(path_starts_with(r"C:\Users\x", r"C:\Users", true));
    assert!(!path_starts_with(r"C:\Users\x", r"C:\Users", false));
}

#[test]
fn inner_dot_names_are_ignored_but_a_leading_one_is_kept() {
    assert!(path_starts_with("/data/./app/x", "/data/app", false));
    assert!(path_starts_with("/data/app/.", "/data/app", false));
    assert!(!path_starts_with("./data/app", "data", false));
    assert!(path_starts_with("./data/app", "./data", false));
    assert!(path_starts_with("/data/../etc", "/data", false));
}
