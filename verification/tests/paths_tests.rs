use ogedit::paths::{path_key_exec, same_path_exec};

fn chars(s: &str) -> Vec<char> {
    s.chars().collect()
}

fn same(a: &str, b: &str, windows: bool) -> bool {
    same_path_exec(&chars(a), &chars(b), windows)
}

#[test]
fn repeated_and_trailing_separators_do_not_matter() {
    assert!(same("/a/b", "/a//b", false));
    assert!(same("/a/b", "/a/b/", false));
    assert!(same("/a/b", "/a/./b", false));
    assert!(same("a/b", "a//b/.", false));
}

#[test]
fn root_current_dir_and_parent_parts_matter() {
    assert!(!same("/a/b", "a/b", false));
    assert!(!same("./a", "a", false));
    assert!(same("./a", ".//a", false));
    assert!(!same("/a/../b", "/b", false));
    assert!(!same("/a/b", "/a/c", false));
    assert!(!same("/a/b", "/a/bc", false));
    assert!(same("", "", false));
    assert!(!same("", "/", false));
}

#[test]
fn backslash_is_a_separator_on_windows_only() {
    assert!(same("C:\\a\\b", "C:/a/b", true));
    assert!(!same("C:\\a\\b", "C:/a/b", false));
}

#[test]
fn path_key_lists_the_names() {
    let (root, dot, names) = path_key_exec(&chars("/x//y/./z/"), false);
    assert!(root);
    assert!(!dot);
    assert_eq!(names, vec![chars("x"), chars("y"), chars("z")]);
    let (root, dot, names) = path_key_exec(&chars("./q"), false);
    assert!(!root);
    assert!(dot);
    assert_eq!(names, vec![chars("q")]);
}
