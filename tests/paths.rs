use trm::path::{join_path, mirror, parent, parent_is, path_components, unmirror, PathError};

#[test]
fn mirror_strips_root_separator() {
    assert_eq!(mirror("/tmp/trm-u", "/home/u/a.txt"), "/tmp/trm-u/home/u/a.txt");
}

#[test]
fn mirror_with_root_ending_in_separator() {
    assert_eq!(mirror("/tmp/trash/", "/home/u/a.txt"), "/tmp/trash/home/u/a.txt");
}

#[test]
fn mirror_of_filesystem_root() {
    assert_eq!(mirror("/t", "/"), "/t/");
}

#[test]
fn unmirror_inside_root() {
    assert_eq!(unmirror("/tmp/trm-u", "/tmp/trm-u/home/u/a.txt"), Ok("/home/u/a.txt".to_string()));
}

#[test]
fn unmirror_of_root_itself() {
    assert_eq!(unmirror("/tmp/trm-u", "/tmp/trm-u"), Ok("/".to_string()));
}

#[test]
fn unmirror_outside_root() {
    assert_eq!(unmirror("/tmp/trm-u", "/home/u/a.txt"), Err(PathError::OutsideRoot));
}

#[test]
fn unmirror_sibling_with_common_prefix_is_outside() {
    assert_eq!(unmirror("/tmp/trm-u", "/tmp/trm-user/a.txt"), Err(PathError::OutsideRoot));
}

#[test]
fn mirror_then_unmirror_round_trip() {
    let root = "/var/trash";
    for p in ["/a", "/home/u/x y.txt", "/", "/ünï/cödé"] {
        let m = mirror(root, p);
        assert_eq!(unmirror(root, &m), Ok(p.to_string()));
    }
}

#[test]
fn parent_of_paths() {
    assert_eq!(parent("/home/u/a.txt"), Some("/home/u".to_string()));
    assert_eq!(parent("/home/u/sub/b.txt"), Some("/home/u/sub".to_string()));
    assert_eq!(parent("/a"), Some("/".to_string()));
    assert_eq!(parent("a"), Some(String::new()));
    assert_eq!(parent("/home/u/"), Some("/home".to_string()));
    assert_eq!(parent("/"), None);
    assert_eq!(parent(""), None);
}

fn key(p: &str) -> (bool, Vec<String>) {
    path_components(p)
}

#[test]
fn components_ignore_repeated_separators_and_dots() {
    let abc = (true, vec!["a".to_string(), "b".to_string(), "c".to_string()]);
    assert_eq!(key("/a/b/c"), abc);
    assert_eq!(key("/a//b/./c/"), abc);
    assert_eq!(key("/"), (true, vec![]));
    assert_eq!(key(""), (false, vec![]));
    assert_eq!(key("./a/."), (false, vec![".".to_string(), "a".to_string()]));
    assert_eq!(key("a/../b"), (false, vec!["a".to_string(), "..".to_string(), "b".to_string()]));
}

#[test]
fn parent_compared_by_components() {
    assert!(parent_is("/a/b", &key("/a/.")));
    assert!(parent_is("/a/b", &key("/a//")));
    assert!(parent_is("/a//b/", &key("/a")));
    assert!(parent_is("/a", &key("/")));
    assert!(parent_is("a", &key("")));
    assert!(!parent_is("/a/b/c", &key("/a")));
    assert!(!parent_is("/", &key("/")));
    assert!(!parent_is("a/b", &key("/a")));
}

#[test]
fn join_relative_and_absolute() {
    assert_eq!(join_path("/home/u", "a.txt"), "/home/u/a.txt");
    assert_eq!(join_path("/home/u/", "a.txt"), "/home/u/a.txt");
    assert_eq!(join_path("/home/u", "/etc/x"), "/etc/x");
    assert_eq!(join_path("", "a"), "a");
}
