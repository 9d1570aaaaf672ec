use fileserve::path::{file_name, has_base_dir, has_parent_dir, join_request, starts_with};
use fileserve::responder::remove_base_dir;
use std::path::{Component, Path};

fn samples() -> Vec<&'static str> {
    vec![
        "", "/", ".", "..", "./", "../", "./a", "../a", "a", "a/", "a/.", "a/..", "a/b", "a//b",
        "a/./b", "a/../b", "/a", "/a/", "/a/b", "/a//b/", "//a", "/.", "/..", "/a/./b",
        "/srv/alice", "/srv/alice/", "/srv/alice-evil", "/srv/alice/notes.txt",
        "/srv/alice/sub/a.txt", "/srv", "srv/alice", "/srv/alice/..", "..a", "a..", "...",
        "/srv/al\u{e9}e/caf\u{e9}.txt",
    ]
}

#[test]
fn join_puts_a_separator_between_root_and_request() {
    assert_eq!(join_request("/srv/alice", Some("notes.txt")), "/srv/alice/notes.txt");
    assert_eq!(join_request("/srv/alice/", Some("notes.txt")), "/srv/alice/notes.txt");
    assert_eq!(join_request("/srv/alice", Some("sub/a.txt")), "/srv/alice/sub/a.txt");
    assert_eq!(join_request("/srv/alice", Some("")), "/srv/alice/");
    assert_eq!(join_request("", Some("notes.txt")), "notes.txt");
    assert_eq!(join_request("/", Some("notes.txt")), "/notes.txt");
}

#[test]
fn join_without_a_request_is_the_root() {
    assert_eq!(join_request("/srv/alice", None), "/srv/alice");
    assert_eq!(join_request("/srv/alice/", None), "/srv/alice/");
}

#[test]
fn an_absolute_request_replaces_the_root() {
    assert_eq!(join_request("/srv/alice", Some("/etc/passwd")), "/etc/passwd");
}

#[test]
fn join_agrees_with_the_standard_library() {
    for root in samples() {
        for rel in samples() {
            let expected = Path::new(root).join(rel);
            assert_eq!(
                join_request(root, Some(rel)),
                expected.to_str().unwrap(),
                "root {:?}, request {:?}",
                root,
                rel
            );
        }
    }
}

#[test]
fn parent_segments_are_seen() {
    assert!(has_parent_dir(".."));
    assert!(has_parent_dir("../a"));
    assert!(has_parent_dir("a/.."));
    assert!(has_parent_dir("/srv/alice/../../etc/passwd"));
    assert!(has_parent_dir("/srv/alice/sub/../notes.txt"));
}

#[test]
fn names_with_dots_are_no_parent_segments() {
    assert!(!has_parent_dir(""));
    assert!(!has_parent_dir("/srv/alice/..notes"));
    assert!(!has_parent_dir("/srv/alice/notes.."));
    assert!(!has_parent_dir("/srv/alice/..."));
    assert!(!has_parent_dir("/srv/alice/./notes"));
}

#[test]
fn parent_segments_agree_with_the_standard_library() {
    for path in samples() {
        let expected = Path::new(path).components().any(|c| c == Component::ParentDir);
        assert_eq!(has_parent_dir(path), expected, "path {:?}", path);
    }
}

#[test]
fn containment_goes_by_components() {
    assert!(starts_with("/root/a", "/root"));
    assert!(starts_with("/root", "/root"));
    assert!(starts_with("/root/a", "/root/"));
    assert!(starts_with("/root//a/./b", "/root/a"));
    assert!(!starts_with("/root-evil/a", "/root"));
    assert!(!starts_with("/root-evil", "/root"));
    assert!(!starts_with("/roo", "/root"));
    assert!(!starts_with("/", "/root"));
    assert!(!starts_with("root/a", "/root"));
    assert!(!starts_with("/root/a", "root"));
}

#[test]
fn containment_agrees_with_the_standard_library() {
    for path in samples() {
        for base in samples() {
            let expected = Path::new(path).starts_with(base);
            assert_eq!(starts_with(path, base), expected, "path {:?}, base {:?}", path, base);
        }
    }
}

#[test]
fn file_name_is_the_last_ordinary_component() {
    assert_eq!(file_name("/srv/alice/notes.txt"), Some("notes.txt".to_string()));
    assert_eq!(file_name("/srv/alice/"), Some("alice".to_string()));
    assert_eq!(file_name("a/."), Some("a".to_string()));
    assert_eq!(file_name("/"), None);
    assert_eq!(file_name(""), None);
    assert_eq!(file_name("."), None);
    assert_eq!(file_name("a/.."), None);
}

#[test]
fn file_name_agrees_with_the_standard_library() {
    for path in samples() {
        let expected = Path::new(path).file_name().map(|n| n.to_str().unwrap().to_string());
        assert_eq!(file_name(path), expected, "path {:?}", path);
    }
}

#[test]
fn base_dir_is_seen_in_the_text_of_the_path() {
    assert!(has_base_dir("/srv/alice", "/srv/alice"));
    assert!(has_base_dir("/srv/alice/", "/srv/alice"));
    assert!(has_base_dir("/srv/alice/sub/a.txt", "/srv/alice"));
    assert!(has_base_dir("/srv/alice/sub/a.txt", "/srv/alice/"));
    assert!(has_base_dir("/srv/alice/a//b", "/srv/alice/"));
    assert!(has_base_dir("/srv", "/"));
    assert!(has_base_dir("a/b", ""));
    assert!(has_base_dir("", ""));
    assert!(!has_base_dir("/srv/alice-evil/x", "/srv/alice"));
    assert!(!has_base_dir("/srv/alicex", "/srv/alice"));
    assert!(!has_base_dir("/srv/alice", "/srv/alice/"));
    assert!(!has_base_dir("/srv", "/srv/alice"));
    assert!(!has_base_dir("/srv//alice/x", "/srv/alice"));
    assert!(!has_base_dir("", "/"));
}

#[test]
fn remove_base_dir_gives_the_text_after_the_base() {
    assert_eq!(remove_base_dir("/srv/alice/sub/a.txt", "/srv/alice"), "sub/a.txt");
    assert_eq!(remove_base_dir("/srv/alice/sub/a.txt", "/srv/alice/"), "sub/a.txt");
    assert_eq!(remove_base_dir("/srv/alice/notes.txt", "/srv/alice"), "notes.txt");
    assert_eq!(remove_base_dir("/srv/alice", "/srv/alice"), "");
    assert_eq!(remove_base_dir("/srv/alice/", "/srv/alice/"), "");
    assert_eq!(remove_base_dir("/srv/alice/", "/srv/alice"), "");
    assert_eq!(remove_base_dir("/srv/alice/sub", "/"), "srv/alice/sub");
    assert_eq!(remove_base_dir("/a/b", ""), "/a/b");
    assert_eq!(remove_base_dir("a/b/c", "a"), "b/c");
}

#[test]
fn remove_base_dir_leaves_the_rest_of_the_text_as_it_is() {
    assert_eq!(remove_base_dir("/srv/alice/a//b", "/srv/alice/"), "a//b");
    assert_eq!(remove_base_dir("/srv/alice/a//b", "/srv/alice"), "a//b");
    assert_eq!(remove_base_dir("/srv/alice/a/./b/", "/srv/alice"), "a/./b/");
    assert_eq!(remove_base_dir("/srv/alice/a/../b", "/srv/alice/"), "a/../b");
    assert_eq!(remove_base_dir("/srv/alice//a", "/srv/alice"), "/a");
    assert_eq!(remove_base_dir("/srv/alice//a", "/srv/alice/"), "/a");
}

#[test]
fn base_and_what_is_left_make_up_the_path() {
    let paths = [
        "/srv/alice", "/srv/alice/", "/srv/alice/sub", "/srv/alice/sub/a.txt", "/srv/alice/a//b",
        "/srv/alice//a", "/", "/srv", "a/b/c", "a", "",
    ];
    for path in paths {
        for base in paths {
            if has_base_dir(path, base) {
                let rest = remove_base_dir(path, base);
                let closed = base.is_empty() || base.ends_with('/') || path == base;
                let expected =
                    if closed { format!("{}{}", base, rest) } else { format!("{}/{}", base, rest) };
                assert_eq!(expected, path, "path {:?}, base {:?}", path, base);
            }
        }
    }
}

#[test]
fn remove_base_dir_agrees_with_strip_prefix() {
    let paths = ["/srv/alice", "/srv/alice/sub", "/srv/alice/sub/a.txt", "/", "/srv", "a/b/c", "a"];
    for path in paths {
        for base in paths {
            assert_eq!(has_base_dir(path, base), Path::new(path).starts_with(base));
            if has_base_dir(path, base) {
                let expected = Path::new(path).strip_prefix(base).unwrap();
                assert_eq!(
                    remove_base_dir(path, base),
                    expected.to_str().unwrap(),
                    "path {:?}, base {:?}",
                    path,
                    base
                );
            }
        }
    }
}
