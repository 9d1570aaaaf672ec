use fileserve::credentials::AuthenticatedIdentity;
use fileserve::resolver::{confine, is_safe, resolve, PathError};

fn alice() -> AuthenticatedIdentity {
    AuthenticatedIdentity {
        username: "alice".to_string(),
        root_directory: "/srv/alice".to_string(),
    }
}

#[test]
fn path_under_the_root_resolves_to_the_canonical_path() {
    let resolved = resolve(&alice(), Some("notes.txt"), Some("/srv/alice/notes.txt")).unwrap();
    assert_eq!(resolved.path(), "/srv/alice/notes.txt");
    assert_eq!(resolved.root(), "/srv/alice");
}

#[test]
fn link_inside_the_root_resolves_to_where_it_leads() {
    let resolved = resolve(&alice(), Some("latest"), Some("/srv/alice/2024/report.pdf")).unwrap();
    assert_eq!(resolved.path(), "/srv/alice/2024/report.pdf");
}

#[test]
fn no_request_resolves_to_the_root() {
    let resolved = resolve(&alice(), None, Some("/srv/alice")).unwrap();
    assert_eq!(resolved.path(), "/srv/alice");
}

#[test]
fn parent_segment_is_refused_even_if_the_path_stays_inside() {
    let result = resolve(&alice(), Some("sub/../notes.txt"), Some("/srv/alice/notes.txt"));
    assert_eq!(result, Err(PathError::Traversal));
}

#[test]
fn parent_segment_is_refused_whatever_the_file_system_says() {
    let me = alice();
    assert_eq!(resolve(&me, Some("../../etc/passwd"), Some("/etc/passwd")), Err(PathError::Traversal));
    assert_eq!(resolve(&me, Some("../../etc/passwd"), None), Err(PathError::Traversal));
    assert_eq!(resolve(&me, Some(".."), Some("/srv")), Err(PathError::Traversal));
    assert_eq!(resolve(&me, Some("a/b/.."), Some("/srv/alice/a")), Err(PathError::Traversal));
}

#[test]
fn link_that_leaves_the_root_is_refused() {
    let result = resolve(&alice(), Some("shortcut"), Some("/etc"));
    assert_eq!(result, Err(PathError::Escape));
    let result = resolve(&alice(), Some("shortcut/passwd"), Some("/etc/passwd"));
    assert_eq!(result, Err(PathError::Escape));
}

#[test]
fn sibling_with_the_root_as_name_prefix_is_refused() {
    let result = resolve(&alice(), Some("x"), Some("/srv/alice-evil/x"));
    assert_eq!(result, Err(PathError::Escape));
}

#[test]
fn absolute_request_is_refused_where_it_leaves_the_root() {
    let result = resolve(&alice(), Some("/etc/passwd"), Some("/etc/passwd"));
    assert_eq!(result, Err(PathError::Escape));
}

#[test]
fn path_without_canonical_form_is_refused() {
    assert_eq!(resolve(&alice(), Some("absent.txt"), None), Err(PathError::Unresolvable));
}

#[test]
fn root_with_a_parent_segment_serves_nothing() {
    let odd = AuthenticatedIdentity {
        username: "odd".to_string(),
        root_directory: "/srv/../srv/odd".to_string(),
    };
    assert_eq!(resolve(&odd, Some("a"), Some("/srv/odd/a")), Err(PathError::Traversal));
}

#[test]
fn confine_checks_containment_only() {
    assert_eq!(confine("/srv/alice", Some("/srv/alice/a")).unwrap().path(), "/srv/alice/a");
    assert_eq!(confine("/srv/alice/", Some("/srv/alice")).unwrap().path(), "/srv/alice");
    assert_eq!(confine("/srv/alice", Some("/srv")), Err(PathError::Escape));
    assert_eq!(confine("/srv/alice", None), Err(PathError::Unresolvable));
}

#[test]
fn is_safe_needs_both_checks() {
    assert!(is_safe("/srv/alice/notes.txt", Some("/srv/alice/notes.txt"), "/srv/alice"));
    assert!(!is_safe("/srv/alice/../alice/notes.txt", Some("/srv/alice/notes.txt"), "/srv/alice"));
    assert!(!is_safe("/srv/alice/shortcut", Some("/etc"), "/srv/alice"));
    assert!(!is_safe("/srv/alice/absent", None, "/srv/alice"));
}
