use md_explorer::errors::ResolutionFailure;
use md_explorer::resolve::{finish_resolve, resolve_request, JoinDirective};

fn segs(parts: &[&str]) -> Vec<String> {
    parts.iter().map(|s| s.to_string()).collect()
}

#[test]
fn empty_path_means_root() {
    assert!(matches!(resolve_request(""), JoinDirective::UseRoot));
}

#[test]
fn slash_means_root() {
    assert!(matches!(resolve_request("/"), JoinDirective::UseRoot));
    assert!(matches!(resolve_request("///"), JoinDirective::UseRoot));
}

#[test]
fn dot_means_root() {
    assert!(matches!(resolve_request("."), JoinDirective::UseRoot));
    assert!(matches!(resolve_request("/."), JoinDirective::UseRoot));
}

#[test]
fn encoded_dot_decodes_to_root() {
    // %2E percent-decodes to `.`, so the decoded path denotes the root.
    assert!(matches!(resolve_request("%2E"), JoinDirective::UseRoot));
}

#[test]
fn plain_path_is_joined() {
    match resolve_request("docs/notes.md") {
        JoinDirective::Join(s) => assert_eq!(s, "docs/notes.md"),
        _ => panic!("expected a join directive"),
    }
}

#[test]
fn leading_slashes_are_trimmed() {
    match resolve_request("//docs//notes.md") {
        JoinDirective::Join(s) => assert_eq!(s, "docs//notes.md"),
        _ => panic!("expected a join directive"),
    }
}

#[test]
fn percent_encoded_name_decodes() {
    match resolve_request("a%20b%23c.md") {
        JoinDirective::Join(s) => assert_eq!(s, "a b#c.md"),
        _ => panic!("expected a join directive"),
    }
}

#[test]
fn traversal_suffix_is_kept_for_canonicalization() {
    // Lexical `..` is not resolved here; containment is enforced on the
    // canonical form afterwards.
    match resolve_request("..%2Fsecret") {
        JoinDirective::Join(s) => assert_eq!(s, "../secret"),
        _ => panic!("expected a join directive"),
    }
}

#[test]
fn contained_path_is_accepted() {
    let root = segs(&["srv", "content"]);
    let canon = segs(&["srv", "content", "docs", "a.md"]);
    let r = finish_resolve(&canon, false, &root).expect("contained path must resolve");
    assert_eq!(r.segments, canon);
    assert!(!r.is_dir);
}

#[test]
fn root_itself_is_accepted() {
    let root = segs(&["srv", "content"]);
    let r = finish_resolve(&root, true, &root).expect("the root must resolve");
    assert_eq!(r.segments, root);
    assert!(r.is_dir);
}

#[test]
fn escaped_path_is_forbidden() {
    let root = segs(&["srv", "content"]);
    let outside = segs(&["srv", "secret"]);
    match finish_resolve(&outside, false, &root) {
        Err(ResolutionFailure::Forbidden) => {}
        _ => panic!("a path outside the root must be forbidden"),
    }
}

#[test]
fn sibling_prefix_is_forbidden() {
    // "content-extra" must not count as contained in "content".
    let root = segs(&["srv", "content"]);
    let outside = segs(&["srv", "content-extra", "x.md"]);
    match finish_resolve(&outside, false, &root) {
        Err(ResolutionFailure::Forbidden) => {}
        _ => panic!("a sibling with a common name prefix must be forbidden"),
    }
}

#[test]
fn filesystem_root_escape_is_forbidden() {
    let root = segs(&["srv", "content"]);
    let outside = segs(&["etc", "passwd"]);
    match finish_resolve(&outside, false, &root) {
        Err(ResolutionFailure::Forbidden) => {}
        _ => panic!("an absolute escape must be forbidden"),
    }
}
