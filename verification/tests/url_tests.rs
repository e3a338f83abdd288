use md_explorer::paths::{
    child_rel_url, display_path, is_within, path_rel_url, relative_from_root_display,
};
use md_explorer::percent::encode_segment;
use md_explorer::resolve::{resolve_request, JoinDirective};

fn segs(parts: &[&str]) -> Vec<String> {
    parts.iter().map(|s| s.to_string()).collect()
}

#[test]
fn segment_encoding_escapes_reserved_bytes() {
    assert_eq!(encode_segment("a b#c.md"), "a%20b%23c.md");
    assert_eq!(encode_segment("plain.txt"), "plain.txt");
    assert_eq!(encode_segment("q?&<>\"{}`"), "q%3F&%3C%3E%22%7B%7D%60");
}

#[test]
fn segment_encoding_escapes_utf8_bytes() {
    assert_eq!(encode_segment("café"), "caf%C3%A9");
}

#[test]
fn encoded_link_round_trips_to_the_original_name() {
    let encoded = encode_segment("a b#c.md");
    match resolve_request(&encoded) {
        JoinDirective::Join(s) => assert_eq!(s, "a b#c.md"),
        _ => panic!("the encoded name must decode to a join directive"),
    }
}

#[test]
fn rel_url_encodes_each_segment_independently() {
    let root = segs(&["srv"]);
    let path = segs(&["srv", "a b", "c#d.md"]);
    assert_eq!(path_rel_url(&path, &root), "a%20b/c%23d.md");
}

#[test]
fn rel_url_of_root_is_empty() {
    let root = segs(&["srv"]);
    assert_eq!(path_rel_url(&root, &root), "");
}

#[test]
fn child_url_extends_the_directory_url() {
    let root = segs(&["srv"]);
    let dir = segs(&["srv", "a b"]);
    assert_eq!(child_rel_url(&dir, &root, "x y.md"), "a%20b/x%20y.md");
    assert_eq!(child_rel_url(&root, &root, "x y.md"), "x%20y.md");
}

#[test]
fn relative_display_joins_components() {
    let root = segs(&["srv", "content"]);
    let path = segs(&["srv", "content", "a", "b.md"]);
    assert_eq!(relative_from_root_display(&path, &root), "a/b.md");
    assert_eq!(relative_from_root_display(&root, &root), "");
}

#[test]
fn relative_display_outside_root_is_empty() {
    let root = segs(&["srv", "content"]);
    let path = segs(&["srv", "other", "b.md"]);
    assert_eq!(relative_from_root_display(&path, &root), "");
}

#[test]
fn display_path_is_absolute() {
    assert_eq!(display_path(&segs(&["srv", "x"])), "/srv/x");
    assert_eq!(display_path(&segs(&[])), "/");
}

#[test]
fn containment_is_componentwise() {
    let root = segs(&["srv", "content"]);
    assert!(is_within(&segs(&["srv", "content"]), &root));
    assert!(is_within(&segs(&["srv", "content", "a"]), &root));
    assert!(!is_within(&segs(&["srv", "content-extra"]), &root));
    assert!(!is_within(&segs(&["srv"]), &root));
    assert!(!is_within(&segs(&["etc"]), &root));
}
