use md_explorer::listing::{build_listing_page, listing_html, DirEntry};

fn segs(parts: &[&str]) -> Vec<String> {
    parts.iter().map(|s| s.to_string()).collect()
}

fn entry(name: &str, is_dir: bool) -> DirEntry {
    DirEntry { name: name.to_string(), is_dir }
}

#[test]
fn listing_order_hides_dotfiles_and_sorts_dirs_first() {
    let root = segs(&["srv", "content"]);
    let raw = vec![
        entry("B.md", false),
        entry("a", true),
        entry("c.txt", false),
        entry(".hidden", false),
    ];
    let page = build_listing_page(&root, &root, raw);
    let names: Vec<&str> = page.entries.iter().map(|e| e.name.as_str()).collect();
    assert_eq!(names, vec!["a", "B.md", "c.txt"]);
    assert!(page.entries[0].is_dir);
    assert!(page.up_href.is_none());
}

#[test]
fn case_insensitive_name_order() {
    let root = segs(&["r"]);
    let raw = vec![entry("B.md", false), entry("a.txt", false)];
    let page = build_listing_page(&root, &root, raw);
    let names: Vec<&str> = page.entries.iter().map(|e| e.name.as_str()).collect();
    assert_eq!(names, vec!["a.txt", "B.md"]);
}

#[test]
fn directories_sort_before_files() {
    let root = segs(&["r"]);
    let raw = vec![entry("a.md", false), entry("z", true)];
    let page = build_listing_page(&root, &root, raw);
    let names: Vec<&str> = page.entries.iter().map(|e| e.name.as_str()).collect();
    assert_eq!(names, vec!["z", "a.md"]);
}

#[test]
fn root_listing_has_no_up_link() {
    let root = segs(&["srv", "content"]);
    let page = build_listing_page(&root, &root, vec![entry("a.md", false)]);
    assert!(page.up_href.is_none());
    let html = listing_html(&page);
    assert!(!html.contains("⬆ Up"));
}

#[test]
fn child_listing_up_link_points_to_root() {
    let root = segs(&["srv", "content"]);
    let dir = segs(&["srv", "content", "sub"]);
    let page = build_listing_page(&dir, &root, vec![]);
    assert_eq!(page.up_href.as_deref(), Some(""));
    assert_eq!(page.title, "/sub");
    let html = listing_html(&page);
    assert!(html.contains(r#"<li><a class="up" href="/">⬆ Up</a></li>"#));
}

#[test]
fn nested_listing_up_link_points_to_parent() {
    let root = segs(&["srv", "content"]);
    let dir = segs(&["srv", "content", "a b", "deep"]);
    let page = build_listing_page(&dir, &root, vec![]);
    assert_eq!(page.up_href.as_deref(), Some("a%20b"));
    assert_eq!(page.title, "/a b/deep");
}

#[test]
fn entry_links_are_percent_encoded() {
    let root = segs(&["srv", "content"]);
    let page = build_listing_page(&root, &root, vec![entry("a b#c.md", false)]);
    assert_eq!(page.entries[0].href, "a%20b%23c.md");
    let html = listing_html(&page);
    assert!(html.contains(r#"<li><a href="/a%20b%23c.md">📄 a b#c.md</a></li>"#));
}

#[test]
fn entry_names_are_escaped_in_html() {
    let root = segs(&["r"]);
    let page = build_listing_page(&root, &root, vec![entry("a<b>.md", false)]);
    let html = listing_html(&page);
    assert!(html.contains("a&lt;b&gt;.md"));
}

#[test]
fn listing_page_shell() {
    let root = segs(&["r"]);
    let dir = segs(&["r", "docs"]);
    let page = build_listing_page(&dir, &root, vec![]);
    let html = listing_html(&page);
    assert!(html.starts_with("<!DOCTYPE html>"));
    assert!(html.contains("<title>Index of /docs</title>"));
    assert!(html.contains("<header><h1>Index of /docs</h1></header>"));
    assert!(html.ends_with("</html>"));
}
