use md_explorer::escape::html_escape;
use md_explorer::render::{extension, page_wrap, render_markdown_page, serve_plan, ServePlan};

fn segs(parts: &[&str]) -> Vec<String> {
    parts.iter().map(|s| s.to_string()).collect()
}

#[test]
fn mixed_case_md_extension_renders_markdown() {
    assert!(matches!(serve_plan("notes.MD"), ServePlan::Markdown));
    assert!(matches!(serve_plan("notes.md"), ServePlan::Markdown));
    assert!(matches!(serve_plan("notes.MarkDown"), ServePlan::Markdown));
}

#[test]
fn double_extension_is_served_raw_as_text() {
    match serve_plan("notes.md.txt") {
        ServePlan::Raw(ct) => assert_eq!(ct, "text/plain"),
        _ => panic!("a .txt file must be served raw"),
    }
}

#[test]
fn unknown_extension_falls_back_to_octet_stream() {
    match serve_plan("data.zzzqqq") {
        ServePlan::Raw(ct) => assert_eq!(ct, "application/octet-stream"),
        _ => panic!("an unknown extension must be served raw"),
    }
}

#[test]
fn dotfile_has_no_extension() {
    assert_eq!(extension(".hidden"), "");
    match serve_plan(".md") {
        ServePlan::Raw(_) => {}
        _ => panic!("a bare dotfile name has no extension"),
    }
}

#[test]
fn extension_is_after_last_dot() {
    assert_eq!(extension("notes.md.txt"), "txt");
    assert_eq!(extension("notes.MD"), "MD");
    assert_eq!(extension("README"), "");
}

#[test]
fn markdown_is_converted_to_html() {
    let page = render_markdown_page(&segs(&["srv", "doc.md"]), "# Hi");
    assert!(page.contains("<h1>Hi</h1>"));
    assert!(!page.contains("# Hi"));
}

#[test]
fn rendering_twice_is_byte_identical() {
    let path = segs(&["srv", "doc.md"]);
    let text = "# Title\n\nSome *text* with a [link](x.md).\n\n- one\n- two\n";
    let first = render_markdown_page(&path, text);
    let second = render_markdown_page(&path, text);
    assert_eq!(first, second);
}

#[test]
fn markdown_page_has_title_and_subtitle() {
    let page = render_markdown_page(&segs(&["srv", "a<b.md"]), "x");
    assert!(page.contains("<title>a&lt;b.md</title>"));
    assert!(page.contains("<div>/srv/a&lt;b.md</div>"));
}

#[test]
fn page_wrap_escapes_title_not_body() {
    let page = page_wrap("a<b", "<p>x</p>", "sub\"title");
    assert!(page.contains("<title>a&lt;b</title>"));
    assert!(page.contains("<p>x</p>"));
    assert!(page.contains("sub&quot;title"));
}

#[test]
fn html_escape_rewrites_special_characters() {
    assert_eq!(html_escape("<a>&\"b\""), "&lt;a&gt;&amp;&quot;b&quot;");
    assert_eq!(html_escape("plain"), "plain");
    assert_eq!(html_escape(""), "");
}
