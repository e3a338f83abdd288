//! Content rendering: dispatch by filename extension (case-insensitive) to
//! Markdown rendering or raw passthrough, and the fixed page shell around
//! rendered Markdown.

use crate::escape::{html_escape, spec_escaped};
use crate::paths::{display_path, spec_display_path, views_of_segs};
use vstd::prelude::*;

verus! {

/// The index just after the last `.` that can begin an extension (a dot at
/// the very start of the name never does), or 0 when there is none.
pub open spec fn dot_split(name: Seq<char>) -> int
    decreases name.len(),
{
    if name.len() <= 1 {
        0
    } else if name[name.len() - 1] == '.' {
        name.len() - 1
    } else {
        dot_split(name.drop_last())
    }
}

/// The extension of a filename: what follows the last `.`, empty when the
/// name has no extension.
pub open spec fn spec_ext(name: Seq<char>) -> Seq<char> {
    if dot_split(name) == 0 {
        Seq::empty()
    } else {
        name.subrange(dot_split(name) + 1, name.len() as int)
    }
}

/// The extension of a filename, as a new string.
pub fn extension(name: &str) -> (r: String)
    ensures
        r@ == spec_ext(name@),
{
    let n = name.unicode_len();
    if n == 0 {
        return String::new();
    }
    let mut i: usize = n;
    assert(name@.take(n as int) =~= name@);
    while i > 1 && name.get_char(i - 1) != '.'
        invariant
            1 <= i <= n,
            n == name@.len(),
            dot_split(name@) == dot_split(name@.take(i as int)),
        decreases i,
    {
        proof {
            assert(name@.take(i as int).drop_last() =~= name@.take(i - 1 as int));
        }
        i -= 1;
    }
    proof {
        assert(name@.take(n as int) =~= name@);
    }
    if i > 1 {
        let r = name.substring_char(i, n);
        proof {
            assert(name@.take(i as int)[i - 1] == name@[i - 1]);
            assert(dot_split(name@) == i - 1);
            assert(r@ =~= spec_ext(name@));
        }
        r.to_owned()
    } else {
        proof {
            assert(name@.take(1).len() == 1);
            assert(dot_split(name@) == 0);
        }
        String::new()
    }
}

/// The code point of a character with ASCII uppercase letters lowered.
pub open spec fn lower_code(c: char) -> u32 {
    if 0x41 <= c as u32 && c as u32 <= 0x5a {
        (c as u32 + 0x20) as u32
    } else {
        c as u32
    }
}

/// ASCII-case-insensitive equality of character sequences.
pub open spec fn ascii_ieq(a: Seq<char>, b: Seq<char>) -> bool {
    a.len() == b.len() && (forall|i: int| 0 <= i < a.len() ==> lower_code(a[i]) == lower_code(
        b[i],
    ))
}

fn lower_code_exec(c: char) -> (r: u32)
    ensures
        r == lower_code(c),
{
    let x = c as u32;
    if 0x41 <= x && x <= 0x5a {
        x + 0x20
    } else {
        x
    }
}

fn ascii_ieq_exec(a: &str, b: &str) -> (r: bool)
    ensures
        r == ascii_ieq(a@, b@),
{
    let n = a.unicode_len();
    if n != b.unicode_len() {
        return false;
    }
    let mut i: usize = 0;
    while i < n
        invariant
            0 <= i <= n,
            n == a@.len() && n == b@.len(),
            forall|j: int| 0 <= j < i ==> lower_code(a@[j]) == lower_code(b@[j]),
        decreases n - i,
    {
        if lower_code_exec(a.get_char(i)) != lower_code_exec(b.get_char(i)) {
            return false;
        }
        i += 1;
    }
    true
}

/// Whether a filename selects the Markdown path: its extension is `md` or
/// `markdown`, compared ASCII-case-insensitively.
pub open spec fn is_markdown_name(name: Seq<char>) -> bool {
    ascii_ieq(spec_ext(name), "md"@) || ascii_ieq(spec_ext(name), "markdown"@)
}

/// The HTML fragment pulldown-cmark produces for a Markdown text with
/// tables, strikethrough, footnotes and task lists enabled. The conversion
/// is a pure function of the input text.
pub uninterp spec fn markdown_html_of(text: Seq<char>) -> Seq<char>;

/// Relies on pulldown_cmark::Parser::new_ext and
/// pulldown_cmark::html::push_html with the tables, strikethrough,
/// footnotes and task-list extensions enabled: the produced HTML fragment
/// depends on the input text alone.
#[verifier::external_body]
fn markdown_to_html(text: &str) -> (r: String)
    ensures
        r@ == markdown_html_of(text@),
{
    let mut options = pulldown_cmark::Options::empty();
    options.insert(pulldown_cmark::Options::ENABLE_TABLES);
    options.insert(pulldown_cmark::Options::ENABLE_STRIKETHROUGH);
    options.insert(pulldown_cmark::Options::ENABLE_FOOTNOTES);
    options.insert(pulldown_cmark::Options::ENABLE_TASKLISTS);
    let parser = pulldown_cmark::Parser::new_ext(text, options);
    let mut out = String::new();
    pulldown_cmark::html::push_html(&mut out, parser);
    out
}

/// The MIME type guessed from a filename's extension, with
/// `application/octet-stream` for an unknown one. The guess is made from a
/// fixed table and depends on the filename alone.
pub uninterp spec fn mime_of(name: Seq<char>) -> Seq<char>;

/// Relies on mime_guess::from_path and MimeGuess::first_or_octet_stream:
/// the MIME type is chosen from the filename's extension by a fixed table,
/// falling back to application/octet-stream.
#[verifier::external_body]
fn guess_mime(name: &str) -> (r: String)
    ensures
        r@ == mime_of(name@),
{
    mime_guess::from_path(name).first_or_octet_stream().as_ref().to_owned()
}

/// The dispatch decision for a confined file: render it as Markdown, or
/// pass it through raw with the given response content type.
pub enum ServePlan {
    Markdown,
    Raw(String),
}

/// Decides, from the filename alone, whether the file is rendered as
/// Markdown or served raw, and with which content type when raw.
pub fn serve_plan(name: &str) -> (r: ServePlan)
    ensures
        r is Markdown <==> is_markdown_name(name@),
        r matches ServePlan::Raw(ct) ==> ct@ == mime_of(name@),
{
    let ext = extension(name);
    if ascii_ieq_exec(ext.as_str(), "md") || ascii_ieq_exec(ext.as_str(), "markdown") {
        ServePlan::Markdown
    } else {
        ServePlan::Raw(guess_mime(name))
    }
}

/// The fixed page shell: escaped title, escaped subtitle in the header,
/// and the already-rendered HTML fragment embedded unescaped.
pub open spec fn spec_page_wrap(title: Seq<char>, body: Seq<char>, subtitle: Seq<char>) -> Seq<
    char,
> {
    r#"<!DOCTYPE html>
<html lang="en"><head>
<meta charset="utf-8"><meta name="viewport" content="width=device-width, initial-scale=1">
<title>"#@
        + spec_escaped(title) + r#"</title>
<style>
  :root { color-scheme: dark; }
  body { margin: 0; font-family: ui-sans-serif, system-ui, -apple-system, Segoe UI, Roboto, Arial; background:#0b0d12; color:#e5e7eb; }
  header { padding: 16px 24px; background: #0f1320; border-bottom:1px solid #1f2433; display:flex; gap:12px; align-items:center; }
  a.back { color:#a7f3d0; text-decoration:none; padding:6px 10px; border:1px solid #1f2433; border-radius:8px; background:#101626; }
  a.back:hover { background:#0f1524; }
  main { max-width: 900px; margin: 0 auto; padding: 24px; }
  .markdown { line-height:1.7; }
  .markdown h1, .markdown h2, .markdown h3 { margin-top: 1.2em; }
  .markdown code { background:#111726; padding:2px 6px; border-radius:6px; }
  .markdown pre code { display:block; padding:14px; overflow:auto; }
  .markdown blockquote { border-left:4px solid #334155; padding-left:12px; color:#cbd5e1; }
  .markdown a { color:#c7d2fe; text-decoration:none; }
  .markdown a:hover { text-decoration:underline; }
  hr { border-color:#1f2433; }
</style>
</head>
<body>
<header>
  <a class="back" href="javascript:history.back()">⬅ Back</a>
  <div>"#@
        + spec_escaped(subtitle) + r#"</div>
</header>
<main>
  <article class="markdown">"#@ + body + r#"</article>
</main>
</body>
</html>"#@
}

/// Wraps an already-rendered HTML fragment in the fixed page shell, with
/// the title and subtitle escaped.
pub fn page_wrap(title: &str, body_html: &str, subtitle: &str) -> (r: String)
    ensures
        r@ == spec_page_wrap(title@, body_html@, subtitle@),
{
    let mut out = String::new();
    out.append(
        r#"<!DOCTYPE html>
<html lang="en"><head>
<meta charset="utf-8"><meta name="viewport" content="width=device-width, initial-scale=1">
<title>"#,
    );
    let et = html_escape(title);
    out.append(et.as_str());
    out.append(
        r#"</title>
<style>
  :root { color-scheme: dark; }
  body { margin: 0; font-family: ui-sans-serif, system-ui, -apple-system, Segoe UI, Roboto, Arial; background:#0b0d12; color:#e5e7eb; }
  header { padding: 16px 24px; background: #0f1320; border-bottom:1px solid #1f2433; display:flex; gap:12px; align-items:center; }
  a.back { color:#a7f3d0; text-decoration:none; padding:6px 10px; border:1px solid #1f2433; border-radius:8px; background:#101626; }
  a.back:hover { background:#0f1524; }
  main { max-width: 900px; margin: 0 auto; padding: 24px; }
  .markdown { line-height:1.7; }
  .markdown h1, .markdown h2, .markdown h3 { margin-top: 1.2em; }
  .markdown code { background:#111726; padding:2px 6px; border-radius:6px; }
  .markdown pre code { display:block; padding:14px; overflow:auto; }
  .markdown blockquote { border-left:4px solid #334155; padding-left:12px; color:#cbd5e1; }
  .markdown a { color:#c7d2fe; text-decoration:none; }
  .markdown a:hover { text-decoration:underline; }
  hr { border-color:#1f2433; }
</style>
</head>
<body>
<header>
  <a class="back" href="javascript:history.back()">⬅ Back</a>
  <div>"#,
    );
    let es = html_escape(subtitle);
    out.append(es.as_str());
    out.append(
        r#"</div>
</header>
<main>
  <article class="markdown">"#,
    );
    out.append(body_html);
    out.append(
        r#"</article>
</main>
</body>
</html>"#,
    );
    out
}

/// The page title of a rendered Markdown file: its bare filename, with a
/// fixed fallback for a path with no components.
pub open spec fn spec_md_title(path: Seq<Seq<char>>) -> Seq<char> {
    if path.len() > 0 {
        path.last()
    } else {
        "Markdown"@
    }
}

/// The full page produced for a Markdown file at the given canonical path
/// with the given text content.
pub open spec fn spec_markdown_page(path: Seq<Seq<char>>, content: Seq<char>) -> Seq<char> {
    spec_page_wrap(spec_md_title(path), markdown_html_of(content), spec_display_path(path))
}

/// Renders a Markdown file: converts its text to HTML and wraps it in the
/// page shell, titled with the bare filename and subtitled with the
/// displayed path.
pub fn render_markdown_page(path: &Vec<String>, content: &str) -> (r: String)
    ensures
        r@ == spec_markdown_page(views_of_segs(path@), content@),
{
    let body = markdown_to_html(content);
    let subtitle = display_path(path);
    if path.len() > 0 {
        page_wrap(path[path.len() - 1].as_str(), body.as_str(), subtitle.as_str())
    } else {
        page_wrap("Markdown", body.as_str(), subtitle.as_str())
    }
}

/// Idempotent rendering: the page produced for a Markdown file is a
/// function of its path and text alone, so re-rendering unchanged content
/// yields byte-identical output.
pub proof fn lemma_rendering_idempotent(
    path: Seq<Seq<char>>,
    content_first: Seq<char>,
    content_second: Seq<char>,
)
    requires
        content_first == content_second,
    ensures
        spec_markdown_page(path, content_first) == spec_markdown_page(path, content_second),
{
}

} // verus!
