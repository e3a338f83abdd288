//! Directory listings: hidden entries are filtered out, directories sort
//! before files, names compare case-insensitively, every non-root listing
//! carries an "up" link, and each entry links to its percent-encoded
//! root-relative path.

use crate::escape::{html_escape, spec_escaped};
use crate::paths::{
    child_rel_url, confined, parent_segments, path_rel_url, relative_from_root_display,
    spec_rel_url, spec_relative_display, views_of_segs,
};
use vstd::multiset::Multiset;
use vstd::prelude::*;

verus! {

/// A directory child as enumerated by the caller: its bare filename (not a
/// path) and whether it is a directory.
pub struct DirEntry {
    pub name: String,
    pub is_dir: bool,
}

/// The mathematical content of an entry.
pub open spec fn entry_view(e: DirEntry) -> (Seq<char>, bool) {
    (e.name@, e.is_dir)
}

pub open spec fn entry_views(s: Seq<DirEntry>) -> Seq<(Seq<char>, bool)> {
    Seq::new(s.len(), |i: int| entry_view(s[i]))
}

/// Whether a name is hidden from listings (it begins with a dot). Hiding
/// is a listing policy only: a hidden entry is still directly fetchable.
pub open spec fn hidden(name: Seq<char>) -> bool {
    name.len() > 0 && name[0] == '.'
}

pub open spec fn visible(e: DirEntry) -> bool {
    !hidden(e.name@)
}

/// The entries that a listing shows, in source order.
pub open spec fn visible_entries(s: Seq<DirEntry>) -> Seq<DirEntry> {
    s.filter(|e: DirEntry| visible(e))
}

/// The lowercased form str::to_lowercase produces, a function of the
/// characters alone.
pub uninterp spec fn lower_of(s: Seq<char>) -> Seq<char>;

/// Relies on str::to_lowercase: the lowercased form is computed from the
/// Unicode tables and depends on the characters alone, not on any locale.
#[verifier::external_body]
fn lowercase(s: &str) -> (r: String)
    ensures
        r@ == lower_of(s@),
{
    s.to_lowercase()
}

/// Lexicographic order on character sequences by code point, with a prefix
/// ordered before its extensions.
pub open spec fn lex_le(a: Seq<char>, b: Seq<char>) -> bool
    decreases a.len(),
{
    if a.len() == 0 {
        true
    } else if b.len() == 0 {
        false
    } else if a[0] == b[0] {
        lex_le(a.drop_first(), b.drop_first())
    } else {
        (a[0] as u32) < (b[0] as u32)
    }
}

/// The listing order: directories before files, then case-insensitive
/// name order.
pub open spec fn entry_le(a: DirEntry, b: DirEntry) -> bool {
    if a.is_dir != b.is_dir {
        a.is_dir
    } else {
        lex_le(lower_of(a.name@), lower_of(b.name@))
    }
}

pub open spec fn sorted_entries(s: Seq<DirEntry>) -> bool {
    forall|i: int, j: int| 0 <= i < j < s.len() ==> entry_le(s[i], s[j])
}

pub proof fn lemma_lex_le_total(a: Seq<char>, b: Seq<char>)
    ensures
        lex_le(a, b) || lex_le(b, a),
    decreases a.len(),
{
    if a.len() > 0 && b.len() > 0 && a[0] == b[0] {
        lemma_lex_le_total(a.drop_first(), b.drop_first());
    } else if a.len() > 0 && b.len() > 0 {
        if a[0] as u32 == b[0] as u32 {
            vstd::utf8::char_u32_cast(a[0], a[0] as u32);
            vstd::utf8::char_u32_cast(b[0], b[0] as u32);
        }
        assert(a[0] as u32 != b[0] as u32);
    }
}

pub proof fn lemma_lex_le_trans(a: Seq<char>, b: Seq<char>, c: Seq<char>)
    requires
        lex_le(a, b),
        lex_le(b, c),
    ensures
        lex_le(a, c),
    decreases a.len() + b.len() + c.len(),
{
    broadcast use vstd::utf8::char_u32_cast;

    if a.len() > 0 && b.len() > 0 && c.len() > 0 {
        if a[0] == b[0] && b[0] == c[0] {
            lemma_lex_le_trans(a.drop_first(), b.drop_first(), c.drop_first());
        } else {
            assert(a[0] != b[0] ==> (a[0] as u32) < (b[0] as u32));
            assert(b[0] != c[0] ==> (b[0] as u32) < (c[0] as u32));
        }
    }
}

/// The listing order is total: any two entries are comparable.
pub proof fn lemma_entry_order_total(a: DirEntry, b: DirEntry)
    ensures
        entry_le(a, b) || entry_le(b, a),
{
    if a.is_dir == b.is_dir {
        lemma_lex_le_total(lower_of(a.name@), lower_of(b.name@));
    }
}

/// The listing order is transitive.
pub proof fn lemma_entry_order_transitive(a: DirEntry, b: DirEntry, c: DirEntry)
    requires
        entry_le(a, b),
        entry_le(b, c),
    ensures
        entry_le(a, c),
{
    if a.is_dir == b.is_dir && b.is_dir == c.is_dir {
        lemma_lex_le_trans(lower_of(a.name@), lower_of(b.name@), lower_of(c.name@));
    }
}

fn lex_le_exec(a: &str, b: &str) -> (r: bool)
    ensures
        r == lex_le(a@, b@),
{
    let an = a.unicode_len();
    let bn = b.unicode_len();
    let mut i: usize = 0;
    assert(a@.skip(0) =~= a@);
    assert(b@.skip(0) =~= b@);
    loop
        invariant
            0 <= i <= an,
            0 <= i <= bn,
            an == a@.len(),
            bn == b@.len(),
            lex_le(a@, b@) == lex_le(a@.skip(i as int), b@.skip(i as int)),
        decreases an - i,
    {
        if i >= an {
            proof {
                assert(a@.skip(i as int) =~= Seq::<char>::empty());
            }
            return true;
        }
        if i >= bn {
            proof {
                assert(b@.skip(i as int) =~= Seq::<char>::empty());
                assert(a@.skip(i as int).len() > 0);
            }
            return false;
        }
        let ca = a.get_char(i);
        let cb = b.get_char(i);
        proof {
            assert(a@.skip(i as int)[0] == a@[i as int]);
            assert(b@.skip(i as int)[0] == b@[i as int]);
        }
        if ca != cb {
            return (ca as u32) < (cb as u32);
        }
        proof {
            assert(a@.skip(i as int).drop_first() =~= a@.skip(i + 1 as int));
            assert(b@.skip(i as int).drop_first() =~= b@.skip(i + 1 as int));
        }
        i += 1;
    }
}

fn entry_le_exec(a: &DirEntry, b: &DirEntry) -> (r: bool)
    ensures
        r == entry_le(*a, *b),
{
    if a.is_dir != b.is_dir {
        a.is_dir
    } else {
        let la = lowercase(a.name.as_str());
        let lb = lowercase(b.name.as_str());
        lex_le_exec(la.as_str(), lb.as_str())
    }
}

proof fn lemma_to_multiset_add<A>(s1: Seq<A>, s2: Seq<A>)
    ensures
        (s1 + s2).to_multiset() =~= s1.to_multiset().add(s2.to_multiset()),
    decreases s2.len(),
{
    broadcast use {
        vstd::multiset::group_multiset_axioms,
        vstd::seq_lib::group_to_multiset_ensures,
    };

    if s2.len() == 0 {
        assert(s1 + s2 =~= s1);
        assert(s2.to_multiset() =~= Multiset::<A>::empty()) by {
            s2.to_multiset_ensures();
        }
    } else {
        lemma_to_multiset_add(s1, s2.drop_last());
        assert(s1 + s2 =~= (s1 + s2.drop_last()).push(s2.last()));
        assert(s2 =~= s2.drop_last().push(s2.last()));
        assert((s1 + s2.drop_last()).push(s2.last()).to_multiset() =~= (s1
            + s2.drop_last()).to_multiset().insert(s2.last()));
        assert(s2.drop_last().push(s2.last()).to_multiset() =~= s2.drop_last().to_multiset().insert(
            s2.last(),
        ));
    }
}

proof fn lemma_to_multiset_insert<A>(s: Seq<A>, i: int, a: A)
    requires
        0 <= i <= s.len(),
    ensures
        s.insert(i, a).to_multiset() =~= s.to_multiset().insert(a),
{
    broadcast use {
        vstd::multiset::group_multiset_axioms,
        vstd::seq_lib::group_to_multiset_ensures,
    };

    let pre = s.subrange(0, i);
    let post = s.subrange(i, s.len() as int);
    assert(s.insert(i, a) =~= pre.push(a) + post);
    assert(s =~= pre + post);
    lemma_to_multiset_add(pre.push(a), post);
    lemma_to_multiset_add(pre, post);
    assert(pre.push(a).to_multiset() =~= pre.to_multiset().insert(a));
}

proof fn lemma_sorted_insert(s: Seq<DirEntry>, p: int, e: DirEntry)
    requires
        sorted_entries(s),
        0 <= p <= s.len(),
        forall|j: int| 0 <= j < p ==> entry_le(s[j], e),
        p < s.len() ==> !entry_le(s[p], e),
    ensures
        sorted_entries(s.insert(p, e)),
{
    s.insert_ensures(p, e);
    if p < s.len() {
        lemma_entry_order_total(s[p], e);
    }
    assert forall|i: int, j: int|
        0 <= i < j < s.insert(p, e).len() implies entry_le(s.insert(p, e)[i], s.insert(p, e)[j]) by {
        if j < p {
            assert(entry_le(s[i], s[j]));
        } else if j == p {
            assert(entry_le(s[i], e));
        } else if i < p {
            assert(entry_le(s[i], s[j - 1]));
        } else if i == p {
            assert(entry_le(e, s[p]));
            if j - 1 > p {
                assert(entry_le(s[p], s[j - 1]));
                lemma_entry_order_transitive(e, s[p], s[j - 1]);
            }
        } else {
            assert(entry_le(s[i - 1], s[j - 1]));
        }
    }
}

fn insert_position(out: &Vec<DirEntry>, e: &DirEntry) -> (p: usize)
    ensures
        p <= out@.len(),
        forall|j: int| 0 <= j < p ==> entry_le(out@[j], *e),
        p < out@.len() ==> !entry_le(out@[p as int], *e),
{
    let mut p: usize = 0;
    while p < out.len()
        invariant
            0 <= p <= out@.len(),
            forall|j: int| 0 <= j < p ==> entry_le(out@[j], *e),
        decreases out@.len() - p,
    {
        if !entry_le_exec(&out[p], e) {
            return p;
        }
        p += 1;
    }
    p
}

/// Sorts entries by the listing order: directories first, then
/// case-insensitive name order; the result is a permutation of the input.
fn sort_entries(v: Vec<DirEntry>) -> (r: Vec<DirEntry>)
    ensures
        sorted_entries(r@),
        entry_views(r@).to_multiset() == entry_views(v@).to_multiset(),
{
    let ghost orig = v@;
    let mut rest = v;
    let mut out: Vec<DirEntry> = Vec::new();
    proof {
        broadcast use vstd::multiset::group_multiset_axioms;

        assert(entry_views(out@) =~= Seq::<(Seq<char>, bool)>::empty());
        assert(entry_views(out@).to_multiset() =~= Multiset::<(Seq<char>, bool)>::empty()) by {
            entry_views(out@).to_multiset_ensures();
        }
        assert(entry_views(out@).to_multiset().add(entry_views(rest@).to_multiset()) =~=
        entry_views(orig).to_multiset());
    }
    while rest.len() > 0
        invariant
            sorted_entries(out@),
            entry_views(out@).to_multiset().add(entry_views(rest@).to_multiset())
                == entry_views(orig).to_multiset(),
        decreases rest@.len(),
    {
        let ghost rest0 = rest@;
        let ghost out0 = out@;
        let e = rest.remove(0);
        let p = insert_position(&out, &e);
        out.insert(p, e);
        proof {
            broadcast use vstd::multiset::group_multiset_axioms;

            assert(entry_views(rest0) =~= entry_views(rest@).insert(0, entry_view(e)));
            lemma_to_multiset_insert(entry_views(rest@), 0, entry_view(e));
            lemma_sorted_insert(out0, p as int, e);
            assert(entry_views(out@) =~= entry_views(out0).insert(p as int, entry_view(e)));
            lemma_to_multiset_insert(entry_views(out0), p as int, entry_view(e));
            assert(entry_views(out@).to_multiset().add(entry_views(rest@).to_multiset()) =~=
            entry_views(orig).to_multiset());
        }
    }
    proof {
        broadcast use vstd::multiset::group_multiset_axioms;

        assert(entry_views(rest@) =~= Seq::<(Seq<char>, bool)>::empty());
        assert(entry_views(rest@).to_multiset() =~= Multiset::<(Seq<char>, bool)>::empty()) by {
            entry_views(rest@).to_multiset_ensures();
        }
        assert(entry_views(out@).to_multiset() =~= entry_views(orig).to_multiset());
    }
    out
}

fn is_visible_exec(e: &DirEntry) -> (r: bool)
    ensures
        r == visible(*e),
{
    let n = e.name.as_str().unicode_len();
    if n == 0 {
        true
    } else {
        e.name.as_str().get_char(0) != '.'
    }
}

/// Keeps the visible entries, in source order.
fn filter_visible(v: Vec<DirEntry>) -> (r: Vec<DirEntry>)
    ensures
        r@ == visible_entries(v@),
{
    let ghost orig = v@;
    let mut rest = v;
    let mut out: Vec<DirEntry> = Vec::new();
    proof {
        reveal(Seq::filter);
        assert(orig.take(0) =~= Seq::<DirEntry>::empty());
        assert(visible_entries(orig.take(0)) =~= Seq::<DirEntry>::empty());
    }
    let ghost mut k: int = 0;
    while rest.len() > 0
        invariant
            0 <= k <= orig.len(),
            rest@ == orig.skip(k),
            out@ == visible_entries(orig.take(k)),
        decreases rest@.len(),
    {
        proof {
            assert(orig.skip(k).len() > 0);
            assert(k < orig.len());
        }
        let e = rest.remove(0);
        proof {
            assert(orig.skip(k)[0] == orig[k]);
            assert(orig.skip(k).remove(0) =~= orig.skip(k + 1));
            assert(orig.take(k + 1) =~= orig.take(k).push(orig[k]));
        }
        let ghost done = orig.take(k);
        if is_visible_exec(&e) {
            out.push(e);
        }
        proof {
            reveal(Seq::filter);
            assert(done.push(orig[k]).drop_last() =~= done);
            assert(done.push(orig[k]).last() == orig[k]);
            assert(visible_entries(done.push(orig[k])) == if visible(orig[k]) {
                visible_entries(done).push(orig[k])
            } else {
                visible_entries(done)
            });
            k = k + 1;
        }
    }
    proof {
        assert(orig.take(orig.len() as int) =~= orig);
    }
    out
}

/// A listing row ready for rendering: the entry and its link target, the
/// entry's root-relative path with every segment percent-encoded.
pub struct ListingEntry {
    pub name: String,
    pub is_dir: bool,
    pub href: String,
}

pub open spec fn lentry_view(e: ListingEntry) -> (Seq<char>, bool) {
    (e.name@, e.is_dir)
}

pub open spec fn lentry_views(s: Seq<ListingEntry>) -> Seq<(Seq<char>, bool)> {
    Seq::new(s.len(), |i: int| lentry_view(s[i]))
}

pub open spec fn lentry_le(a: ListingEntry, b: ListingEntry) -> bool {
    if a.is_dir != b.is_dir {
        a.is_dir
    } else {
        lex_le(lower_of(a.name@), lower_of(b.name@))
    }
}

pub open spec fn sorted_listing(s: Seq<ListingEntry>) -> bool {
    forall|i: int, j: int| 0 <= i < j < s.len() ==> lentry_le(s[i], s[j])
}

/// The title of a listing page: `/` followed by the directory's
/// root-relative display path.
pub open spec fn spec_listing_title(root: Seq<Seq<char>>, dir: Seq<Seq<char>>) -> Seq<char> {
    seq!['/'] + spec_relative_display(root, dir)
}

/// The structural listing: title, an optional "up" link, and the visible
/// entries in listing order with their link targets.
pub struct ListingPage {
    pub title: String,
    pub up_href: Option<String>,
    pub entries: Vec<ListingEntry>,
}

/// Builds the listing of a confined directory from its enumerated
/// children: hidden names are omitted, directories sort before files with
/// names compared case-insensitively, each entry links to its
/// percent-encoded root-relative path, and exactly the non-root listings
/// carry an "up" link to the parent's root-relative URL.
pub fn build_listing_page(dir: &Vec<String>, root: &Vec<String>, raw: Vec<DirEntry>) -> (r:
    ListingPage)
    requires
        confined(views_of_segs(root@), views_of_segs(dir@)),
    ensures
        sorted_listing(r.entries@),
        lentry_views(r.entries@).to_multiset() == entry_views(visible_entries(raw@)).to_multiset(),
        forall|j: int|
            0 <= j < r.entries@.len() ==> r.entries@[j].href@ == spec_rel_url(
                views_of_segs(root@),
                views_of_segs(dir@).push(r.entries@[j].name@),
            ),
        views_of_segs(dir@) == views_of_segs(root@) <==> r.up_href is None,
        views_of_segs(dir@) != views_of_segs(root@) ==> (r.up_href matches Some(u) && u@
            == spec_rel_url(views_of_segs(root@), views_of_segs(dir@).drop_last())),
        r.title@ == spec_listing_title(views_of_segs(root@), views_of_segs(dir@)),
{
    let ghost rootv = views_of_segs(root@);
    let ghost dirv = views_of_segs(dir@);
    let vis = filter_visible(raw);
    let sorted = sort_entries(vis);
    let mut entries: Vec<ListingEntry> = Vec::new();
    let mut i: usize = 0;
    while i < sorted.len()
        invariant
            0 <= i <= sorted@.len(),
            confined(rootv, dirv),
            rootv == views_of_segs(root@),
            dirv == views_of_segs(dir@),
            entries@.len() == i,
            forall|j: int| 0 <= j < i ==> lentry_view(entries@[j]) == entry_view(sorted@[j]),
            forall|j: int|
                0 <= j < i ==> entries@[j].href@ == spec_rel_url(
                    rootv,
                    dirv.push(entries@[j].name@),
                ),
        decreases sorted@.len() - i,
    {
        let name = sorted[i].name.clone();
        let href = child_rel_url(dir, root, name.as_str());
        entries.push(ListingEntry { name, is_dir: sorted[i].is_dir, href });
        i += 1;
    }
    proof {
        assert(lentry_views(entries@) =~~= entry_views(sorted@));
        assert forall|a: int, b: int|
            0 <= a < b < entries@.len() implies lentry_le(entries@[a], entries@[b]) by {
            assert(entry_le(sorted@[a], sorted@[b]));
            assert(lentry_view(entries@[a]) == entry_view(sorted@[a]));
            assert(lentry_view(entries@[b]) == entry_view(sorted@[b]));
        }
    }
    let up_href: Option<String> = if dir.len() == root.len() {
        proof {
            assert(dirv =~~= rootv);
        }
        None
    } else {
        let parent = parent_segments(dir);
        let u = path_rel_url(&parent, root);
        proof {
            assert(dirv.len() != rootv.len());
        }
        Some(u)
    };
    let rel = relative_from_root_display(dir, root);
    let mut title = String::new();
    title.append("/");
    title.append(rel.as_str());
    proof {
        reveal_strlit("/");
        assert(title@ =~= seq!['/'] + rel@);
    }
    ListingPage { title, up_href, entries }
}

pub open spec fn spec_up_item(parent_url: Seq<char>) -> Seq<char> {
    r#"<li><a class="up" href="/"#@ + parent_url + r#"">⬆ Up</a></li>"#@
}

pub open spec fn spec_entry_item(href: Seq<char>, name: Seq<char>, is_dir: bool) -> Seq<char> {
    r#"<li><a href="/"#@ + href + r#"">"#@ + (if is_dir {
        "📁"@
    } else {
        "📄"@
    }) + " "@ + spec_escaped(name) + "</a></li>"@
}

pub open spec fn spec_items(entries: Seq<ListingEntry>) -> Seq<char>
    decreases entries.len(),
{
    if entries.len() == 0 {
        Seq::empty()
    } else {
        spec_entry_item(entries[0].href@, entries[0].name@, entries[0].is_dir) + spec_items(
            entries.drop_first(),
        )
    }
}

proof fn lemma_spec_items_push(entries: Seq<ListingEntry>, e: ListingEntry)
    ensures
        spec_items(entries.push(e)) == spec_items(entries) + spec_entry_item(
            e.href@,
            e.name@,
            e.is_dir,
        ),
    decreases entries.len(),
{
    let item = spec_entry_item(e.href@, e.name@, e.is_dir);
    if entries.len() == 0 {
        assert(entries.push(e)[0] == e);
        assert(entries.push(e).drop_first() =~= Seq::<ListingEntry>::empty());
        assert(spec_items(entries.push(e)) == item + spec_items(Seq::<ListingEntry>::empty()));
        assert(item + spec_items(Seq::<ListingEntry>::empty()) =~= item);
        assert(spec_items(entries) + item =~= item);
    } else {
        assert(entries.push(e).drop_first() =~= entries.drop_first().push(e));
        lemma_spec_items_push(entries.drop_first(), e);
        let head = spec_entry_item(entries[0].href@, entries[0].name@, entries[0].is_dir);
        assert(head + (spec_items(entries.drop_first()) + item) =~= (head + spec_items(
            entries.drop_first(),
        )) + item);
    }
}

pub open spec fn opt_view(o: Option<String>) -> Option<Seq<char>> {
    match o {
        Some(u) => Some(u@),
        None => None,
    }
}

/// The full listing page: the fixed shell with the escaped title in the
/// `<title>` and the header, then the optional "up" item followed by one
/// item per entry, each linking to its percent-encoded URL with the
/// entry's name escaped.
pub open spec fn spec_listing_html(
    title: Seq<char>,
    up: Option<Seq<char>>,
    entries: Seq<ListingEntry>,
) -> Seq<char> {
    r#"<!DOCTYPE html>
<html lang="en"><head>
<meta charset="utf-8"><meta name="viewport" content="width=device-width, initial-scale=1">
<title>Index of "#@
        + spec_escaped(title) + r#"</title>
<style>
  :root { font-family: ui-sans-serif, system-ui, -apple-system, Segoe UI, Roboto, Arial; }
  body { margin: 0; background:#0b0d12; color:#e5e7eb; }
  header { padding: 16px 24px; background: #0f1320; border-bottom:1px solid #1f2433; }
  h1 { margin:0; font-size:18px; color:#cbd5e1; }
  main { max-width: 900px; margin: 0 auto; padding: 24px; }
  ul { list-style:none; padding:0; margin:0; }
  li { border:1px solid #1f2433; margin-bottom:8px; border-radius:12px; background:#111726; }
  a { display:block; padding:12px 14px; color:#c7d2fe; text-decoration:none; }
  a:hover { background:#0f1524; }
  a.up { color:#a7f3d0; }
  .footer { opacity:0.6; margin-top:24px; font-size:12px; }
</style>
</head>
<body>
<header><h1>Index of "#@
        + spec_escaped(title) + r#"</h1></header>
<main>
  <ul>"#@ + (match up {
        Some(u) => spec_up_item(u),
        None => Seq::empty(),
    }) + spec_items(entries)
        + r#"</ul>
  <div class="footer">Markdown files render when clicked. Other files download or display raw.</div>
</main>
</body>
</html>"#@
}

/// Renders a structural listing as its HTML page.
pub fn listing_html(page: &ListingPage) -> (r: String)
    ensures
        r@ == spec_listing_html(page.title@, opt_view(page.up_href), page.entries@),
{
    let mut list = String::new();
    match &page.up_href {
        Some(u) => {
            list.append(r#"<li><a class="up" href="/"#);
            list.append(u.as_str());
            list.append(r#"">⬆ Up</a></li>"#);
        },
        None => {},
    }
    let ghost up_part = match opt_view(page.up_href) {
        Some(u) => spec_up_item(u),
        None => Seq::<char>::empty(),
    };
    proof {
        assert(list@ =~= up_part);
        assert(page.entries@.take(0) =~= Seq::<ListingEntry>::empty());
        assert(list@ =~= up_part + spec_items(page.entries@.take(0)));
    }
    let mut i: usize = 0;
    while i < page.entries.len()
        invariant
            0 <= i <= page.entries@.len(),
            up_part == (match opt_view(page.up_href) {
                Some(u) => spec_up_item(u),
                None => Seq::<char>::empty(),
            }),
            list@ == up_part + spec_items(page.entries@.take(i as int)),
        decreases page.entries@.len() - i,
    {
        let ghost done = page.entries@.take(i as int);
        let e = &page.entries[i];
        list.append(r#"<li><a href="/"#);
        list.append(e.href.as_str());
        list.append(r#"">"#);
        if e.is_dir {
            list.append("📁");
        } else {
            list.append("📄");
        }
        list.append(" ");
        let en = html_escape(e.name.as_str());
        list.append(en.as_str());
        list.append("</a></li>");
        proof {
            lemma_spec_items_push(done, page.entries@[i as int]);
            assert(page.entries@.take(i + 1 as int) =~= done.push(page.entries@[i as int]));
            assert(list@ =~= up_part + spec_items(page.entries@.take(i + 1 as int)));
        }
        i += 1;
    }
    proof {
        assert(page.entries@.take(page.entries@.len() as int) =~= page.entries@);
    }
    let mut out = String::new();
    out.append(
        r#"<!DOCTYPE html>
<html lang="en"><head>
<meta charset="utf-8"><meta name="viewport" content="width=device-width, initial-scale=1">
<title>Index of "#,
    );
    let et = html_escape(page.title.as_str());
    out.append(et.as_str());
    out.append(
        r#"</title>
<style>
  :root { font-family: ui-sans-serif, system-ui, -apple-system, Segoe UI, Roboto, Arial; }
  body { margin: 0; background:#0b0d12; color:#e5e7eb; }
  header { padding: 16px 24px; background: #0f1320; border-bottom:1px solid #1f2433; }
  h1 { margin:0; font-size:18px; color:#cbd5e1; }
  main { max-width: 900px; margin: 0 auto; padding: 24px; }
  ul { list-style:none; padding:0; margin:0; }
  li { border:1px solid #1f2433; margin-bottom:8px; border-radius:12px; background:#111726; }
  a { display:block; padding:12px 14px; color:#c7d2fe; text-decoration:none; }
  a:hover { background:#0f1524; }
  a.up { color:#a7f3d0; }
  .footer { opacity:0.6; margin-top:24px; font-size:12px; }
</style>
</head>
<body>
<header><h1>Index of "#,
    );
    out.append(et.as_str());
    out.append(
        r#"</h1></header>
<main>
  <ul>"#,
    );
    out.append(list.as_str());
    out.append(
        r#"</ul>
  <div class="footer">Markdown files render when clicked. Other files download or display raw.</div>
</main>
</body>
</html>"#,
    );
    proof {
        assert(out@ =~= spec_listing_html(page.title@, opt_view(page.up_href), page.entries@));
    }
    out
}

} // verus!
