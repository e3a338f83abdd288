//! The path model: a canonical filesystem path is a sequence of component
//! names (the components after the filesystem root). Containment of a path
//! in the served root is component-wise prefix containment on canonical
//! forms, never a lexical check on raw strings.

use crate::percent::{encode_segment, spec_encoded_segment};
use vstd::prelude::*;

verus! {

/// The sequence of component views of a segment vector.
pub open spec fn views_of_segs(s: Seq<String>) -> Seq<Seq<char>> {
    Seq::new(s.len(), |i: int| s[i]@)
}

/// Root containment: `path` is equal to, or a descendant of, `root`,
/// compared component by component.
pub open spec fn confined(root: Seq<Seq<char>>, path: Seq<Seq<char>>) -> bool {
    root.len() <= path.len() && forall|i: int| 0 <= i < root.len() ==> root[i] == path[i]
}

/// Whether `path` is equal to or a descendant of `root` (component-wise
/// prefix containment of canonical forms).
pub fn is_within(path: &Vec<String>, root: &Vec<String>) -> (r: bool)
    ensures
        r == confined(views_of_segs(root@), views_of_segs(path@)),
{
    if root.len() > path.len() {
        return false;
    }
    let mut i: usize = 0;
    while i < root.len()
        invariant
            0 <= i <= root.len() <= path.len(),
            forall|j: int| 0 <= j < i ==> views_of_segs(root@)[j] == views_of_segs(path@)[j],
        decreases root.len() - i,
    {
        if !root[i].eq(&path[i]) {
            proof {
                assert(views_of_segs(root@)[i as int] != views_of_segs(path@)[i as int]);
            }
            return false;
        }
        i += 1;
    }
    true
}

/// The components joined by `/`, with no leading separator.
pub open spec fn join_slash(segs: Seq<Seq<char>>) -> Seq<char>
    decreases segs.len(),
{
    if segs.len() == 0 {
        Seq::empty()
    } else if segs.len() == 1 {
        segs[0]
    } else {
        segs[0] + seq!['/'] + join_slash(segs.drop_first())
    }
}

pub proof fn lemma_join_slash_push(segs: Seq<Seq<char>>, x: Seq<char>)
    ensures
        join_slash(segs.push(x)) == if segs.len() == 0 {
            x
        } else {
            (join_slash(segs) + seq!['/'] + x)
        },
    decreases segs.len(),
{
    if segs.len() == 0 {
        assert(segs.push(x) =~~= seq![x]);
        assert(join_slash(seq![x]) == x);
    } else {
        assert(segs.push(x).drop_first() =~~= segs.drop_first().push(x));
        lemma_join_slash_push(segs.drop_first(), x);
        if segs.len() == 1 {
            assert(segs.drop_first().len() == 0);
            assert(join_slash(segs.push(x)) == segs[0] + seq!['/'] + x);
            assert(join_slash(segs) == segs[0]);
        } else {
            assert(join_slash(segs.push(x)) == segs[0] + seq!['/'] + (join_slash(
                segs.drop_first(),
            ) + seq!['/'] + x));
            assert(join_slash(segs) == segs[0] + seq!['/'] + join_slash(segs.drop_first()));
            assert(segs[0] + seq!['/'] + (join_slash(segs.drop_first()) + seq!['/'] + x) =~= (
            segs[0] + seq!['/'] + join_slash(segs.drop_first())) + seq!['/'] + x);
        }
    }
}

/// The components of `path` below `root`.
pub open spec fn rel_segs(root: Seq<Seq<char>>, path: Seq<Seq<char>>) -> Seq<Seq<char>> {
    path.skip(root.len() as int)
}

/// The root-relative display form of a confined path: its components below
/// the root joined by `/`; empty for the root itself or a non-contained path.
pub open spec fn spec_relative_display(root: Seq<Seq<char>>, path: Seq<Seq<char>>) -> Seq<char> {
    if confined(root, path) {
        join_slash(rel_segs(root, path))
    } else {
        Seq::empty()
    }
}

/// The path expressed relative to the root for display purposes, or the
/// empty string when the path does not lie under the root.
pub fn relative_from_root_display(path: &Vec<String>, root: &Vec<String>) -> (r: String)
    ensures
        r@ == spec_relative_display(views_of_segs(root@), views_of_segs(path@)),
{
    let ghost rv = views_of_segs(root@);
    let ghost pv = views_of_segs(path@);
    let mut out = String::new();
    if !is_within(path, root) {
        return out;
    }
    let mut i: usize = root.len();
    assert(pv.subrange(rv.len() as int, i as int) =~~= Seq::<Seq<char>>::empty());
    while i < path.len()
        invariant
            root.len() <= i <= path.len(),
            rv == views_of_segs(root@),
            pv == views_of_segs(path@),
            confined(rv, pv),
            rv.len() == root.len(),
            pv.len() == path.len(),
            out@ == join_slash(pv.subrange(rv.len() as int, i as int)),
        decreases path.len() - i,
    {
        let ghost done = pv.subrange(rv.len() as int, i as int);
        if i > root.len() {
            out.append("/");
        }
        out.append(path[i].as_str());
        proof {
            reveal_strlit("/");
            lemma_join_slash_push(done, pv[i as int]);
            assert(pv.subrange(rv.len() as int, i + 1 as int) =~~= done.push(pv[i as int]));
            if i == root.len() {
                assert(out@ =~= join_slash(done.push(pv[i as int])));
            } else {
                assert(out@ =~= join_slash(done) + seq!['/'] + pv[i as int]);
            }
        }
        i += 1;
    }
    proof {
        assert(pv.subrange(rv.len() as int, pv.len() as int) =~~= rel_segs(rv, pv));
    }
    out
}

/// The display form of an absolute canonical path: `/` followed by its
/// components joined by `/` (just `/` for an empty component list).
pub open spec fn spec_display_path(path: Seq<Seq<char>>) -> Seq<char> {
    seq!['/'] + join_slash(path)
}

pub fn display_path(path: &Vec<String>) -> (r: String)
    ensures
        r@ == spec_display_path(views_of_segs(path@)),
{
    let ghost pv = views_of_segs(path@);
    let mut out = String::new();
    out.append("/");
    proof {
        reveal_strlit("/");
        assert(out@ =~= seq!['/']);
    }
    let mut i: usize = 0;
    assert(pv.subrange(0, 0) =~~= Seq::<Seq<char>>::empty());
    while i < path.len()
        invariant
            0 <= i <= path.len(),
            pv == views_of_segs(path@),
            pv.len() == path.len(),
            out@ == seq!['/'] + join_slash(pv.subrange(0, i as int)),
        decreases path.len() - i,
    {
        let ghost done = pv.subrange(0, i as int);
        if i > 0 {
            out.append("/");
        }
        out.append(path[i].as_str());
        proof {
            reveal_strlit("/");
            lemma_join_slash_push(done, pv[i as int]);
            assert(pv.subrange(0, i + 1 as int) =~~= done.push(pv[i as int]));
            if i == 0 {
                assert(out@ =~= seq!['/'] + join_slash(done.push(pv[i as int])));
            } else {
                assert(out@ =~= seq!['/'] + (join_slash(done) + seq!['/'] + pv[i as int]));
            }
        }
        i += 1;
    }
    proof {
        assert(pv.subrange(0, pv.len() as int) =~~= pv);
    }
    out
}

/// A copy of a segment vector with the same component views.
pub fn clone_segments(v: &Vec<String>) -> (r: Vec<String>)
    ensures
        views_of_segs(r@) == views_of_segs(v@),
{
    let mut out: Vec<String> = Vec::new();
    let mut i: usize = 0;
    while i < v.len()
        invariant
            0 <= i <= v.len(),
            out@.len() == i,
            forall|j: int| 0 <= j < i ==> out@[j]@ == v@[j]@,
        decreases v.len() - i,
    {
        out.push(v[i].clone());
        i += 1;
    }
    proof {
        assert(views_of_segs(out@) =~~= views_of_segs(v@));
    }
    out
}

/// The root-relative URL of a confined path: every component below the
/// root percent-encoded independently, joined by `/`; empty for the root
/// itself or a non-contained path.
pub open spec fn spec_rel_url(root: Seq<Seq<char>>, path: Seq<Seq<char>>) -> Seq<char> {
    if confined(root, path) {
        join_slash(rel_segs(root, path).map_values(|s: Seq<char>| spec_encoded_segment(s)))
    } else {
        Seq::empty()
    }
}

/// The link target for a confined path: its components below the root,
/// each percent-encoded on its own so that an encoded separator inside a
/// filename cannot merge with the URL's own separators.
pub fn path_rel_url(path: &Vec<String>, root: &Vec<String>) -> (r: String)
    ensures
        r@ == spec_rel_url(views_of_segs(root@), views_of_segs(path@)),
{
    let ghost rv = views_of_segs(root@);
    let ghost pv = views_of_segs(path@);
    let mut out = String::new();
    if !is_within(path, root) {
        return out;
    }
    let mut i: usize = root.len();
    assert(pv.subrange(rv.len() as int, i as int).map_values(
        |s: Seq<char>| spec_encoded_segment(s),
    ) =~~= Seq::<Seq<char>>::empty());
    while i < path.len()
        invariant
            root.len() <= i <= path.len(),
            rv == views_of_segs(root@),
            pv == views_of_segs(path@),
            confined(rv, pv),
            rv.len() == root.len(),
            pv.len() == path.len(),
            out@ == join_slash(
                pv.subrange(rv.len() as int, i as int).map_values(
                    |s: Seq<char>| spec_encoded_segment(s),
                ),
            ),
        decreases path.len() - i,
    {
        let ghost done = pv.subrange(rv.len() as int, i as int).map_values(
            |s: Seq<char>| spec_encoded_segment(s),
        );
        if i > root.len() {
            out.append("/");
        }
        let enc = encode_segment(path[i].as_str());
        out.append(enc.as_str());
        proof {
            reveal_strlit("/");
            lemma_join_slash_push(done, spec_encoded_segment(pv[i as int]));
            assert(pv.subrange(rv.len() as int, i + 1 as int).map_values(
                |s: Seq<char>| spec_encoded_segment(s),
            ) =~~= done.push(spec_encoded_segment(pv[i as int])));
            if i == root.len() {
                assert(out@ =~= join_slash(done.push(spec_encoded_segment(pv[i as int]))));
            } else {
                assert(out@ =~= join_slash(done) + seq!['/'] + spec_encoded_segment(
                    pv[i as int],
                ));
            }
        }
        i += 1;
    }
    proof {
        assert(pv.subrange(rv.len() as int, pv.len() as int) =~~= rel_segs(rv, pv));
    }
    out
}

/// The link target of a directory child: the directory's relative URL
/// extended by the percent-encoded child name.
pub fn child_rel_url(dir: &Vec<String>, root: &Vec<String>, name: &str) -> (r: String)
    requires
        confined(views_of_segs(root@), views_of_segs(dir@)),
    ensures
        r@ == spec_rel_url(views_of_segs(root@), views_of_segs(dir@).push(name@)),
{
    let ghost rv = views_of_segs(root@);
    let ghost dv = views_of_segs(dir@);
    let ghost child = dv.push(name@);
    proof {
        assert(confined(rv, child));
        assert(rel_segs(rv, child) =~~= rel_segs(rv, dv).push(name@));
        assert(rel_segs(rv, child).map_values(|s: Seq<char>| spec_encoded_segment(s)) =~~=
        rel_segs(rv, dv).map_values(|s: Seq<char>| spec_encoded_segment(s)).push(
            spec_encoded_segment(name@),
        ));
        lemma_join_slash_push(
            rel_segs(rv, dv).map_values(|s: Seq<char>| spec_encoded_segment(s)),
            spec_encoded_segment(name@),
        );
    }
    let enc = encode_segment(name);
    if dir.len() == root.len() {
        enc
    } else {
        let mut out = path_rel_url(dir, root);
        out.append("/");
        out.append(enc.as_str());
        proof {
            reveal_strlit("/");
        }
        out
    }
}

/// The parent of a non-root path: all components but the last.
pub fn parent_segments(v: &Vec<String>) -> (r: Vec<String>)
    requires
        v@.len() > 0,
    ensures
        views_of_segs(r@) == views_of_segs(v@).drop_last(),
{
    let mut out: Vec<String> = Vec::new();
    let mut i: usize = 0;
    while i < v.len() - 1
        invariant
            v@.len() > 0,
            0 <= i <= v.len() - 1,
            out@.len() == i,
            forall|j: int| 0 <= j < i ==> out@[j]@ == v@[j]@,
        decreases v.len() - i,
    {
        out.push(v[i].clone());
        i += 1;
    }
    proof {
        assert(views_of_segs(out@) =~~= views_of_segs(v@).drop_last());
    }
    out
}

} // verus!
