//! Resolution of an untrusted request path: percent-decode, strip leading
//! separators, and — after the caller has canonicalized the joined
//! candidate on the live filesystem — enforce root containment on the
//! canonical forms.

use crate::errors::ResolutionFailure;
use crate::paths::{clone_segments, confined, is_within, views_of_segs};
use crate::percent::{lossy_utf8_decode, percent_decode_lossy, percent_decode_seq};
use vstd::prelude::*;
use vstd::string::StringSliceAdditionalSpecFns;

verus! {

/// A canonical path that passed root containment, with whether it denotes
/// a directory.
pub struct ResolvedPath {
    pub segments: Vec<String>,
    pub is_dir: bool,
}

impl ResolvedPath {
    /// The containment invariant every resolved path carries.
    pub open spec fn confined_to(self, root: Seq<Seq<char>>) -> bool {
        confined(root, views_of_segs(self.segments@))
    }
}

/// How the decoded request path is to be joined onto the configured root:
/// the root itself, or a relative suffix joined below it.
pub enum JoinDirective {
    UseRoot,
    Join(String),
}

/// The decoded request path with leading `/` separators removed.
pub open spec fn trim_leading_slashes(p: Seq<char>) -> Seq<char>
    decreases p.len(),
{
    if p.len() > 0 && p[0] == '/' {
        trim_leading_slashes(p.drop_first())
    } else {
        p
    }
}

/// Whether a decoded request path denotes the root itself: empty or `.`
/// once leading separators are stripped.
pub open spec fn wants_root(p: Seq<char>) -> bool {
    trim_leading_slashes(p) == Seq::<char>::empty() || trim_leading_slashes(p) == seq!['.']
}

/// The view of a raw request path after percent-decoding with lossy UTF-8.
pub open spec fn decoded_view(raw: &str) -> Seq<char> {
    lossy_utf8_decode(percent_decode_seq(raw.spec_bytes()))
}

/// Percent-decodes a raw request path and decides whether it names the
/// root itself or a relative suffix to join below the configured root.
pub fn resolve_request(raw: &str) -> (r: JoinDirective)
    ensures
        r is UseRoot <==> wants_root(decoded_view(raw)),
        r matches JoinDirective::Join(s) ==> s@ == trim_leading_slashes(decoded_view(raw)),
{
    let decoded = percent_decode_lossy(raw);
    let ds = decoded.as_str();
    let ghost dv = decoded_view(raw);
    let n = ds.unicode_len();
    let mut i: usize = 0;
    assert(ds@.skip(0) =~= ds@);
    while i < n && ds.get_char(i) == '/'
        invariant
            0 <= i <= n,
            ds@ == dv,
            n == ds@.len(),
            trim_leading_slashes(dv) == trim_leading_slashes(dv.skip(i as int)),
        decreases n - i,
    {
        proof {
            assert(dv.skip(i as int)[0] == dv[i as int]);
            assert(dv.skip(i as int).drop_first() =~= dv.skip(i + 1 as int));
        }
        i += 1;
    }
    proof {
        if i < n {
            assert(dv.skip(i as int)[0] == dv[i as int]);
            assert(dv[i as int] != '/');
            assert(trim_leading_slashes(dv.skip(i as int)) == dv.skip(i as int));
        } else {
            assert(dv.skip(i as int) =~= Seq::<char>::empty());
        }
    }
    let rest = ds.substring_char(i, n);
    proof {
        assert(rest@ =~= dv.skip(i as int));
    }
    let m = rest.unicode_len();
    if m == 0 {
        proof {
            assert(trim_leading_slashes(dv) =~= Seq::<char>::empty());
        }
        JoinDirective::UseRoot
    } else if m == 1 && rest.get_char(0) == '.' {
        proof {
            assert(trim_leading_slashes(dv) =~= seq!['.']);
        }
        JoinDirective::UseRoot
    } else {
        proof {
            if trim_leading_slashes(dv) == seq!['.'] {
                assert(rest@[0] == '.');
            }
        }
        JoinDirective::Join(rest.to_owned())
    }
}

/// Whether resolution accepts a canonical candidate against the canonical
/// root: exactly when the candidate is contained in the root.
pub open spec fn resolution_accepts(root: Seq<Seq<char>>, canon: Seq<Seq<char>>) -> bool {
    confined(root, canon)
}

/// The final, security-critical step of resolution: given the canonical
/// form of an existing candidate, accept it only if it is equal to or a
/// descendant of the canonical root; everything else is `Forbidden`.
pub fn finish_resolve(canon: &Vec<String>, is_dir: bool, root: &Vec<String>) -> (r: Result<
    ResolvedPath,
    ResolutionFailure,
>)
    ensures
        r is Ok <==> resolution_accepts(views_of_segs(root@), views_of_segs(canon@)),
        r matches Ok(p) ==> p.confined_to(views_of_segs(root@)) && views_of_segs(p.segments@)
            == views_of_segs(canon@) && p.is_dir == is_dir,
        r matches Err(f) ==> f is Forbidden,
{
    if is_within(canon, root) {
        Ok(ResolvedPath { segments: clone_segments(canon), is_dir })
    } else {
        Err(ResolutionFailure::Forbidden)
    }
}

/// Containment invariant: resolution accepts a canonical candidate only
/// when it is equal to or a descendant of the canonical root — traversal
/// sequences, absolute-path overrides and symlink escapes are all rejected
/// by this one comparison of canonical forms, and a non-contained
/// candidate is never accepted.
pub proof fn lemma_containment_invariant(root: Seq<Seq<char>>, canon: Seq<Seq<char>>)
    ensures
        resolution_accepts(root, canon) ==> confined(root, canon),
        !confined(root, canon) ==> !resolution_accepts(root, canon),
{
}

/// Root landing: the request path `/` (and the empty path) trims to the
/// empty suffix and so is mapped to the canonical root itself, and the
/// canonical root is always accepted by resolution against itself.
pub proof fn lemma_root_landing(root: Seq<Seq<char>>)
    ensures
        wants_root(seq!['/']),
        wants_root(Seq::<char>::empty()),
        resolution_accepts(root, root),
{
    assert(seq!['/'].drop_first() =~= Seq::<char>::empty());
    assert(trim_leading_slashes(seq!['/']) == trim_leading_slashes(Seq::<char>::empty()));
}

} // verus!
