//! HTML escaping of untrusted text interpolated into pages.

use vstd::prelude::*;

verus! {

/// The escaped form of one character: `&`, `<`, `>` and `"` become their
/// entities, every other character stands unchanged.
pub open spec fn escape_char(c: char) -> Seq<char> {
    if c == '&' {
        "&amp;"@
    } else if c == '<' {
        "&lt;"@
    } else if c == '>' {
        "&gt;"@
    } else if c == '"' {
        "&quot;"@
    } else {
        seq![c]
    }
}

/// The HTML-escaped form of a character sequence.
pub open spec fn spec_escaped(s: Seq<char>) -> Seq<char>
    decreases s.len(),
{
    if s.len() == 0 {
        Seq::empty()
    } else {
        escape_char(s[0]) + spec_escaped(s.drop_first())
    }
}

pub proof fn lemma_escaped_push(s: Seq<char>, c: char)
    ensures
        spec_escaped(s.push(c)) == spec_escaped(s) + escape_char(c),
    decreases s.len(),
{
    if s.len() == 0 {
        assert(s.push(c)[0] == c);
        assert(s.push(c).drop_first() =~= Seq::<char>::empty());
        assert(spec_escaped(s.push(c)) == escape_char(c) + spec_escaped(Seq::<char>::empty()));
        assert(escape_char(c) + spec_escaped(Seq::<char>::empty()) =~= escape_char(c));
        assert(spec_escaped(s) + escape_char(c) =~= escape_char(c));
    } else {
        assert(s.push(c).drop_first() =~= s.drop_first().push(c));
        lemma_escaped_push(s.drop_first(), c);
        assert(escape_char(s[0]) + (spec_escaped(s.drop_first()) + escape_char(c)) =~= (
        escape_char(s[0]) + spec_escaped(s.drop_first())) + escape_char(c));
    }
}

/// Escapes `&`, `<`, `>` and `"` for safe interpolation into HTML text and
/// attribute positions.
pub fn html_escape(s: &str) -> (r: String)
    ensures
        r@ == spec_escaped(s@),
{
    let n = s.unicode_len();
    let mut out = String::new();
    let mut i: usize = 0;
    assert(s@.subrange(0, 0) =~= Seq::<char>::empty());
    while i < n
        invariant
            0 <= i <= n,
            n == s@.len(),
            out@ == spec_escaped(s@.subrange(0, i as int)),
        decreases n - i,
    {
        let ghost done = s@.subrange(0, i as int);
        let c = s.get_char(i);
        if c == '&' {
            out.append("&amp;");
        } else if c == '<' {
            out.append("&lt;");
        } else if c == '>' {
            out.append("&gt;");
        } else if c == '"' {
            out.append("&quot;");
        } else {
            let one = s.substring_char(i, i + 1);
            assert(one@ =~= seq![s@[i as int]]);
            out.append(one);
        }
        proof {
            lemma_escaped_push(done, s@[i as int]);
            assert(s@.subrange(0, i + 1 as int) =~= done.push(s@[i as int]));
        }
        i += 1;
    }
    proof {
        assert(s@.subrange(0, s@.len() as int) =~= s@);
    }
    out
}

} // verus!
