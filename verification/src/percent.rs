//! Percent-encoding of path segments and percent-decoding of request paths.
//!
//! Encoding is verified down to the byte level: every byte outside the safe
//! set becomes `%` followed by two uppercase hex digits, so an encoded path
//! separator inside a filename can never merge with the URL's own
//! separators. Decoding of the attacker-controlled request path is done by
//! an outside crate behind a trusted wrapper.

use vstd::prelude::*;
use vstd::string::StringSliceAdditionalSpecFns;
use vstd::utf8::{decode_utf8, encode_utf8, valid_utf8};

verus! {

/// Bytes that are escaped in generated links: the C0 controls, DEL and all
/// non-ASCII bytes, plus space, `"`, `<`, `>`, `#`, `?`, `` ` ``, `{`, `}`.
pub open spec fn must_escape(b: u8) -> bool {
    b <= 0x1f || b >= 0x7f || b == 0x20 || b == 0x22 || b == 0x3c || b == 0x3e || b == 0x23
        || b == 0x3f || b == 0x60 || b == 0x7b || b == 0x7d
}

/// The ASCII code of the uppercase hex digit for a value below 16.
pub open spec fn spec_hex_upper(n: u8) -> u8 {
    if n < 10 {
        (0x30 + n) as u8
    } else {
        (0x41 + (n - 10)) as u8
    }
}

/// The encoding of one byte: itself if safe, else `%` and two hex digits.
pub open spec fn escape_byte(b: u8) -> Seq<u8> {
    if must_escape(b) {
        seq![0x25u8, spec_hex_upper(b / 16), spec_hex_upper(b % 16)]
    } else {
        seq![b]
    }
}

/// The percent-encoding of a byte sequence.
pub open spec fn percent_encode_seq(bs: Seq<u8>) -> Seq<u8>
    decreases bs.len(),
{
    if bs.len() == 0 {
        seq![]
    } else {
        escape_byte(bs[0]) + percent_encode_seq(bs.drop_first())
    }
}

/// The characters with the same code points as a sequence of ASCII bytes.
pub open spec fn ascii_chars(bs: Seq<u8>) -> Seq<char> {
    Seq::new(bs.len(), |i: int| bs[i] as char)
}

/// The percent-encoded form of a segment: its UTF-8 bytes, each escaped as
/// needed, read back as ASCII characters.
pub open spec fn spec_encoded_segment(s: Seq<char>) -> Seq<char> {
    ascii_chars(percent_encode_seq(encode_utf8(s)))
}

pub proof fn lemma_percent_encode_push(bs: Seq<u8>, b: u8)
    ensures
        percent_encode_seq(bs.push(b)) == percent_encode_seq(bs) + escape_byte(b),
    decreases bs.len(),
{
    if bs.len() == 0 {
        assert(bs.push(b)[0] == b);
        assert(bs.push(b).drop_first() =~= Seq::<u8>::empty());
        assert(percent_encode_seq(bs.push(b)) == escape_byte(b) + percent_encode_seq(
            Seq::<u8>::empty(),
        ));
        assert(escape_byte(b) + percent_encode_seq(Seq::<u8>::empty()) =~= escape_byte(b));
        assert(percent_encode_seq(bs) + escape_byte(b) =~= escape_byte(b));
    } else {
        assert(bs.push(b).drop_first() =~= bs.drop_first().push(b));
        lemma_percent_encode_push(bs.drop_first(), b);
        assert(escape_byte(bs[0]) + (percent_encode_seq(bs.drop_first()) + escape_byte(b)) =~= (
        escape_byte(bs[0]) + percent_encode_seq(bs.drop_first())) + escape_byte(b));
    }
}

/// Every byte of an encoded sequence is ASCII.
pub proof fn lemma_percent_encode_ascii(bs: Seq<u8>)
    ensures
        forall|i: int|
            0 <= i < percent_encode_seq(bs).len() ==> percent_encode_seq(bs)[i] < 0x80,
    decreases bs.len(),
{
    if bs.len() > 0 {
        lemma_percent_encode_ascii(bs.drop_first());
        let e = escape_byte(bs[0]);
        let rest = percent_encode_seq(bs.drop_first());
        assert(percent_encode_seq(bs) == e + rest);
        assert forall|i: int| 0 <= i < (e + rest).len() implies (e + rest)[i] < 0x80 by {
            if i < e.len() {
                assert((e + rest)[i] == e[i]);
                if must_escape(bs[0]) {
                    assert(bs[0] / 16 < 16);
                    assert(bs[0] % 16 < 16);
                    assert(spec_hex_upper(bs[0] / 16) < 0x80);
                    assert(spec_hex_upper(bs[0] % 16) < 0x80);
                }
            } else {
                assert((e + rest)[i] == rest[i - e.len()]);
            }
        }
    }
}

fn hex_upper(n: u8) -> (r: u8)
    requires
        n < 16,
    ensures
        r == spec_hex_upper(n),
{
    if n < 10 {
        0x30 + n
    } else {
        0x41 + (n - 10)
    }
}

fn must_escape_exec(b: u8) -> (r: bool)
    ensures
        r == must_escape(b),
{
    b <= 0x1f || b >= 0x7f || b == 0x20 || b == 0x22 || b == 0x3c || b == 0x3e || b == 0x23
        || b == 0x3f || b == 0x60 || b == 0x7b || b == 0x7d
}

/// Relies on String::from_utf8: ASCII bytes are valid UTF-8 and decode to
/// the characters with the same code points.
#[verifier::external_body]
fn ascii_bytes_to_string(v: Vec<u8>) -> (r: String)
    requires
        forall|i: int| 0 <= i < v@.len() ==> v@[i] < 0x80,
    ensures
        r@ == ascii_chars(v@),
{
    String::from_utf8(v).unwrap_or_default()
}

/// Percent-encodes one path segment for use in a generated link.
pub fn encode_segment(seg: &str) -> (r: String)
    ensures
        r@ == spec_encoded_segment(seg@),
{
    let bytes: &[u8] = seg.as_bytes();
    let ghost all = bytes@;
    let mut out: Vec<u8> = Vec::new();
    let mut i: usize = 0;
    assert(all.subrange(0, 0) =~= Seq::<u8>::empty());
    while i < bytes.len()
        invariant
            0 <= i <= bytes.len(),
            all == bytes@,
            all == seg.spec_bytes(),
            out@ == percent_encode_seq(all.subrange(0, i as int)),
        decreases bytes.len() - i,
    {
        let ghost done = all.subrange(0, i as int);
        let b = bytes[i];
        if must_escape_exec(b) {
            out.push(0x25);
            out.push(hex_upper(b / 16));
            out.push(hex_upper(b % 16));
        } else {
            out.push(b);
        }
        proof {
            lemma_percent_encode_push(done, b);
            assert(all.subrange(0, i + 1 as int) =~~= done.push(b));
            assert(out@ =~= percent_encode_seq(done) + escape_byte(b));
        }
        i += 1;
    }
    proof {
        assert(all.subrange(0, all.len() as int) =~= all);
        lemma_percent_encode_ascii(all);
    }
    ascii_bytes_to_string(out)
}

/// Whether a byte is an ASCII hex digit.
pub open spec fn is_hex_digit(b: u8) -> bool {
    (0x30 <= b && b <= 0x39) || (0x41 <= b && b <= 0x46) || (0x61 <= b && b <= 0x66)
}

/// The value of an ASCII hex digit.
pub open spec fn hex_value(b: u8) -> u8 {
    if b <= 0x39 {
        (b - 0x30) as u8
    } else if b <= 0x46 {
        (b - 0x41 + 10) as u8
    } else {
        (b - 0x61 + 10) as u8
    }
}

/// Percent-decoding of a byte sequence: every `%` followed by two hex
/// digits becomes the byte they denote; everything else passes through.
pub open spec fn percent_decode_seq(bs: Seq<u8>) -> Seq<u8>
    decreases bs.len(),
{
    if bs.len() == 0 {
        seq![]
    } else if bs[0] == 0x25 && bs.len() >= 3 && is_hex_digit(bs[1]) && is_hex_digit(bs[2]) {
        seq![((hex_value(bs[1]) as int * 16 + hex_value(bs[2]) as int) as u8)]
            + percent_decode_seq(bs.skip(3))
    } else {
        seq![bs[0]] + percent_decode_seq(bs.skip(1))
    }
}

pub uninterp spec fn lossy_utf8_decode(bs: Seq<u8>) -> Seq<char>;

/// Relies on percent_encoding::percent_decode_str and
/// PercentDecode::decode_utf8_lossy: every `%` followed by two hex digits
/// becomes the byte they denote, and the resulting bytes are decoded as
/// UTF-8 with invalid sequences replaced; lossy decoding is exact on valid
/// UTF-8.
#[verifier::external_body]
pub(crate) fn percent_decode_lossy(s: &str) -> (r: String)
    ensures
        r@ == lossy_utf8_decode(percent_decode_seq(s.spec_bytes())),
        valid_utf8(percent_decode_seq(s.spec_bytes())) ==> r@ == decode_utf8(
            percent_decode_seq(s.spec_bytes()),
        ),
{
    percent_encoding::percent_decode_str(s).decode_utf8_lossy().into_owned()
}

/// Decoding inverts encoding on byte sequences that contain no raw `%`:
/// a `%` in a filename passes through the encoder unescaped and would be
/// re-interpreted by the decoder, so such names are left out.
pub proof fn lemma_percent_round_trip(bs: Seq<u8>)
    requires
        !bs.contains(0x25u8),
    ensures
        percent_decode_seq(percent_encode_seq(bs)) == bs,
    decreases bs.len(),
{
    if bs.len() == 0 {
        assert(percent_encode_seq(bs) =~= Seq::<u8>::empty());
    } else {
        let b = bs[0];
        let rest = bs.drop_first();
        assert(bs[0] != 0x25) by {
            assert(bs.contains(b));
        }
        assert(!rest.contains(0x25u8)) by {
            if rest.contains(0x25u8) {
                let j = choose|j: int| 0 <= j < rest.len() && rest[j] == 0x25u8;
                assert(bs[j + 1] == 0x25u8);
                assert(bs.contains(0x25u8));
            }
        }
        lemma_percent_round_trip(rest);
        let enc = percent_encode_seq(bs);
        if must_escape(b) {
            assert(enc =~= seq![0x25u8, spec_hex_upper(b / 16), spec_hex_upper(b % 16)]
                + percent_encode_seq(rest));
            assert(is_hex_digit(spec_hex_upper(b / 16)));
            assert(is_hex_digit(spec_hex_upper(b % 16)));
            assert(hex_value(spec_hex_upper(b / 16)) == b / 16);
            assert(hex_value(spec_hex_upper(b % 16)) == b % 16);
            assert((hex_value(enc[1]) as int * 16 + hex_value(enc[2]) as int) as u8 == b);
            assert(enc.skip(3) =~= percent_encode_seq(rest));
            assert(percent_decode_seq(enc) =~= seq![b] + percent_decode_seq(
                percent_encode_seq(rest),
            ));
            assert(seq![b] + rest =~= bs);
        } else {
            assert(enc =~= seq![b] + percent_encode_seq(rest));
            assert(enc[0] == b && b != 0x25);
            if enc.len() >= 3 && enc[0] == 0x25 && is_hex_digit(enc[1]) && is_hex_digit(enc[2]) {
                assert(false);
            }
            assert(enc.skip(1) =~= percent_encode_seq(rest));
            assert(percent_decode_seq(enc) =~= seq![b] + percent_decode_seq(
                percent_encode_seq(rest),
            ));
            assert(seq![b] + rest =~= bs);
        }
    }
}

/// The UTF-8 encoding of a `%`-free character sequence contains no `%`
/// byte: a one-byte unit carries the character's own code, and every byte
/// of a multi-byte unit has its high bit set.
pub proof fn lemma_encode_utf8_no_percent(s: Seq<char>)
    requires
        !s.contains('%'),
    ensures
        !encode_utf8(s).contains(0x25u8),
    decreases s.len(),
{
    if s.len() > 0 {
        let rest = s.drop_first();
        assert(!rest.contains('%')) by {
            if rest.contains('%') {
                let j = choose|j: int| 0 <= j < rest.len() && rest[j] == '%';
                assert(s[j + 1] == '%');
                assert(s.contains('%'));
            }
        }
        lemma_encode_utf8_no_percent(rest);
        let c = s[0];
        assert(s.contains(c));
        let scalar = c as u32;
        assert(scalar != 0x25) by {
            if scalar == 0x25 {
                vstd::utf8::char_u32_cast(c, scalar);
                assert(c == '%');
            }
        }
        let head = vstd::utf8::encode_scalar(scalar);
        assert(forall|v: u32| v < 0x80 ==> ((v & 0x7F) as u8) as u32 == v) by (bit_vector);
        assert(forall|y: u8| (0x80u8 | y) != 0x25u8) by (bit_vector);
        assert(forall|y: u8| (0xC0u8 | y) != 0x25u8) by (bit_vector);
        assert(forall|y: u8| (0xE0u8 | y) != 0x25u8) by (bit_vector);
        assert(forall|y: u8| (0xF0u8 | y) != 0x25u8) by (bit_vector);
        assert(forall|k: int| 0 <= k < head.len() ==> head[k] != 0x25u8);
        assert(encode_utf8(s) == head + encode_utf8(rest));
        if encode_utf8(s).contains(0x25u8) {
            let j = choose|j: int|
                0 <= j < encode_utf8(s).len() && encode_utf8(s)[j] == 0x25u8;
            if j < head.len() {
                assert(head[j] != 0x25u8);
            } else {
                assert(encode_utf8(rest)[j - head.len()] == 0x25u8);
                assert(encode_utf8(rest).contains(0x25u8));
            }
        }
    }
}

/// Percent-encoding round trip at the segment level: a filename without a
/// raw `%` is reproduced exactly when its generated link target is
/// percent-decoded (a raw `%` passes through the encoder unescaped and
/// would be re-interpreted by the decoder).
pub proof fn lemma_segment_round_trip(seg: Seq<char>)
    requires
        !seg.contains('%'),
    ensures
        valid_utf8(percent_decode_seq(encode_utf8(spec_encoded_segment(seg)))),
        decode_utf8(percent_decode_seq(encode_utf8(spec_encoded_segment(seg)))) == seg,
{
    let bs = encode_utf8(seg);
    lemma_encode_utf8_no_percent(seg);
    let enc = percent_encode_seq(bs);
    lemma_percent_round_trip(bs);
    lemma_percent_encode_ascii(bs);
    let ec = ascii_chars(enc);
    assert(vstd::utf8::is_ascii_chars(ec)) by {
        assert forall|i: int| 0 <= i < ec.len() implies '\0' <= #[trigger] ec[i] <= '\u{7f}' by {
            assert(ec[i] == enc[i] as char);
            assert(enc[i] < 0x80);
        }
    }
    vstd::utf8::is_ascii_chars_encode_utf8(ec);
    assert(encode_utf8(ec) =~= enc) by {
        assert forall|i: int| 0 <= i < enc.len() implies encode_utf8(ec)[i] == enc[i] by {
            assert(ec[i] as u8 == encode_utf8(ec)[i]);
            assert((enc[i] as char) as u8 == enc[i]);
        }
    }
    assert(percent_decode_seq(encode_utf8(spec_encoded_segment(seg))) == bs);
    vstd::utf8::encode_utf8_valid_utf8(seg);
    vstd::utf8::encode_utf8_decode_utf8(seg);
}

} // verus!
