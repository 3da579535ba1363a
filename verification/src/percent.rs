//! Percent-decoding of RFC 3986 components, as used in `vless://` links.
//! `+` is left untouched: links use raw percent-encoding, not
//! form-encoding, and base64 keys may contain `+`.

use vstd::prelude::*;
use vstd::utf8::*;

use crate::text::string_of;

verus! {

/// The value of an ASCII hex digit, if `b` is one.
pub open spec fn hex_value(b: u8) -> Option<u8> {
    if 0x30 <= b <= 0x39 {
        Some((b - 0x30) as u8)
    } else if 0x61 <= b <= 0x66 {
        Some((b - 0x61 + 10) as u8)
    } else if 0x41 <= b <= 0x46 {
        Some((b - 0x41 + 10) as u8)
    } else {
        None
    }
}

/// Bytes with every `%XY` escape (two hex digits) replaced by the byte it
/// names; any other byte, including a `%` not followed by two hex digits,
/// is kept.
pub open spec fn unescape(b: Seq<u8>) -> Seq<u8>
    decreases b.len(),
{
    if b.len() == 0 {
        seq![]
    } else if b[0] == 0x25 && b.len() > 2 && hex_value(b[1]) is Some && hex_value(b[2]) is Some {
        seq![(hex_value(b[1]).unwrap() * 16 + hex_value(b[2]).unwrap()) as u8] + unescape(
            b.skip(3),
        )
    } else {
        seq![b[0]] + unescape(b.skip(1))
    }
}

/// What `String::from_utf8_lossy` makes of `bytes`.
pub uninterp spec fn utf8_lossy(bytes: Seq<u8>) -> Seq<char>;

/// The text that `bytes` read as UTF-8 give: the text they encode when they
/// are valid UTF-8, else what `String::from_utf8_lossy` makes of them.
pub open spec fn lossy_text(bytes: Seq<u8>) -> Seq<char> {
    if valid_utf8(bytes) {
        decode_utf8(bytes)
    } else {
        utf8_lossy(bytes)
    }
}

/// The text a percent-encoded component stands for: its UTF-8 bytes with
/// escapes resolved, read back as UTF-8 with invalid sequences replaced.
pub open spec fn percent_decoded(s: Seq<char>) -> Seq<char> {
    lossy_text(unescape(encode_utf8(s)))
}

/// `String::from_utf8_lossy(..).into_owned()`: the bytes read as UTF-8, with
/// each invalid sequence replaced by U+FFFD. Bytes that are valid UTF-8 come
/// back as the text they encode. Which replacement characters stand for an
/// invalid input is left to the name `utf8_lossy`.
#[verifier::external_body]
pub(crate) fn utf8_lossy_string(bytes: &[u8]) -> (s: String)
    ensures
        s@ == utf8_lossy(bytes@),
        s@ == lossy_text(bytes@),
{
    String::from_utf8_lossy(bytes).into_owned()
}

/// Value of an ASCII hex digit.
pub fn hex_val(b: u8) -> (r: Option<u8>)
    ensures
        r == hex_value(b),
{
    if 0x30 <= b && b <= 0x39 {
        Some(b - 0x30)
    } else if 0x61 <= b && b <= 0x66 {
        Some(b - 0x61 + 10)
    } else if 0x41 <= b && b <= 0x46 {
        Some(b - 0x41 + 10)
    } else {
        None
    }
}

/// Resolves the `%XY` escapes in a byte string.
pub fn unescape_bytes(b: &[u8]) -> (out: Vec<u8>)
    ensures
        out@ == unescape(b@),
{
    let mut out: Vec<u8> = Vec::new();
    let mut i: usize = 0;
    assert(b@.skip(0) =~= b@);
    while i < b.len()
        invariant
            i <= b.len(),
            unescape(b@) == out@ + unescape(b@.skip(i as int)),
        decreases b.len() - i,
    {
        let ghost rest = b@.skip(i as int);
        let ghost old_out = out@;
        if b[i] == 0x25 && 2 < b.len() - i {
            let h = hex_val(b[i + 1]);
            let l = hex_val(b[i + 2]);
            if h.is_some() && l.is_some() {
                let hv = h.unwrap();
                let lv = l.unwrap();
                out.push(hv * 16 + lv);
                assert(rest.skip(3) =~= b@.skip(i + 3));
                assert(out@ + unescape(b@.skip(i + 3)) =~= old_out + unescape(rest));
                i = i + 3;
                continue;
            }
        }
        out.push(b[i]);
        assert(rest.skip(1) =~= b@.skip(i + 1));
        assert(out@ + unescape(b@.skip(i + 1)) =~= old_out + unescape(rest));
        i = i + 1;
    }
    assert(b@.skip(i as int) =~= Seq::<u8>::empty());
    assert(out@ + unescape(Seq::<u8>::empty()) =~= out@);
    out
}

/// Bytes without a `%` are left as they are.
pub proof fn lemma_unescape_plain(b: Seq<u8>)
    requires
        forall|i: int| 0 <= i < b.len() ==> b[i] != 0x25,
    ensures
        unescape(b) == b,
    decreases b.len(),
{
    if b.len() > 0 {
        lemma_unescape_plain(b.skip(1));
        assert(seq![b[0]] + b.skip(1) =~= b);
    }
}

/// No byte of the UTF-8 encoding of a text without `%` is a `%` byte: the
/// bytes of a multi-byte character are all at least 0x80.
pub proof fn lemma_no_percent_bytes(s: Seq<char>)
    requires
        !s.contains('%'),
    ensures
        forall|i: int| 0 <= i < encode_utf8(s).len() ==> encode_utf8(s)[i] != 0x25,
    decreases s.len(),
{
    if s.len() > 0 {
        assert(!s.drop_first().contains('%')) by {
            if s.drop_first().contains('%') {
                let k = choose|k: int| 0 <= k < s.drop_first().len() && s.drop_first()[k] == '%';
                assert(s[k + 1] == '%');
            }
        }
        lemma_no_percent_bytes(s.drop_first());
        let c = s[0] as u32;
        char_is_scalar(s[0]);
        assert(s[0] != '%');
        assert(c != 0x25) by {
            char_u32_cast(s[0], c);
        }
        let e = encode_scalar(c);
        assert forall|i: int| 0 <= i < e.len() implies e[i] != 0x25 by {
            if c <= 0x7F {
                assert((c & 0x7F) as u8 != 0x25u8) by (bit_vector)
                    requires
                        c <= 0x7F,
                        c != 0x25,
                ;
            }
            assert(forall|x: u8| #![auto] (0xC0u8 | x) != 0x25u8) by (bit_vector);
            assert(forall|x: u8| #![auto] (0xE0u8 | x) != 0x25u8) by (bit_vector);
            assert(forall|x: u8| #![auto] (0xF0u8 | x) != 0x25u8) by (bit_vector);
            assert(forall|x: u8| #![auto] (0x80u8 | x) != 0x25u8) by (bit_vector);
        }
        let all = encode_utf8(s);
        let rest = encode_utf8(s.drop_first());
        assert(all == e + rest);
        assert forall|i: int| 0 <= i < all.len() implies all[i] != 0x25 by {
            if i < e.len() {
                assert(all[i] == e[i]);
            } else {
                assert(all[i] == rest[i - e.len()]);
            }
        }
    }
}

/// Percent-decodes `v[lo..hi]`. Text without `%` (a `+` included) comes back
/// unchanged.
pub fn percent_decode(v: &Vec<char>, lo: usize, hi: usize) -> (s: String)
    requires
        lo <= hi <= v.len(),
    ensures
        s@ == percent_decoded(v@.subrange(lo as int, hi as int)),
        !v@.subrange(lo as int, hi as int).contains('%') ==> s@ == v@.subrange(lo as int, hi as int),
{
    let ghost input = v@.subrange(lo as int, hi as int);
    let raw = string_of(v, lo, hi);
    let bytes = raw.as_str().as_bytes();
    let out = unescape_bytes(bytes);
    proof {
        if !input.contains('%') {
            lemma_percent_decoded_plain(input);
        }
    }
    utf8_lossy_string(out.as_slice())
}

/// Text without `%` decodes to itself.
pub proof fn lemma_percent_decoded_plain(s: Seq<char>)
    requires
        !s.contains('%'),
    ensures
        percent_decoded(s) == s,
{
    lemma_no_percent_bytes(s);
    lemma_unescape_plain(encode_utf8(s));
    encode_utf8_valid_utf8(s);
    encode_utf8_decode_utf8(s);
}

/// The hex digit for `d` (below 16), in upper or lower case.
pub open spec fn hex_digit(d: nat, upper: bool) -> char {
    if d < 10 {
        (0x30 + d) as char
    } else if upper {
        (0x41 + d - 10) as char
    } else {
        (0x61 + d - 10) as char
    }
}

/// `%` followed by the two hex digits of `b`.
pub open spec fn escape_byte(b: u8, upper: bool) -> Seq<char> {
    seq!['%', hex_digit((b / 16) as nat, upper), hex_digit((b % 16) as nat, upper)]
}

/// Every byte escaped.
pub open spec fn escape_bytes(b: Seq<u8>, upper: bool) -> Seq<char>
    decreases b.len(),
{
    if b.len() == 0 {
        seq![]
    } else {
        escape_byte(b[0], upper) + escape_bytes(b.skip(1), upper)
    }
}

/// `s` fully percent-encoded: every byte of its UTF-8 encoding written as
/// `%XY` (with upper-case hex digits when `upper`, else lower-case).
pub open spec fn percent_encoded(s: Seq<char>, upper: bool) -> Seq<char> {
    escape_bytes(encode_utf8(s), upper)
}

/// The bytes of ASCII text, one per character.
pub open spec fn ascii_bytes(t: Seq<char>) -> Seq<u8> {
    t.map_values(|c: char| c as u8)
}

proof fn lemma_hex_digit(d: nat, upper: bool)
    requires
        d < 16,
    ensures
        (hex_digit(d, upper) as u32) < 0x80,
        hex_value(hex_digit(d, upper) as u8) == Some(d as u8),
{
    let c = hex_digit(d, upper);
    if d < 10 {
        char_u32_cast(c, (0x30 + d) as u32);
    } else if upper {
        char_u32_cast(c, (0x41 + d - 10) as u32);
    } else {
        char_u32_cast(c, (0x61 + d - 10) as u32);
    }
}

proof fn lemma_escape_bytes(b: Seq<u8>, upper: bool)
    ensures
        is_ascii_chars(escape_bytes(b, upper)),
        unescape(ascii_bytes(escape_bytes(b, upper))) == b,
    decreases b.len(),
{
    if b.len() > 0 {
        lemma_escape_bytes(b.skip(1), upper);
        let x = b[0];
        lemma_hex_digit((x / 16) as nat, upper);
        lemma_hex_digit((x % 16) as nat, upper);
        let head = escape_byte(x, upper);
        let tail = escape_bytes(b.skip(1), upper);
        let t = escape_bytes(b, upper);
        assert(t == head + tail);
        assert forall|i: int| 0 <= i < t.len() implies '\0' <= #[trigger] t[i] <= '\u{7f}' by {
            if i >= 3 {
                assert(t[i] == tail[i - 3]);
            }
        }
        let e = ascii_bytes(t);
        assert(e[0] == 0x25);
        assert(e.skip(3) =~= ascii_bytes(tail));
        assert(e[1] == hex_digit((x / 16) as nat, upper) as u8);
        assert(e[2] == hex_digit((x % 16) as nat, upper) as u8);
        assert((x / 16) * 16 + x % 16 == x);
        assert(seq![x] + b.skip(1) =~= b);
    } else {
        assert(ascii_bytes(escape_bytes(b, upper)) =~= Seq::<u8>::empty());
    }
}

/// Decoding a fully percent-encoded text gives the text back, whichever case
/// its hex digits are in.
pub proof fn lemma_percent_round_trip(s: Seq<char>, upper: bool)
    ensures
        percent_decoded(percent_encoded(s, upper)) == s,
{
    let b = encode_utf8(s);
    let t = percent_encoded(s, upper);
    lemma_escape_bytes(b, upper);
    is_ascii_chars_encode_utf8(t);
    assert(encode_utf8(t) =~= ascii_bytes(t));
    encode_utf8_valid_utf8(s);
    encode_utf8_decode_utf8(s);
}

} // verus!
