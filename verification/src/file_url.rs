//! `file://` URLs as the iTunes and rekordbox XML libraries write them:
//! an absolute path, percent-encoded, behind `file://` or
//! `file://localhost`.
//!
//! Decoding is lenient (a `%` that does not start a two-digit escape is kept
//! as it is, and the bytes are read as lossy UTF-8); encoding escapes every
//! byte outside the unreserved set. Decoding an encoded absolute path gives
//! the path back.

use vstd::prelude::*;
use vstd::utf8::{encode_utf8, is_ascii_chars, is_ascii_chars_encode_utf8, encode_utf8_valid_utf8, encode_utf8_decode_utf8};
use crate::color_label::hex_digit;
use crate::text::{lossy_text, string_from_utf8_lossy, chars_of, string_of, copy_range};

verus! {

/// Value of a byte read as a hexadecimal digit (`(b as char).to_digit(16)`).
pub open spec fn hex_byte(b: u8) -> Option<u8> {
    hex_digit(b as char)
}

/// Percent-decoding of a byte string: `%` followed by two hex digits is the
/// byte they spell; every other byte stands for itself.
pub open spec fn percent_decode_bytes(s: Seq<u8>) -> Seq<u8>
    decreases s.len(),
{
    if s.len() == 0 {
        Seq::empty()
    } else if s[0] == 0x25u8 && s.len() >= 3 && hex_byte(s[1]).is_some() && hex_byte(s[2]).is_some() {
        seq![(hex_byte(s[1]).unwrap() * 16 + hex_byte(s[2]).unwrap()) as u8] + percent_decode_bytes(
            s.subrange(3, s.len() as int),
        )
    } else {
        seq![s[0]] + percent_decode_bytes(s.drop_first())
    }
}

/// The text a percent-encoded string decodes to: its UTF-8 bytes
/// percent-decoded, then read as lossy UTF-8.
pub open spec fn percent_decode_text(s: Seq<char>) -> Seq<char> {
    lossy_text(percent_decode_bytes(encode_utf8(s)))
}

fn hex_byte_exec(b: u8) -> (r: Option<u8>)
    ensures
        r == hex_byte(b),
{
    if 0x30 <= b && b <= 0x39 {
        Some(b - 0x30)
    } else if 0x61 <= b && b <= 0x66 {
        Some(b - 0x61 + 10)
    } else if 0x41 <= b && b <= 0x46 {
        Some(b - 0x41 + 10)
    } else {
        None
    }
}

/// Percent-decoding of a byte slice.
pub fn percent_decode_slice(bytes: &[u8]) -> (out: Vec<u8>)
    ensures
        out@ == percent_decode_bytes(bytes@),
{
    let mut out: Vec<u8> = Vec::new();
    let mut i: usize = 0;
    proof {
        assert(bytes@.subrange(0, bytes@.len() as int) =~= bytes@);
        assert(out@ + percent_decode_bytes(bytes@) =~= percent_decode_bytes(bytes@));
    }
    while i < bytes.len()
        invariant
            0 <= i <= bytes@.len(),
            percent_decode_bytes(bytes@) == out@ + percent_decode_bytes(
                bytes@.subrange(i as int, bytes@.len() as int),
            ),
        decreases bytes.len() - i,
    {
        let ghost rest = bytes@.subrange(i as int, bytes@.len() as int);
        proof {
            assert(rest[0] == bytes@[i as int]);
            assert(rest.drop_first() =~= bytes@.subrange(i + 1, bytes@.len() as int));
        }
        if bytes[i] == 0x25 && bytes.len() - i >= 3 {
            let hi = hex_byte_exec(bytes[i + 1]);
            let lo = hex_byte_exec(bytes[i + 2]);
            proof {
                assert(rest[1] == bytes@[i + 1]);
                assert(rest[2] == bytes@[i + 2]);
                assert(rest.subrange(3, rest.len() as int) =~= bytes@.subrange(i + 3, bytes@.len() as int));
            }
            if let (Some(h), Some(l)) = (hi, lo) {
                out.push(h * 16 + l);
                i = i + 3;
                proof {
                    assert(out@.drop_last() + seq![out@.last()] =~= out@);
                }
                continue;
            }
        }
        out.push(bytes[i]);
        i = i + 1;
        proof {
            assert(out@.drop_last() + seq![out@.last()] =~= out@);
        }
    }
    proof {
        assert(bytes@.subrange(i as int, bytes@.len() as int) =~= Seq::<u8>::empty());
        assert(out@ + Seq::<u8>::empty() =~= out@);
    }
    out
}

/// Minimal percent-decoder (`%XX` to the byte), read back as lossy UTF-8.
pub fn percent_decode(s: &str) -> (r: String)
    ensures
        r@ == percent_decode_text(s@),
{
    let bytes = s.as_bytes();
    let out = percent_decode_slice(bytes);
    string_from_utf8_lossy(out.as_slice())
}

/// `s` without the prefix `p`, when it starts with it.
pub open spec fn strip_prefix(s: Seq<char>, p: Seq<char>) -> Option<Seq<char>> {
    if s.len() >= p.len() && s.subrange(0, p.len() as int) == p {
        Some(s.subrange(p.len() as int, s.len() as int))
    } else {
        None
    }
}

/// The absolute path a `file://` URL names: the rest after `file://` and an
/// optional `localhost` authority, percent-decoded, when that starts with
/// `/`. Other URLs (remote or streaming locations) name none.
pub open spec fn file_url_path(url: Seq<char>) -> Option<Seq<char>> {
    match strip_prefix(url, "file://"@) {
        None => None,
        Some(rest) => {
            let rest = match strip_prefix(rest, "localhost"@) {
                Some(r) => r,
                None => rest,
            };
            let decoded = percent_decode_text(rest);
            if decoded.len() > 0 && decoded[0] == '/' {
                Some(decoded)
            } else {
                None
            }
        },
    }
}

fn strip_prefix_exec(v: &[char], p: &[char]) -> (r: Option<Vec<char>>)
    ensures
        r.is_some() == strip_prefix(v@, p@).is_some(),
        r matches Some(x) ==> x@ == strip_prefix(v@, p@).unwrap(),
{
    if v.len() < p.len() {
        return None;
    }
    let mut k: usize = 0;
    while k < p.len()
        invariant
            0 <= k <= p@.len(),
            p@.len() <= v@.len(),
            forall|j: int| 0 <= j < k ==> v@[j] == p@[j],
        decreases p.len() - k,
    {
        if v[k] != p[k] {
            proof {
                assert(v@.subrange(0, p@.len() as int)[k as int] != p@[k as int]);
            }
            return None;
        }
        k = k + 1;
    }
    proof {
        assert(v@.subrange(0, p@.len() as int) =~= p@);
    }
    Some(copy_range(v, p.len(), v.len()))
}

/// Decode a `Location` (`file://localhost/Users/...` or `file:///Users/...`,
/// percent-encoded) into an absolute filesystem path; `None` for a URL that
/// is not a `file://` one or does not decode to an absolute path.
pub fn decode_file_url(url: &str) -> (r: Option<String>)
    ensures
        r.is_some() == file_url_path(url@).is_some(),
        r matches Some(p) ==> p@ == file_url_path(url@).unwrap(),
{
    let v = chars_of(url);
    let scheme = chars_of("file://");
    let host = chars_of("localhost");
    let rest = match strip_prefix_exec(&v, &scheme) {
        None => return None,
        Some(r) => r,
    };
    let rest = match strip_prefix_exec(&rest, &host) {
        Some(r) => r,
        None => rest,
    };
    let rest_str = string_of(&rest);
    let decoded = percent_decode(rest_str.as_str());
    let d = chars_of(decoded.as_str());
    if d.len() > 0 && d[0] == '/' {
        Some(decoded)
    } else {
        None
    }
}

/// Bytes written as themselves in a `file://` URL: ASCII letters, digits,
/// `-`, `.`, `_`, `~` and the separator `/`.
pub open spec fn unreserved(b: u8) -> bool {
    ||| 0x41 <= b <= 0x5A
    ||| 0x61 <= b <= 0x7A
    ||| 0x30 <= b <= 0x39
    ||| b == 0x2D
    ||| b == 0x2E
    ||| b == 0x5F
    ||| b == 0x7E
    ||| b == 0x2F
}

/// Upper-case hexadecimal digit of a value below 16.
pub open spec fn hex_upper(n: u8) -> char {
    if n < 10 {
        ((n as u32) + 0x30) as char
    } else {
        ((n as u32) + 0x37) as char
    }
}

/// The encoding of one byte: itself when unreserved, `%XX` otherwise.
pub open spec fn encode_byte(b: u8) -> Seq<char> {
    if unreserved(b) {
        seq![b as char]
    } else {
        seq!['%', hex_upper(b / 16), hex_upper(b % 16)]
    }
}

/// Percent-encoding of a byte string.
pub open spec fn percent_encode_bytes(s: Seq<u8>) -> Seq<char>
    decreases s.len(),
{
    if s.len() == 0 {
        Seq::empty()
    } else {
        encode_byte(s[0]) + percent_encode_bytes(s.drop_first())
    }
}

/// The `file://localhost/...` URL of a path.
pub open spec fn file_url_of(path: Seq<char>) -> Seq<char> {
    "file://localhost"@ + percent_encode_bytes(encode_utf8(path))
}

fn hex_upper_exec(n: u8) -> (c: char)
    requires
        n < 16,
    ensures
        c == hex_upper(n),
{
    if n < 10 {
        crate::text::char_from_u32((n as u32) + 0x30)
    } else {
        crate::text::char_from_u32((n as u32) + 0x37)
    }
}

/// Absolute path to the `file://localhost/...` URL the rekordbox format
/// uses: every byte outside the unreserved set is percent-encoded, `/` stays
/// the separator.
pub fn encode_file_url(path: &str) -> (r: String)
    ensures
        r@ == file_url_of(path@),
{
    let bytes = path.as_bytes();
    let mut out: Vec<char> = chars_of("file://localhost");
    let ghost head = out@;
    let mut i: usize = 0;
    proof {
        assert(bytes@.subrange(0, 0) =~= Seq::<u8>::empty());
        assert(head + percent_encode_bytes(Seq::<u8>::empty()) =~= head);
    }
    while i < bytes.len()
        invariant
            0 <= i <= bytes@.len(),
            head == "file://localhost"@,
            out@ == head + percent_encode_bytes(bytes@.subrange(0, i as int)),
        decreases bytes.len() - i,
    {
        let b = bytes[i];
        proof {
            lemma_encode_snoc(bytes@.subrange(0, i as int), b);
            assert(bytes@.subrange(0, i + 1) =~= bytes@.subrange(0, i as int).push(b));
        }
        if (0x41 <= b && b <= 0x5A) || (0x61 <= b && b <= 0x7A) || (0x30 <= b && b <= 0x39) || b
            == 0x2D || b == 0x2E || b == 0x5F || b == 0x7E || b == 0x2F {
            out.push(crate::text::char_from_u32(b as u32));
        } else {
            out.push('%');
            out.push(hex_upper_exec(b / 16));
            out.push(hex_upper_exec(b % 16));
        }
        i = i + 1;
    }
    proof {
        assert(bytes@.subrange(0, bytes@.len() as int) =~= bytes@);
    }
    string_of(&out)
}

/// Encoding distributes over appending one byte.
proof fn lemma_encode_snoc(s: Seq<u8>, b: u8)
    ensures
        percent_encode_bytes(s.push(b)) =~= percent_encode_bytes(s) + encode_byte(b),
    decreases s.len(),
{
    if s.len() == 0 {
        assert(s.push(b).drop_first() =~= Seq::<u8>::empty());
        assert(s.push(b)[0] == b);
        assert(percent_encode_bytes(s.push(b)) == encode_byte(b) + percent_encode_bytes(Seq::<u8>::empty()));
    } else {
        assert(s.push(b).drop_first() =~= s.drop_first().push(b));
        assert(s.push(b)[0] == s[0]);
        lemma_encode_snoc(s.drop_first(), b);
        assert(percent_encode_bytes(s.push(b)) == encode_byte(s[0]) + percent_encode_bytes(s.drop_first().push(b)));
        assert(percent_encode_bytes(s) == encode_byte(s[0]) + percent_encode_bytes(s.drop_first()));
    }
}

/// Every character of an encoding is ASCII.
proof fn lemma_encode_ascii(s: Seq<u8>)
    ensures
        is_ascii_chars(percent_encode_bytes(s)),
    decreases s.len(),
{
    if s.len() > 0 {
        lemma_encode_ascii(s.drop_first());
        let e = encode_byte(s[0]);
        let t = percent_encode_bytes(s.drop_first());
        assert forall|i: int| 0 <= i < (e + t).len() implies '\0' <= #[trigger] (e + t)[i] <= '\u{7f}' by {
            if i >= e.len() {
                assert((e + t)[i] == t[i - e.len()]);
            }
        }
    }
}

/// The bytes of an ASCII character sequence, one per character.
pub open spec fn ascii_bytes(s: Seq<char>) -> Seq<u8> {
    Seq::new(s.len(), |i: int| s[i] as u8)
}

/// Decoding the byte form of an encoding gives the encoded bytes back.
proof fn lemma_decode_encode(s: Seq<u8>)
    ensures
        percent_decode_bytes(ascii_bytes(percent_encode_bytes(s))) =~= s,
    decreases s.len(),
{
    if s.len() > 0 {
        let b = s[0];
        let e = encode_byte(b);
        let t = percent_encode_bytes(s.drop_first());
        lemma_decode_encode(s.drop_first());
        let whole = ascii_bytes(e + t);
        assert(percent_encode_bytes(s) == e + t);
        if unreserved(b) {
            assert(whole[0] == b);
            assert(whole.drop_first() =~= ascii_bytes(t));
        } else {
            let hi = b / 16;
            let lo = b % 16;
            assert(whole[0] == 0x25u8);
            assert(whole[1] == hex_upper(hi) as u8);
            assert(whole[2] == hex_upper(lo) as u8);
            assert(hex_byte(whole[1]) == Some(hi));
            assert(hex_byte(whole[2]) == Some(lo));
            assert(whole.subrange(3, whole.len() as int) =~= ascii_bytes(t));
            assert((hi * 16 + lo) as u8 == b);
        }
        assert(seq![b] + s.drop_first() =~= s);
    }
}

/// Decoding the URL of an absolute path gives the path back: for every path
/// starting with `/`, `decode_file_url(encode_file_url(path))` is the path.
pub proof fn lemma_file_url_round_trip(path: Seq<char>)
    requires
        path.len() > 0,
        path[0] == '/',
    ensures
        file_url_path(file_url_of(path)) == Some(path),
{
    reveal_strlit("file://localhost");
    reveal_strlit("file://");
    reveal_strlit("localhost");
    let bytes = encode_utf8(path);
    let enc = percent_encode_bytes(bytes);
    let url = file_url_of(path);
    assert(url.subrange(0, 7) =~= "file://"@);
    let rest = url.subrange(7, url.len() as int);
    assert(rest =~= "localhost"@ + enc);
    assert(rest.subrange(0, 9) =~= "localhost"@);
    assert(rest.subrange(9, rest.len() as int) =~= enc);
    lemma_encode_ascii(bytes);
    is_ascii_chars_encode_utf8(enc);
    assert(encode_utf8(enc) =~= ascii_bytes(enc));
    lemma_decode_encode(bytes);
    encode_utf8_valid_utf8(path);
    encode_utf8_decode_utf8(path);
    assert(percent_decode_text(enc) == path);
}

} // verus!
