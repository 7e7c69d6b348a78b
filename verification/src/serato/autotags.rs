//! `Serato Autotags` GEOB decoder: BPM and gain.
//!
//! The payload is a short header then three ASCII decimal strings (BPM,
//! auto-gain dB, manual-gain dB), NUL-separated, sometimes base64-wrapped
//! and sometimes raw. Decoding is tolerant: base64-or-raw, then the text
//! chunks between control bytes, in order. The chunks are the numbers'
//! texts; reading them as floating-point values is the caller's step.

use vstd::prelude::*;
use vstd::utf8::{valid_utf8, decode_utf8};
use crate::text::{trim, string_from_utf8, chars_of, trim_bounds, string_of, copy_range};
use crate::serato::{b64_decoded, b64_decode, b64_text, strip_b64_noise};
use crate::serato::database::copy_bytes;

verus! {

/// The body a payload's bytes decode to: their base64 decoding when that
/// succeeds and is non-empty, else the bytes themselves.
pub open spec fn body_of(bytes: Seq<u8>) -> Seq<u8> {
    match b64_decoded(b64_text(bytes)) {
        Some(d) => if d.len() > 0 {
            d
        } else {
            bytes
        },
        None => bytes,
    }
}

/// If the bytes are valid base64, their decoding; otherwise the bytes.
pub fn decode_base64_or_raw(bytes: &[u8]) -> (r: Vec<u8>)
    ensures
        r@ == body_of(bytes@),
{
    let text = strip_b64_noise(bytes, 0);
    proof {
        assert(bytes@.subrange(0, bytes@.len() as int) =~= bytes@);
    }
    match b64_decode(text.as_slice()) {
        Some(d) => if d.len() > 0 {
            d
        } else {
            copy_bytes(bytes, 0, bytes.len())
        },
        None => copy_bytes(bytes, 0, bytes.len()),
    }
}

/// A separator byte: NUL or any other control byte below 0x20.
pub open spec fn is_ctrl(b: u8) -> bool {
    b < 0x20
}

pub open spec fn first_ctrl(s: Seq<u8>) -> Option<int>
    decreases s.len(),
{
    if s.len() == 0 {
        None
    } else if is_ctrl(s[0]) {
        Some(0)
    } else {
        match first_ctrl(s.drop_first()) {
            Some(i) => Some(i + 1),
            None => None,
        }
    }
}

pub proof fn lemma_first_ctrl(s: Seq<u8>)
    ensures
        first_ctrl(s) matches Some(i) ==> 0 <= i < s.len() && is_ctrl(s[i]) && (forall|k: int|
            0 <= k < i ==> !is_ctrl(s[k])),
        first_ctrl(s) is None ==> forall|k: int| 0 <= k < s.len() ==> !is_ctrl(s[k]),
    decreases s.len(),
{
    if s.len() > 0 && !is_ctrl(s[0]) {
        lemma_first_ctrl(s.drop_first());
        assert forall|k: int| 0 < k < s.len() implies s[k] == s.drop_first()[k - 1] by {}
    }
}

/// The token a chunk contributes: its trimmed text when it is valid UTF-8
/// and not blank.
pub open spec fn chunk_token(c: Seq<u8>) -> Seq<Seq<char>> {
    if valid_utf8(c) && trim(decode_utf8(c)).len() > 0 {
        seq![trim(decode_utf8(c))]
    } else {
        Seq::empty()
    }
}

/// The tokens of a body split at every control byte, in order.
pub open spec fn tokens_of(s: Seq<u8>) -> Seq<Seq<char>>
    decreases s.len(),
{
    match first_ctrl(s) {
        Some(i) => if 0 <= i < s.len() {
            chunk_token(s.take(i)) + tokens_of(s.skip(i + 1))
        } else {
            Seq::empty()
        },
        None => chunk_token(s),
    }
}

/// The number texts of an `Autotags` payload, in order: nothing for a
/// payload of two bytes or fewer; otherwise the tokens of the body after the
/// 2-byte header.
pub open spec fn autotag_texts(payload: Seq<u8>) -> Seq<Seq<char>> {
    if payload.len() <= 2 {
        Seq::empty()
    } else {
        tokens_of(body_of(payload.subrange(2, payload.len() as int)))
    }
}

pub open spec fn strings_view(v: Seq<String>) -> Seq<Seq<char>> {
    v.map_values(|s: String| s@)
}

fn push_token(out: &mut Vec<String>, body: &[u8], a: usize, b: usize)
    requires
        a <= b <= body@.len(),
    ensures
        strings_view(final(out)@) == strings_view(old(out)@) + chunk_token(body@.subrange(a as int, b as int)),
{
    let chunk = copy_bytes(body, a, b);
    let ghost before = strings_view(out@);
    match string_from_utf8(chunk.as_slice()) {
        Some(t) => {
            let v = chars_of(t.as_str());
            let (x, y) = trim_bounds(v.as_slice(), 0, v.len());
            proof {
                assert(v@.subrange(0, v@.len() as int) =~= v@);
            }
            if x < y {
                out.push(string_of(copy_range(v.as_slice(), x, y).as_slice()));
                proof {
                    assert(strings_view(out@) =~= before + chunk_token(chunk@));
                }
            } else {
                proof {
                    assert(before + chunk_token(chunk@) =~= before);
                }
            }
        },
        None => {
            proof {
                assert(before + chunk_token(chunk@) =~= before);
            }
        },
    }
}

/// The number texts of a `Serato Autotags` payload (BPM, auto gain, manual
/// gain when well-formed), in order.
pub fn autotag_tokens(payload: &[u8]) -> (r: Vec<String>)
    ensures
        strings_view(r@) == autotag_texts(payload@),
{
    let mut out: Vec<String> = Vec::new();
    if payload.len() <= 2 {
        proof {
            assert(strings_view(out@) =~= Seq::<Seq<char>>::empty());
        }
        return out;
    }
    let raw = copy_bytes(payload, 2, payload.len());
    let body = decode_base64_or_raw(raw.as_slice());
    let mut start: usize = 0;
    let mut i: usize = 0;
    proof {
        assert(body@.skip(0) =~= body@);
        assert(strings_view(out@) =~= Seq::<Seq<char>>::empty());
        assert(strings_view(out@) + tokens_of(body@) =~= tokens_of(body@));
    }
    while i < body.len()
        invariant
            start <= i <= body@.len(),
            body@ == body_of(payload@.subrange(2, payload@.len() as int)),
            forall|k: int| start <= k < i ==> !is_ctrl(body@[k]),
            tokens_of(body@) == strings_view(out@) + tokens_of(body@.skip(start as int)),
        decreases body.len() - i,
    {
        if body[i] < 0x20 {
            let ghost rest = body@.skip(start as int);
            proof {
                lemma_first_ctrl(rest);
                assert(rest[i - start] == body@[i as int]);
                if first_ctrl(rest) != Some(i - start) {
                    let j = first_ctrl(rest).unwrap();
                    assert(rest[j] == body@[start + j]);
                }
                assert(rest.take(i - start) =~= body@.subrange(start as int, i as int));
                assert(rest.skip(i - start + 1) =~= body@.skip(i + 1));
            }
            let ghost before = strings_view(out@);
            push_token(&mut out, body.as_slice(), start, i);
            proof {
                assert(strings_view(out@) + tokens_of(body@.skip(i + 1)) =~= before + tokens_of(rest));
            }
            start = i + 1;
        }
        i = i + 1;
    }
    let ghost rest = body@.skip(start as int);
    proof {
        lemma_first_ctrl(rest);
        assert forall|k: int| 0 <= k < rest.len() implies !is_ctrl(rest[k]) by {
            assert(rest[k] == body@[start + k]);
        }
        if first_ctrl(rest) is Some {
            let j = first_ctrl(rest).unwrap();
            assert(!is_ctrl(rest[j]));
        }
        assert(rest =~= body@.subrange(start as int, body@.len() as int));
    }
    let ghost before = strings_view(out@);
    push_token(&mut out, body.as_slice(), start, body.len());
    out
}

} // verus!
