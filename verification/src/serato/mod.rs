//! Serato library formats: the `database V2` track list and
//! `Subcrates/*.crate` tree, and the per-track `GEOB` blobs (beat grid,
//! hot cues / loops, BPM / gain). Pure, panic-free parsers over bytes.

use vstd::prelude::*;

pub mod database;
pub mod markers2;
pub mod autotags;
pub mod beatgrid;
pub mod geob;

verus! {

pub open spec fn opt_bytes(o: Option<Vec<u8>>) -> Option<Seq<u8>> {
    match o {
        Some(v) => Some(v@),
        None => None,
    }
}

/// What Serato's base64 engine (standard alphabet, padding optional)
/// decodes `bytes` to, or `None` when they are not base64.
pub uninterp spec fn b64_decoded(bytes: Seq<u8>) -> Option<Seq<u8>>;

/// Decode with the standard base64 alphabet and padding-indifferent
/// decoding (`base64::Engine::decode` on a `GeneralPurpose` engine built with
/// `DecodePaddingMode::Indifferent`): Serato's GEOB payloads are sometimes
/// `=`-padded and sometimes not. The result is named by `b64_decoded`.
#[verifier::external_body]
pub(crate) fn b64_decode(bytes: &[u8]) -> (r: Option<Vec<u8>>)
    ensures
        opt_bytes(r) == b64_decoded(bytes@),
{
    let engine = base64::engine::GeneralPurpose::new(
        &base64::alphabet::STANDARD,
        base64::engine::GeneralPurposeConfig::new().with_decode_padding_mode(
            base64::engine::DecodePaddingMode::Indifferent,
        ),
    );
    base64::Engine::decode(&engine, bytes).ok()
}

/// ASCII white space as `u8::is_ascii_whitespace` reads it (space, tab,
/// line feed, form feed, carriage return).
pub open spec fn is_ascii_ws(b: u8) -> bool {
    b == 0x20 || b == 0x09 || b == 0x0A || b == 0x0C || b == 0x0D
}

/// The bytes a base64 blob is read from: white space and NULs removed.
pub open spec fn b64_text(bytes: Seq<u8>) -> Seq<u8> {
    bytes.filter(|b: u8| !is_ascii_ws(b) && b != 0)
}

/// `bytes` without white space and NULs.
pub fn strip_b64_noise(bytes: &[u8], from: usize) -> (r: Vec<u8>)
    requires
        from <= bytes@.len(),
    ensures
        r@ == b64_text(bytes@.subrange(from as int, bytes@.len() as int)),
{
    let mut r: Vec<u8> = Vec::new();
    let mut i = from;
    while i < bytes.len()
        invariant
            from <= i <= bytes@.len(),
            r@ == b64_text(bytes@.subrange(from as int, i as int)),
        decreases bytes.len() - i,
    {
        let b = bytes[i];
        proof {
            let s = bytes@.subrange(from as int, i + 1);
            assert(s.drop_last() =~= bytes@.subrange(from as int, i as int));
            reveal_with_fuel(Seq::filter, 1);
        }
        if !(b == 0x20 || b == 0x09 || b == 0x0A || b == 0x0C || b == 0x0D) && b != 0 {
            r.push(b);
        }
        i = i + 1;
    }
    r
}

} // verus!
