//! Maps an external app's track-colour label onto the fixed palette of eight
//! tokens (`red / orange / yellow / green / aqua / blue / purple / pink`).
//!
//! rekordbox exports a hex colour; Traktor a small integer index. Both
//! resolve to a palette token by hue, so an imported colour renders and
//! filters like one the DJ set themselves. The hue is computed exactly, in
//! integers: the band boundaries (15°, 45°, 70°, 160°, 195°, 255°, 290°,
//! 345°) are compared as exact rationals.

use vstd::prelude::*;
use crate::text::{chars_of, trim, trim_bounds, str_eq};

verus! {

/// The palette, in hue order.
pub open spec fn palette(i: int) -> Seq<char> {
    if i == 0 {
        "red"@
    } else if i == 1 {
        "orange"@
    } else if i == 2 {
        "yellow"@
    } else if i == 3 {
        "green"@
    } else if i == 4 {
        "aqua"@
    } else if i == 5 {
        "blue"@
    } else if i == 6 {
        "purple"@
    } else {
        "pink"@
    }
}

pub open spec fn max3(a: int, b: int, c: int) -> int {
    if a >= b && a >= c {
        a
    } else if b >= c {
        b
    } else {
        c
    }
}

pub open spec fn min3(a: int, b: int, c: int) -> int {
    if a <= b && a <= c {
        a
    } else if b <= c {
        b
    } else {
        c
    }
}

/// `delta * hue` for a colour whose channel spread is `delta`, with the
/// hue normalised into `[0, 360)`: the red branch is taken when red is the
/// largest channel, green when green is (and red is not), blue otherwise.
pub open spec fn scaled_hue(r: int, g: int, b: int) -> int {
    let mx = max3(r, g, b);
    let d = mx - min3(r, g, b);
    let n = if mx == r {
        60 * (g - b)
    } else if mx == g {
        60 * (b - r) + 120 * d
    } else {
        60 * (r - g) + 240 * d
    };
    if n < 0 {
        n + 360 * d
    } else {
        n
    }
}

/// Palette index of the hue `n / d` (degrees).
pub open spec fn hue_band(n: int, d: int) -> int {
    if n < 15 * d || n >= 345 * d {
        0
    } else if n < 45 * d {
        1
    } else if n < 70 * d {
        2
    } else if n < 160 * d {
        3
    } else if n < 195 * d {
        4
    } else if n < 255 * d {
        5
    } else if n < 290 * d {
        6
    } else {
        7
    }
}

/// The token of an `R,G,B` colour: `None` when the channel spread is below
/// 8% of full scale (greys, black, white), else the band of its hue.
pub open spec fn rgb_token(r: u8, g: u8, b: u8) -> Option<Seq<char>> {
    let d = max3(r as int, g as int, b as int) - min3(r as int, g as int, b as int);
    if d * 100 < 8 * 255 {
        None
    } else {
        Some(palette(hue_band(scaled_hue(r as int, g as int, b as int), d)))
    }
}

fn palette_str(i: u8) -> (s: &'static str)
    ensures
        s@ == palette(i as int),
{
    if i == 0 {
        "red"
    } else if i == 1 {
        "orange"
    } else if i == 2 {
        "yellow"
    } else if i == 3 {
        "green"
    } else if i == 4 {
        "aqua"
    } else if i == 5 {
        "blue"
    } else if i == 6 {
        "purple"
    } else {
        "pink"
    }
}

/// Map an `R,G,B` triple to the palette token by hue. `None` for
/// near-greys (no meaningful colour label).
pub fn token_from_rgb(r: u8, g: u8, b: u8) -> (t: Option<&'static str>)
    ensures
        t.is_some() == rgb_token(r, g, b).is_some(),
        t matches Some(s) ==> s@ == rgb_token(r, g, b).unwrap(),
{
    let ri = r as i32;
    let gi = g as i32;
    let bi = b as i32;
    let mx = if ri >= gi && ri >= bi {
        ri
    } else if gi >= bi {
        gi
    } else {
        bi
    };
    let mn = if ri <= gi && ri <= bi {
        ri
    } else if gi <= bi {
        gi
    } else {
        bi
    };
    let d = mx - mn;
    if d * 100 < 8 * 255 {
        return None;
    }
    let mut n = if mx == ri {
        60 * (gi - bi)
    } else if mx == gi {
        60 * (bi - ri) + 120 * d
    } else {
        60 * (ri - gi) + 240 * d
    };
    if n < 0 {
        n = n + 360 * d;
    }
    let band: u8 = if n < 15 * d || n >= 345 * d {
        0
    } else if n < 45 * d {
        1
    } else if n < 70 * d {
        2
    } else if n < 160 * d {
        3
    } else if n < 195 * d {
        4
    } else if n < 255 * d {
        5
    } else if n < 290 * d {
        6
    } else {
        7
    };
    Some(palette_str(band))
}

/// Value of an ASCII hexadecimal digit.
pub open spec fn hex_digit(c: char) -> Option<u8> {
    if '0' <= c <= '9' {
        Some(((c as u32) - ('0' as u32)) as u8)
    } else if 'a' <= c <= 'f' {
        Some(((c as u32) - ('a' as u32) + 10) as u8)
    } else if 'A' <= c <= 'F' {
        Some(((c as u32) - ('A' as u32) + 10) as u8)
    } else {
        None
    }
}

/// A two-character channel as `u8::from_str_radix(_, 16)` reads it: two hex
/// digits, or a `+` sign then one hex digit.
pub open spec fn hex_pair(a: char, b: char) -> Option<u8> {
    if a == '+' {
        hex_digit(b)
    } else {
        match (hex_digit(a), hex_digit(b)) {
            (Some(h), Some(l)) => Some((h * 16 + l) as u8),
            _ => None,
        }
    }
}

/// The trimmed input without its `0x`, `0X` or `#` prefix.
pub open spec fn hex_body(s: Seq<char>) -> Seq<char> {
    let h = trim(s);
    if h.len() >= 2 && h[0] == '0' && (h[1] == 'x' || h[1] == 'X') {
        h.subrange(2, h.len() as int)
    } else if h.len() >= 1 && h[0] == '#' {
        h.subrange(1, h.len() as int)
    } else {
        h
    }
}

/// The colour a hex string spells, when it is six channel characters.
pub open spec fn hex_rgb(s: Seq<char>) -> Option<(u8, u8, u8)> {
    let h = hex_body(s);
    if h.len() != 6 {
        None
    } else {
        match (hex_pair(h[0], h[1]), hex_pair(h[2], h[3]), hex_pair(h[4], h[5])) {
            (Some(r), Some(g), Some(b)) => Some((r, g, b)),
            _ => None,
        }
    }
}

/// Number of UTF-8 bytes of a character.
pub open spec fn utf8_len(c: char) -> int {
    if (c as u32) < 0x80 {
        1
    } else if (c as u32) < 0x800 {
        2
    } else if (c as u32) < 0x10000 {
        3
    } else {
        4
    }
}

/// Number of UTF-8 bytes of a character sequence.
pub open spec fn byte_len(s: Seq<char>) -> int
    decreases s.len(),
{
    if s.len() == 0 {
        0
    } else {
        byte_len(s.drop_last()) + utf8_len(s.last())
    }
}

/// Byte offset `k` falls between two characters of `s`.
pub open spec fn is_boundary(s: Seq<char>, k: int) -> bool {
    exists|i: int| 0 <= i <= s.len() && byte_len(s.take(i)) == k
}

/// The hex body can be cut into three two-byte channels without splitting a
/// character (a six-byte body with a multi-byte character in the wrong place
/// cannot be sliced).
pub open spec fn hex_sliceable(s: Seq<char>) -> bool {
    let h = hex_body(s);
    byte_len(h) == 6 ==> is_boundary(h, 2) && is_boundary(h, 4)
}

fn hex_digit_exec(c: char) -> (r: Option<u8>)
    ensures
        r == hex_digit(c),
{
    if '0' <= c && c <= '9' {
        Some(((c as u32) - ('0' as u32)) as u8)
    } else if 'a' <= c && c <= 'f' {
        Some(((c as u32) - ('a' as u32) + 10) as u8)
    } else if 'A' <= c && c <= 'F' {
        Some(((c as u32) - ('A' as u32) + 10) as u8)
    } else {
        None
    }
}

fn hex_pair_exec(a: char, b: char) -> (r: Option<u8>)
    ensures
        r == hex_pair(a, b),
{
    if a == '+' {
        hex_digit_exec(b)
    } else {
        match (hex_digit_exec(a), hex_digit_exec(b)) {
            (Some(h), Some(l)) => Some(h * 16 + l),
            _ => None,
        }
    }
}

/// The palette token of a hex colour (`0xRRGGBB`, `#RRGGBB` or bare
/// `RRGGBB`), read character by character: `None` on a malformed string or
/// a grey. Unlike `token_from_hex` it accepts every string.
pub fn hex_token(s: &str) -> (t: Option<&'static str>)
    ensures
        t.is_some() == (hex_rgb(s@) matches Some((r, g, b)) && rgb_token(r, g, b).is_some()),
        t matches Some(tok) ==> (hex_rgb(s@) matches Some((r, g, b)) && tok@ == rgb_token(
            r,
            g,
            b,
        ).unwrap()),
{
    let v = chars_of(s);
    let (i0, j) = trim_bounds(&v, 0, v.len());
    let ghost h = v@.subrange(i0 as int, j as int);
    proof {
        assert(v@.subrange(0, v@.len() as int) =~= s@);
    }
    let mut i = i0;
    if j - i >= 2 && v[i] == '0' && (v[i + 1] == 'x' || v[i + 1] == 'X') {
        i = i + 2;
    } else if j - i >= 1 && v[i] == '#' {
        i = i + 1;
    }
    proof {
        assert(v@.subrange(i as int, j as int) =~= hex_body(s@));
    }
    if j - i != 6 {
        return None;
    }
    let r = hex_pair_exec(v[i], v[i + 1]);
    let g = hex_pair_exec(v[i + 2], v[i + 3]);
    let b = hex_pair_exec(v[i + 4], v[i + 5]);
    match (r, g, b) {
        (Some(r), Some(g), Some(b)) => token_from_rgb(r, g, b),
        _ => None,
    }
}

/// Parse a hex colour string (`0xRRGGBB`, `#RRGGBB` or bare `RRGGBB`,
/// surrounding white space ignored) and map it to a palette token. `None`
/// on a malformed string or a grey.
pub fn token_from_hex(s: &str) -> (t: Option<&'static str>)
    requires
        hex_sliceable(s@),
    ensures
        t.is_some() == (hex_rgb(s@) matches Some((r, g, b)) && rgb_token(r, g, b).is_some()),
        t matches Some(tok) ==> (hex_rgb(s@) matches Some((r, g, b)) && tok@ == rgb_token(
            r,
            g,
            b,
        ).unwrap()),
{
    hex_token(s)
}

/// The canonical `R,G,B` of each palette token.
pub open spec fn token_rgb(t: Seq<char>) -> Option<(u8, u8, u8)> {
    if t == "red"@ {
        Some((0xFF, 0x00, 0x00))
    } else if t == "orange"@ {
        Some((0xFF, 0xA5, 0x00))
    } else if t == "yellow"@ {
        Some((0xFF, 0xFF, 0x00))
    } else if t == "green"@ {
        Some((0x00, 0xFF, 0x00))
    } else if t == "aqua"@ {
        Some((0x00, 0xFF, 0xFF))
    } else if t == "blue"@ {
        Some((0x00, 0x00, 0xFF))
    } else if t == "purple"@ {
        Some((0x80, 0x00, 0xFF))
    } else if t == "pink"@ {
        Some((0xFF, 0x00, 0xFF))
    } else {
        None
    }
}

/// Canonical `R,G,B` for a palette token, the inverse of
/// [`token_from_rgb`] used for export. `purple` is `8000FF` (hue 270°):
/// `800080` sits at hue 300° and would come back as `pink`.
pub fn rgb_from_token(token: &str) -> (c: Option<(u8, u8, u8)>)
    ensures
        c == token_rgb(token@),
{
    if str_eq(token, "red") {
        Some((0xFF, 0x00, 0x00))
    } else if str_eq(token, "orange") {
        Some((0xFF, 0xA5, 0x00))
    } else if str_eq(token, "yellow") {
        Some((0xFF, 0xFF, 0x00))
    } else if str_eq(token, "green") {
        Some((0x00, 0xFF, 0x00))
    } else if str_eq(token, "aqua") {
        Some((0x00, 0xFF, 0xFF))
    } else if str_eq(token, "blue") {
        Some((0x00, 0x00, 0xFF))
    } else if str_eq(token, "purple") {
        Some((0x80, 0x00, 0xFF))
    } else if str_eq(token, "pink") {
        Some((0xFF, 0x00, 0xFF))
    } else {
        None
    }
}

/// Traktor's 1-based track-colour index as a palette token (best effort:
/// 1 red, 2 orange, 3 yellow, 4 green, 5 blue, 6 purple, 7 pink).
pub open spec fn traktor_token(n: i64) -> Option<Seq<char>> {
    if n == 1 {
        Some("red"@)
    } else if n == 2 {
        Some("orange"@)
    } else if n == 3 {
        Some("yellow"@)
    } else if n == 4 {
        Some("green"@)
    } else if n == 5 {
        Some("blue"@)
    } else if n == 6 {
        Some("purple"@)
    } else if n == 7 {
        Some("pink"@)
    } else {
        None
    }
}

/// Map Traktor's 1-based track-colour index to a palette token; `0` and
/// out-of-range indices give `None`.
pub fn token_from_traktor_index(n: i64) -> (t: Option<&'static str>)
    ensures
        t.is_some() == traktor_token(n).is_some(),
        t matches Some(s) ==> s@ == traktor_token(n).unwrap(),
{
    if 1 <= n && n <= 7 {
        let i: u8 = if n == 5 {
            5
        } else if n == 6 {
            6
        } else if n == 7 {
            7
        } else {
            (n - 1) as u8
        };
        Some(palette_str(i))
    } else {
        None
    }
}

/// Export then import lands on the token it started from: for each of the
/// eight palette tokens, its canonical colour maps back to that token, so a
/// colour never drifts a band across a round trip.
pub proof fn lemma_palette_round_trip(i: int)
    requires
        0 <= i < 8,
    ensures
        token_rgb(palette(i)) matches Some((r, g, b)) && rgb_token(r, g, b) == Some(palette(i)),
{
    reveal_strlit("red");
    reveal_strlit("orange");
    reveal_strlit("yellow");
    reveal_strlit("green");
    reveal_strlit("aqua");
    reveal_strlit("blue");
    reveal_strlit("purple");
    reveal_strlit("pink");
}

} // verus!
