//! Musical-key notations to canonical Camelot.
//!
//! Every source writes keys its own way: Mixed In Key writes Camelot (`8A`),
//! Traktor Open Key (`1m`) or musical (`Am`), rekordbox and Serato musical
//! (`Abm`, `F#`), and a hand-tagged file may spell it out (`A minor`).
//! `track_keys.key_notation` is Camelot by contract, so anything else is
//! converted on the way in, and anything unrecognised is not written as if
//! it were.

use vstd::prelude::*;
use crate::text::{trim, trim_start, trim_end, is_ws, upper, lower, lower_seq, chars_of, trim_bounds, string_of, char_upper, char_lower, is_digit};
use crate::filename_parser::{digits_value, all_digits};
use crate::columns::{decimal, usize_decimal};

verus! {

/// Camelot wheel position of a key: major keys on the B ring, minors on the
/// A ring at their relative major's number (C major is 8B, A minor 8A).
pub open spec fn camelot_number(pc: int, is_major: bool) -> int {
    let root = if is_major {
        pc
    } else {
        (pc + 3) % 12
    };
    (7 * root + 7) % 12 + 1
}

/// The wheel gives each of the twelve pitch classes its own number on each
/// ring, in 1 to 12, and a minor key sits on its relative major's number.
pub proof fn lemma_camelot_wheel(p: int, q: int, is_major: bool)
    requires
        0 <= p < 12,
        0 <= q < 12,
    ensures
        1 <= camelot_number(p, is_major) <= 12,
        p != q ==> camelot_number(p, is_major) != camelot_number(q, is_major),
        camelot_number(p, false) == camelot_number((p + 3) % 12, true),
{
    assert(1 <= camelot_number(p, is_major) <= 12);
    if p != q {
        assert(camelot_number(p, true) != camelot_number(q, true)) by (nonlinear_arith)
            requires
                0 <= p < 12,
                0 <= q < 12,
                p != q,
        {
        }
        if !is_major {
            assert((p + 3) % 12 != (q + 3) % 12);
            assert(camelot_number((p + 3) % 12, true) != camelot_number((q + 3) % 12, true)) by (nonlinear_arith)
                requires
                    0 <= (p + 3) % 12 < 12,
                    0 <= (q + 3) % 12 < 12,
                    (p + 3) % 12 != (q + 3) % 12,
            {
            }
        }
    }
}

/// Camelot text `<number><A|B>`.
pub open spec fn camelot_text(n: int, is_major: bool) -> Seq<char> {
    decimal(n as nat).push(if is_major { 'B' } else { 'A' })
}

/// Camelot notation: one or two digits (1 to 12) then `A` or `B`, in
/// either case.
pub open spec fn camelot_parse(s: Seq<char>) -> Option<(int, bool)> {
    if s.len() < 2 || s.len() > 3 {
        None
    } else {
        let digits = s.drop_last();
        let letter = upper(s.last());
        if all_digits(digits) && (letter == 'A' || letter == 'B') && 1 <= digits_value(digits) <= 12 {
            Some((digits_value(digits), letter == 'B'))
        } else {
            None
        }
    }
}

/// `u8::from_str`: an optional `+`, then at least one digit, at most 255.
pub open spec fn u8_parse(t: Seq<char>) -> Option<int> {
    let d = if t.len() > 0 && t[0] == '+' {
        t.drop_first()
    } else {
        t
    };
    if d.len() > 0 && all_digits(d) && digits_value(d) <= 255 {
        Some(digits_value(d))
    } else {
        None
    }
}

/// Open Key (Traktor's wheel): a number 1 to 12 then `d` (major) or `m`
/// (minor), in either case; it is Camelot rotated by seven positions.
pub open spec fn open_key_parse(s: Seq<char>) -> Option<(int, bool)> {
    if s.len() == 0 {
        None
    } else {
        let last = lower(s.last());
        if last != 'd' && last != 'm' {
            None
        } else {
            match u8_parse(s.drop_last()) {
                Some(n) => if 1 <= n <= 12 {
                    Some(((n + 6) % 12 + 1, last == 'd'))
                } else {
                    None
                },
                None => None,
            }
        }
    }
}

pub open spec fn note_base(c: char) -> Option<int> {
    let u = upper(c);
    if u == 'C' {
        Some(0)
    } else if u == 'D' {
        Some(2)
    } else if u == 'E' {
        Some(4)
    } else if u == 'F' {
        Some(5)
    } else if u == 'G' {
        Some(7)
    } else if u == 'A' {
        Some(9)
    } else if u == 'B' {
        Some(11)
    } else {
        None
    }
}

/// A mode word: nothing, `maj` or `major` for major; `m`, `min` or `minor`
/// for minor (after trimming, case-insensitive).
pub open spec fn mode_of(rest: Seq<char>) -> Option<bool> {
    let m = lower_seq(trim(rest));
    if m.len() == 0 || m == "maj"@ || m == "major"@ {
        Some(true)
    } else if m == "m"@ || m == "min"@ || m == "minor"@ {
        Some(false)
    } else {
        None
    }
}

/// Musical notation: a note letter, an optional accidental (`#` / `♯` up,
/// `b` / `♭` down), then a mode. Enharmonic spellings collapse.
pub open spec fn musical_parse(s: Seq<char>) -> Option<(int, bool)> {
    if s.len() == 0 {
        None
    } else {
        match note_base(s[0]) {
            None => None,
            Some(base) => {
                let rest = s.drop_first();
                let (acc, tail) = if rest.len() > 0 && (rest[0] == '#' || rest[0] == '\u{266F}') {
                    (1int, rest.drop_first())
                } else if rest.len() > 0 && (rest[0] == 'b' || rest[0] == '\u{266D}') {
                    (-1int, rest.drop_first())
                } else {
                    (0int, rest)
                };
                match mode_of(tail) {
                    Some(major) => Some((((base + acc) % 12 + 12) % 12, major)),
                    None => None,
                }
            },
        }
    }
}

/// The canonical Camelot of a key in any of the three notations.
pub open spec fn camelot_of(raw: Seq<char>) -> Option<Seq<char>> {
    let s = trim(raw);
    if s.len() == 0 {
        None
    } else {
        match camelot_parse(s) {
            Some((n, major)) => Some(camelot_text(n, major)),
            None => match open_key_parse(s) {
                Some((n, major)) => Some(camelot_text(n, major)),
                None => match musical_parse(s) {
                    Some((pc, major)) => Some(camelot_text(camelot_number(pc, major), major)),
                    None => None,
                },
            },
        }
    }
}

pub open spec fn opt_view(o: Option<String>) -> Option<Seq<char>> {
    match o {
        Some(s) => Some(s@),
        None => None,
    }
}

/// Value of `v[a..b]` when it is all digits and at most 255.
fn small_digits(v: &[char], a: usize, b: usize) -> (r: Option<u32>)
    requires
        a <= b <= v@.len(),
    ensures
        r.is_some() == (all_digits(v@.subrange(a as int, b as int)) && digits_value(
            v@.subrange(a as int, b as int),
        ) <= 255),
        r matches Some(n) ==> n as int == digits_value(v@.subrange(a as int, b as int)),
{
    let ghost t = v@.subrange(a as int, b as int);
    let mut k = a;
    let mut value: u32 = 0;
    while k < b
        invariant
            a <= k <= b <= v@.len(),
            t == v@.subrange(a as int, b as int),
            forall|m: int| a <= m < k ==> is_digit(#[trigger] v@[m]),
            value as int == digits_value(v@.subrange(a as int, k as int)),
            value <= 255,
        decreases b - k,
    {
        let c = v[k];
        if !('0' <= c && c <= '9') {
            proof {
                assert(t[k - a] == c);
            }
            return None;
        }
        proof {
            assert(v@.subrange(a as int, k + 1).drop_last() =~= v@.subrange(a as int, k as int));
        }
        let next = value * 10 + (c as u32 - '0' as u32);
        if next > 255 {
            proof {
                if all_digits(t) {
                    lemma_digits_value_monotone(t, k + 1 - a);
                    assert(t.take(k + 1 - a) =~= v@.subrange(a as int, k + 1));
                }
            }
            return None;
        }
        value = next;
        k = k + 1;
    }
    proof {
        assert forall|i: int| 0 <= i < t.len() implies is_digit(#[trigger] t[i]) by {
            assert(t[i] == v@[a + i]);
        }
    }
    Some(value)
}

/// A digit string is worth at least any of its prefixes.
pub proof fn lemma_digits_value_monotone(s: Seq<char>, k: int)
    requires
        0 <= k <= s.len(),
        all_digits(s),
    ensures
        digits_value(s) >= digits_value(s.take(k)),
    decreases s.len(),
{
    if k < s.len() {
        assert(s.drop_last().take(k) =~= s.take(k));
        assert forall|i: int| 0 <= i < s.drop_last().len() implies is_digit(#[trigger] s.drop_last()[i]) by {
            assert(s.drop_last()[i] == s[i]);
        }
        lemma_digits_value_monotone(s.drop_last(), k);
        lemma_digits_value_nonneg(s.drop_last());
        assert(is_digit(s[s.len() - 1]));
    } else {
        assert(s.take(k) =~= s);
    }
}

pub proof fn lemma_digits_value_nonneg(s: Seq<char>)
    requires
        all_digits(s),
    ensures
        digits_value(s) >= 0,
    decreases s.len(),
{
    if s.len() > 0 {
        assert forall|i: int| 0 <= i < s.drop_last().len() implies is_digit(#[trigger] s.drop_last()[i]) by {
            assert(s.drop_last()[i] == s[i]);
        }
        lemma_digits_value_nonneg(s.drop_last());
        assert(is_digit(s[s.len() - 1]));
    }
}

fn camelot_string(n: u32, is_major: bool) -> (r: String)
    requires
        n <= 12,
    ensures
        r@ == camelot_text(n as int, is_major),
{
    let d = usize_decimal(n as usize);
    let mut v = chars_of(d.as_str());
    v.push(if is_major { 'B' } else { 'A' });
    string_of(v.as_slice())
}

fn camelot_parse_exec(v: &[char], a: usize, b: usize) -> (r: Option<(u32, bool)>)
    requires
        a <= b <= v@.len(),
    ensures
        r.is_some() == camelot_parse(v@.subrange(a as int, b as int)).is_some(),
        r matches Some((n, m)) ==> camelot_parse(v@.subrange(a as int, b as int)) == Some(
            (n as int, m),
        ) && n <= 12,
{
    let ghost s = v@.subrange(a as int, b as int);
    if b - a < 2 || b - a > 3 {
        return None;
    }
    let letter = char_upper(v[b - 1]);
    proof {
        assert(s.last() == v@[b - 1]);
        assert(s.drop_last() =~= v@.subrange(a as int, b - 1));
    }
    if letter != 'A' && letter != 'B' {
        return None;
    }
    match small_digits(v, a, b - 1) {
        Some(n) => if 1 <= n && n <= 12 {
            Some((n, letter == 'B'))
        } else {
            None
        },
        None => None,
    }
}

fn open_key_to_camelot(v: &[char], a: usize, b: usize) -> (r: Option<(u32, bool)>)
    requires
        a <= b <= v@.len(),
    ensures
        r.is_some() == open_key_parse(v@.subrange(a as int, b as int)).is_some(),
        r matches Some((n, m)) ==> open_key_parse(v@.subrange(a as int, b as int)) == Some(
            (n as int, m),
        ) && n <= 12,
{
    let ghost s = v@.subrange(a as int, b as int);
    if a == b {
        return None;
    }
    let last = char_lower(v[b - 1]);
    proof {
        assert(s.last() == v@[b - 1]);
        assert(s.drop_last() =~= v@.subrange(a as int, b - 1));
    }
    if last != 'd' && last != 'm' {
        return None;
    }
    let mut start = a;
    if start < b - 1 && v[start] == '+' {
        start = start + 1;
        proof {
            assert(s.drop_last()[0] == v@[a as int]);
            assert(s.drop_last().drop_first() =~= v@.subrange(a + 1, b - 1));
        }
    } else {
        proof {
            if a < b - 1 {
                assert(s.drop_last()[0] == v@[a as int]);
            }
        }
    }
    if start == b - 1 {
        return None;
    }
    match small_digits(v, start, b - 1) {
        Some(n) => if 1 <= n && n <= 12 {
            Some(((n + 6) % 12 + 1, last == 'd'))
        } else {
            None
        },
        None => None,
    }
}

fn note_base_exec(c: char) -> (r: Option<i32>)
    ensures
        r.is_some() == note_base(c).is_some(),
        r matches Some(x) ==> note_base(c) == Some(x as int),
{
    let u = char_upper(c);
    if u == 'C' {
        Some(0)
    } else if u == 'D' {
        Some(2)
    } else if u == 'E' {
        Some(4)
    } else if u == 'F' {
        Some(5)
    } else if u == 'G' {
        Some(7)
    } else if u == 'A' {
        Some(9)
    } else if u == 'B' {
        Some(11)
    } else {
        None
    }
}

fn chars_equal_to(v: &[char], lit: &str) -> (r: bool)
    ensures
        r == (v@ == lit@),
{
    let w = chars_of(lit);
    if v.len() != w.len() {
        return false;
    }
    let mut k: usize = 0;
    while k < w.len()
        invariant
            v@.len() == w@.len(),
            w@ == lit@,
            0 <= k <= w@.len(),
            forall|m: int| 0 <= m < k ==> v@[m] == w@[m],
        decreases w.len() - k,
    {
        if v[k] != w[k] {
            proof {
                assert(v@[k as int] != w@[k as int]);
            }
            return false;
        }
        k = k + 1;
    }
    proof {
        assert(v@ =~= w@);
    }
    true
}

fn mode_exec(v: &[char], a: usize, b: usize) -> (r: Option<bool>)
    requires
        a <= b <= v@.len(),
    ensures
        r == mode_of(v@.subrange(a as int, b as int)),
{
    let (x, y) = trim_bounds(v, a, b);
    let mut low: Vec<char> = Vec::new();
    let mut k = x;
    while k < y
        invariant
            x <= k <= y <= v@.len(),
            low@ == lower_seq(v@.subrange(x as int, k as int)),
        decreases y - k,
    {
        low.push(char_lower(v[k]));
        k = k + 1;
        proof {
            assert(low@ =~= lower_seq(v@.subrange(x as int, k as int)));
        }
    }
    let l = low.as_slice();
    if l.len() == 0 || chars_equal_to(l, "maj") || chars_equal_to(l, "major") {
        Some(true)
    } else if chars_equal_to(l, "m") || chars_equal_to(l, "min") || chars_equal_to(l, "minor") {
        Some(false)
    } else {
        None
    }
}

fn musical_key(v: &[char], a: usize, b: usize) -> (r: Option<(u32, bool)>)
    requires
        a <= b <= v@.len(),
    ensures
        r.is_some() == musical_parse(v@.subrange(a as int, b as int)).is_some(),
        r matches Some((pc, m)) ==> musical_parse(v@.subrange(a as int, b as int)) == Some(
            (pc as int, m),
        ) && pc < 12,
{
    let ghost s = v@.subrange(a as int, b as int);
    if a == b {
        return None;
    }
    proof {
        assert(s[0] == v@[a as int]);
        assert(s.drop_first() =~= v@.subrange(a + 1, b as int));
    }
    let base = match note_base_exec(v[a]) {
        Some(x) => x,
        None => {
            return None;
        },
    };
    let mut rest = a + 1;
    let mut acc: i32 = 0;
    if rest < b && (v[rest] == '#' || v[rest] == '\u{266F}') {
        acc = 1;
        rest = rest + 1;
    } else if rest < b && (v[rest] == 'b' || v[rest] == '\u{266D}') {
        acc = -1;
        rest = rest + 1;
    }
    proof {
        let r0 = s.drop_first();
        if a + 1 < b {
            assert(r0[0] == v@[a + 1]);
        }
        if rest == a + 2 {
            assert(r0.drop_first() =~= v@.subrange(a + 2, b as int));
        }
    }
    match mode_exec(v, rest, b) {
        Some(major) => {
            let pc = ((base + acc) % 12 + 12) % 12;
            Some((pc as u32, major))
        },
        None => None,
    }
}

fn camelot_number_exec(pc: u32, is_major: bool) -> (n: u32)
    requires
        pc < 12,
    ensures
        n as int == camelot_number(pc as int, is_major),
        1 <= n <= 12,
{
    let root = if is_major {
        pc
    } else {
        (pc + 3) % 12
    };
    (7 * root + 7) % 12 + 1
}

/// Convert a key in Camelot (`8A`), Open Key (`1m` / `1d`) or musical
/// notation (`Am`, `F#m`, `Ebm`, `Db`, `A minor`, `F# major`) to canonical
/// Camelot; `None` for anything unrecognised (including ID3's `o` "off key"
/// marker).
pub fn to_camelot(raw: &str) -> (r: Option<String>)
    ensures
        opt_view(r) == camelot_of(raw@),
{
    let v = chars_of(raw);
    let (a, b) = trim_bounds(v.as_slice(), 0, v.len());
    proof {
        assert(v@.subrange(0, v@.len() as int) =~= raw@);
    }
    if a == b {
        return None;
    }
    match camelot_parse_exec(v.as_slice(), a, b) {
        Some((n, major)) => {
            return Some(camelot_string(n, major));
        },
        None => {},
    }
    match open_key_to_camelot(v.as_slice(), a, b) {
        Some((n, major)) => {
            return Some(camelot_string(n, major));
        },
        None => {},
    }
    match musical_key(v.as_slice(), a, b) {
        Some((pc, major)) => Some(camelot_string(camelot_number_exec(pc, major), major)),
        None => None,
    }
}

proof fn lemma_small_decimal(n: int)
    requires
        1 <= n <= 12,
    ensures
        1 <= decimal(n as nat).len() <= 2,
        all_digits(decimal(n as nat)),
        digits_value(decimal(n as nat)) == n,
{
    let d = decimal(n as nat);
    assert(digits_value(Seq::<char>::empty()) == 0);
    if n < 10 {
        assert(d == seq![(n + 48) as char]);
        assert(d.drop_last() =~= Seq::<char>::empty());
        assert(((n + 48) as char) as int == n + 48);
        assert(d.last() as int == n + 48);
        assert(digits_value(d) == digits_value(d.drop_last()) * 10 + (d.last() as int - '0' as int));
    } else {
        assert(decimal((n / 10) as nat) == seq!['1']);
        assert(d == seq!['1'].push(((n % 10) + 48) as char));
        assert(d.drop_last() =~= seq!['1']);
        assert(seq!['1'].drop_last() =~= Seq::<char>::empty());
        assert((((n % 10) + 48) as char) as int == (n % 10) + 48);
        assert(d.last() as int == (n % 10) + 48);
        assert(digits_value(seq!['1']) == digits_value(seq!['1'].drop_last()) * 10 + ('1' as int - '0' as int));
        assert(digits_value(seq!['1']) == 1);
        assert(digits_value(d) == digits_value(d.drop_last()) * 10 + (d.last() as int - '0' as int));
    }
}

proof fn lemma_camelot_text_reads_back(n: int, is_major: bool)
    requires
        1 <= n <= 12,
    ensures
        camelot_of(camelot_text(n, is_major)) == Some(camelot_text(n, is_major)),
{
    let c = camelot_text(n, is_major);
    let d = decimal(n as nat);
    lemma_small_decimal(n);
    assert(is_digit(d[0]));
    assert(c[0] == d[0]);
    assert(!is_ws(c[0]));
    assert(!is_ws(c.last()));
    assert(trim_start(c) == c);
    assert(trim_end(c) == c);
    assert(c.drop_last() =~= d);
    assert(upper(c.last()) == c.last());
}

/// Canonical Camelot is a fixed point: converting what the conversion gives
/// gives it back unchanged.
pub proof fn lemma_camelot_idempotent(raw: Seq<char>)
    ensures
        camelot_of(raw) matches Some(c) ==> camelot_of(c) == Some(c),
{
    let s = trim(raw);
    if s.len() > 0 {
        match camelot_parse(s) {
            Some((n, major)) => {
                lemma_camelot_text_reads_back(n, major);
            },
            None => match open_key_parse(s) {
                Some((n, major)) => {
                    lemma_camelot_text_reads_back(n, major);
                },
                None => match musical_parse(s) {
                    Some((pc, major)) => {
                        lemma_camelot_wheel(pc, pc, major);
                        lemma_camelot_text_reads_back(camelot_number(pc, major), major);
                    },
                    None => {},
                },
            },
        }
    }
}

} // verus!
