//! Character-level helpers shared by the parsers: Unicode white space, ASCII
//! classes, trimming, and the conversions between `str`/`String` and vectors
//! of characters that the verified code works on.

use vstd::prelude::*;
use vstd::utf8::{valid_utf8, decode_utf8};

verus! {

/// Unicode `White_Space` property, the set `char::is_whitespace` tests.
pub open spec fn is_ws(c: char) -> bool {
    let u = c as u32;
    ||| 0x09 <= u <= 0x0D
    ||| u == 0x20
    ||| u == 0x85
    ||| u == 0xA0
    ||| u == 0x1680
    ||| 0x2000 <= u <= 0x200A
    ||| u == 0x2028
    ||| u == 0x2029
    ||| u == 0x202F
    ||| u == 0x205F
    ||| u == 0x3000
}

/// `char::is_whitespace`.
pub fn char_is_ws(c: char) -> (r: bool)
    ensures
        r == is_ws(c),
{
    let u = c as u32;
    (0x09 <= u && u <= 0x0D) || u == 0x20 || u == 0x85 || u == 0xA0 || u == 0x1680 || (0x2000
        <= u && u <= 0x200A) || u == 0x2028 || u == 0x2029 || u == 0x202F || u == 0x205F || u
        == 0x3000
}

/// ASCII decimal digit.
pub open spec fn is_digit(c: char) -> bool {
    '0' <= c <= '9'
}

/// ASCII letter.
pub open spec fn is_alpha(c: char) -> bool {
    ('a' <= c <= 'z') || ('A' <= c <= 'Z')
}

/// ASCII lower-casing of one character (`char::to_ascii_lowercase`).
pub open spec fn lower(c: char) -> char {
    if 'A' <= c <= 'Z' {
        ((c as u32) + 32) as char
    } else {
        c
    }
}

/// ASCII upper-casing of one character (`char::to_ascii_uppercase`).
pub open spec fn upper(c: char) -> char {
    if 'a' <= c <= 'z' {
        ((c as u32) - 32) as char
    } else {
        c
    }
}

pub fn char_lower(c: char) -> (r: char)
    ensures
        r == lower(c),
{
    if 'A' <= c && c <= 'Z' {
        let u = (c as u32) + 32;
        proof {
            assert(u < 0xD800);
        }
        char_from_u32(u)
    } else {
        c
    }
}

pub fn char_upper(c: char) -> (r: char)
    ensures
        r == upper(c),
{
    if 'a' <= c && c <= 'z' {
        let u = (c as u32) - 32;
        char_from_u32(u)
    } else {
        c
    }
}

/// A Unicode scalar value as a `char` (`char::from_u32`, which returns
/// `Some` exactly for scalar values).
#[verifier::external_body]
pub(crate) fn char_from_u32(u: u32) -> (c: char)
    requires
        u < 0xD800 || (0xE000 <= u <= 0x10FFFF),
    ensures
        c as u32 == u,
{
    char::from_u32(u).unwrap()
}

/// Sequence lower-casing (`str::to_ascii_lowercase`).
pub open spec fn lower_seq(s: Seq<char>) -> Seq<char> {
    s.map_values(|c: char| lower(c))
}

/// `s` with every leading character that satisfies `p` removed.
pub open spec fn trim_start_by(s: Seq<char>, p: spec_fn(char) -> bool) -> Seq<char>
    decreases s.len(),
{
    if s.len() > 0 && p(s[0]) {
        trim_start_by(s.drop_first(), p)
    } else {
        s
    }
}

/// `s` with every trailing character that satisfies `p` removed.
pub open spec fn trim_end_by(s: Seq<char>, p: spec_fn(char) -> bool) -> Seq<char>
    decreases s.len(),
{
    if s.len() > 0 && p(s.last()) {
        trim_end_by(s.drop_last(), p)
    } else {
        s
    }
}

pub open spec fn ws_pred() -> spec_fn(char) -> bool {
    |c: char| is_ws(c)
}

/// `str::trim_start`.
pub open spec fn trim_start(s: Seq<char>) -> Seq<char> {
    trim_start_by(s, ws_pred())
}

/// `str::trim_end`.
pub open spec fn trim_end(s: Seq<char>) -> Seq<char> {
    trim_end_by(s, ws_pred())
}

/// `str::trim`.
pub open spec fn trim(s: Seq<char>) -> Seq<char> {
    trim_end(trim_start(s))
}

/// Index of the first character of `v[from..to]` that is not white space
/// (or `to`): `v[result..to]` is `v[from..to]` trimmed at the start.
pub fn skip_ws_forward(v: &[char], from: usize, to: usize) -> (i: usize)
    requires
        from <= to <= v@.len(),
    ensures
        from <= i <= to,
        v@.subrange(i as int, to as int) == trim_start(v@.subrange(from as int, to as int)),
{
    let mut i = from;
    while i < to && char_is_ws(v[i])
        invariant
            from <= i <= to <= v@.len(),
            trim_start(v@.subrange(i as int, to as int)) == trim_start(
                v@.subrange(from as int, to as int),
            ),
        decreases to - i,
    {
        assert(v@.subrange(i as int, to as int).drop_first() =~= v@.subrange(
            i + 1,
            to as int,
        ));
        i = i + 1;
    }
    proof {
        let t = v@.subrange(i as int, to as int);
        if i < to {
            assert(t[0] == v@[i as int]);
        }
    }
    i
}

/// Index just past the last character of `v[from..to]` that is not white
/// space (or `from`): `v[from..result]` is `v[from..to]` trimmed at the end.
pub fn skip_ws_backward(v: &[char], from: usize, to: usize) -> (j: usize)
    requires
        from <= to <= v@.len(),
    ensures
        from <= j <= to,
        v@.subrange(from as int, j as int) == trim_end(v@.subrange(from as int, to as int)),
{
    let mut j = to;
    while j > from && char_is_ws(v[j - 1])
        invariant
            from <= j <= to <= v@.len(),
            trim_end(v@.subrange(from as int, j as int)) == trim_end(
                v@.subrange(from as int, to as int),
            ),
        decreases j - from,
    {
        assert(v@.subrange(from as int, j as int).drop_last() =~= v@.subrange(
            from as int,
            j - 1,
        ));
        j = j - 1;
    }
    proof {
        let t = v@.subrange(from as int, j as int);
        if j > from {
            assert(t.last() == v@[j - 1]);
        }
    }
    j
}

/// Bounds of `v[from..to]` trimmed at both ends (`str::trim`).
pub fn trim_bounds(v: &[char], from: usize, to: usize) -> (r: (usize, usize))
    requires
        from <= to <= v@.len(),
    ensures
        from <= r.0 <= r.1 <= to,
        v@.subrange(r.0 as int, r.1 as int) == trim(v@.subrange(from as int, to as int)),
{
    let i = skip_ws_forward(v, from, to);
    let j = skip_ws_backward(v, i, to);
    proof {
        assert(v@.subrange(i as int, to as int) =~= trim_start(v@.subrange(from as int, to as int)));
    }
    (i, j)
}

/// Index of the first `c` in `s`.
pub open spec fn first_index_of(s: Seq<char>, c: char) -> Option<int>
    decreases s.len(),
{
    if s.len() == 0 {
        None
    } else if s[0] == c {
        Some(0)
    } else {
        match first_index_of(s.drop_first(), c) {
            Some(i) => Some(i + 1),
            None => None,
        }
    }
}

/// Index of the last `c` in `s`.
pub open spec fn last_index_of(s: Seq<char>, c: char) -> Option<int>
    decreases s.len(),
{
    if s.len() == 0 {
        None
    } else if s.last() == c {
        Some(s.len() - 1)
    } else {
        last_index_of(s.drop_last(), c)
    }
}

/// `p` occurs in `s` starting at `i`.
pub open spec fn occurs_at(s: Seq<char>, p: Seq<char>, i: int) -> bool {
    0 <= i && i + p.len() <= s.len() && s.subrange(i, i + p.len()) == p
}

/// Index of the first occurrence of `p` in `s` at or after `i`.
pub open spec fn find_from(s: Seq<char>, p: Seq<char>, i: int) -> Option<int>
    decreases s.len() + 1 - i,
{
    if i < 0 || i + p.len() > s.len() {
        None
    } else if occurs_at(s, p, i) {
        Some(i)
    } else {
        find_from(s, p, i + 1)
    }
}

/// `p` occurs somewhere in `s` (`str::contains`).
pub open spec fn contains_pat(s: Seq<char>, p: Seq<char>) -> bool {
    find_from(s, p, 0) is Some
}

pub proof fn lemma_first_index_of(s: Seq<char>, c: char)
    ensures
        first_index_of(s, c) matches Some(i) ==> 0 <= i < s.len() && s[i] == c && (forall|k: int|
            0 <= k < i ==> s[k] != c),
        first_index_of(s, c) is None ==> forall|k: int| 0 <= k < s.len() ==> s[k] != c,
    decreases s.len(),
{
    if s.len() > 0 && s[0] != c {
        lemma_first_index_of(s.drop_first(), c);
        assert forall|k: int| 0 < k < s.len() implies s[k] == s.drop_first()[k - 1] by {}
    }
}

pub proof fn lemma_last_index_of(s: Seq<char>, c: char)
    ensures
        last_index_of(s, c) matches Some(i) ==> 0 <= i < s.len() && s[i] == c && (forall|k: int|
            i < k < s.len() ==> s[k] != c),
        last_index_of(s, c) is None ==> forall|k: int| 0 <= k < s.len() ==> s[k] != c,
    decreases s.len(),
{
    if s.len() > 0 && s.last() != c {
        lemma_last_index_of(s.drop_last(), c);
        assert forall|k: int| 0 <= k < s.len() - 1 implies s[k] == s.drop_last()[k] by {}
    }
}

pub proof fn lemma_find_from(s: Seq<char>, p: Seq<char>, i: int)
    ensures
        find_from(s, p, i) matches Some(k) ==> i <= k && k + p.len() <= s.len() && occurs_at(
            s,
            p,
            k,
        ),
    decreases s.len() + 1 - i,
{
    if !(i < 0 || i + p.len() > s.len()) && !occurs_at(s, p, i) {
        lemma_find_from(s, p, i + 1);
    }
}

/// Searching from `i` is searching the suffix from `i`, shifted.
pub proof fn lemma_find_from_shift(s: Seq<char>, p: Seq<char>, i: int)
    requires
        0 <= i <= s.len(),
    ensures
        find_from(s, p, i) == match find_from(s.skip(i), p, 0) {
            Some(k) => Some(k + i),
            None => None,
        },
    decreases s.len() + 1 - i,
{
    lemma_find_from_shift_gen(s, p, i, 0);
}

proof fn lemma_find_from_shift_gen(s: Seq<char>, p: Seq<char>, i: int, j: int)
    requires
        0 <= i <= s.len(),
        0 <= j,
    ensures
        find_from(s, p, i + j) == match find_from(s.skip(i), p, j) {
            Some(k) => Some(k + i),
            None => None,
        },
    decreases s.len() + 1 - (i + j),
{
    let t = s.skip(i);
    if i + j + p.len() > s.len() {
    } else {
        assert(occurs_at(s, p, i + j) == occurs_at(t, p, j)) by {
            assert(s.subrange(i + j, i + j + p.len()) =~= t.subrange(j, j + p.len()));
        }
        if !occurs_at(s, p, i + j) {
            lemma_find_from_shift_gen(s, p, i, j + 1);
            assert(i + (j + 1) == i + j + 1);
        }
    }
}

/// A copy of `v[a..b]`.
pub fn copy_range(v: &[char], a: usize, b: usize) -> (r: Vec<char>)
    requires
        a <= b <= v@.len(),
    ensures
        r@ == v@.subrange(a as int, b as int),
{
    let mut r: Vec<char> = Vec::new();
    let mut i = a;
    while i < b
        invariant
            a <= i <= b <= v@.len(),
            r@ == v@.subrange(a as int, i as int),
        decreases b - i,
    {
        r.push(v[i]);
        i = i + 1;
        proof {
            assert(r@ =~= v@.subrange(a as int, i as int));
        }
    }
    r
}

/// Position of the first `c` in `v[from..to]`, relative to `from`.
pub fn find_char(v: &[char], from: usize, to: usize, c: char) -> (r: Option<usize>)
    requires
        from <= to <= v@.len(),
    ensures
        r.is_some() == first_index_of(v@.subrange(from as int, to as int), c).is_some(),
        r matches Some(i) ==> first_index_of(v@.subrange(from as int, to as int), c) == Some(
            i as int,
        ) && i < to - from && v@[from + i] == c,
{
    proof {
        lemma_first_index_of(v@.subrange(from as int, to as int), c);
    }
    let mut i = from;
    while i < to
        invariant
            from <= i <= to <= v@.len(),
            first_index_of(v@.subrange(from as int, to as int), c) == match first_index_of(
                v@.subrange(i as int, to as int),
                c,
            ) {
                Some(k) => Some(k + (i - from)),
                None => None,
            },
        decreases to - i,
    {
        let ghost t = v@.subrange(i as int, to as int);
        proof {
            assert(t[0] == v@[i as int]);
            assert(t.drop_first() =~= v@.subrange(i + 1, to as int));
        }
        if v[i] == c {
            return Some(i - from);
        }
        i = i + 1;
    }
    None
}

/// Index of the last `c` in `v[from..to]`, relative to `from`.
pub fn rfind_char(v: &[char], from: usize, to: usize, c: char) -> (r: Option<usize>)
    requires
        from <= to <= v@.len(),
    ensures
        r.is_some() == last_index_of(v@.subrange(from as int, to as int), c).is_some(),
        r matches Some(i) ==> last_index_of(v@.subrange(from as int, to as int), c) == Some(
            i as int,
        ) && i < to - from && v@[from + i] == c,
{
    proof {
        lemma_last_index_of(v@.subrange(from as int, to as int), c);
    }
    let mut j = to;
    while j > from
        invariant
            from <= j <= to <= v@.len(),
            last_index_of(v@.subrange(from as int, to as int), c) == last_index_of(
                v@.subrange(from as int, j as int),
                c,
            ),
        decreases j - from,
    {
        let ghost t = v@.subrange(from as int, j as int);
        proof {
            assert(t.last() == v@[j - 1]);
            assert(t.drop_last() =~= v@.subrange(from as int, j - 1));
        }
        if v[j - 1] == c {
            return Some(j - 1 - from);
        }
        j = j - 1;
    }
    None
}

/// `p` occurs in `v` at `i`.
pub fn matches_at(v: &[char], p: &[char], i: usize) -> (r: bool)
    ensures
        r == occurs_at(v@, p@, i as int),
{
    if i > v.len() || p.len() > v.len() - i {
        return false;
    }
    let mut k: usize = 0;
    while k < p.len()
        invariant
            i + p@.len() <= v@.len(),
            i + p.len() <= v.len(),
            0 <= k <= p@.len(),
            forall|m: int| 0 <= m < k ==> v@[i + m] == p@[m],
        decreases p.len() - k,
    {
        if v[i + k] != p[k] {
            proof {
                assert(v@.subrange(i as int, i + p@.len())[k as int] != p@[k as int]);
            }
            return false;
        }
        k = k + 1;
    }
    proof {
        assert(v@.subrange(i as int, i + p@.len()) =~= p@);
    }
    true
}

/// The first occurrence of `p` in `v` at or after `i`.
pub fn find_pat(v: &[char], p: &[char], i: usize) -> (r: Option<usize>)
    requires
        i <= v@.len(),
    ensures
        r.is_some() == find_from(v@, p@, i as int).is_some(),
        r matches Some(k) ==> find_from(v@, p@, i as int) == Some(k as int) && i <= k && k
            + p@.len() <= v@.len(),
{
    proof {
        lemma_find_from(v@, p@, i as int);
    }
    let mut k = i;
    while k <= v.len()
        invariant
            i <= k,
            find_from(v@, p@, i as int) == find_from(v@, p@, k as int),
        decreases v.len() + 1 - k,
    {
        if p.len() > v.len() - k {
            return None;
        }
        if matches_at(v, p, k) {
            return Some(k);
        }
        proof {
            if p@.len() == 0 {
                assert(v@.subrange(k as int, k as int) =~= p@);
            }
        }
        k = k + 1;
    }
    None
}

/// The characters of a string slice (`str::chars().collect()`).
#[verifier::external_body]
pub(crate) fn chars_of(s: &str) -> (v: Vec<char>)
    ensures
        v@ == s@,
{
    s.chars().collect()
}

/// A string made of the given characters (`String::from_iter`).
#[verifier::external_body]
pub(crate) fn string_of(v: &[char]) -> (s: String)
    ensures
        s@ == v@,
{
    v.iter().collect()
}

/// String-slice equality (`<str as PartialEq>::eq`).
#[verifier::external_body]
pub(crate) fn str_eq(a: &str, b: &str) -> (r: bool)
    ensures
        r == (a@ == b@),
{
    a == b
}

/// UTF-16 decoding with every unpaired surrogate replaced by U+FFFD
/// (`String::from_utf16_lossy`).
pub open spec fn utf16_lossy(u: Seq<u16>) -> Seq<char>
    decreases u.len(),
{
    if u.len() == 0 {
        Seq::empty()
    } else if u[0] < 0xD800 || u[0] > 0xDFFF {
        seq![u[0] as char] + utf16_lossy(u.drop_first())
    } else if u[0] <= 0xDBFF && u.len() >= 2 && 0xDC00 <= u[1] <= 0xDFFF {
        seq![(0x10000 + (u[0] - 0xD800) * 0x400 + (u[1] - 0xDC00)) as char] + utf16_lossy(
            u.subrange(2, u.len() as int),
        )
    } else {
        seq!['\u{FFFD}'] + utf16_lossy(u.drop_first())
    }
}

/// `String::from_utf16_lossy`, decoded in verified code.
pub fn decode_utf16_lossy(u: &[u16]) -> (r: Vec<char>)
    ensures
        r@ == utf16_lossy(u@),
{
    let mut out: Vec<char> = Vec::new();
    let mut i: usize = 0;
    proof {
        assert(u@.subrange(0, u@.len() as int) =~= u@);
        assert(out@ + utf16_lossy(u@) =~= utf16_lossy(u@));
    }
    while i < u.len()
        invariant
            0 <= i <= u@.len(),
            utf16_lossy(u@) == out@ + utf16_lossy(u@.subrange(i as int, u@.len() as int)),
        decreases u.len() - i,
    {
        let ghost rest = u@.subrange(i as int, u@.len() as int);
        let w = u[i];
        proof {
            assert(rest[0] == w);
            assert(rest.drop_first() =~= u@.subrange(i + 1, u@.len() as int));
        }
        if w < 0xD800 || w > 0xDFFF {
            out.push(char_from_u32(w as u32));
            i = i + 1;
            proof {
                assert(out@.drop_last() + seq![out@.last()] =~= out@);
            }
        } else if w <= 0xDBFF && i + 1 < u.len() && 0xDC00 <= u[i + 1] && u[i + 1] <= 0xDFFF {
            let lo = u[i + 1];
            proof {
                assert(rest[1] == lo);
                assert(rest.subrange(2, rest.len() as int) =~= u@.subrange(i + 2, u@.len() as int));
            }
            let cp: u32 = 0x10000 + ((w as u32) - 0xD800) * 0x400 + ((lo as u32) - 0xDC00);
            out.push(char_from_u32(cp));
            i = i + 2;
            proof {
                assert(out@.drop_last() + seq![out@.last()] =~= out@);
            }
        } else {
            out.push('\u{FFFD}');
            i = i + 1;
            proof {
                assert(out@.drop_last() + seq![out@.last()] =~= out@);
            }
        }
    }
    proof {
        assert(u@.subrange(i as int, u@.len() as int) =~= Seq::<u16>::empty());
        assert(out@ + Seq::<char>::empty() =~= out@);
    }
    out
}

/// What `String::from_utf8_lossy` makes of bytes that are not valid UTF-8
/// (each maximal invalid subsequence becomes U+FFFD).
pub uninterp spec fn utf8_lossy(bytes: Seq<u8>) -> Seq<char>;

/// The text `String::from_utf8_lossy` makes of bytes: their decoding when
/// they are valid UTF-8, the replacement-character decoding otherwise.
pub open spec fn lossy_text(bytes: Seq<u8>) -> Seq<char> {
    if valid_utf8(bytes) {
        decode_utf8(bytes)
    } else {
        utf8_lossy(bytes)
    }
}

/// `String::from_utf8_lossy`: the decoded text of valid UTF-8; invalid input
/// decodes with replacement characters, as named by `utf8_lossy`.
#[verifier::external_body]
pub(crate) fn string_from_utf8_lossy(b: &[u8]) -> (s: String)
    ensures
        s@ == utf8_lossy(b@),
        valid_utf8(b@) ==> s@ == decode_utf8(b@),
{
    String::from_utf8_lossy(b).into_owned()
}

/// `std::str::from_utf8`: `Some` exactly for valid UTF-8, with its decoding.
#[verifier::external_body]
pub(crate) fn string_from_utf8(b: &[u8]) -> (s: Option<String>)
    ensures
        s.is_some() == valid_utf8(b@),
        s matches Some(t) ==> t@ == decode_utf8(b@),
{
    match std::str::from_utf8(b) {
        Ok(t) => Some(t.to_string()),
        Err(_) => None,
    }
}

} // verus!
