//! Filename pattern parser.
//!
//! Parses DJ-conventional filename schemes into artist / title / year /
//! label / version fields, so the importer can fill the `filename` metadata
//! source even when a file carries no tags. Patterns recognised:
//!
//! 1. `ARTIST - TITLE.ext`
//! 2. `ARTIST - TITLE (VERSION).ext`
//! 3. `ARTIST_-_TITLE_(VERSION)_[YEAR].ext`
//! 4. `[LABEL CAT#] ARTIST - TITLE.ext`
//!
//! Layered: the extension is stripped first, then any leading `[LABEL CAT#]`,
//! then any trailing `[YEAR]` / `(YEAR)`, then any trailing `(VERSION)`. The
//! remainder (after `_` becomes a space and white-space runs collapse) is
//! split on the first ` - ` into artist and title.
//!
//! `is_junk_title` flags titles an importer should treat as tag junk
//! (`Track 01`, `Unknown`, `Untitled`, blog noise, numeric filenames).

use vstd::prelude::*;
use crate::text::{
    lower_seq, char_lower, matches_at, occurs_at, contains_pat,
    is_ws, is_digit, is_alpha, trim, trim_start, trim_end, trim_end_by, first_index_of,
    last_index_of, lemma_last_index_of, find_from, char_is_ws, chars_of, string_of, copy_range, find_char, rfind_char,
    find_pat, skip_ws_forward, skip_ws_backward, trim_bounds, trim_start_by, ws_pred, lower, upper,
};

verus! {

/// Structured result of parsing a filename.
#[derive(Debug, Clone, PartialEq, Eq)]
pub struct ParsedFilename {
    /// Artist: `None` when no ` - ` separator was found.
    pub artist: Option<String>,
    /// Title: `None` only when nothing but brackets / nothing at all remains.
    pub title: Option<String>,
    /// Year from a trailing `(YYYY)` or `[YYYY]` segment (1900 to 2099).
    pub year: Option<i32>,
    /// Label / catalog text from a leading `[...]` segment, trimmed.
    pub label_catalog: Option<String>,
    /// The inner text of the trailing `(VERSION)` segment, verbatim: the text
    /// the remix / edit tokens are read from.
    pub version_segment: Option<String>,
}

/// Spec-level view of a [`ParsedFilename`].
pub struct FilenameFields {
    pub artist: Option<Seq<char>>,
    pub title: Option<Seq<char>>,
    pub year: Option<i32>,
    pub label_catalog: Option<Seq<char>>,
    pub version_segment: Option<Seq<char>>,
}

pub open spec fn opt_view(o: Option<String>) -> Option<Seq<char>> {
    match o {
        Some(s) => Some(s@),
        None => None,
    }
}

impl View for ParsedFilename {
    type V = FilenameFields;

    open spec fn view(&self) -> FilenameFields {
        FilenameFields {
            artist: opt_view(self.artist),
            title: opt_view(self.title),
            year: self.year,
            label_catalog: opt_view(self.label_catalog),
            version_segment: opt_view(self.version_segment),
        }
    }
}

impl ParsedFilename {
    /// `true` when the parser produced no artist and no title.
    pub fn is_empty(&self) -> (b: bool)
        ensures
            b == (self.artist.is_none() && self.title.is_none()),
    {
        self.artist.is_none() && self.title.is_none()
    }
}

// ---------------------------------------------------------------- specs --

pub open spec fn ext_char(c: char) -> bool {
    is_digit(c) || is_alpha(c)
}

/// Drop a `.ext` suffix whose extension is 1 to 5 ASCII letters / digits
/// (so `Track ft. Madlib.mp3` keeps its `ft.` dot).
pub open spec fn strip_extension(s: Seq<char>) -> Seq<char> {
    match last_index_of(s, '.') {
        Some(d) => {
            let ext = s.subrange(d + 1, s.len() as int);
            if 0 < ext.len() <= 5 && (forall|i: int| 0 <= i < ext.len() ==> ext_char(#[trigger] ext[i])) {
                s.subrange(0, d)
            } else {
                s
            }
        },
        None => s,
    }
}

/// An extension of 1 to 5 ASCII letters (either case) or digits is
/// stripped: `s.ext` loses exactly `.ext`, whatever `s` is.
pub proof fn lemma_extension_stripped(s: Seq<char>, ext: Seq<char>)
    requires
        1 <= ext.len() <= 5,
        forall|i: int|
            0 <= i < ext.len() ==> ('a' <= #[trigger] ext[i] <= 'z') || ('A' <= ext[i] <= 'Z') || (
            '0' <= ext[i] <= '9'),
    ensures
        strip_extension(s + seq!['.'] + ext) == s,
{
    let t = s + seq!['.'] + ext;
    let d = s.len() as int;
    assert(t[d] == '.');
    lemma_last_index_of(t, '.');
    assert(last_index_of(t, '.') == Some(d)) by {
        if last_index_of(t, '.') is None {
            assert(t[d] != '.');
        } else {
            let i = last_index_of(t, '.').unwrap();
            if i < d {
                assert(t[d] != '.');
            } else if i > d {
                assert(t[i] == ext[i - d - 1]);
            }
        }
    }
    let e = t.subrange(d + 1, t.len() as int);
    assert(e =~= ext);
    assert(t.subrange(0, d) =~= s);
}

/// A file name with no dot and no surrounding white space parses the same
/// with any extension of 1 to 5 ASCII letters (either case) or digits
/// appended: `A - T.MP3` reads as `A - T`.
pub proof fn lemma_parse_ignores_extension(s: Seq<char>, ext: Seq<char>)
    requires
        s.len() > 0,
        !is_ws(s[0]),
        !is_ws(s.last()),
        forall|i: int| 0 <= i < s.len() ==> #[trigger] s[i] != '.',
        1 <= ext.len() <= 5,
        forall|i: int|
            0 <= i < ext.len() ==> ('a' <= #[trigger] ext[i] <= 'z') || ('A' <= ext[i] <= 'Z') || (
            '0' <= ext[i] <= '9'),
    ensures
        parse_spec(s + seq!['.'] + ext) == parse_spec(s),
{
    let t = s + seq!['.'] + ext;
    lemma_extension_stripped(s, ext);
    assert(t[0] == s[0]);
    assert(t.last() == ext.last());
    assert(!is_ws(ext.last()));
    assert(trim_start(t) == t);
    assert(trim(t) == t);
    assert(trim_start(s) == s);
    assert(trim(s) == s);
    lemma_last_index_of(s, '.');
    assert(last_index_of(s, '.') is None) by {
        if last_index_of(s, '.') is Some {
            let i = last_index_of(s, '.').unwrap();
            assert(s[i] == '.');
        }
    }
    assert(strip_extension(s) == s);
}

/// A leading `[...]` segment: `(segment, rest trimmed at the start)`, or
/// `(None, s)` when `s` (trimmed at the start) does not open with a closed
/// bracket.
pub open spec fn take_leading_bracketed(s: Seq<char>) -> (Option<Seq<char>>, Seq<char>) {
    let t = trim_start(s);
    if t.len() == 0 || t[0] != '[' {
        (None, s)
    } else {
        match first_index_of(t, ']') {
            Some(close) => (Some(t.subrange(1, close)), trim_start(t.subrange(close + 1, t.len() as int))),
            None => (None, s),
        }
    }
}

pub open spec fn is_sep(c: char) -> bool {
    is_ws(c) || c == '_' || c == '-'
}

/// Trailing white space, `_` and `-` removed.
pub open spec fn trim_separators(s: Seq<char>) -> Seq<char> {
    trim_end_by(s, |c: char| is_sep(c))
}

/// Position of the opening bracket of a trailing `(...)` / `[...]` segment of
/// `trim_separators(s)`.
pub open spec fn trailing_open(s: Seq<char>) -> Option<int> {
    let t = trim_separators(s);
    if t.len() == 0 {
        None
    } else if t.last() == ')' {
        last_index_of(t.drop_last(), '(')
    } else if t.last() == ']' {
        last_index_of(t.drop_last(), '[')
    } else {
        None
    }
}

/// Numeric value of a string of decimal digits.
pub open spec fn digits_value(s: Seq<char>) -> int
    decreases s.len(),
{
    if s.len() == 0 {
        0
    } else {
        digits_value(s.drop_last()) * 10 + (s.last() as int - '0' as int)
    }
}

pub open spec fn all_digits(s: Seq<char>) -> bool {
    forall|i: int| 0 <= i < s.len() ==> is_digit(#[trigger] s[i])
}

/// A four-digit year between 1900 and 2099.
pub open spec fn year_of(s: Seq<char>) -> Option<i32> {
    if s.len() == 4 && all_digits(s) && 1900 <= digits_value(s) <= 2099 {
        Some(digits_value(s) as i32)
    } else {
        None
    }
}

/// A trailing `(YYYY)` / `[YYYY]` segment: `(year, rest trimmed at the
/// end)`, or `(None, s)`.
pub open spec fn take_trailing_year(s: Seq<char>) -> (Option<i32>, Seq<char>) {
    match trailing_open(s) {
        Some(o) => {
            let t = trim_separators(s);
            match year_of(trim(t.subrange(o + 1, t.len() - 1))) {
                Some(y) => (Some(y), trim_end(t.subrange(0, o))),
                None => (None, s),
            }
        },
        None => (None, s),
    }
}

/// A trailing `(...)` / `[...]` segment: `(inner text, rest trimmed at the
/// end)`, or `(None, s)`.
pub open spec fn take_trailing_bracketed(s: Seq<char>) -> (Option<Seq<char>>, Seq<char>) {
    match trailing_open(s) {
        Some(o) => {
            let t = trim_separators(s);
            (Some(t.subrange(o + 1, t.len() - 1)), trim_end(t.subrange(0, o)))
        },
        None => (None, s),
    }
}

/// `_` replaced by a space.
pub open spec fn underscores_to_spaces(s: Seq<char>) -> Seq<char> {
    s.map_values(|c: char| if c == '_' { ' ' } else { c })
}

/// Left-to-right white-space collapsing: the output so far and whether the
/// last input character was white space.
pub open spec fn collapse_state(s: Seq<char>) -> (Seq<char>, bool)
    decreases s.len(),
{
    if s.len() == 0 {
        (Seq::empty(), false)
    } else {
        let (o, prev) = collapse_state(s.drop_last());
        if is_ws(s.last()) {
            if !prev && o.len() > 0 {
                (o.push(' '), true)
            } else {
                (o, true)
            }
        } else {
            (o.push(s.last()), false)
        }
    }
}

/// Runs of white space replaced by a single space, then trimmed.
pub open spec fn collapse_whitespace(s: Seq<char>) -> Seq<char> {
    trim_end(collapse_state(s).0)
}

pub open spec fn nonempty(s: Seq<char>) -> Option<Seq<char>> {
    if s.len() == 0 {
        None
    } else {
        Some(s)
    }
}

/// Split on the first ` - ` into trimmed artist and title (an empty side
/// is `None`); without a separator the whole (trimmed) text is the title.
pub open spec fn split_artist_title(s: Seq<char>) -> (Option<Seq<char>>, Option<Seq<char>>) {
    match find_from(s, " - "@, 0) {
        Some(idx) => (nonempty(trim(s.subrange(0, idx))), nonempty(trim(s.subrange(idx + 3, s.len() as int)))),
        None => (None, nonempty(trim(s))),
    }
}

/// What [`parse`] returns for `input`.
pub open spec fn parse_spec(input: Seq<char>) -> FilenameFields {
    let trimmed = strip_extension(trim(input));
    let (label, after_label) = take_leading_bracketed(trimmed);
    let (year, after_year) = take_trailing_year(after_label);
    let (version, after_version) = take_trailing_bracketed(after_year);
    let normalised = collapse_whitespace(underscores_to_spaces(after_version));
    let (artist, title) = split_artist_title(normalised);
    FilenameFields {
        artist,
        title,
        year,
        label_catalog: match label {
            Some(l) => Some(trim(l)),
            None => None,
        },
        version_segment: version,
    }
}

// ----------------------------------------------------------------- exec --

fn is_ext_char(c: char) -> (r: bool)
    ensures
        r == ext_char(c),
{
    ('0' <= c && c <= '9') || ('a' <= c && c <= 'z') || ('A' <= c && c <= 'Z')
}

/// End of `v[a..b]` with its extension stripped.
fn strip_extension_end(v: &[char], a: usize, b: usize) -> (e: usize)
    requires
        a <= b <= v@.len(),
    ensures
        a <= e <= b,
        v@.subrange(a as int, e as int) == strip_extension(v@.subrange(a as int, b as int)),
{
    let ghost s = v@.subrange(a as int, b as int);
    match rfind_char(v, a, b, '.') {
        Some(d) => {
            let dot = a + d;
            let n = b - (dot + 1);
            if n == 0 || n > 5 {
                proof {
                    assert(s.subrange(d + 1, s.len() as int).len() == n);
                }
                return b;
            }
            let mut k = dot + 1;
            while k < b
                invariant
                    a <= dot,
                    dot == a + d,
                    last_index_of(s, '.') == Some(d as int),
                    n == b - (dot + 1),
                    0 < n <= 5,
                    s == v@.subrange(a as int, b as int),
                    dot + 1 <= k <= b <= v@.len(),
                    forall|m: int| dot + 1 <= m < k ==> ext_char(#[trigger] v@[m]),
                decreases b - k,
            {
                if !is_ext_char(v[k]) {
                    proof {
                        let ext = s.subrange(d + 1, s.len() as int);
                        assert(ext[k - dot - 1] == v@[k as int]);
                    }
                    return b;
                }
                k = k + 1;
            }
            proof {
                let ext = s.subrange(d + 1, s.len() as int);
                assert forall|i: int| 0 <= i < ext.len() implies ext_char(#[trigger] ext[i]) by {
                    assert(ext[i] == v@[dot + 1 + i]);
                }
                assert(s.subrange(0, d as int) =~= v@.subrange(a as int, dot as int));
            }
            dot
        },
        None => b,
    }
}

/// A leading `[...]` segment of `v[a..b]`: its inner range, and the range of
/// what follows.
fn take_leading_bracketed_range(v: &[char], a: usize, b: usize) -> (r: (
    Option<(usize, usize)>,
    (usize, usize),
))
    requires
        a <= b <= v@.len(),
    ensures
        ({
            let (label, rest) = r;
            let (sl, srest) = take_leading_bracketed(v@.subrange(a as int, b as int));
            &&& a <= rest.0 <= rest.1 <= b
            &&& v@.subrange(rest.0 as int, rest.1 as int) == srest
            &&& label.is_some() == sl.is_some()
            &&& (label matches Some((x, y)) ==> a <= x <= y <= b && v@.subrange(x as int, y as int)
                == sl.unwrap())
        }),
{
    let ghost s = v@.subrange(a as int, b as int);
    let i = skip_ws_forward(v, a, b);
    let ghost t = v@.subrange(i as int, b as int);
    if i == b || v[i] != '[' {
        proof {
            if i < b {
                assert(t[0] == v@[i as int]);
            }
        }
        return (None, (a, b));
    }
    proof {
        assert(t[0] == v@[i as int]);
        assert(v@.subrange(i as int, b as int) == t);
    }
    match find_char(v, i, b, ']') {
        Some(close) => {
            let c = i + close;
            let j = skip_ws_forward(v, c + 1, b);
            proof {
                assert(t.subrange(1, close as int) =~= v@.subrange(i + 1, c as int));
                assert(t.subrange(close + 1, t.len() as int) =~= v@.subrange(c + 1, b as int));

            }
            (Some((i + 1, c)), (j, b))
        },
        None => (None, (a, b)),
    }
}

fn char_is_sep(c: char) -> (r: bool)
    ensures
        r == is_sep(c),
{
    char_is_ws(c) || c == '_' || c == '-'
}

/// End of `v[a..b]` with trailing separators removed.
fn trim_trailing_separators(v: &[char], a: usize, b: usize) -> (e: usize)
    requires
        a <= b <= v@.len(),
    ensures
        a <= e <= b,
        v@.subrange(a as int, e as int) == trim_separators(v@.subrange(a as int, b as int)),
{
    let mut j = b;
    while j > a && char_is_sep(v[j - 1])
        invariant
            a <= j <= b <= v@.len(),
            trim_separators(v@.subrange(a as int, j as int)) == trim_separators(
                v@.subrange(a as int, b as int),
            ),
        decreases j - a,
    {
        assert(v@.subrange(a as int, j as int).drop_last() =~= v@.subrange(a as int, j - 1));
        j = j - 1;
    }
    proof {
        let t = v@.subrange(a as int, j as int);
        if j > a {
            assert(t.last() == v@[j - 1]);
        }
    }
    j
}

/// The trailing bracket segment of `v[a..b]`: the absolute positions of the
/// end of `trim_separators` and of the opening bracket.
fn trailing_open_range(v: &[char], a: usize, b: usize) -> (r: Option<(usize, usize)>)
    requires
        a <= b <= v@.len(),
    ensures
        r.is_some() == trailing_open(v@.subrange(a as int, b as int)).is_some(),
        r matches Some((e, o)) ==> {
            &&& a <= o && o + 1 < e <= b
            &&& v@.subrange(a as int, e as int) == trim_separators(v@.subrange(a as int, b as int))
            &&& trailing_open(v@.subrange(a as int, b as int)) == Some(o - a)
        },
{
    let e = trim_trailing_separators(v, a, b);
    let ghost t = v@.subrange(a as int, e as int);
    if e == a {
        return None;
    }
    proof {
        assert(t.last() == v@[e - 1]);
        assert(t.drop_last() =~= v@.subrange(a as int, e - 1));
    }
    let last = v[e - 1];
    let open = if last == ')' {
        '('
    } else if last == ']' {
        '['
    } else {
        return None;
    };
    match rfind_char(v, a, e - 1, open) {
        Some(o) => Some((e, a + o)),
        None => None,
    }
}

fn digit_value(c: char) -> (d: i32)
    requires
        is_digit(c),
    ensures
        d == c as int - '0' as int,
{
    (c as u32 - '0' as u32) as i32
}

/// The year of a four-digit segment `v[a..b]`.
fn year_in(v: &[char], a: usize, b: usize) -> (y: Option<i32>)
    requires
        a <= b <= v@.len(),
    ensures
        y == year_of(v@.subrange(a as int, b as int)),
{
    let ghost s = v@.subrange(a as int, b as int);
    if b - a != 4 {
        return None;
    }
    let mut k = a;
    let mut value: i32 = 0;
    while k < b
        invariant
            a <= k <= b <= v@.len(),
            s == v@.subrange(a as int, b as int),
            b - a == 4,
            forall|m: int| a <= m < k ==> is_digit(#[trigger] v@[m]),
            value == digits_value(v@.subrange(a as int, k as int)),
            0 <= value < 10000,
            k - a < 4 ==> value < 1000,
            k - a < 3 ==> value < 100,
            k - a < 2 ==> value < 10,
            k - a < 1 ==> value == 0,
        decreases b - k,
    {
        let c = v[k];
        if !('0' <= c && c <= '9') {
            proof {
                assert(s[k - a] == c);
            }
            return None;
        }
        proof {
            assert(v@.subrange(a as int, k + 1).drop_last() =~= v@.subrange(a as int, k as int));
        }
        value = value * 10 + digit_value(c);
        k = k + 1;
    }
    proof {
        assert forall|i: int| 0 <= i < s.len() implies is_digit(#[trigger] s[i]) by {
            assert(s[i] == v@[a + i]);
        }
    }
    if 1900 <= value && value <= 2099 {
        Some(value)
    } else {
        None
    }
}

/// `take_trailing_year` on `v[a..b]`.
fn take_trailing_year_range(v: &[char], a: usize, b: usize) -> (r: (Option<i32>, (usize, usize)))
    requires
        a <= b <= v@.len(),
    ensures
        a <= r.1.0 <= r.1.1 <= b,
        r.0 == take_trailing_year(v@.subrange(a as int, b as int)).0,
        v@.subrange(r.1.0 as int, r.1.1 as int) == take_trailing_year(v@.subrange(a as int, b as int)).1,
{
    match trailing_open_range(v, a, b) {
        Some((e, o)) => {
            let ghost t = v@.subrange(a as int, e as int);
            let (ia, ib) = trim_bounds(v, o + 1, e - 1);
            proof {
                assert(t.subrange(o - a + 1, t.len() - 1) =~= v@.subrange(o + 1, e - 1));
            }
            match year_in(v, ia, ib) {
                Some(y) => {
                    let j = skip_ws_backward(v, a, o);
                    proof {
                        assert(t.subrange(0, o - a) =~= v@.subrange(a as int, o as int));
                    }
                    (Some(y), (a, j))
                },
                None => (None, (a, b)),
            }
        },
        None => (None, (a, b)),
    }
}

/// `take_trailing_bracketed` on `v[a..b]`.
fn take_trailing_bracketed_range(v: &[char], a: usize, b: usize) -> (r: (
    Option<(usize, usize)>,
    (usize, usize),
))
    requires
        a <= b <= v@.len(),
    ensures
        ({
            let (seg, rest) = r;
            let (ss, srest) = take_trailing_bracketed(v@.subrange(a as int, b as int));
            &&& a <= rest.0 <= rest.1 <= b
            &&& v@.subrange(rest.0 as int, rest.1 as int) == srest
            &&& seg.is_some() == ss.is_some()
            &&& (seg matches Some((x, y)) ==> a <= x <= y <= b && v@.subrange(x as int, y as int)
                == ss.unwrap())
        }),
{
    match trailing_open_range(v, a, b) {
        Some((e, o)) => {
            let ghost t = v@.subrange(a as int, e as int);
            let j = skip_ws_backward(v, a, o);
            proof {
                assert(t.subrange(o - a + 1, t.len() - 1) =~= v@.subrange(o + 1, e - 1));
                assert(t.subrange(0, o - a) =~= v@.subrange(a as int, o as int));
            }
            (Some((o + 1, e - 1)), (a, j))
        },
        None => (None, (a, b)),
    }
}

/// `v[a..b]` with `_` replaced by a space.
fn underscores_to_spaces_exec(v: &[char], a: usize, b: usize) -> (r: Vec<char>)
    requires
        a <= b <= v@.len(),
    ensures
        r@ == underscores_to_spaces(v@.subrange(a as int, b as int)),
{
    let mut r: Vec<char> = Vec::new();
    let mut k = a;
    while k < b
        invariant
            a <= k <= b <= v@.len(),
            r@ == underscores_to_spaces(v@.subrange(a as int, k as int)),
        decreases b - k,
    {
        let c = v[k];
        r.push(if c == '_' { ' ' } else { c });
        k = k + 1;
        proof {
            assert(r@ =~= underscores_to_spaces(v@.subrange(a as int, k as int)));
        }
    }
    r
}

/// Collapse runs of white space into one space and trim the end.
fn collapse_whitespace_exec(v: &[char]) -> (r: Vec<char>)
    ensures
        r@ == collapse_whitespace(v@),
{
    let mut out: Vec<char> = Vec::new();
    let mut prev_space = false;
    let mut k: usize = 0;
    while k < v.len()
        invariant
            0 <= k <= v@.len(),
            (out@, prev_space) == collapse_state(v@.take(k as int)),
        decreases v.len() - k,
    {
        let c = v[k];
        proof {
            assert(v@.take(k + 1).drop_last() =~= v@.take(k as int));
        }
        if char_is_ws(c) {
            if !prev_space && out.len() > 0 {
                out.push(' ');
            }
            prev_space = true;
        } else {
            out.push(c);
            prev_space = false;
        }
        k = k + 1;
    }
    proof {
        assert(v@.take(v@.len() as int) =~= v@);
    }
    let e = skip_ws_backward(&out, 0, out.len());
    proof {
        assert(out@.subrange(0, out@.len() as int) =~= out@);
    }
    copy_range(&out, 0, e)
}

fn nonempty_string(v: &[char], a: usize, b: usize) -> (r: Option<String>)
    requires
        a <= b <= v@.len(),
    ensures
        opt_view(r) == nonempty(v@.subrange(a as int, b as int)),
{
    if a == b {
        None
    } else {
        Some(string_of(&copy_range(v, a, b)))
    }
}

fn split_artist_title_exec(v: &[char]) -> (r: (Option<String>, Option<String>))
    ensures
        (opt_view(r.0), opt_view(r.1)) == split_artist_title(v@),
{
    let sep = vec![' ', '-', ' '];
    proof {
        reveal_strlit(" - ");
        assert(sep@ =~= " - "@);
        assert(sep@.len() == 3);
    }
    match find_pat(v, sep.as_slice(), 0) {
        Some(idx) => {
            assert(idx + 3 <= v@.len());
            assert(idx + 3 <= v.len());
            let after: usize = idx + 3;
            let (a0, a1) = trim_bounds(v, 0, idx);
            let (t0, t1) = trim_bounds(v, after, v.len());
            (nonempty_string(v, a0, a1), nonempty_string(v, t0, t1))
        },
        None => {
            let (t0, t1) = trim_bounds(v, 0, v.len());
            proof {
                assert(v@.subrange(0, v@.len() as int) =~= v@);
            }
            (None, nonempty_string(v, t0, t1))
        },
    }
}

/// Parse a filename or bare title into its artist, title, year, label and
/// version parts.
pub fn parse(input: &str) -> (p: ParsedFilename)
    ensures
        p@ == parse_spec(input@),
{
    let v = chars_of(input);
    proof {
        assert(v@.subrange(0, v@.len() as int) =~= input@);
    }
    let (a, b) = trim_bounds(&v, 0, v.len());
    let e = strip_extension_end(&v, a, b);
    let (label, (la, lb)) = take_leading_bracketed_range(&v, a, e);
    let (year, (ya, yb)) = take_trailing_year_range(&v, la, lb);
    let (version, (va, vb)) = take_trailing_bracketed_range(&v, ya, yb);
    let normalised = collapse_whitespace_exec(&underscores_to_spaces_exec(&v, va, vb));
    let (artist, title) = split_artist_title_exec(&normalised);
    let label_catalog = match label {
        Some((x, y)) => {
            let (t0, t1) = trim_bounds(&v, x, y);
            Some(string_of(&copy_range(&v, t0, t1)))
        },
        None => None,
    };
    let version_segment = match version {
        Some((x, y)) => Some(string_of(&copy_range(&v, x, y))),
        None => None,
    };
    ParsedFilename { artist, title, year, label_catalog, version_segment }
}

pub open spec fn digit_or_dot(c: char) -> bool {
    is_digit(c) || c == '.'
}

/// Blogspot-era noise that marks a title as junk wherever it appears.
pub open spec fn junk_noise() -> Seq<Seq<char>> {
    seq![
        "downloaded from"@,
        "free download"@,
        "www."@,
        ".blogspot."@,
        ".tumblr."@,
        ".net/"@,
        ".com/"@,
        "http://"@,
        "https://"@,
    ]
}

/// A title an importer treats as tag junk (case-insensitive): blank;
/// `unknown` / `untitled`; `track NN` / `trackNN`; numeric filename-style
/// text (`01.02`, or a leading-zero number such as `01`); or any text
/// carrying blog / download noise.
pub open spec fn is_junk(title: Seq<char>) -> bool {
    let t = trim(title);
    let l = lower_seq(t);
    ||| t.len() == 0
    ||| l == "unknown"@
    ||| l == "untitled"@
    ||| (occurs_at(l, "track "@, 0) && all_digits(trim(l.subrange(6, l.len() as int))))
    ||| (occurs_at(l, "track"@, 0) && l.len() > 5 && all_digits(l.subrange(5, l.len() as int)))
    ||| ((forall|i: int| 0 <= i < l.len() ==> digit_or_dot(#[trigger] l[i])) && (l.contains('.')
        || (l[0] == '0' && l.len() >= 2)))
    ||| (exists|k: int| 0 <= k < junk_noise().len() && contains_pat(l, #[trigger] junk_noise()[k]))
}

fn lower_vec(v: &[char], a: usize, b: usize) -> (r: Vec<char>)
    requires
        a <= b <= v@.len(),
    ensures
        r@ == lower_seq(v@.subrange(a as int, b as int)),
{
    let mut r: Vec<char> = Vec::new();
    let mut k = a;
    while k < b
        invariant
            a <= k <= b <= v@.len(),
            r@ == lower_seq(v@.subrange(a as int, k as int)),
        decreases b - k,
    {
        r.push(char_lower(v[k]));
        k = k + 1;
        proof {
            assert(r@ =~= lower_seq(v@.subrange(a as int, k as int)));
        }
    }
    r
}

fn chars_equal(a: &[char], b: &[char]) -> (r: bool)
    ensures
        r == (a@ == b@),
{
    if a.len() != b.len() {
        return false;
    }
    let mut k: usize = 0;
    while k < a.len()
        invariant
            a@.len() == b@.len(),
            0 <= k <= a@.len(),
            forall|m: int| 0 <= m < k ==> a@[m] == b@[m],
        decreases a.len() - k,
    {
        if a[k] != b[k] {
            return false;
        }
        k = k + 1;
    }
    proof {
        assert(a@ =~= b@);
    }
    true
}

fn all_digits_in(v: &[char], a: usize, b: usize) -> (r: bool)
    requires
        a <= b <= v@.len(),
    ensures
        r == all_digits(v@.subrange(a as int, b as int)),
{
    let mut k = a;
    while k < b
        invariant
            a <= k <= b <= v@.len(),
            forall|m: int| a <= m < k ==> is_digit(#[trigger] v@[m]),
        decreases b - k,
    {
        let c = v[k];
        if !('0' <= c && c <= '9') {
            proof {
                assert(v@.subrange(a as int, b as int)[k - a] == c);
            }
            return false;
        }
        k = k + 1;
    }
    proof {
        let s = v@.subrange(a as int, b as int);
        assert forall|i: int| 0 <= i < s.len() implies is_digit(#[trigger] s[i]) by {
            assert(s[i] == v@[a + i]);
        }
    }
    true
}

fn contains_noise(l: &[char]) -> (r: bool)
    ensures
        r == (exists|k: int| 0 <= k < junk_noise().len() && contains_pat(l@, #[trigger] junk_noise()[k])),
{
    let noise: Vec<&str> = vec![
        "downloaded from",
        "free download",
        "www.",
        ".blogspot.",
        ".tumblr.",
        ".net/",
        ".com/",
        "http://",
        "https://",
    ];
    let ghost views = noise@.map_values(|s: &str| s@);
    assert(views =~= junk_noise());
    let mut k: usize = 0;
    while k < noise.len()
        invariant
            views == noise@.map_values(|s: &str| s@),
            views == junk_noise(),
            0 <= k <= noise@.len(),
            forall|m: int| 0 <= m < k ==> !contains_pat(l@, #[trigger] junk_noise()[m]),
        decreases noise.len() - k,
    {
        let pat = chars_of(noise[k]);
        proof {
            assert(views[k as int] == noise@[k as int]@);
        }
        if find_pat(l, pat.as_slice(), 0).is_some() {
            return true;
        }
        k = k + 1;
    }
    false
}

/// `true` for titles the importer treats as tag junk and falls through to
/// the filename parser for. Conservative: `Track 1 (Live)`, `99 Problems`
/// and `23` are kept.
pub fn is_junk_title(title: &str) -> (r: bool)
    ensures
        r == is_junk(title@),
{
    let v = chars_of(title);
    let (a, b) = trim_bounds(&v, 0, v.len());
    proof {
        assert(v@.subrange(0, v@.len() as int) =~= title@);
    }
    if a == b {
        return true;
    }
    let l = lower_vec(&v, a, b);
    let ghost ls = l@;
    if chars_equal(l.as_slice(), chars_of("unknown").as_slice()) || chars_equal(
        l.as_slice(),
        chars_of("untitled").as_slice(),
    ) {
        return true;
    }
    let track_space = chars_of("track ");
    proof {
        reveal_strlit("track ");
        reveal_strlit("track");
        assert(track_space@.len() == 6);
    }
    if matches_at(l.as_slice(), track_space.as_slice(), 0) {
        let (ra, rb) = trim_bounds(&l, 6, l.len());
        if all_digits_in(&l, ra, rb) {
            return true;
        }
    }
    let track = chars_of("track");
    if matches_at(l.as_slice(), track.as_slice(), 0) && l.len() > 5 && all_digits_in(&l, 5, l.len()) {
        return true;
    }
    let mut all_numeric = true;
    let mut has_period = false;
    let mut k: usize = 0;
    while k < l.len()
        invariant
            ls == l@,
            0 <= k <= l@.len(),
            all_numeric == (forall|m: int| 0 <= m < k ==> digit_or_dot(#[trigger] l@[m])),
            has_period == (exists|m: int| 0 <= m < k && l@[m] == '.'),
        decreases l.len() - k,
    {
        let c = l[k];
        if !(('0' <= c && c <= '9') || c == '.') {
            all_numeric = false;
        }
        if c == '.' {
            has_period = true;
        }
        k = k + 1;
    }
    if all_numeric {
        let starts_with_zero = l[0] == '0' && l.len() >= 2;
        if has_period || starts_with_zero {
            proof {
                if has_period {
                    let m = choose|m: int| 0 <= m < l@.len() && l@[m] == '.';
                    assert(l@.contains('.'));
                }
            }
            return true;
        }
        proof {
            assert(!l@.contains('.'));
        }
    }
    contains_noise(l.as_slice())
}

proof fn lemma_trim_start_idem(s: Seq<char>)
    ensures
        trim_start_by(trim_start_by(s, ws_pred()), ws_pred()) == trim_start_by(s, ws_pred()),
    decreases s.len(),
{
    if s.len() > 0 && (ws_pred())(s[0]) {
        lemma_trim_start_idem(s.drop_first());
    }
}

proof fn lemma_trim_end_idem(s: Seq<char>)
    ensures
        trim_end_by(trim_end_by(s, ws_pred()), ws_pred()) == trim_end_by(s, ws_pred()),
    decreases s.len(),
{
    if s.len() > 0 && (ws_pred())(s.last()) {
        lemma_trim_end_idem(s.drop_last());
    }
}

proof fn lemma_trim_start_shorter(s: Seq<char>)
    ensures
        trim_start_by(s, ws_pred()).len() <= s.len(),
    decreases s.len(),
{
    if s.len() > 0 && (ws_pred())(s[0]) {
        lemma_trim_start_shorter(s.drop_first());
    }
}

proof fn lemma_trim_end_keeps_start(x: Seq<char>)
    requires
        trim_start_by(x, ws_pred()) == x,
    ensures
        trim_start_by(trim_end_by(x, ws_pred()), ws_pred()) == trim_end_by(x, ws_pred()),
    decreases x.len(),
{
    if x.len() > 0 && (ws_pred())(x.last()) {
        let d = x.drop_last();
        if d.len() > 0 {
            assert(d[0] == x[0]);
            if (ws_pred())(x[0]) {
                lemma_trim_start_shorter(x.drop_first());
            }
            assert(!(ws_pred())(x[0]));
            assert(trim_start_by(d, ws_pred()) == d);
            lemma_trim_end_keeps_start(d);
        } else {
            assert(trim_end_by(d, ws_pred()) =~= Seq::<char>::empty());
        }
    }
}

/// Trimming twice trims no more than trimming once.
proof fn lemma_trim_idem(s: Seq<char>)
    ensures
        trim(trim(s)) == trim(s),
{
    let x = trim_start(s);
    lemma_trim_start_idem(s);
    lemma_trim_end_keeps_start(x);
    lemma_trim_end_idem(x);
}

/// A character map that keeps white space white space and everything else
/// not white space.
pub open spec fn keeps_ws(f: spec_fn(char) -> char) -> bool {
    forall|c: char| #[trigger] is_ws(f(c)) == is_ws(c)
}

proof fn lemma_trim_start_map(s: Seq<char>, f: spec_fn(char) -> char)
    requires
        keeps_ws(f),
    ensures
        trim_start_by(s.map_values(f), ws_pred()) == trim_start_by(s, ws_pred()).map_values(f),
    decreases s.len(),
{
    if s.len() > 0 {
        assert(s.map_values(f)[0] == f(s[0]));
        assert(is_ws(f(s[0])) == is_ws(s[0]));
        if is_ws(s[0]) {
            assert(s.map_values(f).drop_first() =~= s.drop_first().map_values(f));
            lemma_trim_start_map(s.drop_first(), f);
        }
    } else {
        assert(s.map_values(f) =~= Seq::<char>::empty());
    }
}

proof fn lemma_trim_end_map(s: Seq<char>, f: spec_fn(char) -> char)
    requires
        keeps_ws(f),
    ensures
        trim_end_by(s.map_values(f), ws_pred()) == trim_end_by(s, ws_pred()).map_values(f),
    decreases s.len(),
{
    if s.len() > 0 {
        assert(s.map_values(f).last() == f(s.last()));
        assert(is_ws(f(s.last())) == is_ws(s.last()));
        if is_ws(s.last()) {
            assert(s.map_values(f).drop_last() =~= s.drop_last().map_values(f));
            lemma_trim_end_map(s.drop_last(), f);
        }
    } else {
        assert(s.map_values(f) =~= Seq::<char>::empty());
    }
}

proof fn lemma_trim_map(s: Seq<char>, f: spec_fn(char) -> char)
    requires
        keeps_ws(f),
    ensures
        trim(s.map_values(f)) == trim(s).map_values(f),
{
    lemma_trim_start_map(s, f);
    lemma_trim_end_map(trim_start(s), f);
}

proof fn lemma_junk_case_map(s: Seq<char>, f: spec_fn(char) -> char)
    requires
        keeps_ws(f),
        forall|c: char| #[trigger] lower(f(c)) == lower(c),
    ensures
        is_junk(s.map_values(f)) == is_junk(s),
{
    lemma_trim_map(s, f);
    let t = trim(s);
    assert(lower_seq(t.map_values(f)) =~= lower_seq(t)) by {
        assert forall|i: int| 0 <= i < t.len() implies lower_seq(t.map_values(f))[i] == lower_seq(t)[i] by {
            assert(lower(f(t[i])) == lower(t[i]));
        }
    }
}

/// Junk is junk whatever its case and its surrounding white space:
/// upper-casing, lower-casing (ASCII) or trimming a title does not change
/// whether it is junk.
pub proof fn lemma_junk_ignores_case_and_trim(s: Seq<char>)
    ensures
        is_junk(s.map_values(|c: char| upper(c))) == is_junk(s),
        is_junk(lower_seq(s)) == is_junk(s),
        is_junk(trim(s)) == is_junk(s),
{
    let up = |c: char| upper(c);
    let lo = |c: char| lower(c);
    assert forall|c: char| #[trigger] is_ws(up(c)) == is_ws(c) by {
        if 'a' <= c <= 'z' {
            assert((((c as u32) - 32) as char) as u32 == (c as u32) - 32);
        }
    }
    assert forall|c: char| #[trigger] lower(up(c)) == lower(c) by {
        if 'a' <= c <= 'z' {
            assert((((c as u32) - 32) as char) as u32 == (c as u32) - 32);
            assert((((((c as u32) - 32) as char) as u32) + 32) as char == c);
        }
    }
    assert forall|c: char| #[trigger] is_ws(lo(c)) == is_ws(c) by {
        if 'A' <= c <= 'Z' {
            assert((((c as u32) + 32) as char) as u32 == (c as u32) + 32);
        }
    }
    assert forall|c: char| #[trigger] lower(lo(c)) == lower(c) by {
        if 'A' <= c <= 'Z' {
            assert((((c as u32) + 32) as char) as u32 == (c as u32) + 32);
        }
    }
    lemma_junk_case_map(s, up);
    assert(lower_seq(s) == s.map_values(lo));
    lemma_junk_case_map(s, lo);
    lemma_trim_idem(s);
}

} // verus!
