//! The library's row shapes and the pure pieces of its queries: the sort
//! keys of the browser, the full-text search expression, and the indices
//! imported cues and loops are stored under (memory markers parked above the
//! hot-cue pads).

use vstd::prelude::*;
use crate::text::{is_ws, char_is_ws, trim_start_by, trim_end_by, chars_of, string_of, str_eq};
use crate::sources::{lex_lt, lex_less, lemma_lex_lt_strict};

verus! {

/// One `track_files` row the missing-file scanner walks.
#[derive(Debug, Clone)]
pub struct FileScanRow {
    /// Primary key of the `track_files` row.
    pub file_id: i64,
    /// Canonical track this file belongs to.
    pub track_id: String,
    /// Volume the file lives on.
    pub volume_uuid: String,
    /// Volume-relative path.
    pub relative_path: String,
    /// Current `is_missing` flag.
    pub was_missing: bool,
    /// The volume's last known mount point; `None` when it is offline.
    pub mount_point: Option<String>,
}

/// One track whose files are all unreachable, for the relocate panel.
#[derive(Debug, Clone)]
pub struct MissingTrack {
    /// Canonical track UUID.
    pub track_id: String,
    /// `fingerprints.id` of the track.
    pub fingerprint_id: i64,
    /// Duration of the missing file, in milliseconds.
    pub duration_ms: u32,
    /// The relative path the track was last seen at, if any.
    pub last_relative_path: Option<String>,
    /// The file name of `last_relative_path`.
    pub last_filename: Option<String>,
}

/// One crate of the user's crate tree.
#[derive(Debug, Clone)]
pub struct CrateRow {
    /// `crates.id` primary key.
    pub id: i64,
    /// User-facing name, unique among its siblings.
    pub name: String,
    /// Parent crate, `None` at the top level.
    pub parent_id: Option<i64>,
    /// Number of tracks directly in this crate.
    pub track_count: u64,
}

/// A browser sort order.
#[derive(Debug, Clone, Copy, PartialEq, Eq, Structural)]
pub enum TrackSortKey {
    /// Import order.
    CreatedAt,
    /// Display title (ID3 preferred over the file name).
    Title,
    /// Display artist (ID3 preferred over the file name).
    Artist,
    /// Album (ID3).
    Album,
    /// Tempo of the active beat grid.
    Bpm,
    /// Duration.
    Duration,
    /// Year (file name preferred over ID3).
    Year,
    /// Composer (ID3).
    Composer,
    /// Track number (ID3).
    TrackNumber,
}

impl TrackSortKey {
    /// The SQL expression a sort key orders by: a canonical column or the
    /// same source-priority chain the track listing selects.
    pub open spec fn sql_spec(self) -> Seq<char> {
        match self {
            TrackSortKey::CreatedAt => "t.created_at"@,
            TrackSortKey::Title => "COALESCE(i3.title, fn.title)"@,
            TrackSortKey::Artist => "COALESCE(i3.artist, fn.artist)"@,
            TrackSortKey::Album => "i3.album"@,
            TrackSortKey::Bpm => "ag.bpm"@,
            TrackSortKey::Duration => "t.duration_ms"@,
            TrackSortKey::Year => "COALESCE(fn.year, i3.year)"@,
            TrackSortKey::Composer => "i3.composer"@,
            TrackSortKey::TrackNumber => "i3.track_number"@,
        }
    }

    /// The SQL expression of this sort key.
    pub fn sql_column(self) -> (r: &'static str)
        ensures
            r@ == self.sql_spec(),
    {
        match self {
            TrackSortKey::CreatedAt => "t.created_at",
            TrackSortKey::Title => "COALESCE(i3.title, fn.title)",
            TrackSortKey::Artist => "COALESCE(i3.artist, fn.artist)",
            TrackSortKey::Album => "i3.album",
            TrackSortKey::Bpm => "ag.bpm",
            TrackSortKey::Duration => "t.duration_ms",
            TrackSortKey::Year => "COALESCE(fn.year, i3.year)",
            TrackSortKey::Composer => "i3.composer",
            TrackSortKey::TrackNumber => "i3.track_number",
        }
    }
}

/// What `char::is_alphanumeric` says of a character (Unicode `Alphabetic`
/// or `Numeric`).
pub uninterp spec fn is_alnum(c: char) -> bool;

/// `char::is_alphanumeric`.
#[verifier::external_body]
fn char_is_alnum(c: char) -> (r: bool)
    ensures
        r == is_alnum(c),
{
    c.is_alphanumeric()
}

/// The whitespace-separated words of a text (`str::split_whitespace`).
pub open spec fn words(s: Seq<char>, cur: Seq<char>, acc: Seq<Seq<char>>) -> Seq<Seq<char>>
    decreases s.len(),
{
    if s.len() == 0 {
        if cur.len() > 0 { acc.push(cur) } else { acc }
    } else if is_ws(s[0]) {
        words(s.drop_first(), Seq::empty(), if cur.len() > 0 { acc.push(cur) } else { acc })
    } else {
        words(s.drop_first(), cur.push(s[0]), acc)
    }
}

/// A character kept in a search token.
pub open spec fn fts_char(c: char) -> bool {
    is_alnum(c) || c == '_' || c == '\'' || c == '-' || c == '.'
}

/// Not alphanumeric.
pub open spec fn not_alnum() -> spec_fn(char) -> bool {
    |c: char| !is_alnum(c)
}

/// The search term of one word: its kept characters with non-alphanumeric
/// ends trimmed, quoted and suffix-matched; `None` below two characters.
pub open spec fn fts_term(w: Seq<char>) -> Option<Seq<char>> {
    let cleaned = w.filter(|c: char| fts_char(c));
    let trimmed = trim_end_by(trim_start_by(cleaned, not_alnum()), not_alnum());
    if trimmed.len() < 2 {
        None
    } else {
        Some(seq!['"'] + trimmed.filter(|c: char| c != '"') + seq!['"', '*'])
    }
}

/// The terms of a list of words, in order.
pub open spec fn fts_terms(ws: Seq<Seq<char>>) -> Seq<Seq<char>>
    decreases ws.len(),
{
    if ws.len() == 0 {
        Seq::empty()
    } else {
        match fts_term(ws.last()) {
            Some(t) => fts_terms(ws.drop_last()).push(t),
            None => fts_terms(ws.drop_last()),
        }
    }
}

/// Pieces joined with a separator.
pub open spec fn join(parts: Seq<Seq<char>>, sep: Seq<char>) -> Seq<char>
    decreases parts.len(),
{
    if parts.len() == 0 {
        Seq::empty()
    } else if parts.len() == 1 {
        parts[0]
    } else {
        join(parts.drop_last(), sep) + sep + parts.last()
    }
}

/// The full-text MATCH expression of a free-text query: each word's term,
/// joined with ` AND `; empty when no word yields one.
pub open spec fn fts_query(q: Seq<char>) -> Seq<char> {
    join(fts_terms(words(q, Seq::empty(), Seq::empty())), " AND "@)
}

fn filter_kept(w: &Vec<char>) -> (r: Vec<char>)
    ensures
        r@ == w@.filter(|c: char| fts_char(c)),
{
    let mut r: Vec<char> = Vec::new();
    let mut k: usize = 0;
    while k < w.len()
        invariant
            0 <= k <= w@.len(),
            r@ == w@.subrange(0, k as int).filter(|c: char| fts_char(c)),
        decreases w.len() - k,
    {
        let c = w[k];
        proof {
            assert(w@.subrange(0, k + 1).drop_last() =~= w@.subrange(0, k as int));
            reveal(Seq::filter);
        }
        if char_is_alnum(c) || c == '_' || c == '\'' || c == '-' || c == '.' {
            r.push(c);
        }
        k = k + 1;
    }
    proof {
        assert(w@.subrange(0, w@.len() as int) =~= w@);
    }
    r
}

fn filter_quotes(w: &Vec<char>, from: usize, to: usize) -> (r: Vec<char>)
    requires
        from <= to <= w@.len(),
    ensures
        r@ == w@.subrange(from as int, to as int).filter(|c: char| c != '"'),
{
    let mut r: Vec<char> = Vec::new();
    let mut k: usize = from;
    proof {
        assert(w@.subrange(from as int, from as int) =~= Seq::<char>::empty());
        reveal(Seq::filter);
        assert(Seq::<char>::empty().filter(|c: char| c != '"') =~= Seq::<char>::empty());
    }
    while k < to
        invariant
            from <= k <= to,
            to <= w@.len(),
            r@ == w@.subrange(from as int, k as int).filter(|c: char| c != '"'),
        decreases to - k,
    {
        let c = w[k];
        proof {
            assert(w@.subrange(from as int, k + 1).drop_last() =~= w@.subrange(from as int, k as int));
            reveal(Seq::filter);
        }
        if c != '"' {
            r.push(c);
        }
        k = k + 1;
    }
    r
}

fn trim_non_alnum(v: &Vec<char>) -> (r: (usize, usize))
    ensures
        r.0 <= r.1 <= v@.len(),
        v@.subrange(r.0 as int, r.1 as int) == trim_end_by(trim_start_by(v@, not_alnum()), not_alnum()),
{
    let mut i: usize = 0;
    proof {
        assert(v@.subrange(0, v@.len() as int) =~= v@);
    }
    while i < v.len() && !char_is_alnum(v[i])
        invariant
            0 <= i <= v@.len(),
            trim_start_by(v@.subrange(i as int, v@.len() as int), not_alnum()) == trim_start_by(v@, not_alnum()),
        decreases v.len() - i,
    {
        assert(v@.subrange(i as int, v@.len() as int).drop_first() =~= v@.subrange(i + 1, v@.len() as int));
        i = i + 1;
    }
    proof {
        let t = v@.subrange(i as int, v@.len() as int);
        if i < v.len() {
            assert(t[0] == v@[i as int]);
        }
        assert(t == trim_start_by(v@, not_alnum()));
    }
    let mut j: usize = v.len();
    while j > i && !char_is_alnum(v[j - 1])
        invariant
            i <= j <= v@.len(),
            trim_end_by(v@.subrange(i as int, j as int), not_alnum()) == trim_end_by(
                v@.subrange(i as int, v@.len() as int),
                not_alnum(),
            ),
        decreases j - i,
    {
        assert(v@.subrange(i as int, j as int).drop_last() =~= v@.subrange(i as int, j - 1));
        j = j - 1;
    }
    proof {
        let t = v@.subrange(i as int, j as int);
        if j > i {
            assert(t.last() == v@[j - 1]);
        }
    }
    (i, j)
}

/// The search term of one word, when it has one.
fn term_of(w: &Vec<char>) -> (r: Option<Vec<char>>)
    ensures
        match fts_term(w@) {
            Some(t) => r matches Some(x) && x@ == t,
            None => r is None,
        },
{
    let cleaned = filter_kept(w);
    let (a, b) = trim_non_alnum(&cleaned);
    if b - a < 2 {
        return None;
    }
    let body = filter_quotes(&cleaned, a, b);
    let mut out: Vec<char> = Vec::new();
    out.push('"');
    let mut k: usize = 0;
    while k < body.len()
        invariant
            0 <= k <= body@.len(),
            out@ == seq!['"'] + body@.subrange(0, k as int),
        decreases body.len() - k,
    {
        out.push(body[k]);
        k = k + 1;
        proof {
            assert(out@ =~= seq!['"'] + body@.subrange(0, k as int));
        }
    }
    out.push('"');
    out.push('*');
    proof {
        assert(body@.subrange(0, body@.len() as int) =~= body@);
        assert(out@ =~= seq!['"'] + body@ + seq!['"', '*']);
    }
    Some(out)
}

/// Build the full-text MATCH expression of a free-text query: each
/// whitespace-separated word keeps its letters, digits, `_`, `'`, `-` and
/// `.`, loses non-alphanumeric ends, and becomes a quoted suffix match
/// (`"workin"*`) when at least two characters remain; the terms are joined
/// with ` AND `. Empty when no word yields a term.
pub fn build_fts_query(query: &str) -> (r: String)
    ensures
        r@ == fts_query(query@),
{
    let v = chars_of(query);
    let mut out: Vec<char> = Vec::new();
    let mut cur: Vec<char> = Vec::new();
    let ghost mut acc: Seq<Seq<char>> = Seq::empty();
    let mut k: usize = 0;
    proof {
        assert(v@.subrange(0, v@.len() as int) =~= v@);
        assert(out@ == join(fts_terms(acc), " AND "@));
    }
    while k < v.len()
        invariant
            0 <= k <= v@.len(),
            v@ == query@,
            words(v@, Seq::empty(), Seq::empty()) == words(v@.subrange(k as int, v@.len() as int), cur@, acc),
            out@ == join(fts_terms(acc), " AND "@),
        decreases v.len() - k,
    {
        let ghost rest = v@.subrange(k as int, v@.len() as int);
        proof {
            assert(rest[0] == v@[k as int]);
            assert(rest.drop_first() =~= v@.subrange(k + 1, v@.len() as int));
        }
        let c = v[k];
        if char_is_ws(c) {
            if cur.len() > 0 {
                push_term(&mut out, &cur, Ghost(acc));
                proof {
                    acc = acc.push(cur@);
                }
            }
            cur = Vec::new();
        } else {
            cur.push(c);
        }
        k = k + 1;
    }
    proof {
        assert(v@.subrange(k as int, v@.len() as int) =~= Seq::<char>::empty());
    }
    if cur.len() > 0 {
        push_term(&mut out, &cur, Ghost(acc));
        proof {
            acc = acc.push(cur@);
        }
    }
    string_of(&out)
}

fn push_term(out: &mut Vec<char>, w: &Vec<char>, Ghost(acc): Ghost<Seq<Seq<char>>>)
    requires
        old(out)@ == join(fts_terms(acc), " AND "@),
    ensures
        final(out)@ == join(fts_terms(acc.push(w@)), " AND "@),
{
    proof {
        assert(acc.push(w@).drop_last() =~= acc);
        assert(acc.push(w@).last() == w@);
    }
    match term_of(w) {
        None => {},
        Some(t) => {
            let ghost before = out@;
            if out.len() > 0 {
                out.push(' ');
                out.push('A');
                out.push('N');
                out.push('D');
                out.push(' ');
            }
            let mut k: usize = 0;
            let ghost mid = out@;
            while k < t.len()
                invariant
                    0 <= k <= t@.len(),
                    out@ == mid + t@.subrange(0, k as int),
                decreases t.len() - k,
            {
                out.push(t[k]);
                k = k + 1;
                proof {
                    assert(out@ =~= mid + t@.subrange(0, k as int));
                }
            }
            proof {
                reveal_strlit(" AND ");
                assert(t@.subrange(0, t@.len() as int) =~= t@);
                let terms = fts_terms(acc);
                let terms2 = fts_terms(acc.push(w@));
                assert(terms2 == terms.push(t@));
                assert(terms2.drop_last() =~= terms);
                if terms.len() == 0 {
                    assert(before.len() == 0);
                    assert(out@ =~= join(terms2, " AND "@));
                } else {
                    lemma_terms_nonempty(acc);
                    lemma_join_nonempty(terms);
                    assert(out@ =~= before + " AND "@ + t@);
                }
            }
        },
    }
}

proof fn lemma_terms_nonempty(ws: Seq<Seq<char>>)
    ensures
        forall|i: int| 0 <= i < fts_terms(ws).len() ==> (#[trigger] fts_terms(ws)[i]).len() > 0,
    decreases ws.len(),
{
    if ws.len() > 0 {
        lemma_terms_nonempty(ws.drop_last());
        let prev = fts_terms(ws.drop_last());
        match fts_term(ws.last()) {
            Some(t) => {
                assert forall|i: int| 0 <= i < prev.push(t).len() implies (#[trigger] prev.push(t)[i]).len() > 0 by {
                    if i < prev.len() {
                        assert(prev.push(t)[i] == prev[i]);
                    }
                }
            },
            None => {},
        }
    }
}

proof fn lemma_join_nonempty(parts: Seq<Seq<char>>)
    requires
        parts.len() > 0,
        forall|i: int| 0 <= i < parts.len() ==> parts[i].len() > 0,
    ensures
        join(parts, " AND "@).len() > 0,
    decreases parts.len(),
{
    if parts.len() > 1 {
        lemma_join_nonempty(parts.drop_last());
    }
}

/// The largest slot of a list, if any.
pub open spec fn max_slot(s: Seq<u8>) -> Option<u8>
    decreases s.len(),
{
    if s.len() == 0 {
        None
    } else {
        match max_slot(s.drop_last()) {
            Some(m) => Some(if m >= s.last() { m } else { s.last() }),
            None => Some(s.last()),
        }
    }
}

/// The first index for unslotted (memory) cues and loops: just past the
/// highest hot-cue slot (saturating), and never inside the 0 to 7 pad range,
/// so a memory marker cannot alias a pad.
pub fn memory_base(slots: &[u8]) -> (b: u8)
    ensures
        b == (match max_slot(slots@) {
            Some(m) => if m == 255 { 255u8 } else if m + 1 >= 8 { (m + 1) as u8 } else { 8u8 },
            None => 8u8,
        }),
{
    let mut max: Option<u8> = None;
    let mut k: usize = 0;
    while k < slots.len()
        invariant
            0 <= k <= slots@.len(),
            max == max_slot(slots@.subrange(0, k as int)),
        decreases slots.len() - k,
    {
        proof {
            assert(slots@.subrange(0, k + 1).drop_last() =~= slots@.subrange(0, k as int));
        }
        let s = slots[k];
        max = match max {
            Some(m) => Some(if m >= s { m } else { s }),
            None => Some(s),
        };
        k = k + 1;
    }
    proof {
        assert(slots@.subrange(0, slots@.len() as int) =~= slots@);
    }
    let next: u8 = match max {
        Some(m) => if m == 255 { 255 } else { m + 1 },
        None => 0,
    };
    if next >= 8 { next } else { 8 }
}

/// The hot-cue slots of a list of markers (`None` for a memory marker), in
/// order.
pub open spec fn hot_slots(m: Seq<Option<u8>>) -> Seq<u8>
    decreases m.len(),
{
    if m.len() == 0 {
        Seq::empty()
    } else {
        match m.last() {
            Some(s) => hot_slots(m.drop_last()).push(s),
            None => hot_slots(m.drop_last()),
        }
    }
}

/// How many memory markers come before index `i`.
pub open spec fn memory_before(m: Seq<Option<u8>>, i: int) -> nat
    decreases i,
{
    if i <= 0 || m.len() == 0 {
        0
    } else if i > m.len() {
        memory_before(m, m.len() as int)
    } else {
        memory_before(m, i - 1) + if m[i - 1] is None { 1nat } else { 0nat }
    }
}

/// The first memory index for a list of markers, as `memory_base` gives it.
pub open spec fn memory_base_of(m: Seq<Option<u8>>) -> u8 {
    match max_slot(hot_slots(m)) {
        Some(x) => if x == 255 { 255u8 } else if x + 1 >= 8 { (x + 1) as u8 } else { 8u8 },
        None => 8u8,
    }
}

/// The index marker `i` is stored under: a hot cue keeps its pad slot, a
/// memory marker takes the next index from the memory base up, saturating
/// at 255.
pub open spec fn marker_index(m: Seq<Option<u8>>, i: int) -> u8 {
    match m[i] {
        Some(s) => s,
        None => if memory_base_of(m) + memory_before(m, i) >= 255 {
            255u8
        } else {
            (memory_base_of(m) + memory_before(m, i)) as u8
        },
    }
}

/// The indices imported cues (or loops) are stored under, one per marker in
/// order: hot cues keep their pad slot; memory markers are numbered upwards
/// from `memory_base` of the hot slots, saturating at 255.
pub fn marker_indices(hotcues: &[Option<u8>]) -> (r: Vec<u8>)
    ensures
        r@.len() == hotcues@.len(),
        forall|i: int| 0 <= i < hotcues@.len() ==> r@[i] == marker_index(hotcues@, i),
{
    let mut slots: Vec<u8> = Vec::new();
    let mut k: usize = 0;
    while k < hotcues.len()
        invariant
            0 <= k <= hotcues@.len(),
            slots@ == hot_slots(hotcues@.subrange(0, k as int)),
        decreases hotcues.len() - k,
    {
        proof {
            assert(hotcues@.subrange(0, k + 1).drop_last() =~= hotcues@.subrange(0, k as int));
        }
        if let Some(s) = hotcues[k] {
            slots.push(s);
        }
        k = k + 1;
    }
    proof {
        assert(hotcues@.subrange(0, hotcues@.len() as int) =~= hotcues@);
    }
    let base = memory_base(slots.as_slice());
    let ghost b = memory_base_of(hotcues@);
    let mut next: u8 = base;
    let mut out: Vec<u8> = Vec::new();
    let mut i: usize = 0;
    while i < hotcues.len()
        invariant
            0 <= i <= hotcues@.len(),
            b == base,
            b == memory_base_of(hotcues@),
            next == (if b + memory_before(hotcues@, i as int) >= 255 { 255 } else { b + memory_before(hotcues@, i as int) }),
            out@.len() == i,
            forall|j: int| 0 <= j < i ==> out@[j] == marker_index(hotcues@, j),
        decreases hotcues.len() - i,
    {
        match hotcues[i] {
            Some(s) => {
                out.push(s);
            },
            None => {
                out.push(next);
                next = next.saturating_add(1);
            },
        }
        i = i + 1;
    }
    out
}

proof fn lemma_slot_below_max(m: Seq<Option<u8>>, j: int)
    requires
        0 <= j < m.len(),
        m[j] is Some,
    ensures
        max_slot(hot_slots(m)) matches Some(x) && m[j].unwrap() <= x,
    decreases m.len(),
{
    let h = hot_slots(m.drop_last());
    if j < m.len() - 1 {
        assert(m.drop_last()[j] == m[j]);
        lemma_slot_below_max(m.drop_last(), j);
    }
    if m.last() is Some {
        assert(hot_slots(m) == h.push(m.last().unwrap()));
        assert(hot_slots(m).drop_last() =~= h);
    }
}

proof fn lemma_memory_before_grows(m: Seq<Option<u8>>, i: int, j: int)
    requires
        0 <= i < j <= m.len(),
    ensures
        memory_before(m, j) >= memory_before(m, i) + (if m[i] is None { 1int } else { 0int }),
    decreases j - i,
{
    if j > i + 1 {
        lemma_memory_before_grows(m, i, j - 1);
    }
}

/// The index a memory marker would take without saturating.
pub open spec fn open_base(m: Seq<Option<u8>>) -> int {
    match max_slot(hot_slots(m)) {
        Some(x) => if x + 1 >= 8 { x + 1 } else { 8 },
        None => 8,
    }
}

/// A memory marker never aliases a pad or another marker: while the indices
/// stay within a byte, every memory marker's index is at least 8, above
/// every hot-cue slot, and differs from every other marker's index.
pub proof fn lemma_memory_markers_apart(m: Seq<Option<u8>>, i: int, j: int)
    requires
        0 <= i < m.len(),
        0 <= j < m.len(),
        m[i] is None,
        open_base(m) + memory_before(m, m.len() as int) <= 256,
    ensures
        marker_index(m, i) >= 8,
        m[j] matches Some(s) ==> s < marker_index(m, i),
        i != j ==> marker_index(m, i) != marker_index(m, j),
{
    lemma_memory_before_grows(m, i, m.len() as int);
    assert(memory_base_of(m) == open_base(m));
    if m[j] is Some {
        lemma_slot_below_max(m, j);
    } else if i < j {
        lemma_memory_before_grows(m, i, j);
        lemma_memory_before_grows(m, j, m.len() as int);
    } else if j < i {
        lemma_memory_before_grows(m, j, i);
    }
}

/// How many times a name occurs in a list.
pub open spec fn occurrences(s: Seq<Seq<char>>, x: Seq<char>) -> nat
    decreases s.len(),
{
    if s.len() == 0 {
        0
    } else {
        occurrences(s.drop_last(), x) + (if s.last() == x { 1nat } else { 0nat })
    }
}

/// The texts of a list of strings.
pub open spec fn texts(v: Seq<String>) -> Seq<Seq<char>> {
    v.map_values(|s: String| s@)
}

/// `x` beats `y`: more occurrences, or as many and an earlier name.
pub open spec fn beats(s: Seq<Seq<char>>, x: Seq<char>, y: Seq<char>) -> bool {
    occurrences(s, x) > occurrences(s, y) || (occurrences(s, x) == occurrences(s, y) && lex_lt(x, y))
}

fn count_of(v: &[String], x: &str) -> (n: usize)
    ensures
        n as nat == occurrences(texts(v@), x@),
        n <= v@.len(),
{
    let mut n: usize = 0;
    let mut k: usize = 0;
    while k < v.len()
        invariant
            0 <= k <= v@.len(),
            n <= k,
            n as nat == occurrences(texts(v@.subrange(0, k as int)), x@),
        decreases v.len() - k,
    {
        proof {
            assert(texts(v@.subrange(0, k + 1)).drop_last() =~= texts(v@.subrange(0, k as int)));
            assert(texts(v@.subrange(0, k + 1)).last() == v@[k as int]@);
        }
        if str_eq(v[k].as_str(), x) {
            n = n + 1;
        }
        k = k + 1;
    }
    proof {
        assert(v@.subrange(0, v@.len() as int) =~= v@);
    }
    n
}

/// Which source's cues and loops to export for a track, given the source of
/// each of its cues and loops: never a merge of several (two sets on
/// overlapping pads would collide). The DJ's own (`user`) cues win; failing
/// that, the source with the most markers, ties going to the earlier name.
pub fn preferred_source(sources: &[String]) -> (r: Option<String>)
    ensures
        (exists|i: int| 0 <= i < sources@.len() && sources@[i]@ == "user"@) ==> (r matches Some(x) && x@ == "user"@),
        sources@.len() == 0 ==> r is None,
        !(exists|i: int| 0 <= i < sources@.len() && sources@[i]@ == "user"@) && sources@.len() > 0 ==> (r matches Some(x)
            && (exists|i: int| 0 <= i < sources@.len() && sources@[i]@ == x@)
            && forall|i: int| 0 <= i < sources@.len() && sources@[i]@ != x@ ==> beats(texts(sources@), x@, #[trigger] sources@[i]@)),
{
    let ghost t = texts(sources@);
    let mut k: usize = 0;
    while k < sources.len()
        invariant
            0 <= k <= sources@.len(),
            forall|j: int| 0 <= j < k ==> sources@[j]@ != "user"@,
        decreases sources.len() - k,
    {
        if str_eq(sources[k].as_str(), "user") {
            return Some(String::from_str("user"));
        }
        k = k + 1;
    }
    if sources.len() == 0 {
        return None;
    }
    let mut best: usize = 0;
    let mut best_count = count_of(sources, sources[0].as_str());
    let mut best_chars = chars_of(sources[0].as_str());
    let mut k: usize = 1;
    while k < sources.len()
        invariant
            1 <= k <= sources@.len(),
            best < k,
            t == texts(sources@),
            best_count as nat == occurrences(t, sources@[best as int]@),
            best_chars@ == sources@[best as int]@,
            forall|j: int| 0 <= j < k && sources@[j]@ != sources@[best as int]@ ==> beats(t, sources@[best as int]@, #[trigger] sources@[j]@),
        decreases sources.len() - k,
    {
        let c = count_of(sources, sources[k].as_str());
        let name = chars_of(sources[k].as_str());
        let better = c > best_count || (c == best_count && lex_less(&name, &best_chars));
        if better {
            proof {
                let b = sources@[best as int]@;
                let n = sources@[k as int]@;
                assert forall|j: int| 0 <= j < k + 1 && sources@[j]@ != n implies beats(t, n, #[trigger] sources@[j]@) by {
                    let y = sources@[j]@;
                    lemma_lex_lt_strict(n, b, y);
                    lemma_lex_lt_strict(b, y, b);
                    if y == b {
                    } else {
                        assert(beats(t, b, y));
                    }
                }
            }
            best = k;
            best_count = c;
            best_chars = name;
        } else {
            proof {
                let b = sources@[best as int]@;
                let n = sources@[k as int]@;
                if n != b {
                    lemma_lex_lt_strict(b, n, b);
                    lemma_lex_total(b, n);
                    assert(beats(t, b, n));
                }
            }
        }
        k = k + 1;
    }
    Some(sources[best].clone())
}

/// Two different names are ordered one way or the other.
pub proof fn lemma_lex_total(a: Seq<char>, b: Seq<char>)
    ensures
        a != b ==> lex_lt(a, b) || lex_lt(b, a),
    decreases a.len(),
{
    if a.len() > 0 && b.len() > 0 && a[0] == b[0] {
        lemma_lex_total(a.drop_first(), b.drop_first());
        if a.drop_first() == b.drop_first() {
            assert(a =~= seq![a[0]] + a.drop_first());
            assert(b =~= seq![b[0]] + b.drop_first());
        }
    } else if a.len() == 0 && b.len() == 0 {
        assert(a =~= b);
    }
}

} // verus!
