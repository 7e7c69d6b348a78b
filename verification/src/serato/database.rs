//! Serato `database V2` + `Subcrates/*.crate` binary parser.
//!
//! Both files share one container format, a flat sequence of tags, each
//!
//! ```text
//! [4 bytes ASCII tag type][4 bytes big-endian u32 length][length bytes payload]
//! ```
//!
//! `database V2` is `vrsn` followed by one `otrk` per track; each `otrk`
//! payload is itself a tag sequence (`pfil` path, `tsng`/`tart`/`talb`/...
//! text). A `.crate` is `vrsn` + sort/column tags + one `otrk` per member,
//! each carrying a `ptrk` (track path). Text payloads are UTF-16 big-endian;
//! paths are relative to the volume root. Truncated or garbled input ends the
//! scan; an unreadable field is simply absent.

use vstd::prelude::*;
use crate::text::{find_from, find_pat, chars_of, copy_range, trim, trim_start_by, trim_end_by, utf16_lossy, decode_utf16_lossy, string_of, trim_bounds};

verus! {

/// Big-endian `u32` at `at`.
pub open spec fn be32(s: Seq<u8>, at: int) -> int {
    s[at] as int * 16777216 + s[at + 1] as int * 65536 + s[at + 2] as int * 256 + s[at + 3] as int
}

/// `u32::from_be_bytes` of `s[at..at + 4]`.
pub fn read_be_u32(s: &[u8], at: usize) -> (v: u32)
    requires
        at + 4 <= s@.len(),
    ensures
        v as int == be32(s@, at as int),
{
    (s[at] as u32) * 16777216 + (s[at + 1] as u32) * 65536 + (s[at + 2] as u32) * 256 + (s[at
        + 3] as u32)
}

/// The complete tags of a container from byte `pos` on: `(type, payload)`
/// pairs, stopping at the first header or payload that runs past the end.
pub open spec fn tags_from(data: Seq<u8>, pos: int) -> Seq<(Seq<u8>, Seq<u8>)>
    decreases data.len() - pos,
{
    if pos < 0 || pos + 8 > data.len() {
        Seq::empty()
    } else {
        let end = pos + 8 + be32(data, pos + 4);
        if end > data.len() {
            Seq::empty()
        } else {
            seq![(data.subrange(pos, pos + 4), data.subrange(pos + 8, end))] + tags_from(data, end)
        }
    }
}

/// The tags of a whole container.
pub open spec fn tags(data: Seq<u8>) -> Seq<(Seq<u8>, Seq<u8>)> {
    tags_from(data, 0)
}

/// Walks a Serato tag container; truncation ends the walk cleanly.
pub struct TagReader<'a> {
    data: &'a [u8],
    pos: usize,
}

impl<'a> TagReader<'a> {
    /// The tags not yet read.
    pub closed spec fn remaining(&self) -> Seq<(Seq<u8>, Seq<u8>)> {
        tags_from(self.data@, self.pos as int)
    }

    pub closed spec fn data(&self) -> Seq<u8> {
        self.data@
    }

    pub closed spec fn wf(&self) -> bool {
        self.pos <= self.data@.len()
    }

    /// A reader at the start of `data`.
    pub fn new(data: &'a [u8]) -> (r: Self)
        ensures
            r.wf(),
            r.data() == data@,
            r.remaining() == tags(data@),
    {
        TagReader { data, pos: 0 }
    }

    /// The next complete tag, as the position of its type and the bounds of
    /// its payload in the data.
    pub fn next_tag(&mut self) -> (r: Option<(usize, usize, usize)>)
        requires
            old(self).wf(),
        ensures
            final(self).wf(),
            final(self).data() == old(self).data(),
            old(self).remaining().len() == 0 ==> r is None,
            r is None ==> final(self).remaining() == old(self).remaining(),
            old(self).remaining().len() > 0 ==> (r matches Some((k, s, e)) && k + 4 <= s <= e
                <= old(self).data().len() && old(self).data().subrange(k as int, k + 4)
                == old(self).remaining()[0].0 && old(self).data().subrange(s as int, e as int)
                == old(self).remaining()[0].1 && final(self).remaining()
                == old(self).remaining().drop_first()),
    {
        if self.data.len() < 8 || self.pos > self.data.len() - 8 {
            return None;
        }
        let len = read_be_u32(self.data, self.pos + 4) as usize;
        let start = self.pos + 8;
        if len > self.data.len() - start {
            return None;
        }
        let end = start + len;
        let k = self.pos;
        self.pos = end;
        proof {
            let d = self.data@;
            let t = tags_from(d, k as int);
            assert(t == seq![(d.subrange(k as int, k + 4), d.subrange(start as int, end as int))]
                + tags_from(d, end as int));
            assert(t.drop_first() =~= tags_from(d, end as int));
        }
        Some((k, start, end))
    }
}

/// Four bytes of `data` at `at` spell `[a, b, c, d]`.
pub fn kind_is(data: &[u8], at: usize, a: u8, b: u8, c: u8, d: u8) -> (r: bool)
    requires
        at + 4 <= data@.len(),
    ensures
        r == (data@.subrange(at as int, at + 4) == seq![a, b, c, d]),
{
    let r = data[at] == a && data[at + 1] == b && data[at + 2] == c && data[at + 3] == d;
    proof {
        if r {
            assert(data@.subrange(at as int, at + 4) =~= seq![a, b, c, d]);
        } else {
            let s = data@.subrange(at as int, at + 4);
            assert(s[0] == data@[at as int] && s[1] == data@[at + 1] && s[2] == data@[at + 2]
                && s[3] == data@[at + 3]);
        }
    }
    r
}

/// Big-endian 16-bit code units of a payload (a trailing odd byte is
/// ignored, as `chunks_exact(2)` does).
pub open spec fn be16_units(p: Seq<u8>) -> Seq<u16> {
    Seq::new((p.len() / 2) as nat, |i: int| (p[2 * i] as int * 256 + p[2 * i + 1] as int) as u16)
}

pub open spec fn is_nul(c: char) -> bool {
    c == '\0'
}

/// A UTF-16BE text payload: decoded (unpaired surrogates become U+FFFD),
/// NULs trimmed from both ends, then white space trimmed; `None` when
/// nothing is left, so absent and blank fields read alike.
pub open spec fn text_of(p: Seq<u8>) -> Option<Seq<char>> {
    let d = trim(trim_end_by(trim_start_by(utf16_lossy(be16_units(p)), |c: char| is_nul(c)), |c: char| is_nul(c)));
    if d.len() == 0 {
        None
    } else {
        Some(d)
    }
}

pub open spec fn opt_view(o: Option<String>) -> Option<Seq<char>> {
    match o {
        Some(s) => Some(s@),
        None => None,
    }
}

/// Decode the UTF-16BE text payload `data[s..e]`.
pub fn text(data: &[u8], s: usize, e: usize) -> (r: Option<String>)
    requires
        s <= e <= data@.len(),
    ensures
        opt_view(r) == text_of(data@.subrange(s as int, e as int)),
{
    let ghost p = data@.subrange(s as int, e as int);
    let n = (e - s) / 2;
    let mut units: Vec<u16> = Vec::new();
    let mut i: usize = 0;
    while i < n
        invariant
            n == (e - s) / 2,
            s <= e <= data@.len(),
            p == data@.subrange(s as int, e as int),
            0 <= i <= n,
            units@ =~= be16_units(p).take(i as int),
        decreases n - i,
    {
        let hi = data[s + 2 * i] as u16;
        let lo = data[s + 2 * i + 1] as u16;
        units.push(hi * 256 + lo);
        proof {
            assert(p[2 * i as int] == data@[s + 2 * i]);
            assert(p[2 * i + 1] == data@[s + 2 * i + 1]);
            assert(units@ =~= be16_units(p).take(i + 1));
        }
        i = i + 1;
    }
    proof {
        assert(be16_units(p).take(n as int) =~= be16_units(p));
    }
    let chars = decode_utf16_lossy(units.as_slice());
    let mut a: usize = 0;
    let mut b: usize = chars.len();
    let ghost full = chars@;
    proof {
        assert(chars@.subrange(0, b as int) =~= full);
    }
    while a < b && chars[a] == '\0'
        invariant
            0 <= a <= b == chars@.len(),
            full == chars@,
            trim_start_by(chars@.subrange(a as int, b as int), |c: char| is_nul(c)) == trim_start_by(full, |c: char| is_nul(c)),
        decreases b - a,
    {
        proof {
            let t = chars@.subrange(a as int, b as int);
            assert(t[0] == chars@[a as int]);
            assert(t.drop_first() =~= chars@.subrange(a + 1, b as int));
            if a == 0 {
                assert(t =~= full);
            }
        }
        a = a + 1;
    }
    proof {
        let t = chars@.subrange(a as int, b as int);
        if a < b {
            assert(t[0] == chars@[a as int]);
        }
        if a == 0 {
            assert(t =~= full);
        }
    }
    let ghost started = chars@.subrange(a as int, b as int);
    let ghost b0 = b;
    while b > a && chars[b - 1] == '\0'
        invariant
            0 <= a <= b <= b0 <= chars@.len(),
            trim_end_by(chars@.subrange(a as int, b as int), |c: char| is_nul(c)) == trim_end_by(started, |c: char| is_nul(c)),
        decreases b - a,
    {
        proof {
            let t = chars@.subrange(a as int, b as int);
            assert(t.last() == chars@[b - 1]);
            assert(t.drop_last() =~= chars@.subrange(a as int, b - 1));
        }
        b = b - 1;
    }
    proof {
        let t = chars@.subrange(a as int, b as int);
        if b > a {
            assert(t.last() == chars@[b - 1]);
        }
    }
    let (x, y) = trim_bounds(chars.as_slice(), a, b);
    if x == y {
        None
    } else {
        let mut out: Vec<char> = Vec::new();
        let mut k = x;
        while k < y
            invariant
                x <= k <= y <= chars@.len(),
                out@ == chars@.subrange(x as int, k as int),
            decreases y - k,
        {
            out.push(chars[k]);
            k = k + 1;
            proof {
                assert(out@ =~= chars@.subrange(x as int, k as int));
            }
        }
        Some(string_of(out.as_slice()))
    }
}

/// The payload of the last tag of type `kind`.
pub open spec fn last_payload(ts: Seq<(Seq<u8>, Seq<u8>)>, kind: Seq<u8>) -> Option<Seq<u8>>
    decreases ts.len(),
{
    if ts.len() == 0 {
        None
    } else if ts.last().0 == kind {
        Some(ts.last().1)
    } else {
        last_payload(ts.drop_last(), kind)
    }
}

/// The text of the last tag of type `kind` (a later tag overwrites an
/// earlier one, even with an empty value).
pub open spec fn field_of(ts: Seq<(Seq<u8>, Seq<u8>)>, kind: Seq<u8>) -> Option<Seq<char>> {
    match last_payload(ts, kind) {
        Some(p) => text_of(p),
        None => None,
    }
}

pub open spec fn kind_pfil() -> Seq<u8> {
    seq![112u8, 102u8, 105u8, 108u8]
}

pub open spec fn kind_ttyp() -> Seq<u8> {
    seq![116u8, 116u8, 121u8, 112u8]
}

pub open spec fn kind_tsng() -> Seq<u8> {
    seq![116u8, 115u8, 110u8, 103u8]
}

pub open spec fn kind_tart() -> Seq<u8> {
    seq![116u8, 97u8, 114u8, 116u8]
}

pub open spec fn kind_talb() -> Seq<u8> {
    seq![116u8, 97u8, 108u8, 98u8]
}

pub open spec fn kind_tgen() -> Seq<u8> {
    seq![116u8, 103u8, 101u8, 110u8]
}

pub open spec fn kind_tcmt() -> Seq<u8> {
    seq![116u8, 99u8, 109u8, 116u8]
}

pub open spec fn kind_tcom() -> Seq<u8> {
    seq![116u8, 99u8, 111u8, 109u8]
}

pub open spec fn kind_tgrp() -> Seq<u8> {
    seq![116u8, 103u8, 114u8, 112u8]
}

pub open spec fn kind_tlbl() -> Seq<u8> {
    seq![116u8, 108u8, 98u8, 108u8]
}

pub open spec fn kind_tkey() -> Seq<u8> {
    seq![116u8, 107u8, 101u8, 121u8]
}

pub open spec fn kind_tbpm() -> Seq<u8> {
    seq![116u8, 98u8, 112u8, 109u8]
}

pub open spec fn kind_otrk() -> Seq<u8> {
    seq![111u8, 116u8, 114u8, 107u8]
}

pub open spec fn kind_ptrk() -> Seq<u8> {
    seq![112u8, 116u8, 114u8, 107u8]
}

/// One track row from `database V2`. Only the fields mapped into the
/// `serato` metadata source are pulled out; unknown tags are skipped.
#[derive(Debug, Default, Clone, PartialEq)]
pub struct SeratoEntry {
    /// `pfil`: file path relative to the volume root (no leading slash).
    pub file_path: Option<String>,
    /// `ttyp`: file type / extension (e.g. `mp3`).
    pub file_type: Option<String>,
    /// `tsng`: title.
    pub title: Option<String>,
    /// `tart`: artist.
    pub artist: Option<String>,
    /// `talb`: album.
    pub album: Option<String>,
    /// `tgen`: genre.
    pub genre: Option<String>,
    /// `tcmt`: comment.
    pub comment: Option<String>,
    /// `tcom`: composer.
    pub composer: Option<String>,
    /// `tgrp`: grouping.
    pub grouping: Option<String>,
    /// `tlbl`: record label / publisher.
    pub label: Option<String>,
    /// `tkey`: musical key, in whatever notation Serato stored.
    pub key: Option<String>,
    /// `tbpm`: the stored tempo text (the importer reads it as a number and keeps it when positive).
    pub bpm_text: Option<String>,
}

/// Spec-level view of a [`SeratoEntry`].
pub struct EntryFields {
    pub file_path: Option<Seq<char>>,
    pub file_type: Option<Seq<char>>,
    pub title: Option<Seq<char>>,
    pub artist: Option<Seq<char>>,
    pub album: Option<Seq<char>>,
    pub genre: Option<Seq<char>>,
    pub comment: Option<Seq<char>>,
    pub composer: Option<Seq<char>>,
    pub grouping: Option<Seq<char>>,
    pub label: Option<Seq<char>>,
    pub key: Option<Seq<char>>,
    pub bpm_text: Option<Seq<char>>,
}

impl View for SeratoEntry {
    type V = EntryFields;

    open spec fn view(&self) -> EntryFields {
        EntryFields {
            file_path: opt_view(self.file_path),
            file_type: opt_view(self.file_type),
            title: opt_view(self.title),
            artist: opt_view(self.artist),
            album: opt_view(self.album),
            genre: opt_view(self.genre),
            comment: opt_view(self.comment),
            composer: opt_view(self.composer),
            grouping: opt_view(self.grouping),
            label: opt_view(self.label),
            key: opt_view(self.key),
            bpm_text: opt_view(self.bpm_text),
        }
    }
}

/// The entry an `otrk` payload describes.
pub open spec fn entry_of(payload: Seq<u8>) -> EntryFields {
    let ts = tags(payload);
    EntryFields {
        file_path: field_of(ts, kind_pfil()),
        file_type: field_of(ts, kind_ttyp()),
        title: field_of(ts, kind_tsng()),
        artist: field_of(ts, kind_tart()),
        album: field_of(ts, kind_talb()),
        genre: field_of(ts, kind_tgen()),
        comment: field_of(ts, kind_tcmt()),
        composer: field_of(ts, kind_tcom()),
        grouping: field_of(ts, kind_tgrp()),
        label: field_of(ts, kind_tlbl()),
        key: field_of(ts, kind_tkey()),
        bpm_text: field_of(ts, kind_tbpm()),
    }
}

/// An entry's comment is the text of its `tcmt` tag and its composer the
/// text of its `tcom` tag: an `otrk` whose only tag is a `tcmt` tag reads
/// with that tag's text as comment and no composer, and one whose only tag
/// is a `tcom` tag reads with that text as composer and no comment.
pub proof fn lemma_comment_and_composer_tags(payload: Seq<u8>, p: Seq<u8>)
    ensures
        tags(payload) == seq![(seq![116u8, 99u8, 109u8, 116u8], p)] ==> entry_of(payload).comment
            == text_of(p) && entry_of(payload).composer is None,
        tags(payload) == seq![(seq![116u8, 99u8, 111u8, 109u8], p)] ==> entry_of(payload).composer
            == text_of(p) && entry_of(payload).comment is None,
{
    let cmt = seq![116u8, 99u8, 109u8, 116u8];
    let com = seq![116u8, 99u8, 111u8, 109u8];
    assert(cmt =~= kind_tcmt());
    assert(com =~= kind_tcom());
    assert(cmt != com) by {
        assert(cmt[2] != com[2]);
    }
    let ts = tags(payload);
    if ts == seq![(cmt, p)] || ts == seq![(com, p)] {
        assert(ts.drop_last() =~= Seq::<(Seq<u8>, Seq<u8>)>::empty());
        assert(last_payload(ts.drop_last(), cmt) is None);
        assert(last_payload(ts.drop_last(), com) is None);
    }
}

/// Fold one `otrk` payload's nested tags into a [`SeratoEntry`].
fn parse_track(data: &[u8], s: usize, e: usize) -> (r: SeratoEntry)
    requires
        s <= e <= data@.len(),
    ensures
        r@ == entry_of(data@.subrange(s as int, e as int)),
{
    let ghost payload = data@.subrange(s as int, e as int);
    let mut entry = SeratoEntry {
        file_path: None,
        file_type: None,
        title: None,
        artist: None,
        album: None,
        genre: None,
        comment: None,
        composer: None,
        grouping: None,
        label: None,
        key: None,
        bpm_text: None,
    };
    let p = copy_bytes(data, s, e);
    let mut reader = TagReader::new(p.as_slice());
    let ghost mut done: Seq<(Seq<u8>, Seq<u8>)> = Seq::empty();
    loop
        invariant
            reader.wf(),
            reader.data() == payload,
            p@ == payload,
            tags(payload) == done + reader.remaining(),
            opt_view(entry.file_path) == field_of(done, kind_pfil()),
            opt_view(entry.file_type) == field_of(done, kind_ttyp()),
            opt_view(entry.title) == field_of(done, kind_tsng()),
            opt_view(entry.artist) == field_of(done, kind_tart()),
            opt_view(entry.album) == field_of(done, kind_talb()),
            opt_view(entry.genre) == field_of(done, kind_tgen()),
            opt_view(entry.comment) == field_of(done, kind_tcmt()),
            opt_view(entry.composer) == field_of(done, kind_tcom()),
            opt_view(entry.grouping) == field_of(done, kind_tgrp()),
            opt_view(entry.label) == field_of(done, kind_tlbl()),
            opt_view(entry.key) == field_of(done, kind_tkey()),
            opt_view(entry.bpm_text) == field_of(done, kind_tbpm()),
        ensures
            done == tags(payload),
        decreases reader.remaining().len(),
    {
        let ghost before = reader.remaining();
        match reader.next_tag() {
            Some((k, a, b)) => {
                let ghost prev = done;
                proof {
                    done = done.push(before[0]);
                    assert(tags(payload) =~= done + reader.remaining());
                    assert(done.drop_last() =~= prev);
                    assert(done.last() == before[0]);
                }

                if kind_is(p.as_slice(), k, 112u8, 102u8, 105u8, 108u8) {
                    entry.file_path = text(p.as_slice(), a, b);
                } else if kind_is(p.as_slice(), k, 116u8, 116u8, 121u8, 112u8) {
                    entry.file_type = text(p.as_slice(), a, b);
                } else if kind_is(p.as_slice(), k, 116u8, 115u8, 110u8, 103u8) {
                    entry.title = text(p.as_slice(), a, b);
                } else if kind_is(p.as_slice(), k, 116u8, 97u8, 114u8, 116u8) {
                    entry.artist = text(p.as_slice(), a, b);
                } else if kind_is(p.as_slice(), k, 116u8, 97u8, 108u8, 98u8) {
                    entry.album = text(p.as_slice(), a, b);
                } else if kind_is(p.as_slice(), k, 116u8, 103u8, 101u8, 110u8) {
                    entry.genre = text(p.as_slice(), a, b);
                } else if kind_is(p.as_slice(), k, 116u8, 99u8, 109u8, 116u8) {
                    entry.comment = text(p.as_slice(), a, b);
                } else if kind_is(p.as_slice(), k, 116u8, 99u8, 111u8, 109u8) {
                    entry.composer = text(p.as_slice(), a, b);
                } else if kind_is(p.as_slice(), k, 116u8, 103u8, 114u8, 112u8) {
                    entry.grouping = text(p.as_slice(), a, b);
                } else if kind_is(p.as_slice(), k, 116u8, 108u8, 98u8, 108u8) {
                    entry.label = text(p.as_slice(), a, b);
                } else if kind_is(p.as_slice(), k, 116u8, 107u8, 101u8, 121u8) {
                    entry.key = text(p.as_slice(), a, b);
                } else if kind_is(p.as_slice(), k, 116u8, 98u8, 112u8, 109u8) {
                    entry.bpm_text = text(p.as_slice(), a, b);
                }
            },
            None => {
                proof {
                    assert(reader.remaining().len() == 0);
                    assert(done + reader.remaining() =~= done);
                }
                break;
            },
        }
    }
    entry
}

/// A copy of `data[s..e]`.
pub fn copy_bytes(data: &[u8], s: usize, e: usize) -> (r: Vec<u8>)
    requires
        s <= e <= data@.len(),
    ensures
        r@ == data@.subrange(s as int, e as int),
{
    let mut r: Vec<u8> = Vec::new();
    let mut i = s;
    while i < e
        invariant
            s <= i <= e <= data@.len(),
            r@ == data@.subrange(s as int, i as int),
        decreases e - i,
    {
        r.push(data[i]);
        i = i + 1;
        proof {
            assert(r@ =~= data@.subrange(s as int, i as int));
        }
    }
    r
}

pub open spec fn entries_of(ts: Seq<(Seq<u8>, Seq<u8>)>) -> Seq<EntryFields>
    decreases ts.len(),
{
    if ts.len() == 0 {
        Seq::empty()
    } else if ts.last().0 == kind_otrk() {
        entries_of(ts.drop_last()).push(entry_of(ts.last().1))
    } else {
        entries_of(ts.drop_last())
    }
}

/// Parse a `database V2` byte buffer into its track rows, in file order:
/// one entry per complete top-level `otrk` tag.
pub fn parse_database_v2(data: &[u8]) -> (r: Vec<SeratoEntry>)
    ensures
        r@.map_values(|e: SeratoEntry| e@) == entries_of(tags(data@)),
{
    let mut reader = TagReader::new(data);
    let mut entries: Vec<SeratoEntry> = Vec::new();
    let ghost mut done: Seq<(Seq<u8>, Seq<u8>)> = Seq::empty();
    loop
        invariant
            reader.wf(),
            reader.data() == data@,
            tags(data@) == done + reader.remaining(),
            entries@.map_values(|e: SeratoEntry| e@) == entries_of(done),
        ensures
            done == tags(data@),
        decreases reader.remaining().len(),
    {
        let ghost before = reader.remaining();
        match reader.next_tag() {
            Some((k, a, b)) => {
                let ghost prev = done;
                proof {
                    done = done.push(before[0]);
                    assert(tags(data@) =~= done + reader.remaining());
                    assert(done.drop_last() =~= prev);
                    assert(done.last() == before[0]);
                }
                if kind_is(data, k, 111u8, 116u8, 114u8, 107u8) {
                    let e = parse_track(data, a, b);
                    let ghost prev = entries@;
                    entries.push(e);
                    proof {
                        assert(entries@.map_values(|e: SeratoEntry| e@) =~= prev.map_values(
                            |e: SeratoEntry| e@,
                        ).push(e@));
                    }
                }
            },
            None => {
                proof {
                    assert(reader.remaining().len() == 0);
                    assert(done + reader.remaining() =~= done);
                }
                break;
            },
        }
    }
    entries
}

/// The member paths of one crate `otrk` payload: the non-empty `ptrk` texts.
pub open spec fn crate_paths_in(ts: Seq<(Seq<u8>, Seq<u8>)>) -> Seq<Seq<char>>
    decreases ts.len(),
{
    if ts.len() == 0 {
        Seq::empty()
    } else if ts.last().0 == kind_ptrk() && text_of(ts.last().1) is Some {
        crate_paths_in(ts.drop_last()).push(text_of(ts.last().1).unwrap())
    } else {
        crate_paths_in(ts.drop_last())
    }
}

/// The member paths of a whole `.crate`, in crate order.
pub open spec fn crate_paths(ts: Seq<(Seq<u8>, Seq<u8>)>) -> Seq<Seq<char>>
    decreases ts.len(),
{
    if ts.len() == 0 {
        Seq::empty()
    } else if ts.last().0 == kind_otrk() {
        crate_paths(ts.drop_last()) + crate_paths_in(tags(ts.last().1))
    } else {
        crate_paths(ts.drop_last())
    }
}

pub open spec fn strings_view(v: Seq<String>) -> Seq<Seq<char>> {
    v.map_values(|s: String| s@)
}

/// Parse a `Subcrates/*.crate` byte buffer into its member track paths
/// (each relative to the volume root), in crate order.
pub fn parse_crate(data: &[u8]) -> (r: Vec<String>)
    ensures
        strings_view(r@) == crate_paths(tags(data@)),
{
    let mut reader = TagReader::new(data);
    let mut paths: Vec<String> = Vec::new();
    let ghost mut done: Seq<(Seq<u8>, Seq<u8>)> = Seq::empty();
    loop
        invariant
            reader.wf(),
            reader.data() == data@,
            tags(data@) == done + reader.remaining(),
            strings_view(paths@) == crate_paths(done),
        ensures
            done == tags(data@),
        decreases reader.remaining().len(),
    {
        let ghost before = reader.remaining();
        match reader.next_tag() {
            Some((k, a, b)) => {
                let ghost prev = done;
                proof {
                    done = done.push(before[0]);
                    assert(tags(data@) =~= done + reader.remaining());
                    assert(done.drop_last() =~= prev);
                    assert(done.last() == before[0]);
                }
                if kind_is(data, k, 111u8, 116u8, 114u8, 107u8) {
                    let payload = copy_bytes(data, a, b);
                    let mut inner = TagReader::new(payload.as_slice());
                    let ghost mut idone: Seq<(Seq<u8>, Seq<u8>)> = Seq::empty();
                    let ghost base = strings_view(paths@);
                    assert(crate_paths_in(idone) =~= Seq::<Seq<char>>::empty());
                    assert(base + crate_paths_in(idone) =~= base);
                    loop
                        invariant
                            inner.wf(),
                            inner.data() == payload@,
                            tags(payload@) == idone + inner.remaining(),
                            strings_view(paths@) == base + crate_paths_in(idone),
                        ensures
                            idone == tags(payload@),
                        decreases inner.remaining().len(),
                    {
                        let ghost ibefore = inner.remaining();
                        match inner.next_tag() {
                            Some((ik, ia, ib)) => {
                                let ghost iprev = idone;
                                proof {
                                    idone = idone.push(ibefore[0]);
                                    assert(tags(payload@) =~= idone + inner.remaining());
                                    assert(idone.drop_last() =~= iprev);
                                    assert(idone.last() == ibefore[0]);
                                }
                                if kind_is(payload.as_slice(), ik, 112u8, 116u8, 114u8, 107u8) {
                                    match text(payload.as_slice(), ia, ib) {
                                        Some(t) => {
                                            let ghost pv = strings_view(paths@);
                                            paths.push(t);
                                            proof {
                                                assert(strings_view(paths@) =~= pv.push(t@));
                                                assert(base + crate_paths_in(idone) =~= (base
                                                    + crate_paths_in(iprev)).push(t@));
                                            }
                                        },
                                        None => {},
                                    }
                                }
                            },
                            None => {
                                proof {
                                    assert(idone + inner.remaining() =~= idone);
                                }
                                break;
                            },
                        }
                    }
                }
            },
            None => {
                proof {
                    assert(done + reader.remaining() =~= done);
                }
                break;
            },
        }
    }
    paths
}

/// `s` cut at every occurrence of `p`, scanning left to right
/// (`str::split` with a pattern).
pub open spec fn split_pat(s: Seq<char>, p: Seq<char>) -> Seq<Seq<char>>
    decreases s.len(),
{
    if p.len() == 0 {
        seq![s]
    } else {
        match find_from(s, p, 0) {
            Some(i) => if 0 <= i && i + p.len() <= s.len() {
                seq![s.take(i)] + split_pat(s.skip(i + p.len()), p)
            } else {
                seq![s]
            },
            None => seq![s],
        }
    }
}

/// The trimmed, non-empty pieces of `pieces`, in order.
pub open spec fn nonempty_trimmed(pieces: Seq<Seq<char>>) -> Seq<Seq<char>>
    decreases pieces.len(),
{
    if pieces.len() == 0 {
        Seq::empty()
    } else {
        let t = trim(pieces[0]);
        if t.len() == 0 {
            nonempty_trimmed(pieces.drop_first())
        } else {
            seq![t] + nonempty_trimmed(pieces.drop_first())
        }
    }
}

/// Split a `.crate` filename stem into its nested name components: Serato
/// encodes folder nesting with `%%` (`Hip Hop%%90s` is `["Hip Hop", "90s"]`);
/// pieces are trimmed and empty ones dropped.
pub fn crate_name_components(stem: &str) -> (r: Vec<String>)
    ensures
        strings_view(r@) == nonempty_trimmed(split_pat(stem@, "%%"@)),
{
    let v = chars_of(stem);
    let sep = vec!['%', '%'];
    proof {
        reveal_strlit("%%");
        assert(sep@ =~= "%%"@);
    }
    let mut out: Vec<String> = Vec::new();
    let mut pos: usize = 0;
    proof {
        assert(v@.skip(0) =~= v@);
        assert(strings_view(out@) + nonempty_trimmed(split_pat(v@.skip(0), sep@)) =~= nonempty_trimmed(split_pat(v@, sep@)));
    }
    loop
        invariant
            v@ == stem@,
            sep@ == "%%"@,
            sep@.len() == 2,
            pos <= v@.len(),
            nonempty_trimmed(split_pat(v@, sep@)) == strings_view(out@) + nonempty_trimmed(
                split_pat(v@.skip(pos as int), sep@),
            ),
        decreases v@.len() - pos,
    {
        let ghost rest = v@.skip(pos as int);
        let found = find_pat(v.as_slice(), sep.as_slice(), pos);
        let end = match found {
            Some(k) => k,
            None => v.len(),
        };
        proof {
            crate::text::lemma_find_from_shift(v@, sep@, pos as int);
        }
        let (a, b) = trim_bounds(v.as_slice(), pos, end);
        let ghost pv = strings_view(out@);
        if a < b {
            let piece = copy_range(v.as_slice(), a, b);
            out.push(string_of(piece.as_slice()));
            proof {
                assert(strings_view(out@) =~= pv.push(v@.subrange(a as int, b as int)));
            }
        }
        proof {
            assert(rest.take(end - pos) =~= v@.subrange(pos as int, end as int));
        }
        match found {
            Some(k) => {
                proof {
                    assert(rest.skip(k - pos + 2) =~= v@.skip(k + 2));
                    assert(split_pat(rest, sep@) == seq![rest.take(k - pos)] + split_pat(rest.skip(k - pos + 2), sep@));
                    let pieces = split_pat(rest, sep@);
                    assert(pieces[0] == rest.take(k - pos));
                    assert(pieces.drop_first() =~= split_pat(v@.skip(k + 2), sep@));
                    if a < b {
                        assert(strings_view(out@) + nonempty_trimmed(split_pat(v@.skip(k + 2), sep@)) =~= pv + nonempty_trimmed(pieces));
                    } else {
                        assert(pv + nonempty_trimmed(split_pat(v@.skip(k + 2), sep@)) =~= pv + nonempty_trimmed(pieces));
                    }
                }
                assert(k + 2 <= v@.len());
                assert(k + 2 <= v.len());
                let next: usize = k + 2;
                pos = next;
            },
            None => {
                proof {
                    assert(split_pat(rest, sep@) == seq![rest]);
                    assert(rest.take(end - pos) =~= rest);
                    let pieces = split_pat(rest, sep@);
                    assert(pieces.drop_first() =~= Seq::<Seq<char>>::empty());
                    assert(nonempty_trimmed(pieces.drop_first()) =~= Seq::<Seq<char>>::empty());
                    if a < b {
                        assert(strings_view(out@) =~= pv + nonempty_trimmed(pieces));
                    } else {
                        assert(pv =~= pv + nonempty_trimmed(pieces));
                    }
                }
                return out;
            },
        }
    }
}

} // verus!
